//! What the listing of a ROM says, and what its command line asks for.
use crate::bytes::le_at;
use crate::tools::ffs::{files_of, sections_of, FfsFile, Section, Volume};
use crate::tools::rompatch::{
    block_size_from, file_line, files_text, parsed, parsed_from, section_lines, sections_text,
    volume_line, volumes_text, ArgumentError, ArgumentsView, RomError, TYPE_GUID_DEFINED,
};
use vstd::prelude::*;
use vstd::string::*;

verus! {

proof fn lemma_sections_text(d: Seq<u8>, sections: Seq<Section>, i: int)
    requires
        0 <= i < sections.len(),
        sections_text(d, sections) is Ok,
    ensures
        ({
            let all = sections_text(d, sections)->Ok_0;
            let front = sections_text(d, sections.take(i));
            let upto = sections_text(d, sections.take(i + 1));
            &&& front is Ok
            &&& upto == Ok::<Seq<char>, RomError>(front->Ok_0 + section_lines(d, sections[i]))
            &&& upto->Ok_0.is_prefix_of(all)
            &&& sections[i].section_type == TYPE_GUID_DEFINED ==> sections[i].offset + 20 <= d.len()
        }),
    decreases sections.len(),
{
    let n = sections.len() as int;
    assert(sections.take(n) =~= sections);
    assert(sections.take(n - 1) =~= sections.drop_last());
    if i < n - 1 {
        lemma_sections_text(d, sections.drop_last(), i);
        assert(sections.drop_last().take(i) =~= sections.take(i));
        assert(sections.drop_last().take(i + 1) =~= sections.take(i + 1));
        assert(sections.drop_last()[i] == sections[i]);
    }
}

/// Every section has its line in a listing, behind the lines of the sections before it.
pub proof fn law_every_section_has_its_line(d: Seq<u8>, sections: Seq<Section>, i: int)
    requires
        0 <= i < sections.len(),
        sections_text(d, sections) is Ok,
    ensures
        ({
            let before = sections_text(d, sections.take(i))->Ok_0;
            (before + section_lines(d, sections[i])).is_prefix_of(
                sections_text(d, sections)->Ok_0,
            )
        }),
        sections_text(d, Seq::empty()) == Ok::<Seq<char>, RomError>(Seq::empty()),
{
    lemma_sections_text(d, sections, i);
}

proof fn lemma_files_text(d: Seq<u8>, files: Seq<FfsFile>, i: int)
    requires
        0 <= i < files.len(),
        files_text(d, files) is Ok,
    ensures
        ({
            let all = files_text(d, files)->Ok_0;
            let front = files_text(d, files.take(i));
            let upto = files_text(d, files.take(i + 1));
            &&& front is Ok
            &&& sections_of(d, files[i]) is Ok
            &&& sections_text(d, sections_of(d, files[i])->Ok_0) is Ok
            &&& upto == Ok::<Seq<char>, RomError>(
                front->Ok_0 + file_line(d, files[i]) + sections_text(
                    d,
                    sections_of(d, files[i])->Ok_0,
                )->Ok_0,
            )
            &&& upto->Ok_0.is_prefix_of(all)
        }),
    decreases files.len(),
{
    let n = files.len() as int;
    assert(files.take(n) =~= files);
    assert(files.take(n - 1) =~= files.drop_last());
    if i < n - 1 {
        lemma_files_text(d, files.drop_last(), i);
        assert(files.drop_last().take(i) =~= files.take(i));
        assert(files.drop_last().take(i + 1) =~= files.take(i + 1));
        assert(files.drop_last()[i] == files[i]);
    }
}

/// Every file has its line in a listing, and the lines of its sections right behind it, after
/// what is listed of the files before it.
pub proof fn law_every_file_has_its_line(d: Seq<u8>, files: Seq<FfsFile>, i: int)
    requires
        0 <= i < files.len(),
        files_text(d, files) is Ok,
    ensures
        ({
            let before = files_text(d, files.take(i))->Ok_0;
            let sections = sections_text(d, sections_of(d, files[i])->Ok_0)->Ok_0;
            (before + file_line(d, files[i]) + sections).is_prefix_of(files_text(d, files)->Ok_0)
        }),
        files_text(d, Seq::empty()) == Ok::<Seq<char>, RomError>(Seq::empty()),
{
    lemma_files_text(d, files, i);
}

proof fn lemma_volumes_text(d: Seq<u8>, found: Seq<Volume>, i: int)
    requires
        0 <= i < found.len(),
        volumes_text(d, found) is Ok,
    ensures
        ({
            let all = volumes_text(d, found)->Ok_0;
            let v = found[i];
            let block = block_size_from(d.subrange(v.base as int, d.len() as int), 56);
            let front = volumes_text(d, found.take(i));
            let upto = volumes_text(d, found.take(i + 1));
            &&& front is Ok
            &&& block is Ok
            &&& files_of(d, v) is Ok
            &&& files_text(d, files_of(d, v)->Ok_0) is Ok
            &&& upto == Ok::<Seq<char>, RomError>(
                front->Ok_0 + volume_line(v, block->Ok_0) + files_text(
                    d,
                    files_of(d, v)->Ok_0,
                )->Ok_0,
            )
            &&& upto->Ok_0.is_prefix_of(all)
        }),
    decreases found.len(),
{
    let n = found.len() as int;
    assert(found.take(n) =~= found);
    assert(found.take(n - 1) =~= found.drop_last());
    if i < n - 1 {
        lemma_volumes_text(d, found.drop_last(), i);
        assert(found.drop_last().take(i) =~= found.take(i));
        assert(found.drop_last().take(i + 1) =~= found.take(i + 1));
        assert(found.drop_last()[i] == found[i]);
    }
}

/// Every volume has its line in a listing, and the lines of its files right behind it, after
/// what is listed of the volumes before it.
pub proof fn law_every_volume_has_its_line(d: Seq<u8>, found: Seq<Volume>, i: int)
    requires
        0 <= i < found.len(),
        volumes_text(d, found) is Ok,
    ensures
        ({
            let before = volumes_text(d, found.take(i))->Ok_0;
            let v = found[i];
            let block = block_size_from(d.subrange(v.base as int, d.len() as int), 56)->Ok_0;
            let files = files_text(d, files_of(d, v)->Ok_0)->Ok_0;
            (before + volume_line(v, block) + files).is_prefix_of(volumes_text(d, found)->Ok_0)
        }),
        volumes_text(d, Seq::empty()) == Ok::<Seq<char>, RomError>(Seq::empty()),
{
    lemma_volumes_text(d, found, i);
}

/// The block size of a volume is that of the first entry of its block map that has blocks: the
/// one `k` entries on from an offset, when those before it have none and do not end the map.
/// Where the map ends before, it is 4 KiB.
pub proof fn law_first_run_of_blocks_counts(v: Seq<u8>, offset: int, k: nat)
    requires
        0 <= offset,
        offset + 8 * k + 8 <= v.len() <= usize::MAX,
        forall|j: int|
            0 <= j < k ==> le_at(v, #[trigger] (offset + 8 * j), 4) == 0 && le_at(
                v,
                offset + 8 * j + 4,
                4,
            ) != 0,
        le_at(v, offset + 8 * k, 4) != 0 || le_at(v, offset + 8 * k + 4, 4) == 0,
    ensures
        block_size_from(v, offset) == Ok::<int, RomError>(
            if le_at(v, offset + 8 * k, 4) != 0 {
                le_at(v, offset + 8 * k + 4, 4) as int
            } else {
                0x1000
            },
        ),
    decreases k,
{
    if k > 0 {
        assert(le_at(v, offset + 8 * 0, 4) == 0 && le_at(v, offset + 8 * 0 + 4, 4) != 0);
        assert forall|j: int| 0 <= j < k - 1 implies le_at(v, #[trigger] (offset + 8 + 8 * j), 4)
            == 0 && le_at(v, offset + 8 + 8 * j + 4, 4) != 0 by {
            let m = j + 1;
            assert(offset + 8 * m == offset + 8 + 8 * j);
            assert(le_at(v, offset + 8 * m, 4) == 0);
        }
        law_first_run_of_blocks_counts(v, offset + 8, (k - 1) as nat);
    }
}

/// The options that take a value.
pub open spec fn takes_value(a: Seq<char>) -> bool {
    a == "--rom"@ || a == "--pe"@ || a == "--out"@ || a == "--extract"@
}

/// The options of which none is another.
proof fn lemma_options_differ()
    ensures
        "--dump"@ != "--rom"@,
        "--dump"@ != "--pe"@,
        "--dump"@ != "--out"@,
        "--dump"@ != "--extract"@,
        "--dump"@ != "--help"@,
        "--dump"@ != "-h"@,
        "--help"@ != "--rom"@,
        "--help"@ != "--pe"@,
        "--help"@ != "--out"@,
        "--help"@ != "--extract"@,
        "-h"@ != "--rom"@,
        "-h"@ != "--pe"@,
        "-h"@ != "--out"@,
        "-h"@ != "--extract"@,
        "--rom"@ != "--pe"@,
        "--rom"@ != "--out"@,
        "--rom"@ != "--extract"@,
        "--pe"@ != "--out"@,
        "--pe"@ != "--extract"@,
        "--out"@ != "--extract"@,
{
    reveal_strlit("--dump");
    reveal_strlit("--help");
    reveal_strlit("-h");
    reveal_strlit("--rom");
    reveal_strlit("--pe");
    reveal_strlit("--out");
    reveal_strlit("--extract");
    assert("--dump"@[2] == 'd');
    assert("--help"@[2] == 'h');
    assert("--rom"@[2] == 'r');
    assert("--pe"@[2] == 'p');
    assert("--out"@[2] == 'o');
    assert("--extract"@[2] == 'e');
    assert("-h"@.len() == 2);
}

proof fn lemma_parsed_on(args: Seq<Seq<char>>, more: Seq<Seq<char>>, at: int, acc: ArgumentsView)
    requires
        0 <= at <= args.len(),
        parsed_from(args, at, acc) is Ok,
    ensures
        parsed_from(args + more, at, acc) == parsed_from(
            args + more,
            args.len() as int,
            parsed_from(args, at, acc)->Ok_0,
        ),
    decreases args.len() - at,
{
    if at < args.len() {
        let a = args[at];
        assert((args + more)[at] == a);
        if a == "--dump"@ {
            lemma_parsed_on(args, more, at + 1, ArgumentsView { dump: true, ..acc });
        } else if takes_value(a) {
            let value = args[at + 1];
            assert((args + more)[at + 1] == value);
            let next = if a == "--rom"@ {
                ArgumentsView { rom: value, ..acc }
            } else if a == "--pe"@ {
                ArgumentsView { pe: Some(value), ..acc }
            } else if a == "--out"@ {
                ArgumentsView { out: Some(value), ..acc }
            } else {
                ArgumentsView { extract: Some(value), ..acc }
            };
            lemma_parsed_on(args, more, at + 2, next);
        }
    }
}

/// What an argument behind others adds: an option with its value sets that and nothing else,
/// the last one of its kind counts, and one that is none, lacks its value or asks for help ends
/// the reading.
pub proof fn law_option_sets_its_value(
    args: Seq<Seq<char>>,
    acc: ArgumentsView,
    value: Seq<char>,
    other: Seq<char>,
)
    requires
        parsed_from(args, 0, acc) is Ok,
        other != "--dump"@ && other != "--help"@ && other != "-h"@ && !takes_value(other),
    ensures
        ({
            let p = parsed_from(args, 0, acc)->Ok_0;
            let with = |more: Seq<Seq<char>>| parsed_from(args + more, 0, acc);
            &&& with(seq!["--dump"@]) == Ok::<ArgumentsView, ArgumentError>(
                ArgumentsView { dump: true, ..p },
            )
            &&& with(seq!["--rom"@, value]) == Ok::<ArgumentsView, ArgumentError>(
                ArgumentsView { rom: value, ..p },
            )
            &&& with(seq!["--pe"@, value]) == Ok::<ArgumentsView, ArgumentError>(
                ArgumentsView { pe: Some(value), ..p },
            )
            &&& with(seq!["--out"@, value]) == Ok::<ArgumentsView, ArgumentError>(
                ArgumentsView { out: Some(value), ..p },
            )
            &&& with(seq!["--extract"@, value]) == Ok::<ArgumentsView, ArgumentError>(
                ArgumentsView { extract: Some(value), ..p },
            )
            &&& with(seq!["--help"@]) == Err::<ArgumentsView, ArgumentError>(ArgumentError::Help)
            &&& with(seq!["-h"@]) == Err::<ArgumentsView, ArgumentError>(ArgumentError::Help)
            &&& with(seq![other]) == Err::<ArgumentsView, ArgumentError>(
                ArgumentError::Unknown(args.len() as usize),
            )
            &&& with(seq!["--rom"@]) == Err::<ArgumentsView, ArgumentError>(
                ArgumentError::NeedsValue(args.len() as usize),
            )
            &&& with(seq!["--pe"@]) == Err::<ArgumentsView, ArgumentError>(
                ArgumentError::NeedsValue(args.len() as usize),
            )
            &&& with(seq!["--out"@]) == Err::<ArgumentsView, ArgumentError>(
                ArgumentError::NeedsValue(args.len() as usize),
            )
            &&& with(seq!["--extract"@]) == Err::<ArgumentsView, ArgumentError>(
                ArgumentError::NeedsValue(args.len() as usize),
            )
        }),
{
    lemma_options_differ();
    reveal_with_fuel(parsed_from, 3);
    lemma_one_more(args, acc, "--dump"@);
    lemma_one_more(args, acc, "--help"@);
    lemma_one_more(args, acc, "-h"@);
    lemma_one_more(args, acc, other);
    lemma_one_more(args, acc, "--rom"@);
    lemma_one_more(args, acc, "--pe"@);
    lemma_one_more(args, acc, "--out"@);
    lemma_one_more(args, acc, "--extract"@);
    lemma_two_more(args, acc, "--rom"@, value);
    lemma_two_more(args, acc, "--pe"@, value);
    lemma_two_more(args, acc, "--out"@, value);
    lemma_two_more(args, acc, "--extract"@, value);
}

/// What one argument more is read as.
spec fn read_last(a: Seq<char>, at: int, p: ArgumentsView) -> Result<ArgumentsView, ArgumentError> {
    if a == "--dump"@ {
        Ok(ArgumentsView { dump: true, ..p })
    } else if a == "--help"@ || a == "-h"@ {
        Err(ArgumentError::Help)
    } else if takes_value(a) {
        Err(ArgumentError::NeedsValue(at as usize))
    } else {
        Err(ArgumentError::Unknown(at as usize))
    }
}

proof fn lemma_one_more(args: Seq<Seq<char>>, acc: ArgumentsView, a: Seq<char>)
    requires
        parsed_from(args, 0, acc) is Ok,
    ensures
        parsed_from(args + seq![a], 0, acc) == read_last(
            a,
            args.len() as int,
            parsed_from(args, 0, acc)->Ok_0,
        ),
{
    lemma_parsed_on(args, seq![a], 0, acc);
    assert((args + seq![a])[args.len() as int] == a);
    reveal_with_fuel(parsed_from, 2);
}

proof fn lemma_two_more(args: Seq<Seq<char>>, acc: ArgumentsView, a: Seq<char>, value: Seq<char>)
    requires
        parsed_from(args, 0, acc) is Ok,
        takes_value(a),
    ensures
        ({
            let p = parsed_from(args, 0, acc)->Ok_0;
            parsed_from(args + seq![a, value], 0, acc) == Ok::<ArgumentsView, ArgumentError>(
                if a == "--rom"@ {
                    ArgumentsView { rom: value, ..p }
                } else if a == "--pe"@ {
                    ArgumentsView { pe: Some(value), ..p }
                } else if a == "--out"@ {
                    ArgumentsView { out: Some(value), ..p }
                } else {
                    ArgumentsView { extract: Some(value), ..p }
                },
            )
        }),
{
    let all = args + seq![a, value];
    lemma_options_differ();
    lemma_parsed_on(args, seq![a, value], 0, acc);
    assert(all[args.len() as int] == a);
    assert(all[args.len() as int + 1] == value);
    reveal_with_fuel(parsed_from, 2);
}

/// What a command line has to say, once its options are read: which ROM, and to dump it, to
/// extract its core, or which image goes where.
pub proof fn law_command_line_has_something_to_do(args: Seq<Seq<char>>, acc: ArgumentsView)
    requires
        acc == (ArgumentsView {
            rom: Seq::empty(),
            pe: None,
            out: None,
            extract: None,
            dump: false,
        }),
    ensures
        parsed(args) is Ok <==> {
            &&& parsed_from(args, 0, acc) matches Ok(p)
            &&& p.rom.len() > 0
            &&& p.dump || p.extract is Some || (p.pe is Some && p.out is Some)
        },
        parsed(args) is Ok ==> parsed(args) == parsed_from(args, 0, acc),
        parsed_from(args, 0, acc) is Err ==> parsed(args) == parsed_from(args, 0, acc),
{
}

} // verus!
