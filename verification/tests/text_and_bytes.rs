use tinted_boot::bytes::{
    copy_range, get_16, get_be32, get_u16, get_u24, get_u32, get_u64, get_units, matches_at,
    push_fill, push_le, push_units, put_le, put_slice, same_bytes,
};
use tinted_boot::crc::crc32;
use tinted_boot::file_info::{answer_with, answer_with_file, write_file_info};
use tinted_boot::status::Status;
use tinted_boot::terminal::{low_i32, push_utf8, settle, tab_stop, Dialect, Key, Keyboard};
use tinted_boot::text::{
    join, path_names, push_decimal, push_guid, push_hex, push_hex_digits, replace, same_text,
    split_path,
};
use tinted_boot::utf16::{char_of_unit, decode, encode, text_of_units, until_terminator};

#[test]
fn numbers_are_read_from_bytes() {
    let data = [0x12u8, 0x34, 0x56, 0x78, 0x9a, 0xbc, 0xde, 0xf0, 0x11];
    assert_eq!(get_u16(&data, 1), 0x5634);
    assert_eq!(get_u24(&data, 0), 0x563412);
    assert_eq!(get_u32(&data, 0), 0x7856_3412);
    assert_eq!(get_u64(&data, 1), 0x11f0_debc_9a78_5634);
    assert_eq!(get_be32(&data, 0), 0x1234_5678);
}

#[test]
fn numbers_are_written_to_bytes() {
    let mut out = Vec::new();
    push_le(&mut out, 0x0102_0304, 3);
    push_fill(&mut out, 2, 0xff);
    put_le(&mut out, 3, 0xaabb, 2);
    put_slice(&mut out, 0, &[9]);
    assert_eq!(out, vec![9, 3, 2, 0xbb, 0xaa]);
    assert_eq!(copy_range(&out, 1, 3), vec![3, 2]);
    assert!(matches_at(&out, 3, &[0xbb, 0xaa]));
    assert!(!matches_at(&out, 3, &[0xaa, 0]));
    assert!(same_bytes(&out[0..1], &[9]));
    assert!(!same_bytes(&out[0..1], &[9, 3]));
}

#[test]
fn units_lie_low_byte_first() {
    let mut out = Vec::new();
    push_units(&mut out, &[0x0041, 0x20ac]);
    assert_eq!(out, vec![0x41, 0, 0xac, 0x20]);
    assert_eq!(get_units(&out, 0, 2), vec![0x0041, 0x20ac]);
    let sixteen: Vec<u8> = (0..20).collect();
    assert_eq!(get_16(&sixteen, 2)[15], 17);
}

#[test]
fn the_checksum_is_the_one_gpt_uses() {
    assert_eq!(crc32(b"123456789"), 0xcbf4_3926);
    assert_eq!(crc32(b""), 0);
}

#[test]
fn numbers_are_spelled_out() {
    let mut out = String::new();
    push_decimal(&mut out, 0);
    push_decimal(&mut out, 18_446_744_073_709_551_615);
    push_hex(&mut out, 0);
    push_hex(&mut out, 0xdead_beef);
    push_hex_digits(&mut out, 0x1a, 4);
    push_hex_digits(&mut out, 0x12345, 2);
    assert_eq!(out, "0184467440737095516150x00xdeadbeef001a45");
}

#[test]
fn a_guid_is_spelled_by_its_fields() {
    let mut out = String::new();
    let guid = [
        0x28u8, 0x73, 0x2a, 0xc1, 0x1f, 0xf8, 0xd2, 0x11, 0xba, 0x4b, 0x00, 0xa0, 0xc9, 0x3e, 0xc9, 0x3b,
    ];
    push_guid(&mut out, &guid);
    assert_eq!(out, "c12a7328-f81f-11d2-ba4b-00a0c93ec93b");
}

#[test]
fn every_match_is_replaced() {
    assert_eq!(replace("a@X@b@X@", "@X@", "12"), "a12b12");
    assert_eq!(replace("aaa", "aa", "b"), "ba");
    assert_eq!(replace("abc", "x", "y"), "abc");
    assert!(same_text("abc", "abc"));
    assert!(!same_text("abc", "abd"));
}

#[test]
fn paths_fall_into_components() {
    assert_eq!(split_path("\\EFI\\BOOT/x", true), vec!["", "EFI", "BOOT", "x"]);
    assert_eq!(split_path("a/b\\c", false), vec!["a/b", "c"]);
    assert_eq!(path_names("\\\\EFI\\BOOT\\", false), vec!["EFI", "BOOT"]);
    assert_eq!(join(&vec!["EFI".to_string(), "BOOT".to_string()]), "EFI\\BOOT");
}

#[test]
fn units_become_characters_one_by_one() {
    assert_eq!(char_of_unit(0x41), 'A');
    assert_eq!(char_of_unit(0xd800), '?');
    assert_eq!(text_of_units(&[0x48, 0x69, 0xdfff]), "Hi?");
}

#[test]
fn text_is_encoded_and_decoded() {
    let text = "B\u{e9}\u{20ac}\u{1f600}";
    let units = encode(text);
    assert_eq!(units, vec![0x42, 0xe9, 0x20ac, 0xd83d, 0xde00]);
    assert_eq!(decode(&units), text);
    assert_eq!(decode(&[0xd83d, 0x41]), "?A");
}

#[test]
fn a_string_ends_at_its_terminator() {
    assert_eq!(until_terminator(&[1, 2, 0, 3], 10), Some(vec![1, 2]));
    assert_eq!(until_terminator(&[1, 2, 0], 2), None);
    assert_eq!(until_terminator(&[1, 2], 10), None);
}

#[test]
fn characters_go_out_as_utf8() {
    let mut out = Vec::new();
    push_utf8(&mut out, 0x41);
    push_utf8(&mut out, 0xe9);
    push_utf8(&mut out, 0x20ac);
    assert_eq!(out, vec![0x41, 0xc3, 0xa9, 0xe2, 0x82, 0xac]);
}

#[test]
fn the_cursor_stays_on_the_screen() {
    assert_eq!(tab_stop(0), 8);
    assert_eq!(tab_stop(8), 16);
    assert_eq!(tab_stop(79), 80);
    assert_eq!(settle(80, 3), (0, 4));
    assert_eq!(settle(80, 24), (0, 24));
    assert_eq!(settle(5, 25), (5, 24));
    assert_eq!(low_i32(0xffff_ffff), -1);
}

fn keys(dialect: Dialect, bytes: &[u8]) -> Vec<Option<Key>> {
    let mut keyboard = Keyboard::new(dialect);
    for byte in bytes {
        keyboard.receive(*byte);
    }
    let mut read = Vec::new();
    while keyboard.has_pending_key() {
        read.push(keyboard.read_key());
    }
    read
}

#[test]
fn cursor_keys_are_decoded() {
    assert_eq!(
        keys(Dialect::Plain, b"\x1b[Aq\x1bOD"),
        vec![
            Some(Key { scan_code: 1, unicode: 0 }),
            Some(Key { scan_code: 0, unicode: 0x71 }),
            Some(Key { scan_code: 4, unicode: 0 }),
        ]
    );
    assert_eq!(
        keys(Dialect::Plain, b"\x1b[3~\x1b[5~\x1b[6~"),
        vec![
            Some(Key { scan_code: 8, unicode: 0 }),
            Some(Key { scan_code: 0x0a, unicode: 0 }),
            Some(Key { scan_code: 0x18, unicode: 0 }),
        ]
    );
    let mut keyboard = Keyboard::new(Dialect::Full);
    keyboard.receive(0x41);
    keyboard.input_reset();
    assert_eq!(keyboard.read_key(), None);
}

#[test]
fn a_file_info_is_laid_out_and_sized() {
    let name = vec![0x41u16, 0x42];
    let info = write_file_info(&name, 5, 1);
    assert_eq!(get_u64(&info, 0), 86);
    assert_eq!(info.len(), 86);
    assert_eq!(get_u64(&info, 8), 5);
    assert_eq!(get_u64(&info, 72), 1);
    assert_eq!(&info[80..86], &[0x41, 0, 0x42, 0, 0, 0]);
    let mut size = 10usize;
    let mut buffer = vec![0u8; 10];
    assert_eq!(
        answer_with_file(&name, 5, 1, &mut size, &mut buffer, true),
        Status::BufferTooSmall
    );
    assert_eq!(size, 86);
    let mut buffer = vec![0u8; 100];
    let mut size = 100usize;
    assert_eq!(
        answer_with_file(&name, 5, 1, &mut size, &mut buffer, true),
        Status::Success
    );
    assert_eq!(&buffer[0..86], &info[..]);
    let mut size = 100usize;
    assert_eq!(answer_with(&info, &mut size, &mut buffer, false), Status::InvalidParameter);
}

#[test]
fn status_codes_carry_the_error_bit() {
    assert_eq!(Status::Success.code(), 0);
    assert_eq!(Status::NotFound.code(), 0x8000_0000_0000_000e);
    assert_eq!(Status::WarnDeleteFailure.code(), 2);
}
