//! The filesystem abstraction.
//!
//! The boot manager walks paths (`\EFI\BOOT\BOOTAA64.EFI`), and the EFI Simple
//! File System protocol exposes the same files as file handles. Both speak this:
//! a tree of nodes with names, contents, and sizes, so the FAT implementation
//! stays behind one interface.
use crate::bytes::{push_fill, put};
use crate::text::{parts, split_path, texts};
use vstd::prelude::*;
use vstd::string::*;

verus! {

/// A node in a mounted volume: a directory or a file.
///
/// What a node answers is its own matter: `opens` and `holds` are the answers it
/// may give.
pub trait FileNode: Sized {
    /// The name as stored, without any path.
    closed spec fn label(&self) -> Seq<char> {
        arbitrary()
    }

    /// Whether this node is a directory.
    closed spec fn directory(&self) -> bool {
        arbitrary()
    }

    /// The file's size in bytes.
    closed spec fn size(&self) -> u64 {
        arbitrary()
    }

    /// Whether opening a child by name may give `child`.
    closed spec fn opens(&self, name: Seq<char>, child: Option<Self>) -> bool {
        arbitrary()
    }

    /// Whether the children of this node may be `children`.
    closed spec fn lists(&self, children: Seq<Self>) -> bool {
        arbitrary()
    }

    /// Whether reading `count` bytes at `offset` may give `data`.
    closed spec fn holds(&self, offset: u64, count: nat, data: Seq<u8>) -> bool {
        arbitrary()
    }

    /// The name as stored, without any path. For the volume root, empty.
    fn name(&self) -> (name: String)
        ensures
            name@ == self.label(),
    ;

    /// Whether this node is a directory.
    fn is_dir(&self) -> (is: bool)
        ensures
            is == self.directory(),
    ;

    /// The file's size in bytes; 0 for a directory.
    fn len(&self) -> (size: u64)
        ensures
            size == self.size(),
    ;

    /// Opens a child by name, matched case-insensitively, as FAT names are.
    fn child(&self, name: &str) -> (child: Option<Self>)
        ensures
            self.opens(name@, child),
    ;

    /// Reads at an offset into a buffer, returning how many bytes were read
    /// (short at end of file).
    fn read_at(&self, offset: u64, buf: &mut Vec<u8>) -> (read: usize)
        ensures
            read <= old(buf)@.len(),
            final(buf)@.len() == old(buf)@.len(),
            self.holds(offset, old(buf)@.len(), final(buf)@.subrange(0, read as int)),
            final(buf)@ == put(old(buf)@, 0, final(buf)@.subrange(0, read as int)),
    ;

    /// The children of a directory, in the order the filesystem stores them.
    fn children(&self) -> (children: Vec<Self>)
        ensures
            self.lists(children@),
    ;

    /// The whole file's contents, for images and small files.
    fn read_all(&self) -> (contents: Vec<u8>)
        requires
            self.size() <= usize::MAX,
        ensures
            contents@.len() <= self.size(),
            self.holds(0, self.size() as nat, contents@),
    {
        let mut buffer: Vec<u8> = Vec::new();
        push_fill(&mut buffer, self.len() as usize, 0);
        let read: usize = self.read_at(0, &mut buffer);
        let ghost held = buffer@.subrange(0, read as int);
        buffer.truncate(read);
        assert(buffer@ =~= held);
        buffer
    }

    /// An independent handle on the same node.
    fn dyn_clone(&self) -> (node: Self)
        ensures
            node.label() == self.label(),
            node.directory() == self.directory(),
            node.size() == self.size(),
            forall|name: Seq<char>, child: Option<Self>|
                node.opens(name, child) == self.opens(name, child),
            forall|offset: u64, count: nat, data: Seq<u8>|
                node.holds(offset, count, data) == self.holds(offset, count, data),
    ;
}

/// Where walking a path from a node may lead. A component that is empty or `.`
/// stays; a step from anything but a directory leads nowhere.
pub open spec fn walks<N: FileNode>(from: N, components: Seq<Seq<char>>, to: Option<N>) -> bool
    decreases components.len(),
{
    if components.len() == 0 {
        to == Some(from)
    } else if stays(components[0]) {
        walks(from, components.drop_first(), to)
    } else if !from.directory() {
        to is None
    } else {
        exists|child: Option<N>| #[trigger]
            from.opens(components[0], child) && match child {
                None => to is None,
                Some(node) => walks(node, components.drop_first(), to),
            }
    }
}

/// Whether a component stays where it is.
pub open spec fn stays(component: Seq<char>) -> bool {
    component.len() == 0 || component == seq!['.']
}

/// Whether a component stays where it is.
fn component_stays(component: &str) -> (is: bool)
    ensures
        is == stays(component@),
{
    if component.unicode_len() == 1 && component.get_char(0) == '.' {
        assert(component@ =~= seq!['.']);
        return true;
    }
    component.unicode_len() == 0
}

/// A mounted volume.
pub trait FileSystem {
    type Node: FileNode;

    /// Whether a node may be the volume's root directory.
    closed spec fn rooted(&self, node: Self::Node) -> bool {
        arbitrary()
    }

    /// The volume's root directory.
    fn root(&self) -> (node: Self::Node)
        ensures
            self.rooted(node),
    ;

    /// Looks up a path, with `\` or `/` as separators and a case-insensitive match
    /// at each step. Returns `None` if any component is missing.
    fn open(&self, path: &str) -> (node: Option<Self::Node>)
        ensures
            exists|root: Self::Node|
                #![trigger self.rooted(root)]
                self.rooted(root) && walks(root, parts(path@, true), node),
    {
        let components: Vec<String> = split_path(path, true);
        let root: Self::Node = self.root();
        let ghost start = root;
        let found: Option<Self::Node> = walk(root, &components);
        assert(self.rooted(start) && walks(start, parts(path@, true), found));
        found
    }
}

/// Walks a path from a node.
fn walk<N: FileNode>(from: N, components: &Vec<String>) -> (to: Option<N>)
    ensures
        walks(from, texts(components@), to),
{
    assert(texts(components@).subrange(0, components@.len() as int) =~= texts(components@));
    walk_from(from, components, 0)
}

fn walk_from<N: FileNode>(from: N, components: &Vec<String>, next: usize) -> (to: Option<N>)
    requires
        next <= components@.len(),
    ensures
        walks(from, texts(components@).subrange(next as int, components@.len() as int), to),
    decreases components@.len() - next,
{
    let ghost rest = texts(components@).subrange(next as int, components@.len() as int);
    if next == components.len() {
        return Some(from);
    }
    assert(rest[0] == components@[next as int]@);
    assert(rest.drop_first() =~= texts(components@).subrange(
        next + 1,
        components@.len() as int,
    ));
    let component: &str = components[next].as_str();
    if component_stays(component) {
        return walk_from(from, components, next + 1);
    }
    if !from.is_dir() {
        return None;
    }
    let child: Option<N> = from.child(component);
    assert(from.opens(rest[0], child));
    match child {
        None => None,
        Some(node) => walk_from(node, components, next + 1),
    }
}

/// A walk over one component: one that stays leads to where it starts, any other to the child
/// of that name, and from anything but a directory nowhere.
pub proof fn law_one_step<N: FileNode>(from: N, component: Seq<char>, to: Option<N>)
    requires
        walks(from, seq![component], to),
    ensures
        if component.len() == 0 || component == seq!['.'] {
            to == Some(from)
        } else if !from.directory() {
            to is None
        } else {
            from.opens(component, to)
        },
{
    reveal_with_fuel(walks, 2);
    let one = seq![component];
    assert(one.drop_first() =~= Seq::<Seq<char>>::empty());
    if !stays(component) && from.directory() {
        let child = choose|child: Option<N>| #[trigger]
            from.opens(one[0], child) && match child {
                None => to is None,
                Some(node) => walks(node, one.drop_first(), to),
            };
        assert(child == to);
    }
}

/// A walk over components is a walk over the first of them, and then, unless that led nowhere,
/// over the others.
pub proof fn law_walks_go_on<N: FileNode>(
    from: N,
    a: Seq<Seq<char>>,
    b: Seq<Seq<char>>,
    to: Option<N>,
)
    requires
        walks(from, a + b, to),
    ensures
        exists|mid: Option<N>| #[trigger]
            walks(from, a, mid) && match mid {
                None => to is None,
                Some(node) => walks(node, b, to),
            },
    decreases a.len(),
{
    if a.len() == 0 {
        assert(a + b =~= b);
        assert(walks(from, a, Some(from)));
    } else {
        let all = a + b;
        assert(all.drop_first() =~= a.drop_first() + b);
        if stays(all[0]) {
            law_walks_go_on(from, a.drop_first(), b, to);
            let mid = choose|mid: Option<N>| #[trigger]
                walks(from, a.drop_first(), mid) && match mid {
                    None => to is None,
                    Some(node) => walks(node, b, to),
                };
            assert(walks(from, a, mid));
        } else if !from.directory() {
            assert(walks(from, a, None::<N>));
        } else {
            let child = choose|child: Option<N>| #[trigger]
                from.opens(all[0], child) && match child {
                    None => to is None,
                    Some(node) => walks(node, all.drop_first(), to),
                };
            match child {
                None => {
                    assert(from.opens(a[0], None::<N>));
                    assert(walks(from, a, None::<N>));
                },
                Some(node) => {
                    law_walks_go_on(node, a.drop_first(), b, to);
                    let mid = choose|mid: Option<N>| #[trigger]
                        walks(node, a.drop_first(), mid) && match mid {
                            None => to is None,
                            Some(node) => walks(node, b, to),
                        };
                    assert(from.opens(a[0], Some(node)));
                    assert(walks(from, a, mid));
                },
            }
        }
    }
}

} // verus!
