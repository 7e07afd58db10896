//! The filesystem abstraction the Simple File System protocol is built on: a tree
//! of named nodes with contents, so FAT stays behind one interface.
use crate::firmware::fat::{root_view, Node, Volume};
pub use crate::firmware::fs::FileNode;
use crate::text::{filled, parts, path_names, texts};
use vstd::prelude::*;

verus! {

/// Where following names from a node may lead. A step from anything but a
/// directory leads nowhere.
pub open spec fn follows<N: FileNode>(from: N, names: Seq<Seq<char>>, to: Option<N>) -> bool
    decreases names.len(),
{
    if names.len() == 0 {
        to == Some(from)
    } else if !from.directory() {
        to is None
    } else {
        exists|child: Option<N>| #[trigger]
            from.opens(names[0], child) && match child {
                None => to is None,
                Some(node) => follows(node, names.drop_first(), to),
            }
    }
}

/// A mounted volume.
pub trait FileSystem {
    type Node: FileNode;

    /// Whether a node may be the volume's root directory.
    closed spec fn rooted(&self, node: Self::Node) -> bool {
        arbitrary()
    }

    /// The volume's root directory.
    fn root(&self) -> (node: Self::Node)
        ensures
            self.rooted(node),
    ;

    /// Looks up a normalised, backslash-separated path from the root, matching
    /// each component case-insensitively. The empty path is the root.
    fn open(&self, path: &str) -> (node: Option<Self::Node>)
        ensures
            exists|root: Self::Node|
                #![trigger self.rooted(root)]
                self.rooted(root) && follows(root, filled(parts(path@, false)), node),
    {
        let names: Vec<String> = path_names(path, false);
        let root: Self::Node = self.root();
        let ghost start = root;
        assert(texts(names@).subrange(0, names@.len() as int) =~= texts(names@));
        let found: Option<Self::Node> = follow(root, &names, 0);
        assert(self.rooted(start) && follows(start, filled(parts(path@, false)), found));
        found
    }
}

/// A FAT volume, from its root directory.
impl<'v, 'd> FileSystem for &'v Volume<'d> {
    type Node = Node<'v, 'd>;

    open spec fn rooted(&self, node: Node<'v, 'd>) -> bool {
        node.volume == *self && node@ == root_view()
    }

    fn root(&self) -> (node: Node<'v, 'd>) {
        crate::firmware::fs::FileSystem::root(self)
    }
}

/// Follows names from a node.
fn follow<N: FileNode>(from: N, names: &Vec<String>, next: usize) -> (to: Option<N>)
    requires
        next <= names@.len(),
    ensures
        follows(from, texts(names@).subrange(next as int, names@.len() as int), to),
    decreases names@.len() - next,
{
    let ghost rest = texts(names@).subrange(next as int, names@.len() as int);
    if next == names.len() {
        return Some(from);
    }
    assert(rest[0] == names@[next as int]@);
    assert(rest.drop_first() =~= texts(names@).subrange(next + 1, names@.len() as int));
    if !from.is_dir() {
        return None;
    }
    let child: Option<N> = from.child(names[next].as_str());
    assert(from.opens(rest[0], child));
    match child {
        None => None,
        Some(node) => follow(node, names, next + 1),
    }
}

/// Following one name leads to the child of that name, and from anything but a directory
/// nowhere; following none leads to where it starts.
pub proof fn law_one_name<N: FileNode>(from: N, name: Seq<char>, to: Option<N>)
    requires
        follows(from, seq![name], to),
    ensures
        if from.directory() {
            from.opens(name, to)
        } else {
            to is None
        },
{
    let one = seq![name];
    assert(one.drop_first() =~= Seq::<Seq<char>>::empty());
    if from.directory() {
        let child = choose|child: Option<N>| #[trigger]
            from.opens(one[0], child) && match child {
                None => to is None,
                Some(node) => follows(node, one.drop_first(), to),
            };
        assert(child == to);
    }
}

/// Following names is following the first of them, and then, unless that led nowhere, the
/// others.
pub proof fn law_names_are_followed_on<N: FileNode>(
    from: N,
    a: Seq<Seq<char>>,
    b: Seq<Seq<char>>,
    to: Option<N>,
)
    requires
        follows(from, a + b, to),
    ensures
        exists|mid: Option<N>| #[trigger]
            follows(from, a, mid) && match mid {
                None => to is None,
                Some(node) => follows(node, b, to),
            },
    decreases a.len(),
{
    if a.len() == 0 {
        assert(a + b =~= b);
        assert(follows(from, a, Some(from)));
    } else {
        let all = a + b;
        assert(all.drop_first() =~= a.drop_first() + b);
        if !from.directory() {
            assert(follows(from, a, None::<N>));
        } else {
            let child = choose|child: Option<N>| #[trigger]
                from.opens(all[0], child) && match child {
                    None => to is None,
                    Some(node) => follows(node, all.drop_first(), to),
                };
            match child {
                None => {
                    assert(from.opens(a[0], None::<N>));
                    assert(follows(from, a, None::<N>));
                },
                Some(node) => {
                    law_names_are_followed_on(node, a.drop_first(), b, to);
                    let mid = choose|mid: Option<N>| #[trigger]
                        follows(node, a.drop_first(), mid) && match mid {
                            None => to is None,
                            Some(node) => follows(node, b, to),
                        };
                    assert(from.opens(a[0], Some(node)));
                    assert(follows(from, a, mid));
                },
            }
        }
    }
}

} // verus!
