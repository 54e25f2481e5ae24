//! An in-memory model of a file tree: files hold bytes, directories hold
//! named entries. The synchronization engine works on this model; real
//! directory walking and copying mirrors it outside the library.
//!
//! A tree is well-formed when every directory's entry names are pairwise
//! distinct. Lookup follows a path of segment names from a node.

use vstd::prelude::*;

verus! {

/// A node of the modelled file tree.
#[derive(Debug, PartialEq, Eq)]
pub enum FsNode {
    /// A file with its byte content.
    File { data: Vec<u8> },
    /// A directory with its named entries.
    Dir { entries: Vec<FsEntry> },
}

/// A directory entry: a name and the node it holds.
#[derive(Debug, PartialEq, Eq)]
pub struct FsEntry {
    pub name: String,
    pub node: FsNode,
}

/// The mathematical value of a file tree.
#[verifier::ext_equal]
pub enum Tree {
    File { data: Seq<u8> },
    Dir { entries: Seq<(Seq<char>, Tree)> },
}

/// The value of a node.
pub open spec fn tree_of(n: FsNode) -> Tree
    decreases n,
{
    match n {
        FsNode::File { data } => Tree::File { data: data@ },
        FsNode::Dir { entries } => Tree::Dir { entries: entries_of(entries@) },
    }
}

/// The value of a list of directory entries.
pub open spec fn entries_of(es: Seq<FsEntry>) -> Seq<(Seq<char>, Tree)>
    decreases es,
{
    if es.len() == 0 {
        Seq::empty()
    } else {
        seq![(es[0].name@, tree_of(es[0].node))] + entries_of(es.drop_first())
    }
}

impl View for FsNode {
    type V = Tree;

    open spec fn view(&self) -> Tree {
        tree_of(*self)
    }
}

/// The node an entry list holds under the given name: the first entry of
/// that name, or `None`.
pub open spec fn dir_lookup(es: Seq<(Seq<char>, Tree)>, name: Seq<char>) -> Option<Tree>
    decreases es.len(),
{
    if es.len() == 0 {
        None
    } else if es[0].0 == name {
        Some(es[0].1)
    } else {
        dir_lookup(es.drop_first(), name)
    }
}

/// The entry list with the given node bound to the given name: the first
/// entry of that name is replaced in place, or a new entry is appended.
pub open spec fn dir_insert(
    es: Seq<(Seq<char>, Tree)>,
    name: Seq<char>,
    node: Tree,
) -> Seq<(Seq<char>, Tree)>
    decreases es.len(),
{
    if es.len() == 0 {
        seq![(name, node)]
    } else if es[0].0 == name {
        seq![(name, node)] + es.drop_first()
    } else {
        seq![es[0]] + dir_insert(es.drop_first(), name, node)
    }
}

/// The node at the given path below a node, or `None` when a step of the
/// path is missing or leads through a file.
pub open spec fn lookup(t: Tree, path: Seq<Seq<char>>) -> Option<Tree>
    decreases path.len(),
{
    if path.len() == 0 {
        Some(t)
    } else {
        match t {
            Tree::File { .. } => None,
            Tree::Dir { entries } => match dir_lookup(entries, path[0]) {
                Some(sub) => lookup(sub, path.drop_first()),
                None => None,
            },
        }
    }
}

/// Well-formedness: every directory's entry names are pairwise distinct,
/// recursively.
pub open spec fn tree_wf(t: Tree) -> bool
    decreases t,
{
    match t {
        Tree::File { .. } => true,
        Tree::Dir { entries } => (forall|i: int, j: int|
            0 <= i < j < entries.len() ==> (#[trigger] entries[i]).0 != (
            #[trigger] entries[j]).0) && (forall|i: int|
            0 <= i < entries.len() ==> tree_wf((#[trigger] entries[i]).1)),
    }
}

/// Whether one path is a prefix of another (every path is a prefix of
/// itself).
pub open spec fn is_prefix_of(p: Seq<Seq<char>>, q: Seq<Seq<char>>) -> bool {
    p.len() <= q.len() && p =~= q.take(p.len() as int)
}

} // verus!
