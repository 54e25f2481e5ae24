//! The path synchronization engine over the file-tree model: placing a
//! copy of a source tree at a destination path, merging directories with
//! what the destination already holds.
//!
//! Copying a directory creates the destination when it is missing and
//! copies each child into it individually, recursing into subdirectories
//! and overwriting files; a fresh destination therefore receives an exact
//! copy. Copying a file creates the destination's missing parent
//! directories and overwrites any file already there. A file standing
//! where a directory is needed, or a directory standing where a file is
//! to be written, blocks the operation.

use vstd::prelude::*;

use crate::fstree::{
    dir_insert, dir_lookup, entries_of, is_prefix_of, lookup, tree_of, tree_wf, FsEntry, FsNode,
    Tree,
};

verus! {

/// A failure of the synchronization engine.
#[derive(Clone, Copy, Debug, PartialEq, Eq, Structural)]
pub enum SyncError {
    /// The source path names no node.
    SourceMissing,
    /// A file stands where a directory is needed, or a directory where a
    /// file is to be written.
    DestinationBlocked,
}

/// A copy of `src` merged onto what a location already holds (`dst_opt`,
/// `None` when the location is empty). Directories merge entry by entry;
/// a file overwrites a file; a file meeting a directory, or a directory
/// meeting a file, is blocked.
pub open spec fn merge_node(dst_opt: Option<Tree>, src: Tree) -> Result<Tree, SyncError>
    decreases src,
{
    match src {
        Tree::File { data } => match dst_opt {
            Some(Tree::Dir { .. }) => Err(SyncError::DestinationBlocked),
            _ => Ok(Tree::File { data }),
        },
        Tree::Dir { entries } => match dst_opt {
            Some(Tree::File { .. }) => Err(SyncError::DestinationBlocked),
            Some(Tree::Dir { entries: des }) => match merge_entries(des, entries) {
                Ok(m) => Ok(Tree::Dir { entries: m }),
                Err(e) => Err(e),
            },
            None => Ok(Tree::Dir { entries }),
        },
    }
}

/// Source entries merged into a destination entry list, left to right.
pub open spec fn merge_entries(
    dst: Seq<(Seq<char>, Tree)>,
    src: Seq<(Seq<char>, Tree)>,
) -> Result<Seq<(Seq<char>, Tree)>, SyncError>
    decreases src,
{
    if src.len() == 0 {
        Ok(dst)
    } else {
        match merge_node(dir_lookup(dst, src[0].0), src[0].1) {
            Ok(n) => merge_entries(dir_insert(dst, src[0].0, n), src.drop_first()),
            Err(e) => Err(e),
        }
    }
}

/// A copy of `src` placed at the given path below `t`: missing
/// directories along the path are created, a file along it blocks, and at
/// the path's end `src` merges onto what stands there.
pub open spec fn place_at(t: Tree, path: Seq<Seq<char>>, src: Tree) -> Result<Tree, SyncError>
    decreases path.len(),
{
    if path.len() == 0 {
        merge_node(Some(t), src)
    } else {
        match t {
            Tree::File { .. } => Err(SyncError::DestinationBlocked),
            Tree::Dir { entries } => {
                if path.len() == 1 {
                    match merge_node(dir_lookup(entries, path[0]), src) {
                        Ok(n) => Ok(Tree::Dir { entries: dir_insert(entries, path[0], n) }),
                        Err(e) => Err(e),
                    }
                } else {
                    let sub = match dir_lookup(entries, path[0]) {
                        Some(s) => s,
                        None => Tree::Dir { entries: Seq::empty() },
                    };
                    match place_at(sub, path.drop_first(), src) {
                        Ok(n) => Ok(Tree::Dir { entries: dir_insert(entries, path[0], n) }),
                        Err(e) => Err(e),
                    }
                }
            },
        }
    }
}

/// The whole synchronization: the node at the source path, placed at the
/// destination path.
pub open spec fn sync_spec(root: Tree, src: Seq<Seq<char>>, dst: Seq<Seq<char>>) -> Result<
    Tree,
    SyncError,
> {
    match lookup(root, src) {
        Some(node) => place_at(root, dst, node),
        None => Err(SyncError::SourceMissing),
    }
}

/// After an insert, the inserted name holds the inserted node and every
/// other name holds what it held before.
pub proof fn lemma_dir_insert_lookup(
    es: Seq<(Seq<char>, Tree)>,
    name: Seq<char>,
    node: Tree,
    other: Seq<char>,
)
    ensures
        dir_lookup(dir_insert(es, name, node), name) == Some(node),
        other != name ==> dir_lookup(dir_insert(es, name, node), other) == dir_lookup(es, other),
    decreases es.len(),
{
    if es.len() == 0 {
        let r = seq![(name, node)];
        assert(r[0] == (name, node));
        if other != name {
            assert(dir_lookup(r, other) == dir_lookup(r.drop_first(), other));
            assert(r.drop_first().len() == 0);
            assert(dir_lookup(r.drop_first(), other) is None);
        }
    } else if es[0].0 == name {
        let r = seq![(name, node)] + es.drop_first();
        assert(r[0] == (name, node));
        assert(r.drop_first() =~~= es.drop_first());
        if other != name {
            assert(dir_lookup(r, other) == dir_lookup(es.drop_first(), other));
            assert(dir_lookup(es, other) == dir_lookup(es.drop_first(), other));
        }
    } else {
        let r = seq![es[0]] + dir_insert(es.drop_first(), name, node);
        assert(r[0] == es[0]);
        assert(r.drop_first() =~~= dir_insert(es.drop_first(), name, node));
        lemma_dir_insert_lookup(es.drop_first(), name, node, other);
        if other != name {
            if es[0].0 == other {
                assert(dir_lookup(r, other) == Some(es[0].1));
                assert(dir_lookup(es, other) == Some(es[0].1));
            } else {
                assert(dir_lookup(r, other) == dir_lookup(r.drop_first(), other));
                assert(dir_lookup(es, other) == dir_lookup(es.drop_first(), other));
            }
        }
    }
}

/// Inserting the node a name already holds, at its first occurrence,
/// leaves the entry list unchanged.
pub proof fn lemma_dir_insert_existing(es: Seq<(Seq<char>, Tree)>, name: Seq<char>, node: Tree)
    requires
        dir_lookup(es, name) == Some(node),
    ensures
        dir_insert(es, name, node) == es,
    decreases es.len(),
{
    if es.len() > 0 {
        if es[0].0 == name {
            assert(es[0] == (name, node));
            assert(seq![(name, node)] + es.drop_first() =~~= es);
        } else {
            lemma_dir_insert_existing(es.drop_first(), name, node);
            assert(seq![es[0]] + es.drop_first() =~~= es);
        }
    }
}

/// Every node a well-formed tree holds at some path is well-formed.
pub proof fn lemma_lookup_wf(t: Tree, path: Seq<Seq<char>>)
    requires
        tree_wf(t),
        lookup(t, path) is Some,
    ensures
        tree_wf(lookup(t, path)->Some_0),
    decreases path.len(),
{
    if path.len() > 0 {
        match t {
            Tree::File { .. } => {},
            Tree::Dir { entries } => {
                let sub = dir_lookup(entries, path[0])->Some_0;
                lemma_dir_lookup_is_entry(entries, path[0]);
                lemma_lookup_wf(sub, path.drop_first());
            },
        }
    }
}

/// In an entry list with pairwise distinct names, looking any entry's
/// name up yields that entry's node.
proof fn lemma_dir_lookup_unique(es: Seq<(Seq<char>, Tree)>, i: int)
    requires
        forall|a: int, b: int|
            0 <= a < b < es.len() ==> (#[trigger] es[a]).0 != (#[trigger] es[b]).0,
        0 <= i < es.len(),
    ensures
        dir_lookup(es, es[i].0) == Some(es[i].1),
    decreases es.len(),
{
    if i > 0 {
        assert(es[0].0 != es[i].0);
        assert(forall|a: int, b: int|
            0 <= a < b < es.drop_first().len() ==> (#[trigger] es.drop_first()[a]).0 != (
            #[trigger] es.drop_first()[b]).0) by {
            assert(forall|a: int|
                0 <= a < es.drop_first().len() ==> #[trigger] es.drop_first()[a] == es[a + 1]);
        }
        lemma_dir_lookup_unique(es.drop_first(), i - 1);
        assert(es.drop_first()[i - 1] == es[i]);
    }
}

/// Merging a well-formed tree onto a location already holding that very
/// tree succeeds and leaves it as it is.
pub proof fn lemma_merge_node_self(t: Tree)
    requires
        tree_wf(t),
    ensures
        merge_node(Some(t), t) == Ok::<Tree, SyncError>(t),
    decreases t,
{
    match t {
        Tree::File { .. } => {},
        Tree::Dir { entries } => {
            assert(forall|i: int|
                0 <= i < entries.len() ==> dir_lookup(entries, (#[trigger] entries[i]).0) == Some(
                    entries[i].1,
                )) by {
                assert forall|i: int| 0 <= i < entries.len() implies dir_lookup(
                    entries,
                    (#[trigger] entries[i]).0,
                ) == Some(entries[i].1) by {
                    lemma_dir_lookup_unique(entries, i);
                }
            }
            lemma_merge_entries_present(entries, entries);
        },
    }
}

/// Merging source entries each of which the destination already holds,
/// with the same well-formed node, leaves the destination as it is.
proof fn lemma_merge_entries_present(dst: Seq<(Seq<char>, Tree)>, src: Seq<(Seq<char>, Tree)>)
    requires
        forall|i: int|
            0 <= i < src.len() ==> dir_lookup(dst, (#[trigger] src[i]).0) == Some(src[i].1),
        forall|i: int| 0 <= i < src.len() ==> tree_wf((#[trigger] src[i]).1),
    ensures
        merge_entries(dst, src) == Ok::<Seq<(Seq<char>, Tree)>, SyncError>(dst),
    decreases src,
{
    if src.len() > 0 {
        lemma_merge_node_self(src[0].1);
        lemma_dir_insert_existing(dst, src[0].0, src[0].1);
        assert(forall|i: int|
            0 <= i < src.drop_first().len() ==> #[trigger] src.drop_first()[i] == src[i + 1]);
        lemma_merge_entries_present(dst, src.drop_first());
    }
}

/// Placing a copy where nothing stood puts exactly that copy there.
pub proof fn lemma_place_at_fresh(t: Tree, path: Seq<Seq<char>>, src: Tree)
    requires
        path.len() > 0,
        lookup(t, path) is None,
        place_at(t, path, src) is Ok,
    ensures
        lookup(place_at(t, path, src)->Ok_0, path) == Some(src),
    decreases path.len(),
{
    match t {
        Tree::File { .. } => {
            assert(place_at(t, path, src) is Err);
        },
        Tree::Dir { entries } => {
            let p0 = path[0];
            if path.len() == 1 {
                assert(path.drop_first().len() == 0);
                assert(dir_lookup(entries, p0) is None) by {
                    if let Some(s) = dir_lookup(entries, p0) {
                        assert(lookup(t, path) == lookup(s, path.drop_first()));
                        assert(lookup(s, path.drop_first()) == Some(s));
                    }
                }
                let n = merge_node(dir_lookup(entries, p0), src)->Ok_0;
                assert(n == src);
                lemma_dir_insert_lookup(entries, p0, n, p0);
                let r = place_at(t, path, src)->Ok_0;
                assert(r == Tree::Dir { entries: dir_insert(entries, p0, n) });
                assert(lookup(n, path.drop_first()) == Some(n));
                assert(lookup(r, path) == Some(src));
            } else {
                let sub = match dir_lookup(entries, p0) {
                    Some(s) => s,
                    None => Tree::Dir { entries: Seq::empty() },
                };
                assert(lookup(sub, path.drop_first()) is None) by {
                    match dir_lookup(entries, p0) {
                        Some(s) => {
                            assert(lookup(t, path) == lookup(s, path.drop_first()));
                        },
                        None => {
                            assert(path.drop_first().len() > 0);
                            assert(dir_lookup(Seq::empty(), path.drop_first()[0]) is None);
                        },
                    }
                }
                lemma_place_at_fresh(sub, path.drop_first(), src);
                let n = place_at(sub, path.drop_first(), src)->Ok_0;
                lemma_dir_insert_lookup(entries, p0, n, p0);
                let r = place_at(t, path, src)->Ok_0;
                assert(r == Tree::Dir { entries: dir_insert(entries, p0, n) });
                assert(lookup(r, path) == lookup(n, path.drop_first()));
            }
        },
    }
}

/// Placement touches nothing off its path: any path that neither lies
/// under the destination nor leads to it keeps its node.
pub proof fn lemma_place_at_frame(t: Tree, path: Seq<Seq<char>>, src: Tree, p: Seq<Seq<char>>)
    requires
        path.len() > 0,
        place_at(t, path, src) is Ok,
        !is_prefix_of(p, path),
        !is_prefix_of(path, p),
    ensures
        lookup(place_at(t, path, src)->Ok_0, p) == lookup(t, p),
    decreases path.len(),
{
    assert(p.len() > 0) by {
        if p.len() == 0 {
            assert(p =~= path.take(0));
        }
    }
    match t {
        Tree::File { .. } => {
            assert(place_at(t, path, src) is Err);
        },
        Tree::Dir { entries } => {
            let p0 = path[0];
            if p[0] != p0 {
                if path.len() == 1 {
                    let n = merge_node(dir_lookup(entries, p0), src)->Ok_0;
                    lemma_dir_insert_lookup(entries, p0, n, p[0]);
                } else {
                    let sub = match dir_lookup(entries, p0) {
                        Some(s) => s,
                        None => Tree::Dir { entries: Seq::empty() },
                    };
                    let n = place_at(sub, path.drop_first(), src)->Ok_0;
                    lemma_dir_insert_lookup(entries, p0, n, p[0]);
                }
            } else {
                assert(path.len() > 1) by {
                    if path.len() == 1 {
                        if p.len() == 1 {
                            assert(p =~= path.take(1));
                        } else {
                            assert(path =~= p.take(1));
                        }
                    }
                }
                assert(p.len() > 1) by {
                    if p.len() == 1 {
                        assert(p =~= path.take(1));
                    }
                }
                assert(!is_prefix_of(p.drop_first(), path.drop_first())) by {
                    if is_prefix_of(p.drop_first(), path.drop_first()) {
                        assert forall|i: int| 1 <= i < p.len() implies p[i] == path[i] by {
                            assert(p[i] == p.drop_first()[i - 1]);
                            assert(p.drop_first()[i - 1] == path.drop_first().take(p.len() - 1)[i
                                - 1]);
                            assert(path.drop_first()[i - 1] == path[i]);
                        }
                        assert(p =~= path.take(p.len() as int));
                    }
                }
                assert(!is_prefix_of(path.drop_first(), p.drop_first())) by {
                    if is_prefix_of(path.drop_first(), p.drop_first()) {
                        assert forall|i: int| 1 <= i < path.len() implies path[i] == p[i] by {
                            assert(path[i] == path.drop_first()[i - 1]);
                            assert(path.drop_first()[i - 1] == p.drop_first().take(path.len()
                                - 1)[i - 1]);
                            assert(p.drop_first()[i - 1] == p[i]);
                        }
                        assert(path =~= p.take(path.len() as int));
                    }
                }
                let sub = match dir_lookup(entries, p0) {
                    Some(s) => s,
                    None => Tree::Dir { entries: Seq::empty() },
                };
                lemma_place_at_frame(sub, path.drop_first(), src, p.drop_first());
                let n = place_at(sub, path.drop_first(), src)->Ok_0;
                lemma_dir_insert_lookup(entries, p0, n, p0);
                if dir_lookup(entries, p0) is None {
                    assert(dir_lookup(Seq::empty(), p.drop_first()[0]) is None);
                    assert(lookup(sub, p.drop_first()) is None);
                    assert(lookup(t, p) is None);
                }
            }
        },
    }
}

/// Placing a well-formed copy onto a location already holding that very
/// content succeeds and leaves the location's node as it was.
pub proof fn lemma_place_at_onto_same(t: Tree, path: Seq<Seq<char>>, node: Tree)
    requires
        path.len() > 0,
        lookup(t, path) == Some(node),
        tree_wf(node),
    ensures
        place_at(t, path, node) is Ok,
        lookup(place_at(t, path, node)->Ok_0, path) == Some(node),
    decreases path.len(),
{
    match t {
        Tree::File { .. } => {
            assert(lookup(t, path) is None);
        },
        Tree::Dir { entries } => {
            let p0 = path[0];
            assert(dir_lookup(entries, p0) is Some) by {
                if dir_lookup(entries, p0) is None {
                    assert(lookup(t, path) is None);
                }
            }
            let sub = dir_lookup(entries, p0)->Some_0;
            assert(lookup(t, path) == lookup(sub, path.drop_first()));
            if path.len() == 1 {
                assert(path.drop_first().len() == 0);
                assert(lookup(sub, path.drop_first()) == Some(sub));
                assert(dir_lookup(entries, p0) == Some(node));
                lemma_merge_node_self(node);
                lemma_dir_insert_lookup(entries, p0, node, p0);
            } else {
                lemma_place_at_onto_same(sub, path.drop_first(), node);
                let n = place_at(sub, path.drop_first(), node)->Ok_0;
                lemma_dir_insert_lookup(entries, p0, n, p0);
            }
        },
    }
}

/// Placement succeeds whenever no file stands on or along the
/// destination path: directories there are merged into, and missing ones
/// are created.
pub proof fn lemma_place_at_ok(t: Tree, path: Seq<Seq<char>>, src: Tree)
    requires
        path.len() > 0,
        forall|k: int|
            0 <= k < path.len() ==> !(#[trigger] lookup(t, path.take(k)) matches Some(
                Tree::File { .. },
            )),
        lookup(t, path) is None,
    ensures
        place_at(t, path, src) is Ok,
    decreases path.len(),
{
    assert(path.take(0) =~~= Seq::<Seq<char>>::empty());
    assert(lookup(t, path.take(0)) == Some(t));
    match t {
        Tree::File { .. } => {
            assert(false);
        },
        Tree::Dir { entries } => {
            let p0 = path[0];
            if path.len() == 1 {
                assert(dir_lookup(entries, p0) is None) by {
                    if let Some(s) = dir_lookup(entries, p0) {
                        assert(path.drop_first().len() == 0);
                        assert(lookup(t, path) == lookup(s, path.drop_first()));
                        assert(lookup(s, path.drop_first()) == Some(s));
                    }
                }
                assert(merge_node(dir_lookup(entries, p0), src) is Ok);
            } else {
                let sub = match dir_lookup(entries, p0) {
                    Some(s) => s,
                    None => Tree::Dir { entries: Seq::empty() },
                };
                let tail = path.drop_first();
                match dir_lookup(entries, p0) {
                    Some(s) => {
                        assert(path.take(1).len() == 1);
                        assert(path.take(1)[0] == p0);
                        assert(path.take(1).drop_first().len() == 0);
                        assert(lookup(t, path.take(1)) == lookup(s, path.take(1).drop_first()));
                        assert(lookup(s, path.take(1).drop_first()) == Some(s));
                        assert(!(s matches Tree::File { .. }));
                        assert forall|k: int| 0 <= k < tail.len() implies !(
                        #[trigger] lookup(sub, tail.take(k)) matches Some(Tree::File { .. })) by {
                            assert(path.take(k + 1)[0] == p0);
                            assert(path.take(k + 1).drop_first() =~~= tail.take(k));
                            assert(lookup(t, path.take(k + 1)) == lookup(sub, tail.take(k)));
                        }
                        assert(lookup(t, path) == lookup(sub, tail));
                        lemma_place_at_ok(sub, tail, src);
                    },
                    None => {
                        assert forall|k: int| 0 <= k < tail.len() implies !(
                        #[trigger] lookup(sub, tail.take(k)) matches Some(Tree::File { .. })) by {
                            if k > 0 {
                                assert(tail.take(k).len() > 0);
                                assert(dir_lookup(Seq::empty(), tail.take(k)[0]) is None);
                            } else {
                                assert(tail.take(0) =~~= Seq::<Seq<char>>::empty());
                                assert(lookup(sub, tail.take(0)) == Some(sub));
                            }
                        }
                        assert(tail.len() > 0);
                        assert(dir_lookup(Seq::empty(), tail[0]) is None);
                        assert(lookup(sub, tail) is None);
                        lemma_place_at_ok(sub, tail, src);
                    },
                }
            }
        },
    }
}

/// The synchronization succeeds whenever the source exists and no file
/// stands on or along the destination path.
pub proof fn lemma_sync_ok(root: Tree, src: Seq<Seq<char>>, dst: Seq<Seq<char>>)
    requires
        dst.len() > 0,
        lookup(root, src) is Some,
        lookup(root, dst) is None,
        forall|k: int|
            0 <= k < dst.len() ==> !(#[trigger] lookup(root, dst.take(k)) matches Some(
                Tree::File { .. },
            )),
    ensures
        sync_spec(root, src, dst) is Ok,
{
    lemma_place_at_ok(root, dst, lookup(root, src)->Some_0);
}

/// Backing a node up to a fresh destination and then applying the backup
/// onto its original location restores the node exactly: with the source
/// present, the destination free and not overlapping the source, and no
/// file standing along the destination path, the backup succeeds, the
/// apply succeeds, and the round trip leaves byte-identical content at
/// the source path, for files and for directory trees alike.
pub proof fn lemma_backup_then_apply_round_trip(
    root: Tree,
    src: Seq<Seq<char>>,
    dst: Seq<Seq<char>>,
)
    requires
        tree_wf(root),
        lookup(root, src) is Some,
        lookup(root, dst) is None,
        src.len() > 0,
        dst.len() > 0,
        !is_prefix_of(src, dst),
        !is_prefix_of(dst, src),
        forall|k: int|
            0 <= k < dst.len() ==> !(#[trigger] lookup(root, dst.take(k)) matches Some(
                Tree::File { .. },
            )),
    ensures
        sync_spec(root, src, dst) is Ok,
        ({
            let backed = sync_spec(root, src, dst)->Ok_0;
            &&& sync_spec(backed, dst, src) is Ok
            &&& lookup(sync_spec(backed, dst, src)->Ok_0, src) == lookup(root, src)
        }),
{
    lemma_sync_ok(root, src, dst);
    let node = lookup(root, src)->Some_0;
    let backed = sync_spec(root, src, dst)->Ok_0;
    lemma_lookup_wf(root, src);
    lemma_place_at_fresh(root, dst, node);
    assert(lookup(backed, dst) == Some(node));
    lemma_place_at_frame(root, dst, node, src);
    assert(lookup(backed, src) == Some(node));
    lemma_place_at_onto_same(backed, src, node);
}

/// A successful name lookup yields one of the entries' nodes.
proof fn lemma_dir_lookup_is_entry(es: Seq<(Seq<char>, Tree)>, name: Seq<char>)
    requires
        dir_lookup(es, name) is Some,
    ensures
        exists|i: int|
            0 <= i < es.len() && #[trigger] es[i] == (name, dir_lookup(es, name)->Some_0),
    decreases es.len(),
{
    if es.len() > 0 && es[0].0 != name {
        lemma_dir_lookup_is_entry(es.drop_first(), name);
        let i = choose|i: int|
            0 <= i < es.drop_first().len() && #[trigger] es.drop_first()[i] == (
                name,
                dir_lookup(es.drop_first(), name)->Some_0,
            );
        assert(es[i + 1] == es.drop_first()[i]);
    }
}


/// The values of a list of directory entries, elementwise.
pub proof fn lemma_entries_of_index(es: Seq<FsEntry>)
    ensures
        entries_of(es).len() == es.len(),
        forall|i: int|
            0 <= i < es.len() ==> entries_of(es)[i] == ((#[trigger] es[i]).name@, tree_of(
                es[i].node,
            )),
    decreases es,
{
    if es.len() > 0 {
        lemma_entries_of_index(es.drop_first());
        let head = seq![(es[0].name@, tree_of(es[0].node))];
        assert forall|i: int| 0 <= i < es.len() implies entries_of(es)[i] == ((
        #[trigger] es[i]).name@, tree_of(es[i].node)) by {
            if i == 0 {
                assert(entries_of(es)[0] == head[0]);
            } else {
                assert(entries_of(es)[i] == entries_of(es.drop_first())[i - 1]);
                assert(es.drop_first()[i - 1] == es[i]);
            }
        }
    }
}

/// A name lookup resolves to the first entry of that name: present at a
/// first position, it yields that position's node; absent, nothing.
proof fn lemma_dir_lookup_at_first(es: Seq<(Seq<char>, Tree)>, name: Seq<char>, i: int)
    requires
        0 <= i <= es.len(),
        forall|j: int| 0 <= j < i ==> (#[trigger] es[j]).0 != name,
        i < es.len() ==> es[i].0 == name,
    ensures
        i < es.len() ==> dir_lookup(es, name) == Some(es[i].1),
        i == es.len() ==> dir_lookup(es, name) is None,
    decreases es.len(),
{
    if es.len() > 0 && i > 0 {
        assert(forall|j: int|
            0 <= j < es.drop_first().len() ==> #[trigger] es.drop_first()[j] == es[j + 1]);
        lemma_dir_lookup_at_first(es.drop_first(), name, i - 1);
    }
}

/// An insert lands at the first position of its name: present at a first
/// position, the entry there is replaced; absent, the entry is appended.
proof fn lemma_dir_insert_at_first(es: Seq<(Seq<char>, Tree)>, name: Seq<char>, node: Tree, i: int)
    requires
        0 <= i <= es.len(),
        forall|j: int| 0 <= j < i ==> (#[trigger] es[j]).0 != name,
        i < es.len() ==> es[i].0 == name,
    ensures
        i < es.len() ==> dir_insert(es, name, node) == es.update(i, (name, node)),
        i == es.len() ==> dir_insert(es, name, node) == es.push((name, node)),
    decreases es.len(),
{
    if es.len() == 0 {
        assert(dir_insert(es, name, node) =~~= es.push((name, node)));
    } else if i == 0 {
        assert(dir_insert(es, name, node) =~~= es.update(0, (name, node)));
    } else {
        assert(forall|j: int|
            0 <= j < es.drop_first().len() ==> #[trigger] es.drop_first()[j] == es[j + 1]);
        lemma_dir_insert_at_first(es.drop_first(), name, node, i - 1);
        if i < es.len() {
            assert(dir_insert(es, name, node) =~~= es.update(i, (name, node))) by {
                assert(dir_insert(es, name, node) == seq![es[0]] + dir_insert(
                    es.drop_first(),
                    name,
                    node,
                ));
                assert(dir_insert(es.drop_first(), name, node) == es.drop_first().update(
                    i - 1,
                    (name, node),
                ));
            }
        } else {
            assert(dir_insert(es, name, node) =~~= es.push((name, node))) by {
                assert(dir_insert(es, name, node) == seq![es[0]] + dir_insert(
                    es.drop_first(),
                    name,
                    node,
                ));
                assert(dir_insert(es.drop_first(), name, node) == es.drop_first().push(
                    (name, node),
                ));
            }
        }
    }
}

/// A name lookup over an entry list's value, resolved at the first entry
/// of that name.
proof fn lemma_entries_lookup_at(es: Seq<FsEntry>, name: Seq<char>, i: int)
    requires
        0 <= i <= es.len(),
        forall|j: int| 0 <= j < i ==> (#[trigger] es[j]).name@ != name,
        i < es.len() ==> es[i].name@ == name,
    ensures
        i < es.len() ==> dir_lookup(entries_of(es), name) == Some(tree_of(es[i].node)),
        i == es.len() ==> dir_lookup(entries_of(es), name) is None,
{
    lemma_entries_of_index(es);
    assert forall|j: int| 0 <= j < i implies (#[trigger] entries_of(es)[j]).0 != name by {
        assert(entries_of(es)[j] == (es[j].name@, tree_of(es[j].node)));
    }
    if i < es.len() {
        assert(entries_of(es)[i] == (es[i].name@, tree_of(es[i].node)));
    }
    lemma_dir_lookup_at_first(entries_of(es), name, i);
}

/// An insert into an entry list's value, resolved at the first entry of
/// its name.
proof fn lemma_entries_insert_at(es: Seq<FsEntry>, name: Seq<char>, node: Tree, i: int)
    requires
        0 <= i <= es.len(),
        forall|j: int| 0 <= j < i ==> (#[trigger] es[j]).name@ != name,
        i < es.len() ==> es[i].name@ == name,
    ensures
        i < es.len() ==> dir_insert(entries_of(es), name, node) == entries_of(es).update(
            i,
            (name, node),
        ),
        i == es.len() ==> dir_insert(entries_of(es), name, node) == entries_of(es).push(
            (name, node),
        ),
{
    lemma_entries_of_index(es);
    assert forall|j: int| 0 <= j < i implies (#[trigger] entries_of(es)[j]).0 != name by {
        assert(entries_of(es)[j] == (es[j].name@, tree_of(es[j].node)));
    }
    if i < es.len() {
        assert(entries_of(es)[i] == (es[i].name@, tree_of(es[i].node)));
    }
    lemma_dir_insert_at_first(entries_of(es), name, node, i);
}

/// The value behind an optional node reference.
pub open spec fn opt_tree(o: Option<&FsNode>) -> Option<Tree> {
    match o {
        Some(n) => Some(tree_of(*n)),
        None => None,
    }
}

/// Clones a byte vector.
fn clone_bytes(v: &Vec<u8>) -> (r: Vec<u8>)
    ensures
        r@ == v@,
{
    let mut r: Vec<u8> = Vec::new();
    let mut i: usize = 0;
    while i < v.len()
        invariant
            0 <= i <= v.len(),
            r@ =~= v@.take(i as int),
        decreases v.len() - i,
    {
        r.push(v[i]);
        proof {
            assert(r@ =~= v@.take(i + 1));
        }
        i = i + 1;
    }
    proof {
        assert(v@.take(v.len() as int) =~= v@);
    }
    r
}

/// A deep copy of a node, with the same value.
pub fn copy_node(n: &FsNode) -> (r: FsNode)
    ensures
        tree_of(r) == tree_of(*n),
    decreases *n,
{
    match n {
        FsNode::File { data } => FsNode::File { data: clone_bytes(data) },
        FsNode::Dir { entries } => {
            proof {
                assert(decreases_to!(*n => *entries));
            }
            let copied = copy_entries(entries);
            FsNode::Dir { entries: copied }
        },
    }
}

/// A deep copy of an entry list, with the same values.
fn copy_entries(es: &Vec<FsEntry>) -> (r: Vec<FsEntry>)
    ensures
        r@.len() == es@.len(),
        forall|i: int|
            0 <= i < es@.len() ==> (#[trigger] r@[i]).name@ == es@[i].name@ && tree_of(r@[i].node)
                == tree_of(es@[i].node),
        entries_of(r@) == entries_of(es@),
    decreases *es,
{
    let mut r: Vec<FsEntry> = Vec::new();
    let mut i: usize = 0;
    while i < es.len()
        invariant
            0 <= i <= es.len(),
            r@.len() == i,
            forall|j: int|
                0 <= j < i ==> (#[trigger] r@[j]).name@ == es@[j].name@ && tree_of(r@[j].node)
                    == tree_of(es@[j].node),
        decreases es.len() - i,
    {
        proof {
            assert(decreases_to!(*es => es@));
            assert(decreases_to!(es@ => es@[i as int]));
            assert(decreases_to!(es@[i as int] => es@[i as int].node));
        }
        let node = copy_node(&es[i].node);
        let name = es[i].name.clone();
        r.push(FsEntry { name, node });
        i = i + 1;
    }
    proof {
        lemma_entries_of_index(r@);
        lemma_entries_of_index(es@);
        assert forall|j: int| 0 <= j < es@.len() implies entries_of(r@)[j] == entries_of(es@)[j] by {
            assert(entries_of(r@)[j] == (r@[j].name@, tree_of(r@[j].node)));
            assert(entries_of(es@)[j] == (es@[j].name@, tree_of(es@[j].node)));
        }
        assert(entries_of(r@) =~~= entries_of(es@));
    }
    r
}

/// The node an entry list holds under the given name.
fn dir_lookup_exec<'a>(entries: &'a Vec<FsEntry>, name: &String) -> (r: Option<&'a FsNode>)
    ensures
        opt_tree(r) == dir_lookup(entries_of(entries@), name@),
{
    proof {
        lemma_entries_of_index(entries@);
    }
    let mut i: usize = 0;
    while i < entries.len()
        invariant
            0 <= i <= entries.len(),
            forall|j: int| 0 <= j < i ==> (#[trigger] entries@[j]).name@ != name@,
        decreases entries.len() - i,
    {
        if entries[i].name == *name {
            proof {
                lemma_entries_lookup_at(entries@, name@, i as int);
            }
            return Some(&entries[i].node);
        }
        i = i + 1;
    }
    proof {
        lemma_entries_lookup_at(entries@, name@, entries@.len() as int);
    }
    None
}

/// The entry list with the given node bound to the given name.
fn dir_insert_exec(es: Vec<FsEntry>, name: &String, node: FsNode) -> (r: Vec<FsEntry>)
    ensures
        entries_of(r@) == dir_insert(entries_of(es@), name@, tree_of(node)),
{
    let ghost es0 = es@;
    let mut cur = es;
    let mut i: usize = 0;
    while i < cur.len()
        invariant
            0 <= i <= cur.len(),
            es0 == es@,
            cur@ == es0,
            forall|j: int| 0 <= j < i ==> (#[trigger] cur@[j]).name@ != name@,
        decreases cur.len() - i,
    {
        if cur[i].name == *name {
            proof {
                lemma_entries_insert_at(es0, name@, tree_of(node), i as int);
            }
            cur[i] = FsEntry { name: name.clone(), node };
            proof {
                lemma_entries_of_index(es0);
                lemma_entries_of_index(cur@);
                assert(cur@ == es0.update(i as int, cur@[i as int]));
                assert(cur@[i as int].name@ == name@);
                assert(cur@[i as int].node == node);
                assert forall|j: int|
                    0 <= j < cur@.len() implies entries_of(cur@)[j] == entries_of(es0).update(
                    i as int,
                    (name@, tree_of(node)),
                )[j] by {
                    assert(entries_of(cur@)[j] == (cur@[j].name@, tree_of(cur@[j].node)));
                    if j != i {
                        assert(cur@[j] == es0[j]);
                        assert(entries_of(es0)[j] == (es0[j].name@, tree_of(es0[j].node)));
                    }
                }
                assert(entries_of(cur@) =~~= entries_of(es0).update(
                    i as int,
                    (name@, tree_of(node)),
                ));
            }
            return cur;
        }
        i = i + 1;
    }
    proof {
        lemma_entries_insert_at(es0, name@, tree_of(node), es0.len() as int);
    }
    cur.push(FsEntry { name: name.clone(), node });
    proof {
        lemma_entries_of_index(es0);
        lemma_entries_of_index(cur@);
        let ghost n = es0.len() as int;
        assert(cur@ == es0.push(cur@[n]));
        assert(cur@[n].name@ == name@);
        assert(cur@[n].node == node);
        assert forall|j: int|
            0 <= j < cur@.len() implies entries_of(cur@)[j] == entries_of(es0).push(
            (name@, tree_of(node)),
        )[j] by {
            assert(entries_of(cur@)[j] == (cur@[j].name@, tree_of(cur@[j].node)));
            if j != n {
                assert(cur@[j] == es0[j]);
                assert(entries_of(es0)[j] == (es0[j].name@, tree_of(es0[j].node)));
            }
        }
        assert(entries_of(cur@) =~~= entries_of(es0).push((name@, tree_of(node))));
    }
    cur
}


/// A copy of the source node merged onto what a location already holds,
/// as `merge_node` describes.
fn merge_node_exec(dst: Option<&FsNode>, src: &FsNode) -> (r: Result<FsNode, SyncError>)
    ensures
        match r {
            Ok(m) => merge_node(opt_tree(dst), tree_of(*src)) == Ok::<Tree, SyncError>(tree_of(m)),
            Err(e) => merge_node(opt_tree(dst), tree_of(*src)) == Err::<Tree, SyncError>(e),
        },
    decreases *src,
{
    match src {
        FsNode::File { data } => match dst {
            Some(FsNode::Dir { .. }) => Err(SyncError::DestinationBlocked),
            _ => Ok(FsNode::File { data: clone_bytes(data) }),
        },
        FsNode::Dir { entries } => match dst {
            Some(FsNode::File { .. }) => Err(SyncError::DestinationBlocked),
            Some(FsNode::Dir { entries: des }) => {
                proof {
                    assert(decreases_to!(*src => *entries));
                }
                match merge_entries_exec(des, entries) {
                    Ok(m) => Ok(FsNode::Dir { entries: m }),
                    Err(e) => Err(e),
                }
            },
            None => Ok(copy_node(src)),
        },
    }
}

/// Source entries merged into a copy of a destination entry list, left
/// to right, as `merge_entries` describes.
fn merge_entries_exec(dst: &Vec<FsEntry>, src: &Vec<FsEntry>) -> (r: Result<
    Vec<FsEntry>,
    SyncError,
>)
    ensures
        match r {
            Ok(m) => merge_entries(entries_of(dst@), entries_of(src@)) == Ok::<
                Seq<(Seq<char>, Tree)>,
                SyncError,
            >(entries_of(m@)),
            Err(e) => merge_entries(entries_of(dst@), entries_of(src@)) == Err::<
                Seq<(Seq<char>, Tree)>,
                SyncError,
            >(e),
        },
    decreases *src,
{
    let ghost dst0 = entries_of(dst@);
    let ghost srcv = entries_of(src@);
    proof {
        lemma_entries_of_index(src@);
        assert(srcv.skip(0) =~~= srcv);
    }
    let mut cur = copy_entries(dst);
    let mut k: usize = 0;
    while k < src.len()
        invariant
            0 <= k <= src.len(),
            srcv == entries_of(src@),
            dst0 == entries_of(dst@),
            srcv.len() == src@.len(),
            forall|i: int|
                0 <= i < src@.len() ==> srcv[i] == ((#[trigger] src@[i]).name@, tree_of(
                    src@[i].node,
                )),
            merge_entries(dst0, srcv) == merge_entries(entries_of(cur@), srcv.skip(k as int)),
        decreases src.len() - k,
    {
        let ghost cur0 = entries_of(cur@);
        proof {
            assert(srcv.skip(k as int)[0] == srcv[k as int]);
            assert(srcv.skip(k as int).drop_first() =~~= srcv.skip(k + 1));
            assert(decreases_to!(*src => src@));
            assert(decreases_to!(src@ => src@[k as int]));
            assert(decreases_to!(src@[k as int] => src@[k as int].node));
        }
        let name = &src[k].name;
        let found = dir_lookup_exec(&cur, name);
        match merge_node_exec(found, &src[k].node) {
            Ok(m) => {
                let ghost mt = tree_of(m);
                cur = dir_insert_exec(cur, name, m);
                proof {
                    assert(entries_of(cur@) == dir_insert(cur0, name@, mt));
                    assert(merge_entries(cur0, srcv.skip(k as int)) == merge_entries(
                        entries_of(cur@),
                        srcv.skip(k + 1),
                    ));
                }
            },
            Err(e) => {
                proof {
                    assert(merge_entries(cur0, srcv.skip(k as int)) == Err::<
                        Seq<(Seq<char>, Tree)>,
                        SyncError,
                    >(e));
                }
                return Err(e);
            },
        }
        k = k + 1;
    }
    proof {
        assert(srcv.skip(src@.len() as int).len() == 0);
        assert(merge_entries(entries_of(cur@), srcv.skip(src@.len() as int)) == Ok::<
            Seq<(Seq<char>, Tree)>,
            SyncError,
        >(entries_of(cur@)));
    }
    Ok(cur)
}

/// A copy of the source node placed at the path's remaining segments
/// below `t`, as `place_at` describes.
fn place_at_exec(t: &FsNode, path: &Vec<String>, i: usize, src: &FsNode) -> (r: Result<
    FsNode,
    SyncError,
>)
    requires
        i <= path.len(),
    ensures
        match r {
            Ok(m) => place_at(tree_of(*t), path.deep_view().skip(i as int), tree_of(*src)) == Ok::<
                Tree,
                SyncError,
            >(tree_of(m)),
            Err(e) => place_at(tree_of(*t), path.deep_view().skip(i as int), tree_of(*src))
                == Err::<Tree, SyncError>(e),
        },
    decreases path.len() - i,
{
    let ghost p = path.deep_view().skip(i as int);
    proof {
        assert(p.len() == path@.len() - i);
    }
    if i == path.len() {
        merge_node_exec(Some(t), src)
    } else {
        match t {
            FsNode::File { .. } => Err(SyncError::DestinationBlocked),
            FsNode::Dir { entries } => {
                let name = &path[i];
                proof {
                    assert(p[0] == path.deep_view()[i as int]);
                    assert(path.deep_view()[i as int] == path@[i as int]@);
                }
                if i + 1 == path.len() {
                    let found = dir_lookup_exec(entries, name);
                    match merge_node_exec(found, src) {
                        Ok(n) => {
                            let ghost nt = tree_of(n);
                            let base = copy_entries(entries);
                            let inserted = dir_insert_exec(base, name, n);
                            proof {
                                assert(entries_of(inserted@) == dir_insert(
                                    entries_of(entries@),
                                    name@,
                                    nt,
                                ));
                            }
                            Ok(FsNode::Dir { entries: inserted })
                        },
                        Err(e) => Err(e),
                    }
                } else {
                    proof {
                        assert(p.drop_first() =~~= path.deep_view().skip(i + 1));
                    }
                    let sub_result = match dir_lookup_exec(entries, name) {
                        Some(sub) => place_at_exec(sub, path, i + 1, src),
                        None => {
                            let empty = FsNode::Dir { entries: Vec::new() };
                            proof {
                                assert(entries_of(empty->Dir_entries@) =~~= Seq::<
                                    (Seq<char>, Tree),
                                >::empty());
                                assert(tree_of(empty) == Tree::Dir {
                                    entries: Seq::<(Seq<char>, Tree)>::empty(),
                                });
                            }
                            place_at_exec(&empty, path, i + 1, src)
                        },
                    };
                    match sub_result {
                        Ok(n) => {
                            let ghost nt = tree_of(n);
                            let base = copy_entries(entries);
                            let inserted = dir_insert_exec(base, name, n);
                            proof {
                                assert(entries_of(inserted@) == dir_insert(
                                    entries_of(entries@),
                                    name@,
                                    nt,
                                ));
                            }
                            Ok(FsNode::Dir { entries: inserted })
                        },
                        Err(e) => Err(e),
                    }
                }
            },
        }
    }
}

/// The node at the given path below the root, or `None` when a step is
/// missing or leads through a file.
pub fn lookup_node<'a>(root: &'a FsNode, path: &Vec<String>) -> (r: Option<&'a FsNode>)
    ensures
        match r {
            Some(n) => lookup(tree_of(*root), path.deep_view()) == Some(tree_of(*n)),
            None => lookup(tree_of(*root), path.deep_view()) is None,
        },
{
    let ghost full = path.deep_view();
    proof {
        assert(full.skip(0) =~~= full);
    }
    let mut cur: &FsNode = root;
    let mut i: usize = 0;
    while i < path.len()
        invariant
            0 <= i <= path.len(),
            full == path.deep_view(),
            lookup(tree_of(*root), full) == lookup(tree_of(*cur), full.skip(i as int)),
        decreases path.len() - i,
    {
        proof {
            assert(full.skip(i as int).len() > 0);
            assert(full.skip(i as int)[0] == full[i as int]);
            assert(full[i as int] == path@[i as int]@);
            assert(full.skip(i as int).drop_first() =~~= full.skip(i + 1));
        }
        match cur {
            FsNode::File { .. } => {
                return None;
            },
            FsNode::Dir { entries } => {
                match dir_lookup_exec(entries, &path[i]) {
                    Some(n) => {
                        cur = n;
                    },
                    None => {
                        return None;
                    },
                }
            },
        }
        i = i + 1;
    }
    proof {
        assert(full.skip(path@.len() as int).len() == 0);
    }
    Some(cur)
}

/// Synchronizes the node at the source path onto the destination path
/// below the given root, returning the new root.
///
/// Both directions of the tool use this one placement: copying a
/// directory merges its children into the destination individually,
/// creating it when missing, exactly as the recursive copy does whether
/// it recreates a backup subtree or flattens contents onto an existing
/// live directory; a fresh destination receives an exact copy.
pub fn sync(root: &FsNode, source: &Vec<String>, destination: &Vec<String>) -> (r: Result<
    FsNode,
    SyncError,
>)
    ensures
        match r {
            Ok(m) => sync_spec(tree_of(*root), source.deep_view(), destination.deep_view())
                == Ok::<Tree, SyncError>(tree_of(m)),
            Err(e) => sync_spec(tree_of(*root), source.deep_view(), destination.deep_view())
                == Err::<Tree, SyncError>(e),
        },
{
    match lookup_node(root, source) {
        Some(node) => {
            proof {
                assert(destination.deep_view().skip(0) =~~= destination.deep_view());
            }
            place_at_exec(root, destination, 0, node)
        },
        None => Err(SyncError::SourceMissing),
    }
}

} // verus!
