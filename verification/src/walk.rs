//! The walk of the flows directory: which of the files below it hold flows,
//! and under which name prefix each of them lies.
//!
//! The library does not touch the file system. The caller looks at the flows
//! directory, lists it into a tree of `TreeEntry` where it is there, and asks
//! `import_tree` what to do: whether to create the directory, and which files
//! hold flows.

use crate::error::{IoStep, StoreError};
use crate::flow_name::{
    file_name_of, is_flow_file, is_flow_file_name, lemma_path_round_trip, name_of, path_of, plain,
    valid_segment,
};
use crate::text::{join, texts};
use vstd::prelude::*;

verus! {

/// What a directory holds under one name.
#[derive(Debug, PartialEq, Eq)]
pub enum TreeEntry {
    /// A file, by its name.
    File(String),
    /// A directory, by its name, with what it holds.
    Directory(String, Vec<TreeEntry>),
    /// A directory, by its name, that could not be listed, with the cause.
    Unlisted(String, String),
    /// An entry that could not be read at all, with the cause.
    Unreadable(String),
    /// Something that is neither a file nor a directory, by its name.
    Other(String),
}

/// What the caller found at the place of the flows directory.
#[derive(Debug, PartialEq, Eq)]
pub enum FlowsDir {
    /// There is nothing.
    Missing,
    /// There is something that is no directory.
    NotADirectory,
    /// There is a directory that could not be listed, with the cause.
    Unlisted(String),
    /// There is a directory, with what it holds.
    Directory(Vec<TreeEntry>),
}

/// A file that holds a flow: its path, as components below the flows
/// directory, and the name prefix that its directory stands for.
#[derive(Debug, PartialEq, Eq)]
pub struct FoundFlow {
    pub path: Vec<String>,
    pub prefix: String,
}

/// What is to be done about the flows directory: whether it is to be
/// created, the flow files that the walk found in it, in the order of the
/// walk, and the failure that ended the walk early, if one did.
#[derive(Debug, PartialEq, Eq)]
pub struct WalkPlan {
    pub create_root: bool,
    pub found: Vec<FoundFlow>,
    pub failure: Option<StoreError>,
}

/// What a found flow file means.
pub ghost struct Found {
    pub path: Seq<Seq<char>>,
    pub prefix: Seq<char>,
}

impl View for FoundFlow {
    type V = Found;

    open spec fn view(&self) -> Found {
        Found { path: texts(self.path@), prefix: self.prefix@ }
    }
}

/// The meaning of a list of found flow files.
pub open spec fn found_view(found: Seq<FoundFlow>) -> Seq<Found> {
    Seq::new(found.len(), |i: int| found[i]@)
}

/// The name prefix of a directory `name` that lies in a directory of prefix
/// `prefix`.
pub open spec fn extended(prefix: Seq<char>, name: Seq<char>) -> Seq<char> {
    if prefix.len() == 0 {
        name
    } else {
        prefix + seq!['/'] + name
    }
}

/// What the walk of one entry finds, and the failure that ends the walk at
/// it, if any. `dir` is the path of the directory that holds the entry and
/// `prefix` the name prefix of that directory.
pub open spec fn walked_entry(entry: TreeEntry, dir: Seq<Seq<char>>, prefix: Seq<char>) -> (
    Seq<Found>,
    Option<StoreError>,
)
    decreases entry, 0nat,
{
    match entry {
        TreeEntry::File(name) => if is_flow_file_name(name@) {
            (seq![Found { path: dir.push(name@), prefix }], None)
        } else {
            (Seq::empty(), None)
        },
        TreeEntry::Directory(name, entries) => walked(
            entries@,
            dir.push(name@),
            extended(prefix, name@),
        ),
        TreeEntry::Unlisted(_, cause) => (Seq::empty(), Some(StoreError::Io(IoStep::ReadDir, cause))),
        TreeEntry::Unreadable(cause) => (Seq::empty(), Some(StoreError::Io(IoStep::ReadEntry, cause))),
        TreeEntry::Other(_) => (Seq::empty(), None),
    }
}

/// What the walk of a directory finds: what the walk of each entry finds, in
/// order, up to and including the first entry at which the walk fails.
pub open spec fn walked(entries: Seq<TreeEntry>, dir: Seq<Seq<char>>, prefix: Seq<char>) -> (
    Seq<Found>,
    Option<StoreError>,
)
    decreases entries, 1nat,
{
    if entries.len() == 0 {
        (Seq::empty(), None)
    } else {
        let first = walked_entry(entries[0], dir, prefix);
        if first.1 is Some {
            first
        } else {
            let rest = walked(entries.drop_first(), dir, prefix);
            (first.0 + rest.0, rest.1)
        }
    }
}

/// Whether every directory of the entry, the entry included, has a name.
pub open spec fn named(entry: TreeEntry) -> bool
    decreases entry,
{
    match entry {
        TreeEntry::Directory(name, entries) => name@.len() > 0 && forall|i: int|
            0 <= i < entries@.len() ==> named(#[trigger] entries@[i]),
        _ => true,
    }
}

/// Whether a found file is a flow file whose name prefix is made of the
/// directories on its path, joined by `/`.
pub open spec fn well_found(found: Found) -> bool {
    &&& found.path.len() > 0
    &&& is_flow_file_name(found.path.last())
    &&& found.prefix == join(found.path.drop_last(), seq!['/'])
}

/// What the walk of an entry finds is well found, where the walk came to the
/// entry with the name prefix of its directory.
pub proof fn lemma_well_found_entry(entry: TreeEntry, dir: Seq<Seq<char>>, prefix: Seq<char>)
    requires
        named(entry),
        prefix == join(dir, seq!['/']),
        dir.len() > 0 ==> prefix.len() > 0,
    ensures
        forall|k: int|
            0 <= k < walked_entry(entry, dir, prefix).0.len() ==> well_found(
                #[trigger] walked_entry(entry, dir, prefix).0[k],
            ),
    decreases entry, 0nat,
{
    let glue = seq!['/'];
    match entry {
        TreeEntry::File(name) => {
            assert(dir.push(name@).drop_last() =~= dir);
            if is_flow_file_name(name@) {
                let only = Found { path: dir.push(name@), prefix };
                assert(walked_entry(entry, dir, prefix).0 == seq![only]);
                assert(well_found(only));
            } else {
                assert(walked_entry(entry, dir, prefix).0 == Seq::<Found>::empty());
            }
        },
        TreeEntry::Directory(name, entries) => {
            let inner = dir.push(name@);
            assert(inner.drop_last() =~= dir);
            if dir.len() == 0 {
                assert(join(dir, glue).len() == 0);
            }
            assert(extended(prefix, name@) == join(inner, glue));
            lemma_well_found(entries@, inner, extended(prefix, name@));
            assert(walked_entry(entry, dir, prefix) == walked(
                entries@,
                inner,
                extended(prefix, name@),
            ));
        },
        _ => {
            assert(walked_entry(entry, dir, prefix).0 == Seq::<Found>::empty());
        },
    }
}

/// What the walk of a directory finds is well found, where the walk came to
/// the directory with its name prefix. In particular what `import_tree` finds
/// is, where every directory has a name.
pub proof fn lemma_well_found(entries: Seq<TreeEntry>, dir: Seq<Seq<char>>, prefix: Seq<char>)
    requires
        forall|i: int| 0 <= i < entries.len() ==> named(#[trigger] entries[i]),
        prefix == join(dir, seq!['/']),
        dir.len() > 0 ==> prefix.len() > 0,
    ensures
        forall|k: int|
            0 <= k < walked(entries, dir, prefix).0.len() ==> well_found(
                #[trigger] walked(entries, dir, prefix).0[k],
            ),
    decreases entries, 1nat,
{
    if entries.len() > 0 {
        let first = walked_entry(entries[0], dir, prefix);
        lemma_well_found_entry(entries[0], dir, prefix);
        if first.1 is None {
            let rest = entries.drop_first();
            assert forall|i: int| 0 <= i < rest.len() implies named(#[trigger] rest[i]) by {
                assert(rest[i] == entries[i + 1]);
            }
            lemma_well_found(rest, dir, prefix);
            let later = walked(rest, dir, prefix);
            assert(walked(entries, dir, prefix).0 == first.0 + later.0);
            assert forall|k: int| 0 <= k < (first.0 + later.0).len() implies well_found(
                #[trigger] (first.0 + later.0)[k],
            ) by {
                if k < first.0.len() {
                    assert((first.0 + later.0)[k] == first.0[k]);
                } else {
                    assert((first.0 + later.0)[k] == later.0[k - first.0.len()]);
                }
            }
        } else {
            assert(walked(entries, dir, prefix) == first);
        }
    }
}

/// A flow is saved where the walk found it: where the directories on the
/// path of a well-found file and the stem `base` of the file are valid
/// segments without `/`, the name that the walk gives the flow is the name
/// whose path is the path of the file.
pub proof fn lemma_found_in_place(found: Found, base: Seq<char>)
    requires
        well_found(found),
        found.path.last() == file_name_of(base),
        valid_segment(base),
        plain(base),
        forall|i: int|
            0 <= i < found.path.len() - 1 ==> valid_segment(#[trigger] found.path[i]) && plain(
                found.path[i],
            ),
    ensures
        path_of(name_of(found.path.last(), found.prefix)) == found.path,
{
    let dirs = found.path.drop_last();
    assert forall|i: int| 0 <= i < dirs.len() implies valid_segment(#[trigger] dirs[i]) && plain(
        dirs[i],
    ) by {
        assert(dirs[i] == found.path[i]);
    }
    lemma_path_round_trip(dirs, base);
    assert(dirs.push(file_name_of(base)) =~= found.path);
}

/// Whether the entry holds a flow file at the path `rel`, which starts with
/// the entry's own name: the entry is that file, or a directory that holds
/// it at the rest of the path.
pub open spec fn entry_holds(entry: TreeEntry, rel: Seq<Seq<char>>) -> bool
    decreases rel.len(), 0nat,
{
    match entry {
        TreeEntry::File(name) => rel.len() == 1 && name@ == rel[0] && is_flow_file_name(rel[0]),
        TreeEntry::Directory(name, entries) => rel.len() > 1 && name@ == rel[0] && holds_flow_file(
            entries@,
            rel.drop_first(),
        ),
        _ => false,
    }
}

/// Whether a directory that holds `entries` holds a flow file at the path
/// `rel` below it.
pub open spec fn holds_flow_file(entries: Seq<TreeEntry>, rel: Seq<Seq<char>>) -> bool
    decreases rel.len(), 1nat,
{
    rel.len() > 0 && exists|i: int| 0 <= i < entries.len() && entry_holds(#[trigger] entries[i], rel)
}

/// The name under which a directory holds the entry, where the entry could
/// be read.
pub open spec fn entry_name(entry: TreeEntry) -> Option<Seq<char>> {
    match entry {
        TreeEntry::File(name) => Some(name@),
        TreeEntry::Directory(name, _) => Some(name@),
        TreeEntry::Unlisted(name, _) => Some(name@),
        TreeEntry::Other(name) => Some(name@),
        TreeEntry::Unreadable(_) => None,
    }
}

/// Whether no two of the entries have the same name.
pub open spec fn siblings_distinct(entries: Seq<TreeEntry>) -> bool {
    forall|i: int, j: int|
        0 <= i < j < entries.len() && entry_name(#[trigger] entries[i]) is Some ==> entry_name(
            entries[i],
        ) != entry_name(#[trigger] entries[j])
}

/// Whether no directory of the entry, the entry included, holds two entries
/// of the same name.
pub open spec fn names_distinct(entry: TreeEntry) -> bool
    decreases entry,
{
    match entry {
        TreeEntry::Directory(_, entries) => siblings_distinct(entries@) && forall|i: int|
            0 <= i < entries@.len() ==> names_distinct(#[trigger] entries@[i]),
        _ => true,
    }
}

/// Every file that the walk of an entry finds is a flow file that the entry
/// holds, at the place where the walk says.
pub proof fn lemma_found_is_held_entry(
    entry: TreeEntry,
    dir: Seq<Seq<char>>,
    prefix: Seq<char>,
    k: int,
)
    requires
        0 <= k < walked_entry(entry, dir, prefix).0.len(),
    ensures
        exists|rel: Seq<Seq<char>>| #[trigger]
            entry_holds(entry, rel) && walked_entry(entry, dir, prefix).0[k].path == dir + rel,
    decreases entry, 0nat,
{
    match entry {
        TreeEntry::File(name) => {
            let rel = seq![name@];
            assert(walked_entry(entry, dir, prefix).0 == seq![Found { path: dir.push(name@), prefix }]);
            assert(dir.push(name@) =~= dir + rel);
            assert(entry_holds(entry, rel));
        },
        TreeEntry::Directory(name, entries) => {
            let inner = dir.push(name@);
            let deeper = extended(prefix, name@);
            assert(walked_entry(entry, dir, prefix) == walked(entries@, inner, deeper));
            lemma_found_is_held(entries@, inner, deeper, k);
            let tail = choose|tail: Seq<Seq<char>>| #[trigger]
                holds_flow_file(entries@, tail) && walked(entries@, inner, deeper).0[k].path
                    == inner + tail;
            let rel = seq![name@] + tail;
            assert(rel.drop_first() =~= tail);
            assert(inner + tail =~= dir + rel);
            assert(entry_holds(entry, rel));
        },
        _ => {
            assert(walked_entry(entry, dir, prefix).0 == Seq::<Found>::empty());
        },
    }
}

/// Every file that the walk of a directory finds is a flow file that the
/// directory holds, at the place where the walk says.
pub proof fn lemma_found_is_held(entries: Seq<TreeEntry>, dir: Seq<Seq<char>>, prefix: Seq<char>, k: int)
    requires
        0 <= k < walked(entries, dir, prefix).0.len(),
    ensures
        exists|rel: Seq<Seq<char>>| #[trigger]
            holds_flow_file(entries, rel) && walked(entries, dir, prefix).0[k].path == dir + rel,
    decreases entries, 1nat,
{
    if entries.len() > 0 {
        let first = walked_entry(entries[0], dir, prefix);
        let rest = entries.drop_first();
        let later = walked(rest, dir, prefix);
        assert(walked(entries, dir, prefix) == if first.1 is Some {
            first
        } else {
            (first.0 + later.0, later.1)
        });
        if k < first.0.len() {
            lemma_found_is_held_entry(entries[0], dir, prefix, k);
            let rel = choose|rel: Seq<Seq<char>>| #[trigger]
                entry_holds(entries[0], rel) && first.0[k].path == dir + rel;
            assert(holds_flow_file(entries, rel));
        } else {
            let k2 = k - first.0.len();
            assert((first.0 + later.0)[k] == later.0[k2]);
            lemma_found_is_held(rest, dir, prefix, k2);
            let rel = choose|rel: Seq<Seq<char>>| #[trigger]
                holds_flow_file(rest, rel) && later.0[k2].path == dir + rel;
            let i = choose|i: int| 0 <= i < rest.len() && entry_holds(#[trigger] rest[i], rel);
            assert(rest[i] == entries[i + 1]);
            assert(holds_flow_file(entries, rel));
        }
    }
}

/// A walk of an entry that does not fail finds every flow file that the
/// entry holds.
pub proof fn lemma_held_is_found_entry(
    entry: TreeEntry,
    dir: Seq<Seq<char>>,
    prefix: Seq<char>,
    rel: Seq<Seq<char>>,
)
    requires
        entry_holds(entry, rel),
        walked_entry(entry, dir, prefix).1 is None,
    ensures
        exists|k: int|
            0 <= k < walked_entry(entry, dir, prefix).0.len() && (#[trigger] walked_entry(
                entry,
                dir,
                prefix,
            ).0[k]).path == dir + rel,
    decreases entry, 0nat,
{
    match entry {
        TreeEntry::File(name) => {
            assert(walked_entry(entry, dir, prefix).0 == seq![Found { path: dir.push(name@), prefix }]);
            assert(dir.push(name@) =~= dir + rel);
            assert(walked_entry(entry, dir, prefix).0[0].path == dir + rel);
        },
        TreeEntry::Directory(name, entries) => {
            let inner = dir.push(name@);
            let deeper = extended(prefix, name@);
            assert(walked_entry(entry, dir, prefix) == walked(entries@, inner, deeper));
            lemma_held_is_found(entries@, inner, deeper, rel.drop_first());
            let k = choose|k: int|
                0 <= k < walked(entries@, inner, deeper).0.len() && (#[trigger] walked(
                    entries@,
                    inner,
                    deeper,
                ).0[k]).path == inner + rel.drop_first();
            assert(inner + rel.drop_first() =~= dir + rel);
            assert(walked_entry(entry, dir, prefix).0[k].path == dir + rel);
        },
        _ => {},
    }
}

/// A walk of a directory that does not fail finds every flow file that the
/// directory holds.
pub proof fn lemma_held_is_found(
    entries: Seq<TreeEntry>,
    dir: Seq<Seq<char>>,
    prefix: Seq<char>,
    rel: Seq<Seq<char>>,
)
    requires
        holds_flow_file(entries, rel),
        walked(entries, dir, prefix).1 is None,
    ensures
        exists|k: int|
            0 <= k < walked(entries, dir, prefix).0.len() && (#[trigger] walked(
                entries,
                dir,
                prefix,
            ).0[k]).path == dir + rel,
    decreases entries, 1nat,
{
    let i = choose|i: int| 0 <= i < entries.len() && entry_holds(#[trigger] entries[i], rel);
    let first = walked_entry(entries[0], dir, prefix);
    let rest = entries.drop_first();
    let later = walked(rest, dir, prefix);
    assert(walked(entries, dir, prefix) == if first.1 is Some {
        first
    } else {
        (first.0 + later.0, later.1)
    });
    let all = walked(entries, dir, prefix).0;
    assert(first.1 is None);
    assert(all == first.0 + later.0);
    if i == 0 {
        lemma_held_is_found_entry(entries[0], dir, prefix, rel);
        let k = choose|k: int| 0 <= k < first.0.len() && (#[trigger] first.0[k]).path == dir + rel;
        assert(all[k] == first.0[k]);
        assert(all[k].path == dir + rel);
    } else {
        assert(rest[i - 1] == entries[i]);
        assert(holds_flow_file(rest, rel));
        lemma_held_is_found(rest, dir, prefix, rel);
        let k = choose|k: int| 0 <= k < later.0.len() && (#[trigger] later.0[k]).path == dir + rel;
        assert(all[first.0.len() + k] == later.0[k]);
        assert(all[first.0.len() + k].path == dir + rel);
    }
}

/// The flow files that an entry holds start with its name.
pub proof fn lemma_held_starts_with_name(entry: TreeEntry, rel: Seq<Seq<char>>)
    requires
        entry_holds(entry, rel),
    ensures
        rel.len() > 0,
        entry_name(entry) == Some(rel[0]),
{
}

/// Where no directory holds two entries of one name, the walk of an entry
/// finds no file twice.
pub proof fn lemma_found_once_entry(entry: TreeEntry, dir: Seq<Seq<char>>, prefix: Seq<char>)
    requires
        names_distinct(entry),
    ensures
        forall|a: int, b: int|
            0 <= a < b < walked_entry(entry, dir, prefix).0.len() ==> (#[trigger] walked_entry(
                entry,
                dir,
                prefix,
            ).0[a]).path != (#[trigger] walked_entry(entry, dir, prefix).0[b]).path,
    decreases entry, 0nat,
{
    match entry {
        TreeEntry::File(name) => {
            assert(walked_entry(entry, dir, prefix).0.len() <= 1);
        },
        TreeEntry::Directory(name, entries) => {
            let inner = dir.push(name@);
            let deeper = extended(prefix, name@);
            assert(walked_entry(entry, dir, prefix) == walked(entries@, inner, deeper));
            lemma_found_once(entries@, inner, deeper);
        },
        _ => {
            assert(walked_entry(entry, dir, prefix).0 == Seq::<Found>::empty());
        },
    }
}

/// Where no directory holds two entries of one name, the walk of a
/// directory finds no file twice. With `lemma_found_is_held` and
/// `lemma_held_is_found`: a walk that does not fail finds each flow file
/// below the directory, and finds it once.
pub proof fn lemma_found_once(entries: Seq<TreeEntry>, dir: Seq<Seq<char>>, prefix: Seq<char>)
    requires
        siblings_distinct(entries),
        forall|i: int| 0 <= i < entries.len() ==> names_distinct(#[trigger] entries[i]),
    ensures
        forall|a: int, b: int|
            0 <= a < b < walked(entries, dir, prefix).0.len() ==> (#[trigger] walked(
                entries,
                dir,
                prefix,
            ).0[a]).path != (#[trigger] walked(entries, dir, prefix).0[b]).path,
    decreases entries, 1nat,
{
    if entries.len() > 0 {
        let first = walked_entry(entries[0], dir, prefix);
        let rest = entries.drop_first();
        let later = walked(rest, dir, prefix);
        let all = walked(entries, dir, prefix).0;
        assert(walked(entries, dir, prefix) == if first.1 is Some {
            first
        } else {
            (first.0 + later.0, later.1)
        });
        lemma_found_once_entry(entries[0], dir, prefix);
        assert(siblings_distinct(rest)) by {
            assert forall|i: int, j: int|
                0 <= i < j < rest.len() && entry_name(#[trigger] rest[i]) is Some implies entry_name(
                rest[i],
            ) != entry_name(#[trigger] rest[j]) by {
                assert(rest[i] == entries[i + 1] && rest[j] == entries[j + 1]);
            }
        }
        assert forall|i: int| 0 <= i < rest.len() implies names_distinct(#[trigger] rest[i]) by {
            assert(rest[i] == entries[i + 1]);
        }
        lemma_found_once(rest, dir, prefix);
        if first.1 is None {
            assert forall|a: int, b: int| 0 <= a < b < all.len() implies (#[trigger] all[a]).path != (
            #[trigger] all[b]).path by {
                if b < first.0.len() {
                    assert(all[a] == first.0[a] && all[b] == first.0[b]);
                } else if a >= first.0.len() {
                    assert(all[a] == later.0[a - first.0.len()]);
                    assert(all[b] == later.0[b - first.0.len()]);
                } else {
                    let b2 = b - first.0.len();
                    assert(all[a] == first.0[a] && all[b] == later.0[b2]);
                    lemma_found_is_held_entry(entries[0], dir, prefix, a);
                    let rel_a = choose|rel: Seq<Seq<char>>| #[trigger]
                        entry_holds(entries[0], rel) && first.0[a].path == dir + rel;
                    lemma_found_is_held(rest, dir, prefix, b2);
                    let rel_b = choose|rel: Seq<Seq<char>>| #[trigger]
                        holds_flow_file(rest, rel) && later.0[b2].path == dir + rel;
                    let j = choose|j: int| 0 <= j < rest.len() && entry_holds(#[trigger] rest[j], rel_b);
                    assert(rest[j] == entries[j + 1]);
                    lemma_held_starts_with_name(entries[0], rel_a);
                    lemma_held_starts_with_name(entries[j + 1], rel_b);
                    assert(entry_name(entries[0]) != entry_name(entries[j + 1]));
                    assert((dir + rel_a)[dir.len() as int] == rel_a[0]);
                    assert((dir + rel_b)[dir.len() as int] == rel_b[0]);
                }
            }
        }
    }
}

/// A copy of a path with one more component.
fn path_with(dir: &Vec<String>, name: &str) -> (r: Vec<String>)
    ensures
        texts(r@) == texts(dir@).push(name@),
{
    let mut path: Vec<String> = Vec::new();
    let n = dir.len();
    let mut i: usize = 0;
    while i < n
        invariant
            i <= n,
            n == dir@.len(),
            path@.len() == i,
            forall|j: int| 0 <= j < i ==> (#[trigger] path@[j])@ == dir@[j]@,
        decreases n - i,
    {
        path.push(dir[i].clone());
        i += 1;
    }
    path.push(String::from_str(name));
    assert(texts(path@) =~= texts(dir@).push(name@));
    path
}

/// The name prefix of a directory `name` that lies in a directory of prefix
/// `prefix`.
fn extend_prefix(prefix: &str, name: &str) -> (r: String)
    ensures
        r@ == extended(prefix@, name@),
{
    if prefix.unicode_len() == 0 {
        String::from_str(name)
    } else {
        let mut r = String::from_str(prefix);
        r.append("/");
        r.append(name);
        proof {
            reveal_strlit("/");
            assert("/"@ =~= seq!['/']);
        }
        r
    }
}

/// Walks one entry, adding the flow files that it finds to `found`.
fn walk_entry(entry: &TreeEntry, dir: &Vec<String>, prefix: &str, found: &mut Vec<FoundFlow>) -> (failure:
    Option<StoreError>)
    ensures
        found_view(final(found)@) == found_view(old(found)@) + walked_entry(
            *entry,
            texts(dir@),
            prefix@,
        ).0,
        failure == walked_entry(*entry, texts(dir@), prefix@).1,
    decreases entry, 0nat,
{
    match entry {
        TreeEntry::File(name) => {
            if is_flow_file(name.as_str()) {
                let flow = FoundFlow {
                    path: path_with(dir, name.as_str()),
                    prefix: String::from_str(prefix),
                };
                let ghost before = found@;
                found.push(flow);
                assert(found_view(found@) =~= found_view(before) + seq![flow@]);
            } else {
                assert(found_view(found@) =~= found_view(found@) + Seq::<Found>::empty());
            }
            None
        },
        TreeEntry::Directory(name, entries) => {
            let inner = path_with(dir, name.as_str());
            let inner_prefix = extend_prefix(prefix, name.as_str());
            walk_entries(entries, &inner, inner_prefix.as_str(), found)
        },
        TreeEntry::Unlisted(_, cause) => {
            assert(found_view(found@) =~= found_view(found@) + Seq::<Found>::empty());
            Some(StoreError::Io(IoStep::ReadDir, cause.clone()))
        },
        TreeEntry::Unreadable(cause) => {
            assert(found_view(found@) =~= found_view(found@) + Seq::<Found>::empty());
            Some(StoreError::Io(IoStep::ReadEntry, cause.clone()))
        },
        TreeEntry::Other(_) => {
            assert(found_view(found@) =~= found_view(found@) + Seq::<Found>::empty());
            None
        },
    }
}

/// Walks the entries of a directory in order, adding the flow files that it
/// finds to `found`, and stops at the first entry at which the walk fails.
fn walk_entries(
    entries: &Vec<TreeEntry>,
    dir: &Vec<String>,
    prefix: &str,
    found: &mut Vec<FoundFlow>,
) -> (failure: Option<StoreError>)
    ensures
        found_view(final(found)@) == found_view(old(found)@) + walked(
            entries@,
            texts(dir@),
            prefix@,
        ).0,
        failure == walked(entries@, texts(dir@), prefix@).1,
    decreases entries, 1nat,
{
    let ghost start = found_view(found@);
    let ghost d = texts(dir@);
    let ghost p = prefix@;
    let n = entries.len();
    let mut i: usize = 0;
    proof {
        assert(entries@.skip(0) =~= entries@);
        assert(start + walked(entries@, d, p).0 =~= start + Seq::<Found>::empty() + walked(
            entries@,
            d,
            p,
        ).0);
    }
    let ghost mut done = Seq::<Found>::empty();
    while i < n
        invariant
            i <= n,
            n == entries@.len(),
            d == texts(dir@),
            p == prefix@,
            start == found_view(old(found)@),
            found_view(found@) == start + done,
            walked(entries@, d, p).0 == done + walked(entries@.skip(i as int), d, p).0,
            walked(entries@, d, p).1 == walked(entries@.skip(i as int), d, p).1,
        decreases n - i,
    {
        let ghost rest = entries@.skip(i as int);
        proof {
            assert(rest[0] == entries@[i as int]);
            assert(rest.drop_first() =~= entries@.skip(i + 1));
        }
        let ghost first = walked_entry(entries@[i as int], d, p);
        proof {
            let later = walked(rest.drop_first(), d, p);
            assert(walked(rest, d, p) == if first.1 is Some {
                first
            } else {
                (first.0 + later.0, later.1)
            });
        }
        assert(decreases_to!(entries => entries@[i as int]));
        let failure = walk_entry(&entries[i], dir, prefix, found);
        proof {
            assert(start + done + first.0 =~= start + (done + first.0));
            assert(done + (first.0 + walked(entries@.skip(i + 1), d, p).0) =~= (done + first.0)
                + walked(entries@.skip(i + 1), d, p).0);
            done = done + first.0;
        }
        if failure.is_some() {
            return failure;
        }
        i += 1;
    }
    proof {
        assert(entries@.skip(n as int).len() == 0);
        assert(done + Seq::<Found>::empty() =~= done);
    }
    None
}

/// What the walk of the flows directory finds, and the failure that ends
/// it, given what is at the place of the directory. A directory is walked
/// from the empty path and the empty name prefix. Anything else holds no
/// flows; a directory that cannot be listed fails the walk.
pub open spec fn walked_root(root: FlowsDir) -> (Seq<Found>, Option<StoreError>) {
    match root {
        FlowsDir::Directory(entries) => walked(entries@, Seq::empty(), Seq::empty()),
        FlowsDir::Unlisted(cause) => (Seq::empty(), Some(StoreError::Io(IoStep::ReadDir, cause))),
        _ => (Seq::empty(), None),
    }
}

/// What is to be done about the flows directory, given what is at its place.
///
/// A missing directory is to be created, and holds no flows. A directory
/// is walked depth first, the entries of each directory taken as listed: a
/// file counts where its name carries the flow extension, and a directory
/// adds its name to the name prefix of what lies in it. The walk ends early,
/// with what it found so far, at a directory that could not be listed or an
/// entry that could not be read.
pub fn import_tree(root: &FlowsDir) -> (plan: WalkPlan)
    ensures
        plan.create_root == (*root is Missing),
        found_view(plan.found@) == walked_root(*root).0,
        plan.failure == walked_root(*root).1,
{
    let mut found: Vec<FoundFlow> = Vec::new();
    assert(found_view(found@) =~= Seq::<Found>::empty());
    match root {
        FlowsDir::Missing => WalkPlan { create_root: true, found, failure: None },
        FlowsDir::NotADirectory => WalkPlan { create_root: false, found, failure: None },
        FlowsDir::Unlisted(cause) => WalkPlan {
            create_root: false,
            found,
            failure: Some(StoreError::Io(IoStep::ReadDir, cause.clone())),
        },
        FlowsDir::Directory(entries) => {
            let dir: Vec<String> = Vec::new();
            let failure = walk_entries(entries, &dir, "", &mut found);
            proof {
                reveal_strlit("");
                assert(""@ =~= Seq::<char>::empty());
                assert(texts(dir@) =~= Seq::<Seq<char>>::empty());
                assert(Seq::<Found>::empty() + walked(entries@, Seq::empty(), Seq::empty()).0
                    =~= walked(entries@, Seq::empty(), Seq::empty()).0);
            }
            WalkPlan { create_root: false, found, failure }
        },
    }
}

} // verus!
