//! The value tree in which settings and component configuration are held,
//! and the deep merge that every change to them goes through.

use crate::text::same_text;
use vstd::prelude::*;

verus! {

/// A number as a configuration value holds it: a non-negative integer, a
/// negative integer, or a number with a fraction or an exponent. The last is
/// held as the bits of its IEEE 754 double.
#[derive(Clone, Copy, Debug, PartialEq, Eq, Structural)]
pub enum Number {
    PosInt(u64),
    NegInt(i64),
    Float(u64),
}

/// A configuration value. An object is a list of entries with pairwise
/// distinct keys; the order of the entries carries no meaning.
#[derive(Debug, PartialEq, Eq)]
pub enum ConfigTree {
    Null,
    Bool(bool),
    Number(Number),
    Text(String),
    Array(Vec<ConfigTree>),
    Object(Vec<(String, ConfigTree)>),
}

/// What a configuration value means: the same tree with each object as a map
/// from key to value.
pub ghost enum Tree {
    Null,
    Bool(bool),
    Number(Number),
    Text(Seq<char>),
    Array(Seq<Tree>),
    Object(Map<Seq<char>, Tree>),
}

/// The keys of a list of entries are pairwise distinct.
pub open spec fn distinct_keys<V>(entries: Seq<(String, V)>) -> bool {
    forall|i: int, j: int|
        0 <= i < j < entries.len() ==> (#[trigger] entries[i]).0@ != (#[trigger] entries[j]).0@
}

/// Whether some entry has the key `key`.
pub open spec fn has_key<V>(entries: Seq<(String, V)>, key: Seq<char>) -> bool {
    exists|i: int| 0 <= i < entries.len() && (#[trigger] entries[i]).0@ == key
}

/// The meaning of the items of an array.
pub open spec fn items_view(items: Seq<ConfigTree>) -> Seq<Tree>
    decreases items, 0nat,
{
    if items.len() == 0 {
        Seq::empty()
    } else {
        items_view(items.drop_last()).push(items.last().view())
    }
}

/// The meaning of the entries of an object: each key mapped to the meaning of
/// its value.
pub open spec fn entries_view(entries: Seq<(String, ConfigTree)>) -> Map<Seq<char>, Tree>
    decreases entries, 0nat,
{
    if entries.len() == 0 {
        Map::empty()
    } else {
        entries_view(entries.drop_last()).insert(entries.last().0@, entries.last().1.view())
    }
}

impl View for ConfigTree {
    type V = Tree;

    open spec fn view(&self) -> Tree
        decreases self, 1nat,
    {
        match self {
            ConfigTree::Null => Tree::Null,
            ConfigTree::Bool(b) => Tree::Bool(*b),
            ConfigTree::Number(n) => Tree::Number(*n),
            ConfigTree::Text(s) => Tree::Text(s@),
            ConfigTree::Array(items) => Tree::Array(items_view(items@)),
            ConfigTree::Object(entries) => Tree::Object(entries_view(entries@)),
        }
    }
}

impl ConfigTree {
    /// Well-formedness: in every object of the tree the keys are pairwise
    /// distinct.
    pub open spec fn wf(self) -> bool
        decreases self,
    {
        match self {
            ConfigTree::Array(items) => forall|i: int|
                0 <= i < items@.len() ==> (#[trigger] items@[i]).wf(),
            ConfigTree::Object(entries) => {
                &&& distinct_keys(entries@)
                &&& forall|i: int| 0 <= i < entries@.len() ==> (#[trigger] entries@[i]).1.wf()
            },
            _ => true,
        }
    }
}

/// Every value of a list of entries is well formed.
pub open spec fn values_wf(entries: Seq<(String, ConfigTree)>) -> bool {
    forall|i: int| 0 <= i < entries.len() ==> (#[trigger] entries[i]).1.wf()
}

/// The meaning of a non-empty list of entries, one step unfolded.
pub proof fn lemma_entries_view_step(entries: Seq<(String, ConfigTree)>)
    ensures
        entries.len() == 0 ==> entries_view(entries) == Map::<Seq<char>, Tree>::empty(),
        entries.len() > 0 ==> entries_view(entries) == entries_view(entries.drop_last()).insert(
            entries.last().0@,
            entries.last().1@,
        ),
{
}

/// The meaning of an array has one item for each item, in order.
pub proof fn lemma_items_view(items: Seq<ConfigTree>)
    ensures
        items_view(items).len() == items.len(),
        forall|i: int| 0 <= i < items.len() ==> #[trigger] items_view(items)[i] == items[i]@,
    decreases items.len(),
{
    if items.len() > 0 {
        lemma_items_view(items.drop_last());
        assert(items_view(items) == items_view(items.drop_last()).push(items.last().view()));
    } else {
        assert(items_view(items) == Seq::<Tree>::empty());
    }
}

/// The meaning of a list of entries is a finite map whose keys are the keys
/// of the entries.
pub proof fn lemma_entries_view_dom(entries: Seq<(String, ConfigTree)>)
    ensures
        entries_view(entries).dom().finite(),
        forall|k: Seq<char>| #[trigger] entries_view(entries).contains_key(k) <==> has_key(entries, k),
    decreases entries.len(),
{
    lemma_entries_view_step(entries);
    if entries.len() > 0 {
        let front = entries.drop_last();
        lemma_entries_view_dom(front);
        lemma_entries_view_step(entries);
        assert forall|k: Seq<char>| #[trigger]
            entries_view(entries).contains_key(k) <==> has_key(entries, k) by {
            if has_key(entries, k) {
                let i = choose|i: int| 0 <= i < entries.len() && (#[trigger] entries[i]).0@ == k;
                if i < front.len() {
                    assert(front[i].0@ == k);
                }
            }
            if has_key(front, k) {
                let i = choose|i: int| 0 <= i < front.len() && (#[trigger] front[i]).0@ == k;
                assert(entries[i].0@ == k);
            }
            if k == entries.last().0@ {
                assert(entries[entries.len() - 1].0@ == k);
            }
        }
    }
}

/// Under distinct keys, each key is mapped to the meaning of its own value.
pub proof fn lemma_entries_view_at(entries: Seq<(String, ConfigTree)>, i: int)
    requires
        distinct_keys(entries),
        0 <= i < entries.len(),
    ensures
        entries_view(entries).contains_key(entries[i].0@),
        entries_view(entries)[entries[i].0@] == entries[i].1@,
    decreases entries.len(),
{
    let front = entries.drop_last();
    lemma_entries_view_step(entries);
    if i < entries.len() - 1 {
        assert(distinct_keys(front)) by {
            assert forall|a: int, b: int| 0 <= a < b < front.len() implies (#[trigger] front[a]).0@
                != (#[trigger] front[b]).0@ by {
                assert(front[a] == entries[a] && front[b] == entries[b]);
            }
        }
        lemma_entries_view_at(front, i);
        assert(front[i] == entries[i]);
        assert(entries[i].0@ != entries[entries.len() - 1].0@);
    }
}

/// Appending an entry inserts its key.
pub proof fn lemma_entries_view_push(entries: Seq<(String, ConfigTree)>, entry: (String, ConfigTree))
    ensures
        entries_view(entries.push(entry)) == entries_view(entries).insert(entry.0@, entry.1@),
{
    lemma_entries_view_step(entries.push(entry));
    assert(entries.push(entry).drop_last() =~= entries);
}

/// Under distinct keys, replacing the value of an entry replaces what its key
/// is mapped to, whatever string of the same content is written as the key.
pub proof fn lemma_entries_view_update(
    entries: Seq<(String, ConfigTree)>,
    i: int,
    entry: (String, ConfigTree),
)
    requires
        distinct_keys(entries),
        0 <= i < entries.len(),
        entry.0@ == entries[i].0@,
    ensures
        distinct_keys(entries.update(i, entry)),
        entries_view(entries.update(i, entry)) == entries_view(entries).insert(entry.0@, entry.1@),
    decreases entries.len(),
{
    let after = entries.update(i, entry);
    assert(distinct_keys(after)) by {
        assert forall|a: int, b: int| 0 <= a < b < after.len() implies (#[trigger] after[a]).0@
            != (#[trigger] after[b]).0@ by {
            assert(entries[a].0@ != entries[b].0@);
        }
    }
    let front = entries.drop_last();
    lemma_entries_view_step(entries);
    lemma_entries_view_step(after);
    if i == entries.len() - 1 {
        assert(after.drop_last() =~= front);
        assert(entries_view(after) =~= entries_view(entries).insert(entry.0@, entry.1@));
    } else {
        assert(distinct_keys(front)) by {
            assert forall|a: int, b: int| 0 <= a < b < front.len() implies (#[trigger] front[a]).0@
                != (#[trigger] front[b]).0@ by {
                assert(front[a] == entries[a] && front[b] == entries[b]);
            }
        }
        lemma_entries_view_update(front, i, entry);
        assert(after.drop_last() =~= front.update(i, entry));
        assert(after.last() == entries.last());
        assert(entries[i].0@ != entries[entries.len() - 1].0@);
        assert(entries_view(after) =~= entries_view(entries).insert(entry.0@, entry.1@));
    }
}

/// Under distinct keys, taking an entry out removes its key.
pub proof fn lemma_entries_view_remove(entries: Seq<(String, ConfigTree)>, i: int)
    requires
        distinct_keys(entries),
        0 <= i < entries.len(),
    ensures
        distinct_keys(entries.remove(i)),
        entries_view(entries.remove(i)) == entries_view(entries).remove(entries[i].0@),
    decreases entries.len(),
{
    let after = entries.remove(i);
    assert(distinct_keys(after)) by {
        assert forall|a: int, b: int| 0 <= a < b < after.len() implies (#[trigger] after[a]).0@
            != (#[trigger] after[b]).0@ by {
            let a0 = if a < i { a } else { a + 1 };
            let b0 = if b < i { b } else { b + 1 };
            assert(after[a] == entries[a0] && after[b] == entries[b0]);
        }
    }
    let front = entries.drop_last();
    lemma_entries_view_step(entries);
    lemma_entries_view_step(after);
    if i == entries.len() - 1 {
        assert(after =~= front);
        lemma_entries_view_dom(front);
        assert(!has_key(front, entries[i].0@)) by {
            if has_key(front, entries[i].0@) {
                let j = choose|j: int| 0 <= j < front.len() && (#[trigger] front[j]).0@ == entries[i].0@;
                assert(front[j] == entries[j]);
            }
        }
        assert(entries_view(after) =~= entries_view(entries).remove(entries[i].0@));
    } else {
        assert(distinct_keys(front)) by {
            assert forall|a: int, b: int| 0 <= a < b < front.len() implies (#[trigger] front[a]).0@
                != (#[trigger] front[b]).0@ by {
                assert(front[a] == entries[a] && front[b] == entries[b]);
            }
        }
        lemma_entries_view_remove(front, i);
        assert(after.drop_last() =~= front.remove(i));
        assert(after.last() == entries.last());
        assert(front[i] == entries[i]);
        assert(entries[i].0@ != entries[entries.len() - 1].0@);
        assert(entries_view(after) =~= entries_view(entries).remove(entries[i].0@));
    }
}

/// The index of the first entry with the key `key`, if there is one.
pub fn position_of<V>(entries: &Vec<(String, V)>, key: &str) -> (r: Option<usize>)
    ensures
        match r {
            Some(i) => {
                &&& i < entries@.len()
                &&& entries@[i as int].0@ == key@
                &&& forall|j: int| 0 <= j < i ==> (#[trigger] entries@[j]).0@ != key@
            },
            None => !has_key(entries@, key@),
        },
{
    let n = entries.len();
    let mut i: usize = 0;
    while i < n
        invariant
            i <= n,
            n == entries@.len(),
            forall|j: int| 0 <= j < i ==> (#[trigger] entries@[j]).0@ != key@,
        decreases n - i,
    {
        if same_text(entries[i].0.as_str(), key) {
            return Some(i);
        }
        i += 1;
    }
    None
}


/// Whether the keys of a list of entries are pairwise distinct.
pub fn keys_distinct<V>(entries: &Vec<(String, V)>) -> (r: bool)
    ensures
        r == distinct_keys(entries@),
{
    let n = entries.len();
    let mut j: usize = 0;
    while j < n
        invariant
            j <= n,
            n == entries@.len(),
            forall|a: int, b: int|
                0 <= a < b < j ==> (#[trigger] entries@[a]).0@ != (#[trigger] entries@[b]).0@,
        decreases n - j,
    {
        let mut i: usize = 0;
        while i < j
            invariant
                i <= j,
                j < n,
                n == entries@.len(),
                forall|a: int| 0 <= a < i ==> (#[trigger] entries@[a]).0@ != entries@[j as int].0@,
            decreases j - i,
        {
            if same_text(entries[i].0.as_str(), entries[j].0.as_str()) {
                return false;
            }
            i += 1;
        }
        j += 1;
    }
    true
}

/// What an object holds under `key` for the purposes of a merge: the value,
/// or null where it has none.
pub open spec fn member(m: Map<Seq<char>, Tree>, key: Seq<char>) -> Tree {
    if m.contains_key(key) {
        m[key]
    } else {
        Tree::Null
    }
}

/// The members of the merge of the object `ma` with the object `mb`.
///
/// A key that `mb` maps to null is absent. Any other key of `mb` holds the
/// merge of what `ma` has there with what `mb` has there. A key that only `ma`
/// has keeps its value.
pub open spec fn merged_members(ma: Map<Seq<char>, Tree>, mb: Map<Seq<char>, Tree>) -> Map<
    Seq<char>,
    Tree,
>
    decreases mb, 0nat,
{
    Map::new(
        |k: Seq<char>|
            if mb.contains_key(k) {
                !(mb[k] is Null)
            } else {
                ma.contains_key(k)
            },
        |k: Seq<char>|
            if mb.dom().finite() && mb.contains_key(k) {
                merged(member(ma, k), mb[k])
            } else {
                ma[k]
            },
    )
}

/// The merge of `b` into `a`: member by member where both are objects, and
/// `b` in place of `a` otherwise.
pub open spec fn merged(a: Tree, b: Tree) -> Tree
    decreases b, 1nat,
{
    match (a, b) {
        (Tree::Object(ma), Tree::Object(mb)) => Tree::Object(merged_members(ma, mb)),
        _ => b,
    }
}

/// Every object of the tree has finitely many members.
pub open spec fn finite_tree(t: Tree) -> bool
    decreases t,
{
    match t {
        Tree::Array(items) => forall|i: int| 0 <= i < items.len() ==> finite_tree(#[trigger] items[i]),
        Tree::Object(m) => {
            &&& m.dom().finite()
            &&& forall|k: Seq<char>|
                m.dom().finite() && m.contains_key(k) ==> finite_tree(#[trigger] m[k])
        },
        _ => true,
    }
}

impl ConfigTree {
    /// Whether the value is well formed.
    pub fn is_wf(&self) -> (r: bool)
        ensures
            r == self.wf(),
        decreases self,
    {
        match self {
            ConfigTree::Array(items) => {
                let n = items.len();
                let mut i: usize = 0;
                while i < n
                    invariant
                        i <= n,
                        n == items@.len(),
                        *self == ConfigTree::Array(*items),
                        forall|j: int| 0 <= j < i ==> (#[trigger] items@[j]).wf(),
                    decreases n - i,
                {
                    assert(decreases_to!(*self => self->Array_0@[i as int]));
                    if !items[i].is_wf() {
                        return false;
                    }
                    i += 1;
                }
                true
            },
            ConfigTree::Object(entries) => {
                if !keys_distinct(entries) {
                    return false;
                }
                let n = entries.len();
                let mut i: usize = 0;
                while i < n
                    invariant
                        i <= n,
                        n == entries@.len(),
                        *self == ConfigTree::Object(*entries),
                        distinct_keys(entries@),
                        forall|j: int| 0 <= j < i ==> (#[trigger] entries@[j]).1.wf(),
                    decreases n - i,
                {
                    assert(decreases_to!(*self => self->Object_0@[i as int].1));
                    if !entries[i].1.is_wf() {
                        return false;
                    }
                    i += 1;
                }
                true
            },
            _ => true,
        }
    }

    /// Whether the value is null.
    pub fn is_null(&self) -> (r: bool)
        ensures
            r == (self@ is Null),
    {
        match self {
            ConfigTree::Null => true,
            _ => false,
        }
    }

    /// Whether the value is an object.
    pub fn is_object(&self) -> (r: bool)
        ensures
            r == (self@ is Object),
    {
        match self {
            ConfigTree::Object(_) => true,
            _ => false,
        }
    }

    /// The member `key` of an object; `None` where the value is no object or
    /// has no such member.
    pub fn get(&self, key: &str) -> (r: Option<&ConfigTree>)
        requires
            self.wf(),
        ensures
            match r {
                Some(v) => self@ is Object && self@->Object_0.contains_key(key@) && v@
                    == self@->Object_0[key@] && v.wf(),
                None => !(self@ is Object && self@->Object_0.contains_key(key@)),
            },
    {
        match self {
            ConfigTree::Object(entries) => {
                proof {
                    lemma_entries_view_dom(entries@);
                }
                match position_of(entries, key) {
                    Some(i) => {
                        proof {
                            lemma_entries_view_at(entries@, i as int);
                        }
                        Some(&entries[i].1)
                    },
                    None => None,
                }
            },
            _ => None,
        }
    }
}

impl Clone for ConfigTree {
    /// A copy with the same meaning, entry for entry.
    fn clone(&self) -> (r: Self)
        ensures
            r@ == self@,
            self.wf() ==> r.wf(),
        decreases self,
    {
        match self {
            ConfigTree::Null => ConfigTree::Null,
            ConfigTree::Bool(b) => ConfigTree::Bool(*b),
            ConfigTree::Number(n) => ConfigTree::Number(*n),
            ConfigTree::Text(s) => ConfigTree::Text(s.clone()),
            ConfigTree::Array(items) => {
                let mut out: Vec<ConfigTree> = Vec::new();
                let n = items.len();
                let mut i: usize = 0;
                while i < n
                    invariant
                        i <= n,
                        n == items@.len(),
                        out@.len() == i,
                        *self == ConfigTree::Array(*items),
                        forall|j: int| 0 <= j < i ==> (#[trigger] out@[j])@ == items@[j]@,
                        forall|j: int| 0 <= j < i && items@[j].wf() ==> (#[trigger] out@[j]).wf(),
                    decreases n - i,
                {
                    assert(decreases_to!(*self => self->Array_0@[i as int]));
                    let item = items[i].clone();
                    out.push(item);
                    i += 1;
                }
                proof {
                    lemma_items_view(items@);
                    lemma_items_view(out@);
                    assert(items_view(out@) =~= items_view(items@));
                }
                ConfigTree::Array(out)
            },
            ConfigTree::Object(entries) => {
                let mut out: Vec<(String, ConfigTree)> = Vec::new();
                let n = entries.len();
                let mut i: usize = 0;
                while i < n
                    invariant
                        i <= n,
                        n == entries@.len(),
                        out@.len() == i,
                        *self == ConfigTree::Object(*entries),
                        entries_view(out@) == entries_view(entries@.take(i as int)),
                        forall|j: int| 0 <= j < i ==> (#[trigger] out@[j]).0@ == entries@[j].0@,
                        forall|j: int|
                            0 <= j < i && entries@[j].1.wf() ==> (#[trigger] out@[j]).1.wf(),
                    decreases n - i,
                {
                    let key = entries[i].0.clone();
                    assert(decreases_to!(*self => self->Object_0@[i as int].1));
                    let value = entries[i].1.clone();
                    proof {
                        lemma_entries_view_push(out@, (key, value));
                        lemma_entries_view_step(entries@.take(i + 1));
                        assert(entries@.take(i + 1).drop_last() =~= entries@.take(i as int));
                    }
                    out.push((key, value));
                    i += 1;
                }
                proof {
                    assert(entries@.take(n as int) =~= entries@);
                    if self.wf() {
                        assert forall|a: int, b: int| 0 <= a < b < out@.len() implies (
                        #[trigger] out@[a]).0@ != (#[trigger] out@[b]).0@ by {
                            assert(entries@[a].0@ != entries@[b].0@);
                        }
                    }
                }
                ConfigTree::Object(out)
            },
        }
    }
}


/// The merge with an object that has one more member, in terms of the merge
/// without it: a null member removes its key, any other member is merged in
/// under its key.
pub proof fn lemma_merged_members_insert(
    ma: Map<Seq<char>, Tree>,
    mb: Map<Seq<char>, Tree>,
    key: Seq<char>,
    value: Tree,
)
    requires
        mb.dom().finite(),
        !mb.contains_key(key),
    ensures
        value is Null ==> merged_members(ma, mb.insert(key, value)) == merged_members(ma, mb).remove(
            key,
        ),
        !(value is Null) ==> merged_members(ma, mb.insert(key, value)) == merged_members(
            ma,
            mb,
        ).insert(key, merged(member(ma, key), value)),
        !mb.contains_key(key) ==> (merged_members(ma, mb).contains_key(key) <==> ma.contains_key(key)),
        merged_members(ma, mb).contains_key(key) ==> merged_members(ma, mb)[key] == ma[key],
{
    let more = mb.insert(key, value);
    assert(more.dom().finite());
    if value is Null {
        assert(merged_members(ma, more) =~= merged_members(ma, mb).remove(key));
    } else {
        assert(merged_members(ma, more) =~= merged_members(ma, mb).insert(
            key,
            merged(member(ma, key), value),
        ));
    }
}

/// What a merge of objects holds under a key: nothing, where the second
/// object holds null there; the merge of what the two hold, where the second
/// holds anything else; and what the first holds, where the second holds
/// nothing.
pub proof fn lemma_merged_member(ma: Map<Seq<char>, Tree>, mb: Map<Seq<char>, Tree>, key: Seq<char>)
    requires
        mb.dom().finite(),
    ensures
        mb.contains_key(key) && mb[key] is Null ==> !merged_members(ma, mb).contains_key(key),
        mb.contains_key(key) && !(mb[key] is Null) ==> merged_members(ma, mb).contains_key(key)
            && merged_members(ma, mb)[key] == merged(member(ma, key), mb[key]),
        !mb.contains_key(key) ==> member(merged_members(ma, mb), key) == member(ma, key)
            && merged_members(ma, mb).contains_key(key) == ma.contains_key(key),
{
}

/// Merging with the empty object changes nothing.
pub proof fn lemma_merged_members_empty(ma: Map<Seq<char>, Tree>)
    ensures
        merged_members(ma, Map::empty()) == ma,
{
    assert(merged_members(ma, Map::empty()) =~= ma);
}

/// Merges the entries `theirs` into the entries `mine`, entry by entry.
fn merge_entries(mine: &mut Vec<(String, ConfigTree)>, theirs: &Vec<(String, ConfigTree)>)
    requires
        distinct_keys(old(mine)@),
        values_wf(old(mine)@),
        distinct_keys(theirs@),
        values_wf(theirs@),
    ensures
        distinct_keys(final(mine)@),
        values_wf(final(mine)@),
        entries_view(final(mine)@) == merged_members(
            entries_view(old(mine)@),
            entries_view(theirs@),
        ),
    decreases theirs, 0nat,
{
    let ghost ma = entries_view(mine@);
    let n = theirs.len();
    let mut i: usize = 0;
    proof {
        assert(theirs@.take(0) =~= Seq::<(String, ConfigTree)>::empty());
        lemma_entries_view_step(theirs@.take(0));
        lemma_merged_members_empty(ma);
    }
    while i < n
        invariant
            i <= n,
            n == theirs@.len(),
            distinct_keys(theirs@),
            values_wf(theirs@),
            distinct_keys(mine@),
            values_wf(mine@),
            entries_view(mine@) == merged_members(ma, entries_view(theirs@.take(i as int))),
        decreases n - i,
    {
        let value = &theirs[i].1;
        let ghost key = theirs@[i as int].0@;
        let ghost seen = entries_view(theirs@.take(i as int));
        let ghost before = mine@;
        proof {
            let upto = theirs@.take(i + 1);
            assert(upto.drop_last() =~= theirs@.take(i as int));
            assert(upto.last() == theirs@[i as int]);
            lemma_entries_view_step(upto);
            lemma_entries_view_dom(theirs@.take(i as int));
            assert(!seen.contains_key(key)) by {
                if has_key(theirs@.take(i as int), key) {
                    let j = choose|j: int|
                        0 <= j < theirs@.take(i as int).len() && (#[trigger] theirs@.take(
                            i as int,
                        )[j]).0@ == key;
                    assert(theirs@[j].0@ == theirs@[i as int].0@);
                }
            }
            lemma_merged_members_insert(ma, seen, key, value@);
            lemma_entries_view_dom(before);
            assert(theirs@[i as int].1.wf());
        }
        match position_of(mine, theirs[i].0.as_str()) {
            Some(j) => {
                proof {
                    lemma_entries_view_at(before, j as int);
                }
                if value.is_null() {
                    mine.remove(j);
                    proof {
                        lemma_entries_view_remove(before, j as int);
                        assert forall|a: int| 0 <= a < mine@.len() implies (#[trigger] mine@[a]).1.wf() by {
                            let a0 = if a < j { a } else { a + 1 };
                            assert(mine@[a] == before[a0]);
                        }
                    }
                } else {
                    assert(before[j as int].1.wf());
                    assert(decreases_to!(theirs => theirs@[i as int].1));
                    mine[j].1.merge(value);
                    proof {
                        assert(mine@ =~= before.update(j as int, mine@[j as int]));
                        lemma_entries_view_update(before, j as int, mine@[j as int]);
                        assert forall|a: int| 0 <= a < mine@.len() implies (#[trigger] mine@[a]).1.wf() by {
                            if a != j {
                                assert(mine@[a] == before[a]);
                            }
                        }
                    }
                }
            },
            None => {
                if !value.is_null() {
                    let mut slot = ConfigTree::Null;
                    assert(decreases_to!(theirs => theirs@[i as int].1));
                    slot.merge(value);
                    let name = theirs[i].0.clone();
                    proof {
                        lemma_entries_view_push(before, (name, slot));
                    }
                    mine.push((name, slot));
                    proof {
                        assert forall|a: int, b: int| 0 <= a < b < mine@.len() implies (
                        #[trigger] mine@[a]).0@ != (#[trigger] mine@[b]).0@ by {
                            assert(mine@[a] == before[a]);
                            if b < before.len() {
                                assert(mine@[b] == before[b]);
                            }
                        }
                        assert forall|a: int| 0 <= a < mine@.len() implies (#[trigger] mine@[a]).1.wf() by {
                            if a < before.len() {
                                assert(mine@[a] == before[a]);
                            }
                        }
                    }
                } else {
                    proof {
                        assert(merged_members(ma, seen).remove(key) =~= merged_members(ma, seen));
                    }
                }
            },
        }
        i += 1;
    }
    proof {
        assert(theirs@.take(n as int) =~= theirs@);
    }
}

impl ConfigTree {
    /// Merges `other` into `self`.
    ///
    /// Where both are objects, each member of `other` is taken in turn: a
    /// null member removes its key from `self`; any other member is merged
    /// into what `self` holds under that key, or into null where `self` holds
    /// nothing there. Where either is no object, `self` becomes a copy of
    /// `other`.
    pub fn merge(&mut self, other: &ConfigTree)
        requires
            old(self).wf(),
            other.wf(),
        ensures
            final(self).wf(),
            final(self)@ == merged(old(self)@, other@),
        decreases other, 1nat,
    {
        if let ConfigTree::Object(theirs) = other {
            if let ConfigTree::Object(mine) = self {
                assert(decreases_to!(other => other->Object_0));
                merge_entries(mine, theirs);
                return ;
            }
        }
        *self = other.clone();
    }
}


/// Whether merging `b` into `a` a second time leaves the first result as it
/// is.
///
/// A part of `b` that meets an object of `a` is merged member by member, and
/// a null member is gone after the first merge. A part of `b` that meets
/// anything else is copied whole, null members included, and the second merge
/// then removes them: such a part settles only if no object in it, reached
/// through objects alone, has a null member.
pub open spec fn settles(a: Tree, b: Tree) -> bool
    decreases b,
{
    match b {
        Tree::Object(mb) => forall|k: Seq<char>|
            mb.dom().finite() && #[trigger] mb.contains_key(k) ==> if a is Object {
                mb[k] is Null || settles(member(a->Object_0, k), mb[k])
            } else {
                !(mb[k] is Null) && settles(Tree::Null, mb[k])
            },
        _ => true,
    }
}

/// The meaning of a configuration value has finite objects only.
pub proof fn lemma_view_finite(t: ConfigTree)
    ensures
        finite_tree(t@),
    decreases t,
{
    match t {
        ConfigTree::Array(items) => {
            lemma_items_view(items@);
            assert forall|i: int| 0 <= i < items_view(items@).len() implies finite_tree(
                #[trigger] items_view(items@)[i],
            ) by {
                lemma_view_finite(items@[i]);
            }
        },
        ConfigTree::Object(entries) => {
            lemma_entries_view_dom(entries@);
            let m = entries_view(entries@);
            assert forall|k: Seq<char>| m.dom().finite() && m.contains_key(k) implies finite_tree(
                #[trigger] m[k],
            ) by {
                lemma_entries_view_holds(entries@, k);
                let i = choose|i: int| 0 <= i < entries@.len() && m[k] == (#[trigger] entries@[i]).1@;
                lemma_view_finite(entries@[i].1);
            }
        },
        _ => {},
    }
}

/// What the meaning of a list of entries holds under a key is the meaning of
/// one of the values.
pub proof fn lemma_entries_view_holds(entries: Seq<(String, ConfigTree)>, key: Seq<char>)
    requires
        entries_view(entries).contains_key(key),
    ensures
        exists|i: int| 0 <= i < entries.len() && entries_view(entries)[key] == (#[trigger] entries[i]).1@,
    decreases entries.len(),
{
    lemma_entries_view_step(entries);
    if entries.len() > 0 {
        let front = entries.drop_last();
        if key == entries.last().0@ {
            assert(entries_view(entries)[key] == entries[entries.len() - 1].1@);
        } else {
            lemma_entries_view_holds(front, key);
            let i = choose|i: int| 0 <= i < front.len() && entries_view(front)[key] == (#[trigger] front[i]).1@;
            assert(front[i] == entries[i]);
        }
    }
}

/// Merging a tree into itself changes nothing exactly when it settles
/// against null.
pub proof fn lemma_merge_self(y: Tree)
    requires
        finite_tree(y),
    ensures
        (merged(y, y) == y) <==> settles(Tree::Null, y),
    decreases y,
{
    match y {
        Tree::Object(my) => {
            let m2 = merged_members(my, my);
            assert forall|k: Seq<char>| my.contains_key(k) implies ((merged(my[k], my[k]) == my[k])
                <==> settles(Tree::Null, #[trigger] my[k])) by {
                lemma_merge_self(my[k]);
            }
            if settles(Tree::Null, y) {
                assert forall|k: Seq<char>| my.contains_key(k) implies !(my[k] is Null) && #[trigger] m2[k]
                    == my[k] by {
                    assert(my.contains_key(k));
                }
                assert(m2 =~= my);
            }
            if merged(y, y) == y {
                assert(m2 == my);
                assert forall|k: Seq<char>| my.dom().finite() && #[trigger] my.contains_key(k) implies !(
                my[k] is Null) && settles(Tree::Null, my[k]) by {
                    assert(m2.contains_key(k));
                    assert(m2[k] == merged(my[k], my[k]));
                }
            }
        },
        _ => {},
    }
}

/// Merging the same tree a second time changes nothing exactly when the
/// merge settles.
pub proof fn lemma_merge_twice(a: Tree, b: Tree)
    requires
        finite_tree(b),
    ensures
        (merged(merged(a, b), b) == merged(a, b)) <==> settles(a, b),
    decreases b,
{
    match b {
        Tree::Object(mb) => {
            match a {
                Tree::Object(ma) => {
                    let m1 = merged_members(ma, mb);
                    let m2 = merged_members(m1, mb);
                    assert(merged(a, b) == Tree::Object(m1));
                    assert(merged(Tree::Object(m1), b) == Tree::Object(m2));
                    assert forall|k: Seq<char>| mb.contains_key(k) && !(mb[k] is Null) implies (#[trigger] m2[k]
                        == m1[k] <==> settles(member(ma, k), mb[k])) by {
                        lemma_merge_twice(member(ma, k), mb[k]);
                        assert(m1[k] == merged(member(ma, k), mb[k]));
                        assert(member(m1, k) == m1[k]);
                        assert(m2[k] == merged(m1[k], mb[k]));
                    }
                    if settles(a, b) {
                        assert forall|k: Seq<char>| m1.contains_key(k) implies #[trigger] m2[k] == m1[k] by {
                            if mb.contains_key(k) {
                                assert(!(mb[k] is Null));
                            }
                        }
                        assert(m2 =~= m1);
                    }
                    if merged(merged(a, b), b) == merged(a, b) {
                        assert(m2 == m1);
                        assert forall|k: Seq<char>| mb.dom().finite() && #[trigger] mb.contains_key(k) implies (
                        mb[k] is Null || settles(member(ma, k), mb[k])) by {
                            if !(mb[k] is Null) {
                                assert(m2[k] == m1[k]);
                            }
                        }
                    }
                },
                _ => {
                    lemma_merge_self(b);
                    assert(merged(a, b) == b);
                    assert(settles(a, b) <==> settles(Tree::Null, b)) by {
                        if settles(a, b) {
                            assert forall|k: Seq<char>| mb.dom().finite() && #[trigger] mb.contains_key(k) implies !(
                            mb[k] is Null) && settles(Tree::Null, mb[k]) by {}
                        }
                        if settles(Tree::Null, b) {
                            assert forall|k: Seq<char>| mb.dom().finite() && #[trigger] mb.contains_key(k) implies !(
                            mb[k] is Null) && settles(Tree::Null, mb[k]) by {}
                        }
                    }
                },
            }
        },
        _ => {},
    }
}

/// Merging the same value a second time changes nothing exactly when the
/// merge settles.
pub proof fn lemma_merge_twice_values(a: ConfigTree, b: ConfigTree)
    ensures
        (merged(merged(a@, b@), b@) == merged(a@, b@)) <==> settles(a@, b@),
{
    lemma_view_finite(b);
    lemma_merge_twice(a@, b@);
}

} // verus!
