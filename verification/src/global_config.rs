//! The table of component configuration, and the reconciliation that seeds
//! it with the defaults that component definitions declare.

use crate::config_tree::{
    distinct_keys, entries_view, has_key, keys_distinct, lemma_entries_view_at, lemma_entries_view_dom,
    lemma_entries_view_push, lemma_entries_view_step, lemma_entries_view_update, position_of,
    values_wf, ConfigTree, Tree,
};
use vstd::prelude::*;

verus! {

/// The default configuration that the definition of one component declares:
/// keys with their default values, in the order of the declaration.
#[derive(Debug, PartialEq, Eq)]
pub struct ComponentDefaults {
    pub name: String,
    pub defaults: Vec<(String, ConfigTree)>,
}

/// The configuration of all components: one entry for each component, from
/// its name to its configuration. The names are pairwise distinct.
#[derive(Debug, PartialEq, Eq)]
pub struct GlobalConfigTable {
    pub entries: Vec<(String, ConfigTree)>,
}

/// What a declaration of defaults means.
pub ghost struct Declaration {
    pub name: Seq<char>,
    pub defaults: Seq<(Seq<char>, Tree)>,
}

/// The meaning of a list of declared defaults.
pub open spec fn defaults_view(defaults: Seq<(String, ConfigTree)>) -> Seq<(Seq<char>, Tree)> {
    Seq::new(defaults.len(), |i: int| (defaults[i].0@, defaults[i].1@))
}

impl View for ComponentDefaults {
    type V = Declaration;

    open spec fn view(&self) -> Declaration {
        Declaration { name: self.name@, defaults: defaults_view(self.defaults@) }
    }
}

impl ComponentDefaults {
    /// Well-formedness: each default value is well formed.
    pub open spec fn wf(self) -> bool {
        values_wf(self.defaults@)
    }
}

/// The meaning of a list of declarations.
pub open spec fn declarations_view(definitions: Seq<ComponentDefaults>) -> Seq<Declaration> {
    Seq::new(definitions.len(), |i: int| definitions[i]@)
}

impl View for GlobalConfigTable {
    type V = Map<Seq<char>, Tree>;

    open spec fn view(&self) -> Map<Seq<char>, Tree> {
        entries_view(self.entries@)
    }
}

impl GlobalConfigTable {
    /// Well-formedness: no component has two entries, and each configuration
    /// is well formed.
    pub open spec fn wf(self) -> bool {
        distinct_keys(self.entries@) && values_wf(self.entries@)
    }
}

/// The members `existing` with each declared key that they lack added under
/// its default value. Of two declarations of one key the first counts.
pub open spec fn seeded_members(
    existing: Map<Seq<char>, Tree>,
    defaults: Seq<(Seq<char>, Tree)>,
) -> Map<Seq<char>, Tree>
    decreases defaults.len(),
{
    if defaults.len() == 0 {
        existing
    } else {
        let before = seeded_members(existing, defaults.drop_last());
        if before.contains_key(defaults.last().0) {
            before
        } else {
            before.insert(defaults.last().0, defaults.last().1)
        }
    }
}

/// The configuration of a component after seeding. A component without
/// configuration gets the declared defaults. One whose configuration is an
/// object gets the declared keys that it lacks. A configuration that is no
/// object has no keys to add to, and stays as it is.
pub open spec fn seeded_config(config: Option<Tree>, defaults: Seq<(Seq<char>, Tree)>) -> Tree {
    match config {
        None => Tree::Object(seeded_members(Map::empty(), defaults)),
        Some(Tree::Object(members)) => Tree::Object(seeded_members(members, defaults)),
        Some(other) => other,
    }
}

/// The configuration that the table holds for a component, if any.
pub open spec fn config_of(table: Map<Seq<char>, Tree>, name: Seq<char>) -> Option<Tree> {
    if table.contains_key(name) {
        Some(table[name])
    } else {
        None
    }
}

/// The table after seeding it from one declaration.
pub open spec fn seeded_table(table: Map<Seq<char>, Tree>, declaration: Declaration) -> Map<
    Seq<char>,
    Tree,
> {
    table.insert(
        declaration.name,
        seeded_config(config_of(table, declaration.name), declaration.defaults),
    )
}

/// The table after seeding it from each declaration in turn.
pub open spec fn reconciled(table: Map<Seq<char>, Tree>, declarations: Seq<Declaration>) -> Map<
    Seq<char>,
    Tree,
>
    decreases declarations.len(),
{
    if declarations.len() == 0 {
        table
    } else {
        seeded_table(reconciled(table, declarations.drop_last()), declarations.last())
    }
}

/// Whether `after` holds everything that `before` holds: every member under
/// the same value.
pub open spec fn keeps_members(before: Map<Seq<char>, Tree>, after: Map<Seq<char>, Tree>) -> bool {
    forall|k: Seq<char>| #[trigger]
        before.contains_key(k) ==> after.contains_key(k) && after[k] == before[k]
}

/// Whether the table `after` holds everything that the table `before` holds:
/// every component, every key of a configuration that is an object under the
/// same value, and every other configuration unchanged.
pub open spec fn keeps_table(before: Map<Seq<char>, Tree>, after: Map<Seq<char>, Tree>) -> bool {
    forall|name: Seq<char>| #[trigger]
        before.contains_key(name) ==> {
            &&& after.contains_key(name)
            &&& match before[name] {
                Tree::Object(members) => after[name] is Object && keeps_members(
                    members,
                    after[name]->Object_0,
                ),
                other => after[name] == other,
            }
        }
}

/// Whether the table lacks nothing that the declaration declares.
pub open spec fn saturated(table: Map<Seq<char>, Tree>, declaration: Declaration) -> bool {
    &&& table.contains_key(declaration.name)
    &&& table[declaration.name] matches Tree::Object(members) ==> forall|i: int|
        0 <= i < declaration.defaults.len() ==> members.contains_key(
            (#[trigger] declaration.defaults[i]).0,
        )
}

/// Seeding keeps every member, and adds every declared key.
pub proof fn lemma_seeded_members(existing: Map<Seq<char>, Tree>, defaults: Seq<(Seq<char>, Tree)>)
    ensures
        keeps_members(existing, seeded_members(existing, defaults)),
        forall|i: int|
            0 <= i < defaults.len() ==> seeded_members(existing, defaults).contains_key(
                (#[trigger] defaults[i]).0,
            ),
        forall|k: Seq<char>| #[trigger]
            seeded_members(existing, defaults).contains_key(k) ==> existing.contains_key(k) || exists|
                i: int,
            |
                0 <= i < defaults.len() && (#[trigger] defaults[i]).0 == k,
    decreases defaults.len(),
{
    if defaults.len() > 0 {
        let front = defaults.drop_last();
        lemma_seeded_members(existing, front);
        let before = seeded_members(existing, front);
        let after = seeded_members(existing, defaults);
        assert forall|i: int| 0 <= i < defaults.len() implies after.contains_key(
            (#[trigger] defaults[i]).0,
        ) by {
            if i < front.len() {
                assert(front[i] == defaults[i]);
            }
        }
        assert forall|k: Seq<char>| #[trigger] after.contains_key(k) implies existing.contains_key(k)
            || exists|i: int| 0 <= i < defaults.len() && (#[trigger] defaults[i]).0 == k by {
            if before.contains_key(k) {
                if !existing.contains_key(k) {
                    let i = choose|i: int| 0 <= i < front.len() && (#[trigger] front[i]).0 == k;
                    assert(defaults[i].0 == k);
                }
            } else {
                assert(defaults[defaults.len() - 1].0 == k);
            }
        }
    }
}

/// Seeding members that lack no declared key changes nothing.
pub proof fn lemma_seeded_members_full(
    existing: Map<Seq<char>, Tree>,
    defaults: Seq<(Seq<char>, Tree)>,
)
    requires
        forall|i: int| 0 <= i < defaults.len() ==> existing.contains_key((#[trigger] defaults[i]).0),
    ensures
        seeded_members(existing, defaults) == existing,
    decreases defaults.len(),
{
    if defaults.len() > 0 {
        let front = defaults.drop_last();
        assert forall|i: int| 0 <= i < front.len() implies existing.contains_key(
            (#[trigger] front[i]).0,
        ) by {
            assert(front[i] == defaults[i]);
        }
        lemma_seeded_members_full(existing, front);
        assert(existing.contains_key(defaults[defaults.len() - 1].0));
    }
}

/// Seeding a table from one declaration keeps everything the table holds,
/// and leaves it lacking nothing that the declaration declares.
pub proof fn lemma_seeded_table(table: Map<Seq<char>, Tree>, declaration: Declaration)
    ensures
        keeps_table(table, seeded_table(table, declaration)),
        saturated(seeded_table(table, declaration), declaration),
{
    let after = seeded_table(table, declaration);
    match config_of(table, declaration.name) {
        None => {
            lemma_seeded_members(Map::empty(), declaration.defaults);
        },
        Some(Tree::Object(members)) => {
            lemma_seeded_members(members, declaration.defaults);
        },
        Some(_) => {},
    }
    assert forall|name: Seq<char>| #[trigger] table.contains_key(name) implies {
        &&& after.contains_key(name)
        &&& match table[name] {
            Tree::Object(members) => after[name] is Object && keeps_members(
                members,
                after[name]->Object_0,
            ),
            other => after[name] == other,
        }
    } by {
        if name != declaration.name {
            assert(after[name] == table[name]);
        }
    }
}

/// Seeding a table that lacks nothing that the declaration declares changes
/// nothing.
pub proof fn lemma_seeded_table_full(table: Map<Seq<char>, Tree>, declaration: Declaration)
    requires
        saturated(table, declaration),
    ensures
        seeded_table(table, declaration) == table,
{
    match table[declaration.name] {
        Tree::Object(members) => {
            lemma_seeded_members_full(members, declaration.defaults);
        },
        _ => {},
    }
    assert(seeded_table(table, declaration) =~= table);
}

/// A table that holds everything of a table that lacks nothing of a
/// declaration lacks nothing of it either.
pub proof fn lemma_saturated_kept(
    before: Map<Seq<char>, Tree>,
    after: Map<Seq<char>, Tree>,
    declaration: Declaration,
)
    requires
        saturated(before, declaration),
        keeps_table(before, after),
    ensures
        saturated(after, declaration),
{
    assert(before.contains_key(declaration.name));
    match before[declaration.name] {
        Tree::Object(members) => {
            let grown = after[declaration.name]->Object_0;
            assert forall|i: int| 0 <= i < declaration.defaults.len() implies grown.contains_key(
                (#[trigger] declaration.defaults[i]).0,
            ) by {
                assert(members.contains_key(declaration.defaults[i].0));
            }
        },
        _ => {},
    }
}

/// Holding everything of a table carries over two steps.
pub proof fn lemma_keeps_table_trans(
    a: Map<Seq<char>, Tree>,
    b: Map<Seq<char>, Tree>,
    c: Map<Seq<char>, Tree>,
)
    requires
        keeps_table(a, b),
        keeps_table(b, c),
    ensures
        keeps_table(a, c),
{
    assert forall|name: Seq<char>| #[trigger] a.contains_key(name) implies {
        &&& c.contains_key(name)
        &&& match a[name] {
            Tree::Object(members) => c[name] is Object && keeps_members(members, c[name]->Object_0),
            other => c[name] == other,
        }
    } by {
        assert(b.contains_key(name));
        match a[name] {
            Tree::Object(members) => {
                let mid = b[name]->Object_0;
                let end = c[name]->Object_0;
                assert forall|k: Seq<char>| #[trigger] members.contains_key(k) implies end.contains_key(
                    k,
                ) && end[k] == members[k] by {
                    assert(mid.contains_key(k));
                }
            },
            _ => {},
        }
    }
}

/// Reconciliation never removes a component or a key, and never replaces a
/// value: the reconciled table holds everything that the table held. It
/// lacks nothing that any of the declarations declares.
pub proof fn lemma_reconciled_keeps(table: Map<Seq<char>, Tree>, declarations: Seq<Declaration>)
    ensures
        keeps_table(table, reconciled(table, declarations)),
        forall|i: int|
            0 <= i < declarations.len() ==> saturated(
                reconciled(table, declarations),
                #[trigger] declarations[i],
            ),
    decreases declarations.len(),
{
    if declarations.len() > 0 {
        let front = declarations.drop_last();
        let before = reconciled(table, front);
        let after = reconciled(table, declarations);
        lemma_reconciled_keeps(table, front);
        lemma_seeded_table(before, declarations.last());
        lemma_keeps_table_trans(table, before, after);
        assert forall|i: int| 0 <= i < declarations.len() implies saturated(
            after,
            #[trigger] declarations[i],
        ) by {
            if i < front.len() {
                assert(front[i] == declarations[i]);
                lemma_saturated_kept(before, after, declarations[i]);
            }
        }
    }
}

/// Reconciling a table that lacks nothing that the declarations declare
/// changes nothing.
pub proof fn lemma_reconciled_full(table: Map<Seq<char>, Tree>, declarations: Seq<Declaration>)
    requires
        forall|i: int| 0 <= i < declarations.len() ==> saturated(table, #[trigger] declarations[i]),
    ensures
        reconciled(table, declarations) == table,
    decreases declarations.len(),
{
    if declarations.len() > 0 {
        let front = declarations.drop_last();
        assert forall|i: int| 0 <= i < front.len() implies saturated(table, #[trigger] front[i]) by {
            assert(front[i] == declarations[i]);
        }
        lemma_reconciled_full(table, front);
        assert(saturated(table, declarations[declarations.len() - 1]));
        lemma_seeded_table_full(table, declarations.last());
    }
}

/// Reconciling a second time against the same declarations changes nothing.
pub proof fn lemma_reconciled_twice(table: Map<Seq<char>, Tree>, declarations: Seq<Declaration>)
    ensures
        reconciled(reconciled(table, declarations), declarations) == reconciled(
            table,
            declarations,
        ),
{
    lemma_reconciled_keeps(table, declarations);
    lemma_reconciled_full(reconciled(table, declarations), declarations);
}


/// The declared defaults that `members` lacks, in the order of the
/// declaration, each key once.
fn missing_defaults(members: &Vec<(String, ConfigTree)>, defaults: &Vec<(String, ConfigTree)>) -> (r:
    Vec<(String, ConfigTree)>)
    requires
        distinct_keys(members@),
        values_wf(members@),
        values_wf(defaults@),
    ensures
        distinct_keys(members@ + r@),
        values_wf(members@ + r@),
        entries_view(members@ + r@) == seeded_members(
            entries_view(members@),
            defaults_view(defaults@),
        ),
        r@.len() == 0 <==> forall|i: int|
            0 <= i < defaults@.len() ==> entries_view(members@).contains_key(
                (#[trigger] defaults_view(defaults@)[i]).0,
            ),
{
    let mut found: Vec<(String, ConfigTree)> = Vec::new();
    let n = defaults.len();
    let mut i: usize = 0;
    let ghost declared = defaults_view(defaults@);
    proof {
        assert(members@ + found@ =~= members@);
        assert(declared.take(0) =~= Seq::<(Seq<char>, Tree)>::empty());
    }
    while i < n
        invariant
            i <= n,
            n == defaults@.len(),
            declared == defaults_view(defaults@),
            distinct_keys(members@),
            values_wf(defaults@),
            distinct_keys(members@ + found@),
            values_wf(members@ + found@),
            entries_view(members@ + found@) == seeded_members(
                entries_view(members@),
                declared.take(i as int),
            ),
            found@.len() == 0 <==> forall|j: int|
                0 <= j < i ==> entries_view(members@).contains_key((#[trigger] declared[j]).0),
        decreases n - i,
    {
        let ghost all = members@ + found@;
        let ghost key = defaults@[i as int].0@;
        proof {
            let upto = declared.take(i + 1);
            assert(upto.drop_last() =~= declared.take(i as int));
            assert(upto.last() == declared[i as int]);
            assert(declared[i as int] == (key, defaults@[i as int].1@));
            lemma_entries_view_dom(all);
            lemma_entries_view_dom(members@);
            lemma_seeded_members(entries_view(members@), declared.take(i as int));
        }
        let known = match position_of(members, defaults[i].0.as_str()) {
            Some(_) => true,
            None => match position_of(&found, defaults[i].0.as_str()) {
                Some(_) => true,
                None => false,
            },
        };
        proof {
            if has_key(all, key) {
                let j = choose|j: int| 0 <= j < all.len() && (#[trigger] all[j]).0@ == key;
                if j < members@.len() {
                    assert(members@[j].0@ == key);
                } else {
                    assert(found@[j - members@.len()].0@ == key);
                }
            }
            if has_key(members@, key) {
                let j = choose|j: int| 0 <= j < members@.len() && (#[trigger] members@[j]).0@ == key;
                assert(all[j].0@ == key);
            }
            if has_key(found@, key) {
                let j = choose|j: int| 0 <= j < found@.len() && (#[trigger] found@[j]).0@ == key;
                assert(all[members@.len() + j].0@ == key);
            }
            assert(known == has_key(all, key));
        }
        if !known {
            let entry = (defaults[i].0.clone(), defaults[i].1.clone());
            proof {
                lemma_entries_view_push(all, entry);
                assert(all.push(entry) =~= members@ + found@.push(entry));
                assert forall|a: int, b: int| 0 <= a < b < all.push(entry).len() implies (
                #[trigger] all.push(entry)[a]).0@ != (#[trigger] all.push(entry)[b]).0@ by {
                    assert(all.push(entry)[a] == all[a]);
                    if b < all.len() {
                        assert(all.push(entry)[b] == all[b]);
                    }
                }
                assert forall|a: int| 0 <= a < all.push(entry).len() implies (#[trigger] all.push(
                    entry,
                )[a]).1.wf() by {
                    if a < all.len() {
                        assert(all.push(entry)[a] == all[a]);
                    }
                }
                assert(!entries_view(members@).contains_key(declared[i as int].0));
            }
            found.push(entry);
        } else {
            proof {
                if found@.len() == 0 {
                    assert(all =~= members@);
                }
            }
        }
        i += 1;
    }
    proof {
        assert(declared.take(n as int) =~= declared);
    }
    found
}

/// Whether every value of a list of entries is well formed.
fn all_values_wf(entries: &Vec<(String, ConfigTree)>) -> (r: bool)
    ensures
        r == values_wf(entries@),
{
    let n = entries.len();
    let mut i: usize = 0;
    while i < n
        invariant
            i <= n,
            n == entries@.len(),
            forall|j: int| 0 <= j < i ==> (#[trigger] entries@[j]).1.wf(),
        decreases n - i,
    {
        if !entries[i].1.is_wf() {
            return false;
        }
        i += 1;
    }
    true
}

impl ComponentDefaults {
    /// Whether the declaration is well formed.
    pub fn is_wf(&self) -> (r: bool)
        ensures
            r == self.wf(),
    {
        all_values_wf(&self.defaults)
    }
}

impl GlobalConfigTable {
    /// Whether the table is well formed.
    pub fn is_wf(&self) -> (r: bool)
        ensures
            r == self.wf(),
    {
        keys_distinct(&self.entries) && all_values_wf(&self.entries)
    }

    /// Seeds the table with the defaults that the definitions declare.
    ///
    /// For each definition in turn: a component without an entry gets one
    /// that holds the declared defaults; a component whose configuration is
    /// an object gets the declared keys that it lacks, and keeps the value of
    /// every key that it has; any other configuration stays as it is.
    ///
    /// Returns whether the table means something else than before. Where it
    /// does not, its entries are those of before, one for one.
    pub fn reconcile(&mut self, definitions: &Vec<ComponentDefaults>) -> (changed: bool)
        requires
            old(self).wf(),
            forall|i: int| 0 <= i < definitions@.len() ==> (#[trigger] definitions@[i]).wf(),
        ensures
            final(self).wf(),
            final(self)@ == reconciled(old(self)@, declarations_view(definitions@)),
            changed <==> final(self)@ != old(self)@,
            !changed ==> final(self).entries@ == old(self).entries@,
    {
        let ghost declarations = declarations_view(definitions@);
        let ghost start = self@;
        let mut changed = false;
        let n = definitions.len();
        let mut i: usize = 0;
        proof {
            assert(declarations.take(0) =~= Seq::<Declaration>::empty());
        }
        while i < n
            invariant
                i <= n,
                n == definitions@.len(),
                declarations == declarations_view(definitions@),
                start == old(self)@,
                forall|j: int| 0 <= j < definitions@.len() ==> (#[trigger] definitions@[j]).wf(),
                self.wf(),
                self@ == reconciled(start, declarations.take(i as int)),
                !changed ==> self.entries@ == old(self).entries@,
                changed ==> exists|j: int| 0 <= j < i && !saturated(start, #[trigger] declarations[j]),
            decreases n - i,
        {
            let definition = &definitions[i];
            let ghost declaration = declarations[i as int];
            let ghost before = self.entries@;
            let ghost table = self@;
            proof {
                let upto = declarations.take(i + 1);
                assert(upto.drop_last() =~= declarations.take(i as int));
                assert(upto.last() == declaration);
                assert(declaration == definition@);
                assert(definitions@[i as int].wf());
                lemma_entries_view_dom(before);
                lemma_reconciled_keeps(start, declarations.take(i as int));
                if saturated(start, declaration) {
                    lemma_saturated_kept(start, table, declaration);
                }
            }
            match position_of(&self.entries, definition.name.as_str()) {
                Some(j) => {
                    proof {
                        lemma_entries_view_at(before, j as int);
                        assert(before[j as int].1.wf());
                    }
                    let lacking = match &self.entries[j].1 {
                        ConfigTree::Object(members) => missing_defaults(members, &definition.defaults),
                        _ => Vec::new(),
                    };
                    if lacking.len() > 0 {
                        let mut lacking = lacking;
                        let ghost added = lacking@;
                        match &mut self.entries[j].1 {
                            ConfigTree::Object(members) => {
                                members.append(&mut lacking);
                            },
                            _ => {},
                        }
                        proof {
                            let members = before[j as int].1->Object_0@;
                            assert(self.entries@[j as int].1->Object_0@ == members + added);
                            assert(self.entries@ =~= before.update(j as int, self.entries@[j as int]));
                            lemma_entries_view_update(before, j as int, self.entries@[j as int]);
                            assert(self.entries@[j as int].1.wf());
                            assert forall|a: int| 0 <= a < self.entries@.len() implies (
                            #[trigger] self.entries@[a]).1.wf() by {
                                if a != j {
                                    assert(self.entries@[a] == before[a]);
                                }
                            }
                            assert(self@ =~= seeded_table(table, declaration));
                            assert(!saturated(table, declaration));
                        }
                        changed = true;
                    } else {
                        proof {
                            match before[j as int].1 {
                                ConfigTree::Object(members) => {
                                    assert(members@ + lacking@ =~= members@);
                                    assert(saturated(table, declaration)) by {
                                        let m = entries_view(members@);
                                        assert forall|a: int|
                                            0 <= a < declaration.defaults.len() implies m.contains_key(
                                            (#[trigger] declaration.defaults[a]).0,
                                        ) by {
                                            assert(declaration.defaults[a] == defaults_view(
                                                definition.defaults@,
                                            )[a]);
                                        }
                                    }
                                },
                                _ => {},
                            }
                            lemma_seeded_table_full(table, declaration);
                        }
                    }
                },
                None => {
                    let empty: Vec<(String, ConfigTree)> = Vec::new();
                    let seeded = missing_defaults(&empty, &definition.defaults);
                    let entry = (definition.name.clone(), ConfigTree::Object(seeded));
                    proof {
                        lemma_entries_view_step(empty@);
                        assert(empty@ + seeded@ =~= seeded@);
                        assert(entry.1.wf());
                        lemma_entries_view_push(before, entry);
                        assert forall|a: int, b: int| 0 <= a < b < before.push(entry).len() implies (
                        #[trigger] before.push(entry)[a]).0@ != (#[trigger] before.push(entry)[b]).0@ by {
                            assert(before.push(entry)[a] == before[a]);
                            if b < before.len() {
                                assert(before.push(entry)[b] == before[b]);
                            }
                        }
                        assert forall|a: int| 0 <= a < before.push(entry).len() implies (
                        #[trigger] before.push(entry)[a]).1.wf() by {
                            if a < before.len() {
                                assert(before.push(entry)[a] == before[a]);
                            }
                        }
                        assert(!saturated(table, declaration));
                    }
                    self.entries.push(entry);
                    changed = true;
                },
            }
            i += 1;
        }
        proof {
            assert(declarations.take(n as int) =~= declarations);
            lemma_reconciled_keeps(start, declarations);
            if changed {
                let j = choose|j: int| 0 <= j < n && !saturated(start, #[trigger] declarations[j]);
                assert(saturated(reconciled(start, declarations), declarations[j]));
            }
        }
        changed
    }
}

} // verus!
