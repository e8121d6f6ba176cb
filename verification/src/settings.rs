//! The core settings record: its built-in defaults, its form as a
//! configuration value, and how a stored or a newly sent value is merged
//! into it.

use crate::config_tree::{
    distinct_keys, entries_view, has_key, keys_distinct, lemma_entries_view_at,
    lemma_entries_view_push, lemma_entries_view_step, lemma_items_view, member, merged,
    merged_members, position_of, ConfigTree, Tree,
};
use crate::error::StoreError;
use crate::text::same_text;
use vstd::prelude::*;

verus! {

/// The core settings. Either field may be unset. The shortcut keys are a
/// list of bindings, from the name of an action to the keys that trigger it,
/// with pairwise distinct names.
#[derive(Debug, PartialEq, Eq)]
pub struct CoreSettings {
    pub autostart: Option<bool>,
    pub shortcut_keys: Option<Vec<(String, String)>>,
}

/// What is to be done about the registration of the application to start
/// with the system.
#[derive(Clone, Copy, Debug, PartialEq, Eq, Structural)]
pub enum AutostartChange {
    Enable,
    Disable,
    Keep,
}

/// What core settings mean: the autostart flag, and the shortcut keys as a
/// map from action to keys.
pub ghost struct Settings {
    pub autostart: Option<bool>,
    pub shortcut_keys: Option<Map<Seq<char>, Seq<char>>>,
}

/// The meaning of a list of bindings.
pub open spec fn bindings_view(bindings: Seq<(String, String)>) -> Map<Seq<char>, Seq<char>>
    decreases bindings.len(),
{
    if bindings.len() == 0 {
        Map::empty()
    } else {
        bindings_view(bindings.drop_last()).insert(bindings.last().0@, bindings.last().1@)
    }
}

impl View for CoreSettings {
    type V = Settings;

    open spec fn view(&self) -> Settings {
        Settings {
            autostart: self.autostart,
            shortcut_keys: match self.shortcut_keys {
                Some(bindings) => Some(bindings_view(bindings@)),
                None => None,
            },
        }
    }
}

impl CoreSettings {
    /// Well-formedness: no action is bound twice.
    pub open spec fn wf(self) -> bool {
        match self.shortcut_keys {
            Some(bindings) => distinct_keys(bindings@),
            None => true,
        }
    }
}

/// What is to be done about the registration, given whether the settings ask
/// for autostart and whether the application is registered: it is registered
/// where autostart is set and on, and not registered otherwise.
pub open spec fn autostart_step(wanted: Option<bool>, registered: bool) -> AutostartChange {
    if wanted == Some(true) {
        if registered {
            AutostartChange::Keep
        } else {
            AutostartChange::Enable
        }
    } else {
        if registered {
            AutostartChange::Disable
        } else {
            AutostartChange::Keep
        }
    }
}

/// The keys of the shortcut that shows the main window: what the settings
/// bind to `global_shortcut`, unless they bind nothing or the empty text.
pub open spec fn global_shortcut_of(settings: Settings) -> Option<Seq<char>> {
    match settings.shortcut_keys {
        Some(bindings) => if bindings.contains_key("global_shortcut"@)
            && bindings["global_shortcut"@].len() > 0 {
            Some(bindings["global_shortcut"@])
        } else {
            None
        },
        None => None,
    }
}

/// The built-in shortcut keys. Where the system has a full-screen shortcut of
/// its own (`system_fullscreen`), the library binds none.
pub open spec fn default_shortcuts(system_fullscreen: bool) -> Map<Seq<char>, Seq<char>> {
    Map::empty().insert("global_shortcut"@, ""@).insert(
        "fullscreen"@,
        if system_fullscreen {
            ""@
        } else {
            "F11"@
        },
    ).insert("screenshot_only"@, " "@).insert("search"@, "Ctrl+K, Command+K"@)
}

/// The built-in settings: autostart off, and the built-in shortcut keys.
pub open spec fn default_settings(system_fullscreen: bool) -> Settings {
    Settings { autostart: Some(false), shortcut_keys: Some(default_shortcuts(system_fullscreen)) }
}

/// A map of texts as an object of text values.
pub open spec fn text_members(m: Map<Seq<char>, Seq<char>>) -> Map<Seq<char>, Tree> {
    Map::new(|k: Seq<char>| m.contains_key(k), |k: Seq<char>| Tree::Text(m[k]))
}

/// The texts that an object of text values holds.
pub open spec fn member_texts(m: Map<Seq<char>, Tree>) -> Map<Seq<char>, Seq<char>> {
    Map::new(|k: Seq<char>| m.contains_key(k), |k: Seq<char>| m[k]->Text_0)
}

/// Every member of the object is a text.
pub open spec fn all_text(m: Map<Seq<char>, Tree>) -> bool {
    forall|k: Seq<char>| m.contains_key(k) ==> #[trigger] m[k] is Text
}

/// The settings as a configuration value: an object with the members
/// `autostart` and `shortcut_keys`, each null where unset.
pub open spec fn encoded(s: Settings) -> Tree {
    Tree::Object(
        Map::empty().insert(
            "autostart"@,
            match s.autostart {
                Some(flag) => Tree::Bool(flag),
                None => Tree::Null,
            },
        ).insert(
            "shortcut_keys"@,
            match s.shortcut_keys {
                Some(m) => Tree::Object(text_members(m)),
                None => Tree::Null,
            },
        ),
    )
}

/// The autostart flag that a value stands for: unset for null, set for a
/// boolean, and no flag at all for anything else.
pub open spec fn decoded_flag(t: Tree) -> Option<Option<bool>> {
    match t {
        Tree::Null => Some(None),
        Tree::Bool(flag) => Some(Some(flag)),
        _ => None,
    }
}

/// The shortcut keys that a value stands for: unset for null, set for an
/// object of texts, and none at all for anything else.
pub open spec fn decoded_shortcuts(t: Tree) -> Option<Option<Map<Seq<char>, Seq<char>>>> {
    match t {
        Tree::Null => Some(None),
        Tree::Object(m) => if all_text(m) {
            Some(Some(member_texts(m)))
        } else {
            None
        },
        _ => None,
    }
}

/// The settings made of a flag and shortcut keys, where both were read.
pub open spec fn decoded_pair(
    flag: Option<Option<bool>>,
    shortcuts: Option<Option<Map<Seq<char>, Seq<char>>>>,
) -> Option<Settings> {
    match (flag, shortcuts) {
        (Some(autostart), Some(shortcut_keys)) => Some(Settings { autostart, shortcut_keys }),
        _ => None,
    }
}

/// The settings that a configuration value stands for, if any.
///
/// An object stands for settings through its members `autostart` and
/// `shortcut_keys`; a missing member counts as null, other members are passed
/// over. An array of two items stands for settings through the two, in that
/// order. Nothing else stands for settings.
pub open spec fn decoded(t: Tree) -> Option<Settings> {
    match t {
        Tree::Object(m) => decoded_pair(
            decoded_flag(member(m, "autostart"@)),
            decoded_shortcuts(member(m, "shortcut_keys"@)),
        ),
        Tree::Array(items) => if items.len() == 2 {
            decoded_pair(decoded_flag(items[0]), decoded_shortcuts(items[1]))
        } else {
            None
        },
        _ => None,
    }
}

/// The settings in force after start-up: the built-in ones where nothing is
/// stored; else what the stored value, merged over the built-in ones, stands
/// for; and the built-in ones again where that stands for no settings.
pub open spec fn loaded(stored: Option<Tree>, system_fullscreen: bool) -> Settings {
    match stored {
        None => default_settings(system_fullscreen),
        Some(value) => match decoded(merged(encoded(default_settings(system_fullscreen)), value)) {
            Some(settings) => settings,
            None => default_settings(system_fullscreen),
        },
    }
}


/// The meaning of a list of bindings, one step unfolded.
pub proof fn lemma_bindings_view_step(bindings: Seq<(String, String)>)
    ensures
        bindings.len() == 0 ==> bindings_view(bindings) == Map::<Seq<char>, Seq<char>>::empty(),
        bindings.len() > 0 ==> bindings_view(bindings) == bindings_view(bindings.drop_last()).insert(
            bindings.last().0@,
            bindings.last().1@,
        ),
{
}

/// Appending a binding inserts its action.
pub proof fn lemma_bindings_view_push(bindings: Seq<(String, String)>, binding: (String, String))
    ensures
        bindings_view(bindings.push(binding)) == bindings_view(bindings).insert(
            binding.0@,
            binding.1@,
        ),
{
    lemma_bindings_view_step(bindings.push(binding));
    assert(bindings.push(binding).drop_last() =~= bindings);
}

/// The actions that a list of bindings binds are those of its entries, and
/// they are finitely many.
pub proof fn lemma_bindings_view_dom(bindings: Seq<(String, String)>)
    ensures
        bindings_view(bindings).dom().finite(),
        forall|k: Seq<char>| #[trigger] bindings_view(bindings).contains_key(k) <==> has_key(bindings, k),
    decreases bindings.len(),
{
    lemma_bindings_view_step(bindings);
    if bindings.len() > 0 {
        let front = bindings.drop_last();
        lemma_bindings_view_dom(front);
        assert forall|k: Seq<char>| #[trigger]
            bindings_view(bindings).contains_key(k) <==> has_key(bindings, k) by {
            if has_key(bindings, k) {
                let i = choose|i: int| 0 <= i < bindings.len() && (#[trigger] bindings[i]).0@ == k;
                if i < front.len() {
                    assert(front[i].0@ == k);
                }
            }
            if has_key(front, k) {
                let i = choose|i: int| 0 <= i < front.len() && (#[trigger] front[i]).0@ == k;
                assert(bindings[i].0@ == k);
            }
            if k == bindings.last().0@ {
                assert(bindings[bindings.len() - 1].0@ == k);
            }
        }
    }
}

/// Under distinct actions, each action is bound to its own keys.
pub proof fn lemma_bindings_view_at(bindings: Seq<(String, String)>, i: int)
    requires
        distinct_keys(bindings),
        0 <= i < bindings.len(),
    ensures
        bindings_view(bindings).contains_key(bindings[i].0@),
        bindings_view(bindings)[bindings[i].0@] == bindings[i].1@,
    decreases bindings.len(),
{
    let front = bindings.drop_last();
    lemma_bindings_view_step(bindings);
    if i < bindings.len() - 1 {
        assert(distinct_keys(front)) by {
            assert forall|a: int, b: int| 0 <= a < b < front.len() implies (#[trigger] front[a]).0@
                != (#[trigger] front[b]).0@ by {
                assert(front[a] == bindings[a] && front[b] == bindings[b]);
            }
        }
        lemma_bindings_view_at(front, i);
        assert(front[i] == bindings[i]);
        assert(bindings[i].0@ != bindings[bindings.len() - 1].0@);
    }
}

/// The keys of the built-in settings and of their members differ from each
/// other.
pub proof fn lemma_names_differ()
    ensures
        "autostart"@ != "shortcut_keys"@,
        "core"@ != "agents"@,
        "global_shortcut"@ != "fullscreen"@,
        "global_shortcut"@ != "screenshot_only"@,
        "global_shortcut"@ != "search"@,
        "fullscreen"@ != "screenshot_only"@,
        "fullscreen"@ != "search"@,
        "screenshot_only"@ != "search"@,
{
    reveal_strlit("autostart");
    reveal_strlit("shortcut_keys");
    reveal_strlit("core");
    reveal_strlit("agents");
    reveal_strlit("global_shortcut");
    reveal_strlit("fullscreen");
    reveal_strlit("screenshot_only");
    reveal_strlit("search");
    assert("autostart"@.len() == 9 && "shortcut_keys"@.len() == 13);
    assert("core"@.len() == 4 && "agents"@.len() == 6);
    assert("global_shortcut"@.len() == 15 && "screenshot_only"@.len() == 15);
    assert("fullscreen"@.len() == 10 && "search"@.len() == 6);
    assert("global_shortcut"@[0] == 'g');
    assert("screenshot_only"@[0] == 's');
}

/// Encoding settings and decoding the result gives the settings back.
pub proof fn lemma_decode_encode(s: Settings)
    ensures
        decoded(encoded(s)) == Some(s),
{
    lemma_names_differ();
    match s.shortcut_keys {
        Some(m) => {
            assert(all_text(text_members(m)));
            assert(member_texts(text_members(m)) =~= m);
        },
        None => {},
    }
}

/// A stored value that sets the autostart flag and says nothing of the
/// shortcut keys gives that flag and the built-in shortcut keys.
pub proof fn lemma_loaded_flag(stored: Map<Seq<char>, Tree>, flag: bool, system_fullscreen: bool)
    requires
        stored.dom().finite(),
        stored.contains_key("autostart"@),
        stored["autostart"@] == Tree::Bool(flag),
        !stored.contains_key("shortcut_keys"@),
    ensures
        loaded(Some(Tree::Object(stored)), system_fullscreen) == (Settings {
            autostart: Some(flag),
            shortcut_keys: Some(default_shortcuts(system_fullscreen)),
        }),
{
    lemma_names_differ();
    let built_in = default_settings(system_fullscreen);
    let shortcuts = default_shortcuts(system_fullscreen);
    let members = encoded(built_in)->Object_0;
    let result = merged_members(members, stored);
    assert(merged(encoded(built_in), Tree::Object(stored)) == Tree::Object(result));
    assert(result.contains_key("autostart"@));
    assert(result["autostart"@] == merged(member(members, "autostart"@), Tree::Bool(flag)));
    assert(result["autostart"@] == Tree::Bool(flag));
    assert(result.contains_key("shortcut_keys"@));
    assert(result["shortcut_keys"@] == Tree::Object(text_members(shortcuts)));
    assert(all_text(text_members(shortcuts)));
    assert(member_texts(text_members(shortcuts)) =~= shortcuts);
}

impl CoreSettings {
    /// Whether the settings are well formed.
    pub fn is_wf(&self) -> (r: bool)
        ensures
            r == self.wf(),
    {
        match &self.shortcut_keys {
            Some(bindings) => keys_distinct(bindings),
            None => true,
        }
    }

    /// What is to be done about the registration of the application to
    /// start with the system, given whether it is registered now.
    pub fn autostart_change(&self, registered: bool) -> (r: AutostartChange)
        ensures
            r == autostart_step(self@.autostart, registered),
    {
        match self.autostart {
            Some(true) => if registered {
                AutostartChange::Keep
            } else {
                AutostartChange::Enable
            },
            _ => if registered {
                AutostartChange::Disable
            } else {
                AutostartChange::Keep
            },
        }
    }

    /// The keys of the shortcut that shows the main window, if one is bound.
    pub fn global_shortcut(&self) -> (r: Option<&String>)
        requires
            self.wf(),
        ensures
            match r {
                Some(keys) => global_shortcut_of(self@) == Some(keys@),
                None => global_shortcut_of(self@) is None,
            },
    {
        match &self.shortcut_keys {
            Some(bindings) => {
                proof {
                    lemma_bindings_view_dom(bindings@);
                }
                match position_of(bindings, "global_shortcut") {
                    Some(i) => {
                        proof {
                            lemma_bindings_view_at(bindings@, i as int);
                        }
                        proof {
                            reveal_strlit("");
                            assert(""@.len() == 0);
                            assert(bindings@[i as int].1@.len() == 0 <==> bindings@[i as int].1@
                                =~= ""@);
                        }
                        if same_text(bindings[i].1.as_str(), "") {
                            None
                        } else {
                            Some(&bindings[i].1)
                        }
                    },
                    None => {
                        assert(!bindings_view(bindings@).contains_key("global_shortcut"@));
                        None
                    },
                }
            },
            None => None,
        }
    }

    /// The built-in settings. `system_fullscreen` says whether the system has
    /// a full-screen shortcut of its own, in which case none is bound.
    pub fn defaults(system_fullscreen: bool) -> (r: CoreSettings)
        ensures
            r@ == default_settings(system_fullscreen),
            r.wf(),
    {
        let mut bindings: Vec<(String, String)> = Vec::new();
        proof {
            lemma_bindings_view_step(bindings@);
            lemma_names_differ();
        }
        let ghost b0 = bindings@;
        bindings.push((String::from_str("global_shortcut"), String::from_str("")));
        let ghost b1 = bindings@;
        let fullscreen = if system_fullscreen {
            String::from_str("")
        } else {
            String::from_str("F11")
        };
        bindings.push((String::from_str("fullscreen"), fullscreen));
        let ghost b2 = bindings@;
        bindings.push((String::from_str("screenshot_only"), String::from_str(" ")));
        let ghost b3 = bindings@;
        bindings.push((String::from_str("search"), String::from_str("Ctrl+K, Command+K")));
        proof {
            lemma_bindings_view_push(b0, b1[0]);
            assert(b1 =~= b0.push(b1[0]));
            lemma_bindings_view_push(b1, b2[1]);
            assert(b2 =~= b1.push(b2[1]));
            lemma_bindings_view_push(b2, b3[2]);
            assert(b3 =~= b2.push(b3[2]));
            lemma_bindings_view_push(b3, bindings@[3]);
            assert(bindings@ =~= b3.push(bindings@[3]));
        }
        CoreSettings { autostart: Some(false), shortcut_keys: Some(bindings) }
    }

    /// The settings as a configuration value.
    pub fn to_tree(&self) -> (r: ConfigTree)
        requires
            self.wf(),
        ensures
            r@ == encoded(self@),
            r.wf(),
    {
        let flag = match self.autostart {
            Some(on) => ConfigTree::Bool(on),
            None => ConfigTree::Null,
        };
        let shortcuts = match &self.shortcut_keys {
            Some(bindings) => ConfigTree::Object(bindings_to_entries(bindings)),
            None => ConfigTree::Null,
        };
        assert(flag.wf() && shortcuts.wf());
        let mut entries: Vec<(String, ConfigTree)> = Vec::new();
        let ghost e0 = entries@;
        entries.push((String::from_str("autostart"), flag));
        let ghost e1 = entries@;
        entries.push((String::from_str("shortcut_keys"), shortcuts));
        proof {
            lemma_names_differ();
            lemma_entries_view_step(e0);
            lemma_entries_view_push(e0, e1[0]);
            assert(e1 =~= e0.push(e1[0]));
            lemma_entries_view_push(e1, entries@[1]);
            assert(entries@ =~= e1.push(entries@[1]));
            assert(entries@[0].0@ != entries@[1].0@);
        }
        ConfigTree::Object(entries)
    }

    /// The settings that a configuration value stands for, if any.
    pub fn from_tree(tree: &ConfigTree) -> (r: Option<CoreSettings>)
        requires
            tree.wf(),
        ensures
            match r {
                Some(settings) => decoded(tree@) == Some(settings@) && settings.wf(),
                None => decoded(tree@) is None,
            },
    {
        match tree {
            ConfigTree::Object(_) => {
                let flag = match tree.get("autostart") {
                    Some(value) => flag_from(value),
                    None => Some(None),
                };
                let shortcuts = match tree.get("shortcut_keys") {
                    Some(value) => shortcuts_from(value),
                    None => Some(None),
                };
                match (flag, shortcuts) {
                    (Some(autostart), Some(shortcut_keys)) => Some(
                        CoreSettings { autostart, shortcut_keys },
                    ),
                    _ => None,
                }
            },
            ConfigTree::Array(items) => {
                proof {
                    lemma_items_view(items@);
                }
                if items.len() != 2 {
                    return None;
                }
                match (flag_from(&items[0]), shortcuts_from(&items[1])) {
                    (Some(autostart), Some(shortcut_keys)) => Some(
                        CoreSettings { autostart, shortcut_keys },
                    ),
                    _ => None,
                }
            },
            _ => None,
        }
    }

    /// The settings in force after start-up, given what the settings store
    /// holds for them (`None` where it holds nothing).
    pub fn load(stored: Option<&ConfigTree>, system_fullscreen: bool) -> (r: CoreSettings)
        requires
            stored matches Some(value) ==> value.wf(),
        ensures
            r@ == loaded(
                match stored {
                    Some(value) => Some(value@),
                    None => None,
                },
                system_fullscreen,
            ),
            r.wf(),
    {
        match stored {
            Some(value) => {
                let mut tree = CoreSettings::defaults(system_fullscreen).to_tree();
                tree.merge(value);
                match CoreSettings::from_tree(&tree) {
                    Some(settings) => settings,
                    None => CoreSettings::defaults(system_fullscreen),
                }
            },
            None => CoreSettings::defaults(system_fullscreen),
        }
    }

    /// Takes a change to the settings. A null `change` asks for nothing and
    /// leaves the settings as they are. An object is merged into the settings;
    /// where the result stands for settings, these replace the old ones.
    /// Anything else is refused.
    ///
    /// Returns whether the settings were replaced, in which case they are to
    /// be written to the settings store.
    pub fn apply(&mut self, change: &ConfigTree) -> (r: Result<bool, StoreError>)
        requires
            old(self).wf(),
            change.wf(),
        ensures
            final(self).wf(),
            match r {
                Ok(replaced) => if change@ is Null {
                    !replaced && *final(self) == *old(self)
                } else {
                    &&& replaced
                    &&& change@ is Object
                    &&& Some(final(self)@) == decoded(merged(encoded(old(self)@), change@))
                },
                Err(e) => {
                    &&& *final(self) == *old(self)
                    &&& e matches StoreError::Parse(how)
                    &&& if change@ is Object {
                        &&& decoded(merged(encoded(old(self)@), change@)) is None
                        &&& how@ == "Failed to deserialize new settings"@
                    } else {
                        &&& !(change@ is Null)
                        &&& how@ == "Invalid settings format"@
                    }
                },
            },
    {
        if change.is_null() {
            return Ok(false);
        }
        if !change.is_object() {
            return Err(StoreError::Parse(String::from_str("Invalid settings format")));
        }
        let mut tree = self.to_tree();
        tree.merge(change);
        match CoreSettings::from_tree(&tree) {
            Some(settings) => {
                *self = settings;
                Ok(true)
            },
            None => Err(StoreError::Parse(String::from_str("Failed to deserialize new settings"))),
        }
    }
}

/// The autostart flag that a value stands for.
fn flag_from(value: &ConfigTree) -> (r: Option<Option<bool>>)
    ensures
        r == decoded_flag(value@),
{
    match value {
        ConfigTree::Null => Some(None),
        ConfigTree::Bool(on) => Some(Some(*on)),
        _ => None,
    }
}

/// The shortcut keys that a value stands for.
fn shortcuts_from(value: &ConfigTree) -> (r: Option<Option<Vec<(String, String)>>>)
    requires
        value.wf(),
    ensures
        match r {
            Some(Some(bindings)) => decoded_shortcuts(value@) == Some(Some(bindings_view(bindings@)))
                && distinct_keys(bindings@),
            Some(None) => decoded_shortcuts(value@) == Some(None::<Map<Seq<char>, Seq<char>>>),
            None => decoded_shortcuts(value@) is None,
        },
{
    match value {
        ConfigTree::Null => Some(None),
        ConfigTree::Object(entries) => {
            let mut bindings: Vec<(String, String)> = Vec::new();
            let n = entries.len();
            let mut i: usize = 0;
            proof {
                assert(entries@.take(0) =~= Seq::<(String, ConfigTree)>::empty());
                lemma_entries_view_step(entries@.take(0));
                lemma_bindings_view_step(bindings@);
                assert(member_texts(Map::<Seq<char>, Tree>::empty()) =~= Map::<
                    Seq<char>,
                    Seq<char>,
                >::empty());
            }
            while i < n
                invariant
                    i <= n,
                    n == entries@.len(),
                    *value == ConfigTree::Object(*entries),
                    distinct_keys(entries@),
                    bindings@.len() == i,
                    forall|j: int| 0 <= j < i ==> (#[trigger] bindings@[j]).0@ == entries@[j].0@,
                    all_text(entries_view(entries@.take(i as int))),
                    bindings_view(bindings@) == member_texts(entries_view(entries@.take(i as int))),
                decreases n - i,
            {
                let ghost seen = entries_view(entries@.take(i as int));
                proof {
                    let upto = entries@.take(i + 1);
                    assert(upto.drop_last() =~= entries@.take(i as int));
                    assert(upto.last() == entries@[i as int]);
                    lemma_entries_view_step(upto);
                }
                match &entries[i].1 {
                    ConfigTree::Text(keys) => {
                        let binding = (entries[i].0.clone(), keys.clone());
                        proof {
                            lemma_bindings_view_push(bindings@, binding);
                            assert(member_texts(seen.insert(binding.0@, Tree::Text(binding.1@)))
                                =~= member_texts(seen).insert(binding.0@, binding.1@));
                        }
                        bindings.push(binding);
                    },
                    _ => {
                        proof {
                            lemma_entries_view_at(entries@, i as int);
                            let m = entries_view(entries@);
                            let k = entries@[i as int].0@;
                            assert(m.contains_key(k) && !(m[k] is Text));
                        }
                        return None;
                    },
                }
                i += 1;
            }
            proof {
                assert(entries@.take(n as int) =~= entries@);
                assert forall|a: int, b: int| 0 <= a < b < bindings@.len() implies (
                #[trigger] bindings@[a]).0@ != (#[trigger] bindings@[b]).0@ by {
                    assert(entries@[a].0@ != entries@[b].0@);
                }
            }
            Some(Some(bindings))
        },
        _ => None,
    }
}

/// The bindings as the entries of an object of texts.
fn bindings_to_entries(bindings: &Vec<(String, String)>) -> (r: Vec<(String, ConfigTree)>)
    requires
        distinct_keys(bindings@),
    ensures
        distinct_keys(r@),
        forall|i: int| 0 <= i < r@.len() ==> (#[trigger] r@[i]).1.wf(),
        entries_view(r@) == text_members(bindings_view(bindings@)),
{
    let mut entries: Vec<(String, ConfigTree)> = Vec::new();
    let n = bindings.len();
    let mut i: usize = 0;
    proof {
        assert(bindings@.take(0) =~= Seq::<(String, String)>::empty());
        lemma_bindings_view_step(bindings@.take(0));
        lemma_entries_view_step(entries@);
        assert(text_members(Map::<Seq<char>, Seq<char>>::empty()) =~= Map::<Seq<char>, Tree>::empty());
    }
    while i < n
        invariant
            i <= n,
            n == bindings@.len(),
            entries@.len() == i,
            forall|j: int| 0 <= j < i ==> (#[trigger] entries@[j]).0@ == bindings@[j].0@,
            forall|j: int| 0 <= j < i ==> (#[trigger] entries@[j]).1.wf(),
            entries_view(entries@) == text_members(bindings_view(bindings@.take(i as int))),
        decreases n - i,
    {
        let ghost seen = bindings_view(bindings@.take(i as int));
        let entry = (bindings[i].0.clone(), ConfigTree::Text(bindings[i].1.clone()));
        proof {
            let upto = bindings@.take(i + 1);
            assert(upto.drop_last() =~= bindings@.take(i as int));
            assert(upto.last() == bindings@[i as int]);
            lemma_bindings_view_step(upto);
            lemma_entries_view_push(entries@, entry);
            assert(text_members(seen.insert(entry.0@, bindings@[i as int].1@)) =~= text_members(
                seen,
            ).insert(entry.0@, entry.1@));
        }
        entries.push(entry);
        i += 1;
    }
    proof {
        assert(bindings@.take(n as int) =~= bindings@);
        assert forall|a: int, b: int| 0 <= a < b < entries@.len() implies (#[trigger] entries@[a]).0@
            != (#[trigger] entries@[b]).0@ by {
            assert(bindings@[a].0@ != bindings@[b].0@);
        }
    }
    entries
}

/// The document that the settings store holds: the core settings under
/// `core`, the component configuration under `agents`.
pub open spec fn document_of(core: Settings, agents: Tree) -> Tree {
    Tree::Object(Map::empty().insert("core"@, encoded(core)).insert("agents"@, agents))
}

/// The document to write to the settings store.
pub fn settings_document(core: &CoreSettings, agents: ConfigTree) -> (r: ConfigTree)
    requires
        core.wf(),
        agents.wf(),
    ensures
        r@ == document_of(core@, agents@),
        r.wf(),
{
    let mut entries: Vec<(String, ConfigTree)> = Vec::new();
    let ghost e0 = entries@;
    entries.push((String::from_str("core"), core.to_tree()));
    let ghost e1 = entries@;
    entries.push((String::from_str("agents"), agents));
    proof {
        lemma_names_differ();
        lemma_entries_view_step(e0);
        lemma_entries_view_push(e0, e1[0]);
        assert(e1 =~= e0.push(e1[0]));
        lemma_entries_view_push(e1, entries@[1]);
        assert(entries@ =~= e1.push(entries@[1]));
        assert(entries@[0].0@ != entries@[1].0@);
    }
    ConfigTree::Object(entries)
}

} // verus!
