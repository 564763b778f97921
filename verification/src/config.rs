//! The configuration values that plugins are resolved with.

use crate::text::str_eq;
use std::path::PathBuf;
use std::rc::Rc;
use vstd::prelude::*;

verus! {

/// How lines end in formatted text.
#[derive(Clone, Copy, Debug, PartialEq, Eq, Structural)]
pub enum NewLineKind {
    /// As the last line break of the file.
    Auto,
    LineFeed,
    CarriageReturnLineFeed,
    /// As the system the formatter runs on.
    System,
}

/// The settings that every plugin of a scope shares.
#[derive(Clone, Copy, Debug, PartialEq, Eq, Structural)]
pub struct GlobalConfiguration {
    pub line_width: Option<u32>,
    pub use_tabs: Option<bool>,
    pub indent_width: Option<u8>,
    pub new_line_kind: Option<NewLineKind>,
}

/// One value of a plugin's raw configuration.
#[derive(Debug, PartialEq, Eq)]
pub enum ConfigKeyValue {
    String(String),
    Number(i32),
    Bool(bool),
    Array(Vec<ConfigKeyValue>),
    Object(ConfigKeyMap),
    Null,
}

/// A plugin's raw configuration: keys with their values, in the order in
/// which the keys were first set.
#[derive(Debug, PartialEq, Eq)]
pub struct ConfigKeyMap {
    pub entries: Vec<(String, ConfigKeyValue)>,
}

/// What a configuration value is, apart from how it is stored.
pub enum ConfigValueView {
    String(Seq<char>),
    Number(i32),
    Bool(bool),
    Array(Seq<ConfigValueView>),
    Object(Seq<(Seq<char>, ConfigValueView)>),
    Null,
}

/// The entries of a configuration map, as mathematics.
pub type ConfigEntries = Seq<(Seq<char>, ConfigValueView)>;

pub open spec fn value_view(value: ConfigKeyValue) -> ConfigValueView
    decreases value,
{
    match value {
        ConfigKeyValue::String(text) => ConfigValueView::String(text@),
        ConfigKeyValue::Number(number) => ConfigValueView::Number(number),
        ConfigKeyValue::Bool(flag) => ConfigValueView::Bool(flag),
        ConfigKeyValue::Array(items) => ConfigValueView::Array(values_view(items@)),
        ConfigKeyValue::Object(map) => ConfigValueView::Object(entries_view(map.entries@)),
        ConfigKeyValue::Null => ConfigValueView::Null,
    }
}

pub open spec fn values_view(items: Seq<ConfigKeyValue>) -> Seq<ConfigValueView>
    decreases items,
{
    if items.len() == 0 {
        Seq::empty()
    } else {
        values_view(items.drop_last()).push(value_view(items.last()))
    }
}

pub open spec fn entries_view(entries: Seq<(String, ConfigKeyValue)>) -> ConfigEntries
    decreases entries,
{
    if entries.len() == 0 {
        Seq::empty()
    } else {
        entries_view(entries.drop_last()).push((entries.last().0@, value_view(entries.last().1)))
    }
}

impl View for ConfigKeyValue {
    type V = ConfigValueView;

    open spec fn view(&self) -> ConfigValueView {
        value_view(*self)
    }
}

impl View for ConfigKeyMap {
    type V = ConfigEntries;

    open spec fn view(&self) -> ConfigEntries {
        entries_view(self.entries@)
    }
}

/// The view of a list of values has their views, place by place.
pub proof fn lemma_values_view(items: Seq<ConfigKeyValue>)
    ensures
        values_view(items).len() == items.len(),
        forall|i: int| 0 <= i < items.len() ==> (#[trigger] values_view(items)[i]) == items[i]@,
    decreases items.len(),
{
    if items.len() > 0 {
        lemma_values_view(items.drop_last());
    }
}

/// The view of a list of entries has their keys and values, place by place.
pub proof fn lemma_entries_view(entries: Seq<(String, ConfigKeyValue)>)
    ensures
        entries_view(entries).len() == entries.len(),
        forall|i: int|
            0 <= i < entries.len() ==> (#[trigger] entries_view(entries)[i]) == (
                entries[i].0@,
                entries[i].1@,
            ),
    decreases entries.len(),
{
    if entries.len() > 0 {
        lemma_entries_view(entries.drop_last());
    }
}

/// No key stands twice in `entries`.
pub open spec fn keys_distinct(entries: ConfigEntries) -> bool {
    forall|i: int, j: int|
        0 <= i < j < entries.len() ==> (#[trigger] entries[i]).0 != (#[trigger] entries[j]).0
}

/// The first place of `key` in `entries`, or their length where no entry has it.
pub open spec fn key_place(entries: ConfigEntries, key: Seq<char>) -> int
    decreases entries.len(),
{
    if entries.len() == 0 {
        0
    } else if entries.first().0 == key {
        0
    } else {
        1 + key_place(entries.drop_first(), key)
    }
}

/// `key_place` is the least place that holds `key`.
pub proof fn lemma_key_place(entries: ConfigEntries, key: Seq<char>)
    ensures
        0 <= key_place(entries, key) <= entries.len(),
        key_place(entries, key) < entries.len() ==> entries[key_place(entries, key)].0 == key,
        forall|i: int| 0 <= i < key_place(entries, key) ==> (#[trigger] entries[i]).0 != key,
    decreases entries.len(),
{
    if entries.len() > 0 && entries.first().0 != key {
        let rest = entries.drop_first();
        lemma_key_place(rest, key);
        assert forall|i: int| 0 <= i < key_place(entries, key) implies (#[trigger] entries[i]).0
            != key by {
            if i > 0 {
                assert(entries[i] == rest[i - 1]);
            }
        }
    }
}

/// `entries` after `key` was set to `value`: a key that is there keeps its
/// place, a new key goes last.
pub open spec fn upsert(entries: ConfigEntries, key: Seq<char>, value: ConfigValueView) -> ConfigEntries {
    let place = key_place(entries, key);
    if place < entries.len() {
        entries.update(place, (key, value))
    } else {
        entries.push((key, value))
    }
}

impl ConfigKeyMap {
    /// No key stands twice.
    pub open spec fn wf(&self) -> bool {
        keys_distinct(self@)
    }

    pub fn new() -> (map: Self)
        ensures
            map@ == ConfigEntries::empty(),
            map.wf(),
    {
        ConfigKeyMap { entries: Vec::new() }
    }

    pub fn len(&self) -> (count: usize)
        ensures
            count == self@.len(),
    {
        proof {
            lemma_entries_view(self.entries@);
        }
        self.entries.len()
    }

    pub fn is_empty(&self) -> (empty: bool)
        ensures
            empty == (self@.len() == 0),
    {
        proof {
            lemma_entries_view(self.entries@);
        }
        self.entries.len() == 0
    }

    /// The first place of `key`, or `len()` where the map does not have it.
    pub fn position(&self, key: &str) -> (place: usize)
        ensures
            place == key_place(self@, key@),
    {
        proof {
            lemma_entries_view(self.entries@);
            assert(self@.skip(0) =~= self@);
        }
        let mut i: usize = 0;
        while i < self.entries.len()
            invariant
                i <= self.entries.len(),
                self@.len() == self.entries.len(),
                forall|j: int| 0 <= j < self.entries.len() ==> (#[trigger] self@[j]) == (
                    self.entries[j].0@,
                    self.entries[j].1@,
                ),
                key_place(self@, key@) == i + key_place(self@.skip(i as int), key@),
            decreases self.entries.len() - i,
        {
            proof {
                let rest = self@.skip(i as int);
                assert(rest.first() == self@[i as int]);
                assert(rest.drop_first() =~= self@.skip(i + 1));
            }
            if str_eq(self.entries[i].0.as_str(), key) {
                return i;
            }
            i += 1;
        }
        i
    }

    /// The value stored under `key`.
    pub fn get(&self, key: &str) -> (found: Option<&ConfigKeyValue>)
        ensures
            match found {
                Some(value) => key_place(self@, key@) < self@.len() && value@ == self@[key_place(
                    self@,
                    key@,
                )].1,
                None => key_place(self@, key@) == self@.len(),
            },
    {
        proof {
            lemma_entries_view(self.entries@);
        }
        let place = self.position(key);
        proof {
            lemma_key_place(self@, key@);
        }
        if place < self.entries.len() {
            Some(&self.entries[place].1)
        } else {
            None
        }
    }

    /// Sets `key` to `value`. A key that the map has keeps its place.
    pub fn insert(&mut self, key: String, value: ConfigKeyValue)
        ensures
            final(self)@ == upsert(old(self)@, key@, value@),
            old(self).wf() ==> final(self).wf(),
    {
        proof {
            lemma_entries_view(self.entries@);
            lemma_key_place(self@, key@);
        }
        let place = self.position(key.as_str());
        let ghost before = self.entries@;
        if place < self.entries.len() {
            self.entries[place] = (key, value);
            proof {
                lemma_entries_view(self.entries@);
                assert(self@ =~= upsert(entries_view(before), key@, value@));
            }
        } else {
            self.entries.push((key, value));
            proof {
                assert(self.entries@.drop_last() =~= before);
            }
        }
        proof {
            let after = self@;
            let prior = entries_view(before);
            if keys_distinct(prior) {
                assert forall|i: int, j: int| 0 <= i < j < after.len() implies (#[trigger] after[i]).0
                    != (#[trigger] after[j]).0 by {
                    if place < prior.len() {
                        assert(after[i].0 == prior[i].0);
                        assert(after[j].0 == prior[j].0);
                    } else if j == prior.len() {
                        assert(after[i] == prior[i]);
                    } else {
                        assert(after[i] == prior[i]);
                        assert(after[j] == prior[j]);
                    }
                }
            }
        }
    }
}

/// The settings of one plugin in one resolution.
#[derive(Debug, PartialEq, Eq)]
pub struct FormatConfig {
    /// Told apart from every other configuration of the same resolution.
    pub id: u32,
    pub global: GlobalConfiguration,
    pub raw: ConfigKeyMap,
}

/// What a plugin says of itself.
#[derive(Debug, PartialEq, Eq)]
pub struct PluginInfo {
    pub name: String,
    pub version: String,
    pub config_key: String,
    pub help_url: String,
    pub config_schema_url: String,
    pub update_url: Option<String>,
}

/// The files that a plugin formats, by extension and by name.
#[derive(Debug, PartialEq, Eq)]
pub struct FileMatchingInfo {
    pub file_extensions: Vec<String>,
    pub file_names: Vec<String>,
}

/// A plugin that can be started: its description, and whether it runs as a
/// process of its own.
#[derive(Debug, PartialEq, Eq)]
pub struct PluginReference {
    pub info: PluginInfo,
    pub is_process_plugin: bool,
}

/// One configuration, read and resolved.
#[derive(Debug, PartialEq, Eq)]
pub struct ResolvedConfig {
    pub base_path: PathBuf,
    /// Where each plugin comes from, in the order of the declaration. A
    /// nested configuration may share the list of the one above it.
    pub plugins: Rc<Vec<String>>,
    pub config_map: ConfigKeyMap,
}

} // verus!
