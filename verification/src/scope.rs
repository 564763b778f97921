//! The plugins of one configuration, in the order of their declaration and
//! found by name.

use crate::config::ResolvedConfig;
use crate::hasher::{absorb, fingerprint, lemma_absorb_concat, IncrementalHasher};
use crate::name_index::{index_entries, index_get, index_insert, index_new};
use crate::config::keys_distinct;
use crate::plugin::{
    admission_state, associations_view, AdmissionAction, AdmissionEvent, PluginWithConfig,
};
use crate::sorted::{lemma_sort_entries, lemma_sort_ignores_order, same_entries};
use crate::vectors::reversed;
use indexmap::IndexMap;
use std::rc::Rc;
use vstd::prelude::*;

verus! {

/// The name under which a plugin is found.
pub open spec fn plugin_name(plugin: PluginWithConfig) -> Seq<char> {
    plugin.plugin.info.name@
}

/// The first place of a plugin called `name`, or the count of the plugins
/// where none is called so.
pub open spec fn name_place(plugins: Seq<PluginWithConfig>, name: Seq<char>) -> int
    decreases plugins.len(),
{
    if plugins.len() == 0 {
        0
    } else if plugin_name(plugins.first()) == name {
        0
    } else {
        1 + name_place(plugins.drop_first(), name)
    }
}

/// Whether a plugin is called `name`.
pub open spec fn has_plugin(plugins: Seq<PluginWithConfig>, name: Seq<char>) -> bool {
    name_place(plugins, name) < plugins.len()
}

/// No two plugins have one name.
pub open spec fn names_distinct(plugins: Seq<PluginWithConfig>) -> bool {
    forall|i: int, j: int|
        0 <= i < j < plugins.len() ==> plugin_name(#[trigger] plugins[i]) != plugin_name(
            #[trigger] plugins[j],
        )
}

/// `plugins` after `plugin` was declared: where one of its name is there
/// already it takes that one's place, else it goes last.
pub open spec fn put_plugin(plugins: Seq<PluginWithConfig>, plugin: PluginWithConfig) -> Seq<
    PluginWithConfig,
> {
    let place = name_place(plugins, plugin_name(plugin));
    if place < plugins.len() {
        plugins.update(place, plugin)
    } else {
        plugins.push(plugin)
    }
}

/// The plugins of a scope that was declared with `declared`, first to last.
pub open spec fn by_name(declared: Seq<PluginWithConfig>) -> Seq<PluginWithConfig>
    decreases declared.len(),
{
    if declared.len() == 0 {
        Seq::empty()
    } else {
        put_plugin(by_name(declared.drop_last()), declared.last())
    }
}

/// How many of the plugins run as a process of their own.
pub open spec fn process_plugins(plugins: Seq<PluginWithConfig>) -> nat
    decreases plugins.len(),
{
    if plugins.len() == 0 {
        0
    } else {
        process_plugins(plugins.drop_last()) + if plugins.last().plugin.is_process_plugin {
            1nat
        } else {
            0nat
        }
    }
}

/// What the plugins of a scope add to its fingerprint, first to last.
pub open spec fn scope_bytes(plugins: Seq<PluginWithConfig>) -> Seq<u8>
    decreases plugins.len(),
{
    if plugins.len() == 0 {
        Seq::empty()
    } else {
        scope_bytes(plugins.drop_last()) + plugins.last().fingerprint_bytes()
    }
}

/// `name_place` is the least place of a plugin called `name`.
pub proof fn lemma_name_place(plugins: Seq<PluginWithConfig>, name: Seq<char>)
    ensures
        0 <= name_place(plugins, name) <= plugins.len(),
        has_plugin(plugins, name) ==> plugin_name(plugins[name_place(plugins, name)]) == name,
        forall|i: int| 0 <= i < name_place(plugins, name) ==> plugin_name(#[trigger] plugins[i]) != name,
    decreases plugins.len(),
{
    if plugins.len() > 0 && plugin_name(plugins.first()) != name {
        let rest = plugins.drop_first();
        lemma_name_place(rest, name);
        assert forall|i: int| 0 <= i < name_place(plugins, name) implies plugin_name(
            #[trigger] plugins[i],
        ) != name by {
            if i > 0 {
                assert(plugins[i] == rest[i - 1]);
            }
        }
    }
}

/// Where names are distinct, a plugin called `name` stands at `name_place`
/// and nowhere else.
pub proof fn lemma_name_place_unique(plugins: Seq<PluginWithConfig>, name: Seq<char>, place: int)
    requires
        names_distinct(plugins),
        0 <= place < plugins.len(),
        plugin_name(plugins[place]) == name,
    ensures
        name_place(plugins, name) == place,
{
    lemma_name_place(plugins, name);
}

/// Declaring one more plugin keeps the names distinct.
pub proof fn lemma_put_plugin(plugins: Seq<PluginWithConfig>, plugin: PluginWithConfig)
    requires
        names_distinct(plugins),
    ensures
        names_distinct(put_plugin(plugins, plugin)),
{
    lemma_name_place(plugins, plugin_name(plugin));
    let place = name_place(plugins, plugin_name(plugin));
    let after = put_plugin(plugins, plugin);
    assert forall|i: int, j: int| 0 <= i < j < after.len() implies plugin_name(#[trigger] after[i])
        != plugin_name(#[trigger] after[j]) by {
        if place < plugins.len() {
            assert(plugin_name(after[i]) == plugin_name(plugins[i]));
            assert(plugin_name(after[j]) == plugin_name(plugins[j]));
        } else if j == plugins.len() {
            assert(after[i] == plugins[i]);
        } else {
            assert(after[i] == plugins[i]);
            assert(after[j] == plugins[j]);
        }
    }
}

/// In a scope no two plugins have one name, however it was declared.
pub proof fn lemma_by_name_distinct(declared: Seq<PluginWithConfig>)
    ensures
        names_distinct(by_name(declared)),
    decreases declared.len(),
{
    if declared.len() > 0 {
        lemma_by_name_distinct(declared.drop_last());
        lemma_put_plugin(by_name(declared.drop_last()), declared.last());
    }
}

/// Scopes whose plugins add the same bytes, place by place, have the same
/// fingerprint.
pub proof fn lemma_scope_bytes_by_plugin(a: Seq<PluginWithConfig>, b: Seq<PluginWithConfig>)
    requires
        a.len() == b.len(),
        forall|i: int| 0 <= i < a.len() ==> (#[trigger] a[i]).fingerprint_bytes() == b[i].fingerprint_bytes(),
    ensures
        scope_bytes(a) == scope_bytes(b),
    decreases a.len(),
{
    if a.len() > 0 {
        assert forall|i: int| 0 <= i < a.drop_last().len() implies (#[trigger] a.drop_last()[i]).fingerprint_bytes()
            == b.drop_last()[i].fingerprint_bytes() by {
            assert(a.drop_last()[i] == a[i]);
            assert(b.drop_last()[i] == b[i]);
        }
        lemma_scope_bytes_by_plugin(a.drop_last(), b.drop_last());
        assert(a.last() == a[a.len() - 1]);
    }
}

/// The fingerprint of a scope does not change while its plugins and their
/// configurations do not: two calls on one scope give one value.
pub proof fn lemma_plugins_hash_is_stable(scope: PluginsScope, first: u64, second: u64)
    requires
        call_ensures(PluginsScope::plugins_hash, (&scope,), first),
        call_ensures(PluginsScope::plugins_hash, (&scope,), second),
    ensures
        first == second,
{
}

/// The order in which the keys of a raw configuration were set does not
/// show in a fingerprint: plugins that differ in nothing but that order add
/// the same bytes.
pub proof fn lemma_fingerprint_ignores_key_order(a: PluginWithConfig, b: PluginWithConfig)
    requires
        a.plugin.info.name@ == b.plugin.info.name@,
        a.plugin.info.version@ == b.plugin.info.version@,
        associations_view(a.associations) == associations_view(b.associations),
        a.format_config.global == b.format_config.global,
        keys_distinct(a.format_config.raw@),
        keys_distinct(b.format_config.raw@),
        same_entries(a.format_config.raw@, b.format_config.raw@),
    ensures
        a.fingerprint_bytes() == b.fingerprint_bytes(),
{
    lemma_sort_entries(a.format_config.raw@);
    lemma_sort_entries(b.format_config.raw@);
    lemma_sort_ignores_order(a.format_config.raw@, b.format_config.raw@);
}

/// The plugins of a scope with the index that finds them by name.
#[derive(Debug)]
struct ScopeParts {
    config: Option<Rc<ResolvedConfig>>,
    plugins: Vec<PluginWithConfig>,
    names: IndexMap<String, usize>,
}

impl View for ScopeParts {
    type V = Seq<PluginWithConfig>;

    /// The plugins, in the order of their declaration.
    closed spec fn view(&self) -> Seq<PluginWithConfig> {
        self.plugins@
    }
}

impl ScopeParts {
    /// The configuration that the scope was resolved from; none for the scope
    /// that stands in where no configuration could be read.
    spec fn config_view(&self) -> Option<Rc<ResolvedConfig>> {
        self.config
    }

    /// The index finds every plugin by its name, and no name stands twice.
    spec fn wf(&self) -> bool {
        &&& names_distinct(self.plugins@)
        &&& index_entries(self.names) == Seq::new(
            self.plugins@.len(),
            |i: int| (plugin_name(self.plugins@[i]), i as usize),
        )
    }

    /// In a scope no two plugins have one name.
    proof fn lemma_names_distinct(&self)
        requires
            self.wf(),
        ensures
            names_distinct(self@),
    {
    }

    /// The scope of `config` with `plugins`, in that order. Of two plugins of
    /// one name the later one stands, in the place of the first.
    fn new(plugins: Vec<PluginWithConfig>, config: Rc<ResolvedConfig>) -> (scope: Self)
        ensures
            scope.wf(),
            scope@ == by_name(plugins@),
            scope.config_view() == Some(config),
    {
        let ghost declared = plugins@;
        let mut plugins = reversed(plugins);
        let mut kept: Vec<PluginWithConfig> = Vec::new();
        let mut names = index_new();
        let ghost mut taken: int = 0;
        proof {
            assert(declared.take(0) =~= Seq::<PluginWithConfig>::empty());
            assert(index_entries(names) =~= Seq::new(
                kept@.len(),
                |i: int| (plugin_name(kept@[i]), i as usize),
            ));
        }
        while plugins.len() > 0
            invariant
                0 <= taken <= declared.len(),
                plugins@.len() == declared.len() - taken,
                forall|i: int| 0 <= i < plugins@.len() ==> plugins@[i] == declared[declared.len() - 1 - i],
                kept@ == by_name(declared.take(taken)),
                names_distinct(kept@),
                index_entries(names) == Seq::new(
                    kept@.len(),
                    |i: int| (plugin_name(kept@[i]), i as usize),
                ),
            decreases plugins.len(),
        {
            let plugin = plugins.pop().unwrap();
            let ghost before = kept@;
            let ghost entries = index_entries(names);
            proof {
                assert(plugin == declared[taken]);
                assert(declared.take(taken + 1).drop_last() =~= declared.take(taken));
                assert(declared.take(taken + 1).last() == plugin);
                lemma_name_place(before, plugin_name(plugin));
                lemma_put_plugin(before, plugin);
            }
            match index_get(&names, plugin.name()) {
                Some(place) => {
                    proof {
                        let i = choose|i: int|
                            0 <= i < entries.len() && entries[i] == (plugin_name(plugin), place);
                        assert(i < kept.len());
                        assert(entries[i].1 == i as usize);
                        assert(i == place);
                        lemma_name_place_unique(before, plugin_name(plugin), place as int);
                    }
                    kept[place] = plugin;
                    proof {
                        assert(kept@ =~= put_plugin(before, plugin));
                        assert(index_entries(names) =~= Seq::new(
                            kept@.len(),
                            |i: int| (plugin_name(kept@[i]), i as usize),
                        ));
                    }
                },
                None => {
                    proof {
                        if has_plugin(before, plugin_name(plugin)) {
                            let place = name_place(before, plugin_name(plugin));
                            assert(entries[place].0 == plugin_name(plugin));
                        }
                    }
                    let name = plugin.plugin.info.name.clone();
                    index_insert(&mut names, name, kept.len());
                    kept.push(plugin);
                    proof {
                        assert(kept@ =~= put_plugin(before, plugin));
                        assert(index_entries(names) =~= Seq::new(
                            kept@.len(),
                            |i: int| (plugin_name(kept@[i]), i as usize),
                        ));
                    }
                },
            }
            proof {
                taken = taken + 1;
            }
        }
        proof {
            assert(declared.take(taken) =~= declared);
        }
        ScopeParts { config: Some(config), plugins: kept, names }
    }

    /// The scope that stands in where no configuration could be read: no
    /// configuration and no plugin.
    fn empty() -> (scope: Self)
        ensures
            scope.wf(),
            scope@ == Seq::<PluginWithConfig>::empty(),
            scope.config_view() is None,
    {
        let names = index_new();
        let plugins: Vec<PluginWithConfig> = Vec::new();
        proof {
            assert(index_entries(names) =~= Seq::new(
                plugins@.len(),
                |i: int| (plugin_name(plugins@[i]), i as usize),
            ));
        }
        ScopeParts { config: None, plugins, names }
    }

    fn config(&self) -> (config: &Option<Rc<ResolvedConfig>>)
        ensures
            *config == self.config_view(),
    {
        &self.config
    }

    /// The plugins, in the order of their declaration.
    fn plugins(&self) -> (plugins: &Vec<PluginWithConfig>)
        ensures
            plugins@ == self@,
    {
        &self.plugins
    }

    fn process_plugin_count(&self) -> (count: usize)
        ensures
            count == process_plugins(self@),
    {
        let mut count: usize = 0;
        let mut i: usize = 0;
        proof {
            assert(self.plugins@.take(0) =~= Seq::<PluginWithConfig>::empty());
        }
        while i < self.plugins.len()
            invariant
                i <= self.plugins@.len(),
                count == process_plugins(self.plugins@.take(i as int)),
                count <= i,
            decreases self.plugins@.len() - i,
        {
            proof {
                assert(self.plugins@.take(i + 1).drop_last() =~= self.plugins@.take(i as int));
            }
            if self.plugins[i].plugin.is_process_plugin {
                count += 1;
            }
            i += 1;
        }
        proof {
            assert(self.plugins@.take(i as int) =~= self.plugins@);
        }
        count
    }

    /// The place of the plugin called `name`.
    fn plugin_place(&self, name: &str) -> (place: Option<usize>)
        requires
            self.wf(),
        ensures
            match place {
                Some(place) => has_plugin(self@, name@) && place == name_place(self@, name@),
                None => !has_plugin(self@, name@),
            },
    {
        proof {
            lemma_name_place(self.plugins@, name@);
        }
        let found = index_get(&self.names, name);
        proof {
            let entries = index_entries(self.names);
            match found {
                Some(place) => {
                    let i = choose|i: int| 0 <= i < entries.len() && entries[i] == (name@, place);
                    assert(i < self.plugins.len());
                    assert(entries[i].1 == i as usize);
                    assert(i == place);
                    lemma_name_place_unique(self.plugins@, name@, place as int);
                },
                None => {
                    if has_plugin(self.plugins@, name@) {
                        let place = name_place(self.plugins@, name@);
                        assert(entries[place].0 == name@);
                    }
                },
            }
        }
        found
    }

    /// The plugin called `name`, which the scope must have.
    fn get_plugin(&self, name: &str) -> (plugin: &PluginWithConfig)
        requires
            self.wf(),
            has_plugin(self@, name@),
        ensures
            *plugin == self@[name_place(self@, name@)],
            plugin_name(*plugin) == name@,
    {
        proof {
            lemma_name_place(self@, name@);
        }
        let place = self.plugin_place(name).unwrap();
        &self.plugins[place]
    }

    /// The fingerprint of the scope: of every plugin, first to last, all that
    /// bears on what it does to a file.
    fn plugins_hash(&self) -> (hash: u64)
        ensures
            hash == fingerprint(scope_bytes(self@)),
    {
        let mut hasher = IncrementalHasher::new();
        let ghost start = hasher.digest();
        let mut i: usize = 0;
        proof {
            assert(self.plugins@.take(0) =~= Seq::<PluginWithConfig>::empty());
        }
        while i < self.plugins.len()
            invariant
                i <= self.plugins@.len(),
                hasher.digest() == absorb(start, scope_bytes(self.plugins@.take(i as int))),
            decreases self.plugins@.len() - i,
        {
            proof {
                assert(self.plugins@.take(i + 1).drop_last() =~= self.plugins@.take(i as int));
                lemma_absorb_concat(
                    start,
                    scope_bytes(self.plugins@.take(i as int)),
                    self.plugins@[i as int].fingerprint_bytes(),
                );
            }
            self.plugins[i].incremental_hash(&mut hasher);
            i += 1;
        }
        proof {
            assert(self.plugins@.take(i as int) =~= self.plugins@);
        }
        hasher.finish()
    }

    /// Hands `event` to the admission of the plugin called `plugin_name`. A scope
    /// without such a plugin answers nothing and stays as it is.
    fn get_or_create_checking_config_diagnostics<I>(
        &mut self,
        name: &str,
        event: AdmissionEvent<I>,
    ) -> (action: Option<AdmissionAction<I>>)
        requires
            old(self).wf(),
        ensures
            final(self).wf(),
            final(self)@.len() == old(self)@.len(),
            final(self).config_view() == old(self).config_view(),
            match action {
                Some(action) => {
                    let place = name_place(old(self)@, name@);
                    &&& has_plugin(old(self)@, name@)
                    &&& action == old(self)@[place].admission_action(old(self)@[place].diagnostics(), event)
                    &&& final(self)@[place].diagnostics() == admission_state(
                        old(self)@[place].diagnostics(),
                        event,
                    )
                    &&& final(self)@[place].same_binding(&old(self)@[place])
                    &&& forall|i: int|
                        0 <= i < old(self)@.len() && i != place ==> final(self)@[i] == old(self)@[i]
                },
                None => !has_plugin(old(self)@, name@) && final(self)@ == old(self)@,
            },
    {
        match self.plugin_place(name) {
            Some(place) => {
                let ghost before = self.plugins@;
                let action = self.plugins[place].get_or_create_checking_config_diagnostics(event);
                proof {
                    assert forall|i: int, j: int| 0 <= i < j < self.plugins@.len() implies plugin_name(
                        #[trigger] self.plugins@[i],
                    ) != plugin_name(#[trigger] self.plugins@[j]) by {
                        assert(plugin_name(self.plugins@[i]) == plugin_name(before[i]));
                        assert(plugin_name(self.plugins@[j]) == plugin_name(before[j]));
                    }
                    assert(index_entries(self.names) =~= Seq::new(
                        self.plugins@.len(),
                        |i: int| (plugin_name(self.plugins@[i]), i as usize),
                    ));
                }
                Some(action)
            },
            None => None,
        }
    }
}

/// The plugins of one configuration node, in the order of their declaration
/// and found by name. No two of them have one name.
#[derive(Debug)]
pub struct PluginsScope {
    parts: ScopeParts,
}

impl View for PluginsScope {
    type V = Seq<PluginWithConfig>;

    /// The plugins, in the order of their declaration.
    closed spec fn view(&self) -> Seq<PluginWithConfig> {
        self.parts@
    }
}

impl PluginsScope {
    /// The configuration that the scope was resolved from; none for the scope
    /// that stands in where no configuration could be read.
    pub closed spec fn config_view(&self) -> Option<Rc<ResolvedConfig>> {
        self.parts.config
    }

    #[verifier::type_invariant]
    spec fn well_formed(self) -> bool {
        self.parts.wf()
    }

    /// The fingerprint of the scope.
    pub open spec fn fingerprint(&self) -> u64 {
        fingerprint(scope_bytes(self@))
    }

    /// The scope of `config` with `plugins`, in that order. Of two plugins of
    /// one name the later one stands, in the place of the first.
    pub fn new(plugins: Vec<PluginWithConfig>, config: Rc<ResolvedConfig>) -> (scope: Self)
        ensures
            scope@ == by_name(plugins@),
            scope.config_view() == Some(config),
    {
        PluginsScope { parts: ScopeParts::new(plugins, config) }
    }

    /// The scope that stands in where no configuration could be read: no
    /// configuration and no plugin.
    pub fn empty() -> (scope: Self)
        ensures
            scope@ == Seq::<PluginWithConfig>::empty(),
            scope.config_view() is None,
    {
        PluginsScope { parts: ScopeParts::empty() }
    }

    pub fn config(&self) -> (config: &Option<Rc<ResolvedConfig>>)
        ensures
            *config == self.config_view(),
    {
        self.parts.config()
    }

    /// The plugins, in the order of their declaration.
    pub fn plugins(&self) -> (plugins: &Vec<PluginWithConfig>)
        ensures
            plugins@ == self@,
            names_distinct(self@),
    {
        proof {
            use_type_invariant(self);
            self.parts.lemma_names_distinct();
        }
        self.parts.plugins()
    }

    /// How many of the plugins run as a process of their own.
    pub fn process_plugin_count(&self) -> (count: usize)
        ensures
            count == process_plugins(self@),
    {
        self.parts.process_plugin_count()
    }

    /// The place of the plugin called `name`.
    pub fn plugin_place(&self, name: &str) -> (place: Option<usize>)
        ensures
            match place {
                Some(place) => has_plugin(self@, name@) && place == name_place(self@, name@),
                None => !has_plugin(self@, name@),
            },
    {
        proof {
            use_type_invariant(self);
        }
        self.parts.plugin_place(name)
    }

    /// The plugin called `name`, which the scope must have.
    pub fn get_plugin(&self, name: &str) -> (plugin: &PluginWithConfig)
        requires
            has_plugin(self@, name@),
        ensures
            *plugin == self@[name_place(self@, name@)],
            plugin_name(*plugin) == name@,
    {
        proof {
            use_type_invariant(self);
        }
        self.parts.get_plugin(name)
    }

    /// The fingerprint of the scope: of every plugin, first to last, all that
    /// bears on what it does to a file.
    pub fn plugins_hash(&self) -> (hash: u64)
        ensures
            hash == self.fingerprint(),
    {
        self.parts.plugins_hash()
    }

    /// Hands `event` to the admission of the plugin called `plugin_name`. A
    /// scope without such a plugin answers nothing and stays as it is.
    pub fn get_or_create_checking_config_diagnostics<I>(
        &mut self,
        plugin_name: &str,
        event: AdmissionEvent<I>,
    ) -> (action: Option<AdmissionAction<I>>)
        ensures
            final(self)@.len() == old(self)@.len(),
            final(self).config_view() == old(self).config_view(),
            match action {
                Some(action) => {
                    let place = name_place(old(self)@, plugin_name@);
                    &&& has_plugin(old(self)@, plugin_name@)
                    &&& action == old(self)@[place].admission_action(
                        old(self)@[place].diagnostics(),
                        event,
                    )
                    &&& final(self)@[place].diagnostics() == admission_state(
                        old(self)@[place].diagnostics(),
                        event,
                    )
                    &&& final(self)@[place].same_binding(&old(self)@[place])
                    &&& forall|i: int|
                        0 <= i < old(self)@.len() && i != place ==> final(self)@[i] == old(self)@[i]
                },
                None => !has_plugin(old(self)@, plugin_name@) && final(self)@ == old(self)@,
            },
    {
        proof {
            use_type_invariant(&*self);
        }
        // the parts are taken out while they change, and put back whole
        let mut parts = ScopeParts::empty();
        std::mem::swap(&mut self.parts, &mut parts);
        let action = parts.get_or_create_checking_config_diagnostics(plugin_name, event);
        std::mem::swap(&mut self.parts, &mut parts);
        action
    }
}

} // verus!
