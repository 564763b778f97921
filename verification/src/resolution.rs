//! Resolving the scopes of a configuration and of the configurations nested
//! beneath it: the root first, then each nested one before the next beside it.

use crate::config::{FileMatchingInfo, FormatConfig, PluginReference, ResolvedConfig};
use crate::partition::{
    files_view, first_unmatched, get_file_paths_by_plugins_and_err_if_empty, group_files, groups_view,
    lemma_first_unmatched, FileView, MatchedFile, PartitionError, PathsByPlugins,
};
use crate::plugin::PluginWithConfig;
use crate::sharing::share_rc;
use crate::scope::{by_name, lemma_name_place, plugin_name, PluginsScope};
use crate::vectors::reversed;
use std::path::PathBuf;
use std::rc::Rc;
use std::sync::Arc;
use vstd::prelude::*;

verus! {

/// A configuration names no plugin.
#[derive(Clone, Copy, Debug, PartialEq, Eq, Structural)]
pub struct NoPluginsFoundError;

/// The plugins of a configuration could not be resolved: why.
#[derive(Debug, PartialEq, Eq)]
pub struct ResolvePluginsError(pub String);

/// How the plugins of a configuration are resolved.
#[derive(Clone, Copy, Debug, PartialEq, Eq, Structural)]
pub struct ResolvePluginsOptions {
    /// Whether properties of the configuration that belong to no plugin are
    /// reported.
    pub check_top_level_unknown_property_diagnostics: bool,
}

/// Why the scopes of a configuration could not be resolved.
#[derive(Debug, PartialEq, Eq)]
pub enum ResolutionError {
    NoPluginsFound(NoPluginsFoundError),
    ResolvePlugins(ResolvePluginsError),
    /// A configuration could not be read, or its files could not be found.
    Config(String),
    /// A configuration has no file to format.
    NoFilesFound,
    /// No plugin formats this file.
    NoPluginForFile(PathBuf),
    /// An event reached a resolver that was not waiting for it.
    UnexpectedEvent,
}

/// A plugin as it was resolved for a configuration: its own section of the
/// configuration, and what came of asking it for the files that it formats.
#[derive(Debug, PartialEq, Eq)]
pub struct PluginSetup {
    pub plugin: Rc<PluginReference>,
    pub associations: Option<Vec<String>>,
    pub format_config: Arc<FormatConfig>,
    pub file_matching: Result<FileMatchingInfo, String>,
}

/// A scope with the files that it governs.
#[derive(Debug)]
pub struct PluginsScopeAndPaths {
    pub scope: PluginsScope,
    pub file_paths_by_plugins: Vec<PathsByPlugins>,
}

/// What is done for the caller who only wants the scope of the root
/// configuration.
#[derive(Debug)]
pub enum ScopeFromArgs {
    /// The configuration could not be read: this scope stands in for it.
    Degraded(PluginsScope),
    /// The plugins of the configuration are to be resolved.
    Resolve { config: Rc<ResolvedConfig>, options: ResolvePluginsOptions },
}

/// Where a configuration is read from.
#[derive(Debug, PartialEq, Eq)]
pub enum ConfigSource {
    /// Where the arguments of the caller say.
    Args,
    /// A configuration file that was found beneath another configuration.
    File(PathBuf),
}

/// What was found beneath a configuration: the files to format, each with
/// its plugins, and the configuration files nested in it.
#[derive(Debug, PartialEq, Eq)]
pub struct GlobOutput {
    pub file_paths: Vec<MatchedFile>,
    pub config_files: Vec<PathBuf>,
}

/// A nested configuration that waits for its turn.
#[derive(Debug, PartialEq, Eq)]
pub struct PendingConfig {
    pub path: PathBuf,
    /// The plugins of the configuration above it.
    pub parent_plugins: Option<Rc<Vec<String>>>,
}

/// What happened for a resolver.
#[derive(Debug, PartialEq, Eq)]
pub enum ResolverEvent {
    ConfigResolved(Result<ResolvedConfig, String>),
    PluginsResolved(Result<Vec<PluginSetup>, String>),
    FilesDiscovered(Result<GlobOutput, String>),
}

/// What is to be done next for a resolver.
#[derive(Debug)]
pub enum ResolverAction {
    /// Read the configuration.
    ResolveConfig { source: ConfigSource },
    /// Resolve the plugins that the configuration names.
    ResolvePlugins { config: Rc<ResolvedConfig>, options: ResolvePluginsOptions },
    /// Find the files of the scope that the resolver holds.
    DiscoverFiles,
    /// All is resolved: one scope for each configuration, the root first.
    Finished(Result<Vec<PluginsScopeAndPaths>, ResolutionError>),
}

/// What a resolver waits for.
#[derive(Debug)]
pub enum ResolverPhase {
    /// For a configuration; `inherited` are the plugins of the one above it.
    AwaitingConfig { inherited: Option<Rc<Vec<String>>> },
    /// For the plugins of `config`.
    AwaitingPlugins { config: Rc<ResolvedConfig> },
    /// For the files of `scope`.
    AwaitingFiles { scope: PluginsScope },
    Done,
}

/// The walk over a configuration and those nested beneath it.
#[derive(Debug)]
pub struct PluginsAndPathsResolver {
    /// Whether the caller named the plugins: nested configurations then take
    /// the plugins of the one above them.
    pub inherit_plugins: bool,
    pub options: ResolvePluginsOptions,
    /// The scopes that are resolved, in the order of the walk.
    pub resolved: Vec<PluginsScopeAndPaths>,
    /// The nested configurations that wait, the next one last.
    pub pending: Vec<PendingConfig>,
    pub phase: ResolverPhase,
}

/// The place of the first plugin that could not say which files it formats,
/// or the count of the plugins where all could.
pub open spec fn first_failure(setups: Seq<PluginSetup>) -> int
    decreases setups.len(),
{
    if setups.len() == 0 {
        0
    } else if setups.first().file_matching is Err {
        0
    } else {
        1 + first_failure(setups.drop_first())
    }
}

/// One plugin bound to its configuration.
pub open spec fn bound_plugin(setup: PluginSetup) -> PluginWithConfig {
    PluginWithConfig::fresh(
        setup.plugin,
        setup.associations,
        setup.format_config,
        setup.file_matching->Ok_0,
    )
}

/// The plugins bound to their configurations, in the order of `setups`.
pub open spec fn bound_plugins(setups: Seq<PluginSetup>) -> Seq<PluginWithConfig> {
    setups.map_values(|setup: PluginSetup| bound_plugin(setup))
}

/// The configuration that a node is resolved with: its own, with the plugins
/// of the one above it where the caller named the plugins.
pub open spec fn effective_config(
    inherit_plugins: bool,
    inherited: Option<Rc<Vec<String>>>,
    config: ResolvedConfig,
) -> ResolvedConfig {
    match inherited {
        Some(plugins) if inherit_plugins => ResolvedConfig { plugins, ..config },
        _ => config,
    }
}

/// The plugins that the configurations beneath a scope may take over.
pub open spec fn plugins_to_inherit(scope: PluginsScope) -> Option<Rc<Vec<String>>> {
    match scope.config_view() {
        Some(config) => Some(config.plugins),
        None => None,
    }
}

/// The nested configurations of a node as they are put on the waiting list:
/// last to first, so that the first is the next.
pub open spec fn nested_configs(paths: Seq<PathBuf>, parent_plugins: Option<Rc<Vec<String>>>) -> Seq<
    PendingConfig,
> {
    Seq::new(
        paths.len(),
        |i: int| PendingConfig { path: paths[paths.len() - 1 - i], parent_plugins },
    )
}

/// `first_failure` is the least place of a plugin that failed.
pub proof fn lemma_first_failure(setups: Seq<PluginSetup>)
    ensures
        0 <= first_failure(setups) <= setups.len(),
        first_failure(setups) < setups.len() ==> setups[first_failure(setups)].file_matching is Err,
        forall|i: int| 0 <= i < first_failure(setups) ==> (#[trigger] setups[i]).file_matching is Ok,
    decreases setups.len(),
{
    if setups.len() > 0 && setups.first().file_matching is Ok {
        let rest = setups.drop_first();
        lemma_first_failure(rest);
        assert forall|i: int| 0 <= i < first_failure(setups) implies (
        #[trigger] setups[i]).file_matching is Ok by {
            if i > 0 {
                assert(setups[i] == rest[i - 1]);
            }
        }
    }
}

/// A scope has a plugin exactly if one was declared.
pub proof fn lemma_by_name_len(declared: Seq<PluginWithConfig>)
    ensures
        by_name(declared).len() <= declared.len(),
        by_name(declared).len() == 0 <==> declared.len() == 0,
    decreases declared.len(),
{
    if declared.len() > 0 {
        lemma_by_name_len(declared.drop_last());
        lemma_name_place(by_name(declared.drop_last()), plugin_name(declared.last()));
    }
}

impl NoPluginsFoundError {
    pub fn message(&self) -> (text: String)
        ensures
            text@ == "No formatting plugins found. Ensure at least one is specified in the 'plugins' array of the configuration file."@,
    {
        "No formatting plugins found. Ensure at least one is specified in the 'plugins' array of the configuration file.".to_owned()
    }
}

impl ResolvePluginsError {
    /// Why the plugins could not be resolved, in the words of what failed.
    pub fn message(&self) -> (text: String)
        ensures
            text == self.0,
    {
        self.0.clone()
    }
}

impl ResolvePluginsOptions {
    /// The options for a caller who named these plugins. One who named any
    /// may mean to leave plugins out, so properties that then belong to no
    /// plugin are not reported.
    pub fn for_plugin_override(plugins: &Vec<String>) -> (options: Self)
        ensures
            options.check_top_level_unknown_property_diagnostics == (plugins@.len() == 0),
    {
        ResolvePluginsOptions { check_top_level_unknown_property_diagnostics: plugins.len() == 0 }
    }
}

/// The scope of `config` with the plugins that were resolved for it. It fails
/// where a plugin could not say which files it formats: with the first such
/// plugin's reason.
pub fn resolve_plugins_scope(config: Rc<ResolvedConfig>, setups: Vec<PluginSetup>) -> (resolved: Result<
    PluginsScope,
    ResolvePluginsError,
>)
    ensures
        match resolved {
            Ok(scope) => {
                &&& first_failure(setups@) == setups@.len()
                &&& scope@ == by_name(bound_plugins(setups@))
                &&& scope.config_view() == Some(config)
            },
            Err(error) => {
                &&& first_failure(setups@) < setups@.len()
                &&& error == ResolvePluginsError(setups@[first_failure(setups@)].file_matching->Err_0)
            },
        },
{
    let ghost given = setups@;
    let mut rest = reversed(setups);
    let mut plugins: Vec<PluginWithConfig> = Vec::new();
    let ghost mut taken: int = 0;
    proof {
        assert(given.skip(0) =~= given);
    }
    while rest.len() > 0
        invariant
            0 <= taken <= given.len(),
            given == setups@,
            rest@.len() == given.len() - taken,
            forall|i: int| 0 <= i < rest@.len() ==> rest@[i] == given[given.len() - 1 - i],
            first_failure(given) == taken + first_failure(given.skip(taken)),
            plugins@ == bound_plugins(given.take(taken)),
        decreases rest.len(),
    {
        let setup = rest.pop().unwrap();
        proof {
            assert(setup == given[taken]);
            assert(given.skip(taken).first() == setup);
            assert(given.skip(taken).drop_first() =~= given.skip(taken + 1));
            assert(first_failure(given.skip(taken)) == if setup.file_matching is Err {
                0
            } else {
                1 + first_failure(given.skip(taken + 1))
            });
        }
        match setup.file_matching {
            Err(error) => {
                return Err(ResolvePluginsError(error));
            },
            Ok(file_matching) => {
                let ghost before = plugins@;
                plugins.push(
                    PluginWithConfig::new(
                        setup.plugin,
                        setup.associations,
                        setup.format_config,
                        file_matching,
                    ),
                );
                proof {
                    assert(plugins@ =~= bound_plugins(given.take(taken + 1)));
                }
            },
        }
        proof {
            taken = taken + 1;
        }
    }
    proof {
        assert(given.take(taken) =~= given);
        assert(given.skip(taken) =~= Seq::<PluginSetup>::empty());
    }
    Ok(PluginsScope::new(plugins, config))
}

/// As `resolve_plugins_scope`, and a scope without a plugin is refused.
pub fn resolve_plugins_scope_and_err_if_empty(config: Rc<ResolvedConfig>, setups: Vec<PluginSetup>) -> (resolved:
    Result<PluginsScope, ResolutionError>)
    ensures
        match resolved {
            Ok(scope) => {
                &&& setups@.len() > 0
                &&& first_failure(setups@) == setups@.len()
                &&& scope@ == by_name(bound_plugins(setups@))
                &&& scope.config_view() == Some(config)
            },
            Err(ResolutionError::ResolvePlugins(error)) => {
                &&& first_failure(setups@) < setups@.len()
                &&& error == ResolvePluginsError(setups@[first_failure(setups@)].file_matching->Err_0)
            },
            Err(ResolutionError::NoPluginsFound(_)) => setups@.len() == 0,
            Err(_) => false,
        },
{
    proof {
        lemma_by_name_len(bound_plugins(setups@));
        lemma_first_failure(setups@);
    }
    match resolve_plugins_scope(config, setups) {
        Err(error) => Err(ResolutionError::ResolvePlugins(error)),
        Ok(scope) => {
            if scope.plugins().len() == 0 {
                Err(ResolutionError::NoPluginsFound(NoPluginsFoundError))
            } else {
                Ok(scope)
            }
        },
    }
}

/// The first step for a caller who only wants the scope of the root
/// configuration. Where that configuration could not be read, the caller
/// gets a scope without configuration and plugins, and no failure.
pub fn get_plugins_scope_from_args(plugins_override: &Vec<String>, config: Result<ResolvedConfig, String>) -> (next:
    ScopeFromArgs)
    ensures
        match config {
            Ok(config) => {
                &&& next matches ScopeFromArgs::Resolve { config: kept, options }
                &&& *kept == config
                &&& options.check_top_level_unknown_property_diagnostics == (plugins_override@.len()
                    == 0)
            },
            Err(_) => {
                &&& next matches ScopeFromArgs::Degraded(scope)
                &&& scope@.len() == 0
                &&& scope.config_view() is None
            },
        },
{
    match config {
        Ok(config) => ScopeFromArgs::Resolve {
            config: Rc::new(config),
            options: ResolvePluginsOptions::for_plugin_override(plugins_override),
        },
        Err(_) => ScopeFromArgs::Degraded(PluginsScope::empty()),
    }
}

impl PluginsAndPathsResolver {
    /// `after` has the settings and the lists of this resolver.
    pub open spec fn same_lists(self, after: Self) -> bool {
        &&& after.inherit_plugins == self.inherit_plugins
        &&& after.options == self.options
        &&& after.resolved == self.resolved
        &&& after.pending == self.pending
    }

    /// The walk ends with `error`.
    pub open spec fn fails(self, after: Self, action: ResolverAction, error: ResolutionError) -> bool {
        &&& self.same_lists(after)
        &&& after.phase is Done
        &&& action == ResolverAction::Finished(Err(error))
    }

    /// `all` is what was resolved before and, last, `scope` with `files`
    /// parted by their plugins.
    pub open spec fn node_added(self, all: Seq<PluginsScopeAndPaths>, scope: PluginsScope, files: Seq<FileView>) -> bool {
        &&& all.len() == self.resolved@.len() + 1
        &&& all.drop_last() == self.resolved@
        &&& all.last().scope == scope
        &&& groups_view(all.last().file_paths_by_plugins@) == group_files(files)
    }

    /// What follows when the configuration of a node was read.
    pub open spec fn config_resolved(
        self,
        inherited: Option<Rc<Vec<String>>>,
        outcome: Result<ResolvedConfig, String>,
        after: Self,
        action: ResolverAction,
    ) -> bool {
        match outcome {
            Err(reason) => self.fails(after, action, ResolutionError::Config(reason)),
            Ok(config) => {
                &&& self.same_lists(after)
                &&& after.phase matches ResolverPhase::AwaitingPlugins { config: kept }
                &&& *kept == effective_config(self.inherit_plugins, inherited, config)
                &&& action matches ResolverAction::ResolvePlugins { config: sent, options }
                &&& *sent == effective_config(self.inherit_plugins, inherited, config)
                &&& options == self.options
            },
        }
    }

    /// What follows when the plugins of a node were resolved: a node without
    /// plugins ends the walk before its files are looked for.
    pub open spec fn plugins_resolved(
        self,
        config: Rc<ResolvedConfig>,
        outcome: Result<Vec<PluginSetup>, String>,
        after: Self,
        action: ResolverAction,
    ) -> bool {
        match outcome {
            Err(reason) => self.fails(
                after,
                action,
                ResolutionError::ResolvePlugins(ResolvePluginsError(reason)),
            ),
            Ok(setups) => if first_failure(setups@) < setups@.len() {
                self.fails(
                    after,
                    action,
                    ResolutionError::ResolvePlugins(
                        ResolvePluginsError(setups@[first_failure(setups@)].file_matching->Err_0),
                    ),
                )
            } else if setups@.len() == 0 {
                self.fails(after, action, ResolutionError::NoPluginsFound(NoPluginsFoundError))
            } else {
                &&& self.same_lists(after)
                &&& after.phase matches ResolverPhase::AwaitingFiles { scope }
                &&& scope@ == by_name(bound_plugins(setups@))
                &&& scope.config_view() == Some(config)
                &&& action is DiscoverFiles
            },
        }
    }

    /// What follows when the files of a node were found: the node joins what
    /// is resolved, its nested configurations go in front of those that wait,
    /// and the walk turns to the next or ends.
    pub open spec fn files_discovered(
        self,
        scope: PluginsScope,
        outcome: Result<GlobOutput, String>,
        after: Self,
        action: ResolverAction,
    ) -> bool {
        match outcome {
            Err(reason) => self.fails(after, action, ResolutionError::Config(reason)),
            Ok(found) => {
                let files = files_view(found.file_paths@);
                let queue = self.pending@ + nested_configs(
                    found.config_files@,
                    plugins_to_inherit(scope),
                );
                if files.len() == 0 {
                    self.fails(after, action, ResolutionError::NoFilesFound)
                } else if first_unmatched(files) < files.len() {
                    self.fails(
                        after,
                        action,
                        ResolutionError::NoPluginForFile(
                            found.file_paths@[first_unmatched(files)].file_path,
                        ),
                    )
                } else if queue.len() == 0 {
                    &&& after.inherit_plugins == self.inherit_plugins
                    &&& after.options == self.options
                    &&& after.phase is Done
                    &&& after.pending@.len() == 0
                    &&& after.resolved@.len() == 0
                    &&& action matches ResolverAction::Finished(Ok(all))
                    &&& self.node_added(all@, scope, files)
                } else {
                    &&& after.inherit_plugins == self.inherit_plugins
                    &&& after.options == self.options
                    &&& after.phase == (ResolverPhase::AwaitingConfig {
                        inherited: queue.last().parent_plugins,
                    })
                    &&& after.pending@ == queue.drop_last()
                    &&& action == (ResolverAction::ResolveConfig {
                        source: ConfigSource::File(queue.last().path),
                    })
                    &&& self.node_added(after.resolved@, scope, files)
                }
            },
        }
    }

    /// `after` and `action` are what follows this resolver on `event`.
    pub open spec fn step(self, event: ResolverEvent, after: Self, action: ResolverAction) -> bool {
        match (self.phase, event) {
            (
                ResolverPhase::AwaitingConfig { inherited },
                ResolverEvent::ConfigResolved(outcome),
            ) => self.config_resolved(inherited, outcome, after, action),
            (
                ResolverPhase::AwaitingPlugins { config },
                ResolverEvent::PluginsResolved(outcome),
            ) => self.plugins_resolved(config, outcome, after, action),
            (
                ResolverPhase::AwaitingFiles { scope },
                ResolverEvent::FilesDiscovered(outcome),
            ) => self.files_discovered(scope, outcome, after, action),
            _ => self.fails(after, action, ResolutionError::UnexpectedEvent),
        }
    }

    /// The walk ends with `error`.
    fn fail(self, error: ResolutionError) -> (next: (Self, ResolverAction))
        ensures
            self.fails(next.0, next.1, error),
    {
        (
            PluginsAndPathsResolver {
                inherit_plugins: self.inherit_plugins,
                options: self.options,
                resolved: self.resolved,
                pending: self.pending,
                phase: ResolverPhase::Done,
            },
            ResolverAction::Finished(Err(error)),
        )
    }

    /// The step for a configuration that was read, or could not be.
    fn on_config(self, inherited: Option<Rc<Vec<String>>>, outcome: Result<ResolvedConfig, String>) -> (next: (
        Self,
        ResolverAction,
    ))
        ensures
            self.config_resolved(inherited, outcome, next.0, next.1),
    {
        match outcome {
            Err(reason) => self.fail(ResolutionError::Config(reason)),
            Ok(config) => {
                let config = match inherited {
                    Some(plugins) => if self.inherit_plugins {
                        ResolvedConfig {
                            base_path: config.base_path,
                            plugins,
                            config_map: config.config_map,
                        }
                    } else {
                        config
                    },
                    None => config,
                };
                let config = Rc::new(config);
                let sent = share_rc(&config);
                let options = self.options;
                (
                    PluginsAndPathsResolver {
                        inherit_plugins: self.inherit_plugins,
                        options: self.options,
                        resolved: self.resolved,
                        pending: self.pending,
                        phase: ResolverPhase::AwaitingPlugins { config },
                    },
                    ResolverAction::ResolvePlugins { config: sent, options },
                )
            },
        }
    }

    /// The step for the plugins of `config`, resolved or not.
    fn on_plugins(self, config: Rc<ResolvedConfig>, outcome: Result<Vec<PluginSetup>, String>) -> (next: (
        Self,
        ResolverAction,
    ))
        ensures
            self.plugins_resolved(config, outcome, next.0, next.1),
    {
        match outcome {
            Err(reason) => self.fail(ResolutionError::ResolvePlugins(ResolvePluginsError(reason))),
            Ok(setups) => {
                proof {
                    lemma_first_failure(setups@);
                }
                match resolve_plugins_scope_and_err_if_empty(config, setups) {
                    Err(error) => self.fail(error),
                    Ok(scope) => (
                        PluginsAndPathsResolver {
                            inherit_plugins: self.inherit_plugins,
                            options: self.options,
                            resolved: self.resolved,
                            pending: self.pending,
                            phase: ResolverPhase::AwaitingFiles { scope },
                        },
                        ResolverAction::DiscoverFiles,
                    ),
                }
            },
        }
    }

    /// The step for the files of `scope`, found or not.
    fn on_files(self, scope: PluginsScope, outcome: Result<GlobOutput, String>) -> (next: (
        Self,
        ResolverAction,
    ))
        ensures
            self.files_discovered(scope, outcome, next.0, next.1),
    {
        match outcome {
            Err(reason) => self.fail(ResolutionError::Config(reason)),
            Ok(found) => {
                let GlobOutput { file_paths, config_files } = found;
                let ghost files = files_view(file_paths@);
                proof {
                    lemma_first_unmatched(files);
                }
                match get_file_paths_by_plugins_and_err_if_empty(file_paths) {
                    Err(PartitionError::NoFilesFound) => self.fail(ResolutionError::NoFilesFound),
                    Err(PartitionError::NoPluginForFile(path)) => self.fail(
                        ResolutionError::NoPluginForFile(path),
                    ),
                    Ok(groups) => {
                        let inherited = match scope.config() {
                            Some(config) => Some(share_rc(&config.plugins)),
                            None => None,
                        };
                        let ghost waiting = self.pending@;
                        let ghost before = self.resolved@;
                        let ghost nested = nested_configs(config_files@, inherited);
                        let inherit_plugins = self.inherit_plugins;
                        let options = self.options;
                        let mut resolved = self.resolved;
                        let mut pending = self.pending;
                        resolved.push(PluginsScopeAndPaths { scope, file_paths_by_plugins: groups });
                        proof {
                            assert(resolved@.drop_last() =~= before);
                        }
                        let mut left = config_files;
                        let ghost all = left@;
                        proof {
                            assert(pending@ =~= waiting + nested.take(0));
                            assert(left@ =~= all.take(left@.len() as int));
                        }
                        while left.len() > 0
                            invariant
                                left@.len() <= all.len(),
                                left@ == all.take(left@.len() as int),
                                nested == nested_configs(all, inherited),
                                pending@ == waiting + nested.take(all.len() - left@.len()),
                            decreases left.len(),
                        {
                            let ghost done = all.len() - left@.len();
                            let path = left.pop().unwrap();
                            let parent_plugins = match &inherited {
                                Some(plugins) => Some(share_rc(plugins)),
                                None => None,
                            };
                            pending.push(PendingConfig { path, parent_plugins });
                            proof {
                                assert(path == all[all.len() - 1 - done]);
                                assert(left@ =~= all.take(left@.len() as int));
                                assert(nested.take(done + 1) =~= nested.take(done).push(nested[done]));
                                assert(pending@ =~= waiting + nested.take(done + 1));
                            }
                        }
                        proof {
                            assert(nested.take(all.len() as int) =~= nested);
                        }
                        let ghost queue = pending@;
                        match pending.pop() {
                            Some(next) => {
                                proof {
                                    assert(pending@ =~= queue.drop_last());
                                }
                                (
                                    PluginsAndPathsResolver {
                                        inherit_plugins,
                                        options,
                                        resolved,
                                        pending,
                                        phase: ResolverPhase::AwaitingConfig {
                                            inherited: next.parent_plugins,
                                        },
                                    },
                                    ResolverAction::ResolveConfig {
                                        source: ConfigSource::File(next.path),
                                    },
                                )
                            },
                            None => (
                                PluginsAndPathsResolver {
                                    inherit_plugins,
                                    options,
                                    resolved: Vec::new(),
                                    pending,
                                    phase: ResolverPhase::Done,
                                },
                                ResolverAction::Finished(Ok(resolved)),
                            ),
                        }
                    },
                }
            },
        }
    }

    /// Takes the walk one step on: `event` is what came of the action that
    /// the resolver asked for last.
    pub fn resolve_config(self, event: ResolverEvent) -> (next: (Self, ResolverAction))
        ensures
            self.step(event, next.0, next.1),
    {
        let PluginsAndPathsResolver { inherit_plugins, options, resolved, pending, phase } = self;
        let rest = PluginsAndPathsResolver {
            inherit_plugins,
            options,
            resolved,
            pending,
            phase: ResolverPhase::Done,
        };
        match (phase, event) {
            (
                ResolverPhase::AwaitingConfig { inherited },
                ResolverEvent::ConfigResolved(outcome),
            ) => rest.on_config(inherited, outcome),
            (
                ResolverPhase::AwaitingPlugins { config },
                ResolverEvent::PluginsResolved(outcome),
            ) => rest.on_plugins(config, outcome),
            (
                ResolverPhase::AwaitingFiles { scope },
                ResolverEvent::FilesDiscovered(outcome),
            ) => rest.on_files(scope, outcome),
            _ => rest.fail(ResolutionError::UnexpectedEvent),
        }
    }
}

/// Begins to resolve the scopes of the root configuration and of those nested
/// beneath it, for a caller who named the plugins `plugins_override`: the
/// resolver, and what is to be done first.
pub fn resolve_plugins_scope_and_paths(plugins_override: &Vec<String>) -> (started: (
    PluginsAndPathsResolver,
    ResolverAction,
))
    ensures
        started.0.inherit_plugins == (plugins_override@.len() > 0),
        started.0.options.check_top_level_unknown_property_diagnostics == (plugins_override@.len()
            == 0),
        started.0.resolved@.len() == 0,
        started.0.pending@.len() == 0,
        started.0.phase == (ResolverPhase::AwaitingConfig { inherited: None }),
        started.1 == (ResolverAction::ResolveConfig { source: ConfigSource::Args }),
{
    (
        PluginsAndPathsResolver {
            inherit_plugins: plugins_override.len() > 0,
            options: ResolvePluginsOptions::for_plugin_override(plugins_override),
            resolved: Vec::new(),
            pending: Vec::new(),
            phase: ResolverPhase::AwaitingConfig { inherited: None },
        },
        ResolverAction::ResolveConfig { source: ConfigSource::Args },
    )
}

/// A configuration that names no plugin ends the walk with that failure, and
/// its files are never looked for.
pub proof fn lemma_no_plugins_fails_first(
    resolver: PluginsAndPathsResolver,
    setups: Vec<PluginSetup>,
    after: PluginsAndPathsResolver,
    action: ResolverAction,
)
    requires
        resolver.phase is AwaitingPlugins,
        setups@.len() == 0,
        resolver.step(ResolverEvent::PluginsResolved(Ok(setups)), after, action),
    ensures
        action == ResolverAction::Finished(
            Err(ResolutionError::NoPluginsFound(NoPluginsFoundError)),
        ),
        after.phase is Done,
{
    lemma_first_failure(setups@);
}

/// A file that no plugin formats ends the walk: with the first such file.
pub proof fn lemma_unmatched_file_fails(
    resolver: PluginsAndPathsResolver,
    found: GlobOutput,
    place: int,
    after: PluginsAndPathsResolver,
    action: ResolverAction,
)
    requires
        resolver.phase is AwaitingFiles,
        0 <= place < found.file_paths@.len(),
        found.file_paths@[place].plugin_names@.len() == 0,
        resolver.step(ResolverEvent::FilesDiscovered(Ok(found)), after, action),
    ensures
        action matches ResolverAction::Finished(Err(ResolutionError::NoPluginForFile(_))),
        after.phase is Done,
{
    let files = files_view(found.file_paths@);
    lemma_first_unmatched(files);
    assert(files[place].1.len() == 0);
}

/// The walk goes down before it goes on: where the node that was just
/// resolved has nested configurations, the first of them is the next.
pub proof fn lemma_nested_come_first(
    resolver: PluginsAndPathsResolver,
    found: GlobOutput,
    after: PluginsAndPathsResolver,
    action: ResolverAction,
)
    requires
        resolver.phase is AwaitingFiles,
        found.file_paths@.len() > 0,
        first_unmatched(files_view(found.file_paths@)) == found.file_paths@.len(),
        found.config_files@.len() > 0,
        resolver.step(ResolverEvent::FilesDiscovered(Ok(found)), after, action),
    ensures
        action == (ResolverAction::ResolveConfig {
            source: ConfigSource::File(found.config_files@[0]),
        }),
        after.resolved@.len() == resolver.resolved@.len() + 1,
        after.pending@.len() == resolver.pending@.len() + found.config_files@.len() - 1,
{
}

/// `front` is how `all` begins.
pub open spec fn begins_with(all: Seq<PluginsScopeAndPaths>, front: Seq<PluginsScopeAndPaths>) -> bool {
    &&& front.len() <= all.len()
    &&& forall|k: int| 0 <= k < front.len() ==> all[k] == front[k]
}

/// A walk: the resolver before and after each of `events`, with what it
/// asked for after each.
pub open spec fn is_walk(
    states: Seq<PluginsAndPathsResolver>,
    events: Seq<ResolverEvent>,
    actions: Seq<ResolverAction>,
) -> bool {
    &&& states.len() == events.len() + 1
    &&& actions.len() == events.len()
    &&& forall|i: int|
        0 <= i < events.len() ==> states[i].step(#[trigger] events[i], states[i + 1], actions[i])
}

/// What is resolved stays resolved, and in its place: while a walk goes on,
/// scopes are added behind those that are there, and the list that the walk
/// ends with begins with every list that it held on the way. So the scope of
/// the root is the first, and every scope stands before those of the
/// configurations that were resolved after it.
pub proof fn lemma_walk_keeps_order(
    states: Seq<PluginsAndPathsResolver>,
    events: Seq<ResolverEvent>,
    actions: Seq<ResolverAction>,
    from: int,
    to: int,
)
    requires
        is_walk(states, events, actions),
        0 <= from <= to < events.len(),
    ensures
        states[to + 1].phase !is Done ==> begins_with(states[to + 1].resolved@, states[from].resolved@),
        actions[to] matches ResolverAction::Finished(Ok(all)) ==> begins_with(
            all@,
            states[from].resolved@,
        ),
    decreases to - from,
{
    let before = states[to];
    let after = states[to + 1];
    assert(before.step(events[to], after, actions[to]));
    if from < to {
        lemma_walk_keeps_order(states, events, actions, from, to - 1);
    }
    if before.phase !is Done {
        assert(begins_with(before.resolved@, states[from].resolved@));
        if after.phase !is Done {
            assert(begins_with(after.resolved@, before.resolved@)) by {
                lemma_step_keeps_order(before, events[to], after, actions[to]);
            }
        }
        match actions[to] {
            ResolverAction::Finished(Ok(all)) => {
                assert(begins_with(all@, before.resolved@)) by {
                    lemma_step_keeps_order(before, events[to], after, actions[to]);
                }
            },
            _ => {},
        }
    }
}

/// One step adds behind what is resolved, or leaves it.
proof fn lemma_step_keeps_order(
    before: PluginsAndPathsResolver,
    event: ResolverEvent,
    after: PluginsAndPathsResolver,
    action: ResolverAction,
)
    requires
        before.step(event, after, action),
    ensures
        before.phase is Done ==> after.phase is Done && !(action matches ResolverAction::Finished(
            Ok(_),
        )),
        after.phase !is Done ==> begins_with(after.resolved@, before.resolved@),
        action matches ResolverAction::Finished(Ok(all)) ==> begins_with(all@, before.resolved@),
{
    match (before.phase, event) {
        (ResolverPhase::AwaitingFiles { scope }, ResolverEvent::FilesDiscovered(Ok(found))) => {
            let files = files_view(found.file_paths@);
            if files.len() > 0 && first_unmatched(files) == files.len() {
                match action {
                    ResolverAction::Finished(Ok(all)) => {
                        assert forall|k: int| 0 <= k < before.resolved@.len() implies all@[k]
                            == before.resolved@[k] by {
                            assert(all@.drop_last()[k] == all@[k]);
                        }
                    },
                    _ => {},
                }
                if after.phase !is Done {
                    assert forall|k: int| 0 <= k < before.resolved@.len() implies after.resolved@[k]
                        == before.resolved@[k] by {
                        assert(after.resolved@.drop_last()[k] == after.resolved@[k]);
                    }
                }
            }
        },
        _ => {},
    }
}

} // verus!
