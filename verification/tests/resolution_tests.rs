use plugin_scopes::config::{
    ConfigKeyMap, ConfigKeyValue, FileMatchingInfo, FormatConfig, GlobalConfiguration, PluginInfo,
    PluginReference, ResolvedConfig,
};
use plugin_scopes::partition::{MatchedFile, PathsByPlugins};
use plugin_scopes::plugin::DiagnosticState;
use plugin_scopes::resolution::{
    get_plugins_scope_from_args, resolve_plugins_scope, resolve_plugins_scope_and_err_if_empty,
    resolve_plugins_scope_and_paths, ConfigSource, GlobOutput, NoPluginsFoundError, PluginSetup,
    PluginsAndPathsResolver, PluginsScopeAndPaths, ResolutionError, ResolvePluginsError,
    ResolvePluginsOptions, ResolverAction, ResolverEvent, ResolverPhase, ScopeFromArgs,
};
use std::path::PathBuf;
use std::rc::Rc;
use std::sync::Arc;

fn setup(name: &str, line_width: i32, file_matching: Result<&[&str], &str>) -> PluginSetup {
    let info = PluginInfo {
        name: name.to_string(),
        version: "1.0.0".to_string(),
        config_key: name.to_string(),
        help_url: String::new(),
        config_schema_url: String::new(),
        update_url: None,
    };
    let mut raw = ConfigKeyMap::new();
    raw.insert("lineWidth".to_string(), ConfigKeyValue::Number(line_width));
    let global =
        GlobalConfiguration { line_width: None, use_tabs: None, indent_width: None, new_line_kind: None };
    PluginSetup {
        plugin: Rc::new(PluginReference { info, is_process_plugin: false }),
        associations: None,
        format_config: Arc::new(FormatConfig { id: 1, global, raw }),
        file_matching: match file_matching {
            Ok(extensions) => Ok(FileMatchingInfo {
                file_extensions: extensions.iter().map(|extension| extension.to_string()).collect(),
                file_names: vec![],
            }),
            Err(reason) => Err(reason.to_string()),
        },
    }
}

fn config(base: &str, plugins: &[&str]) -> ResolvedConfig {
    ResolvedConfig {
        base_path: PathBuf::from(base),
        plugins: Rc::new(plugins.iter().map(|plugin| plugin.to_string()).collect()),
        config_map: ConfigKeyMap::new(),
    }
}

fn file(path: &str, plugins: &[&str]) -> MatchedFile {
    MatchedFile {
        file_path: PathBuf::from(path),
        plugin_names: plugins.iter().map(|name| name.to_string()).collect(),
    }
}

fn found(files: Vec<MatchedFile>, nested: &[&str]) -> ResolverEvent {
    ResolverEvent::FilesDiscovered(Ok(GlobOutput {
        file_paths: files,
        config_files: nested.iter().map(PathBuf::from).collect(),
    }))
}

fn group(plugins: &[&str], paths: &[&str]) -> PathsByPlugins {
    PathsByPlugins {
        plugin_names: plugins.iter().map(|name| name.to_string()).collect(),
        file_paths: paths.iter().map(PathBuf::from).collect(),
    }
}

fn no_override() -> Vec<String> {
    Vec::new()
}

/// Takes a resolver through one node.
fn resolve_node(
    resolver: PluginsAndPathsResolver,
    node_config: ResolvedConfig,
    setups: Vec<PluginSetup>,
    files: Vec<MatchedFile>,
    nested: &[&str],
) -> (PluginsAndPathsResolver, ResolverAction) {
    let (resolver, action) = resolver.resolve_config(ResolverEvent::ConfigResolved(Ok(node_config)));
    assert!(matches!(action, ResolverAction::ResolvePlugins { .. }));
    let (resolver, action) = resolver.resolve_config(ResolverEvent::PluginsResolved(Ok(setups)));
    assert!(matches!(action, ResolverAction::DiscoverFiles));
    resolver.resolve_config(found(files, nested))
}

fn names(node: &PluginsScopeAndPaths) -> Vec<String> {
    node.scope.plugins().iter().map(|plugin| plugin.name().to_string()).collect()
}

fn base_path(node: &PluginsScopeAndPaths) -> PathBuf {
    node.scope.config().as_ref().expect("a resolved scope has its configuration").base_path.clone()
}

#[test]
fn plugins_are_bound_in_order() {
    let scope = resolve_plugins_scope(
        Rc::new(config("/project", &["md", "ts"])),
        vec![setup("markdown", 80, Ok(&["md"])), setup("typescript", 100, Ok(&["ts", "tsx"]))],
    )
    .expect("all plugins said which files they format");
    let plugins = scope.plugins();
    assert_eq!(plugins.len(), 2);
    assert_eq!(plugins[0].name(), "markdown");
    assert_eq!(plugins[1].name(), "typescript");
    assert_eq!(plugins[1].file_matching.file_extensions, vec!["ts".to_string(), "tsx".to_string()]);
    assert_eq!(plugins[1].format_config.raw.get("lineWidth"), Some(&ConfigKeyValue::Number(100)));
    assert_eq!(plugins[0].config_diagnostic_count.get(), DiagnosticState::Unchecked);
    assert_eq!(scope.config().as_ref().map(|config| config.base_path.clone()), Some(PathBuf::from("/project")));
}

#[test]
fn the_first_plugin_that_fails_gives_the_reason() {
    let failed = resolve_plugins_scope(
        Rc::new(config("/project", &["md", "ts", "json"])),
        vec![
            setup("markdown", 80, Ok(&["md"])),
            setup("typescript", 80, Err("typescript did not answer")),
            setup("json", 80, Err("json did not answer")),
        ],
    );
    match failed {
        Err(error) => {
            assert_eq!(error, ResolvePluginsError("typescript did not answer".to_string()));
            assert_eq!(error.message(), "typescript did not answer");
        }
        Ok(_) => panic!("a plugin failed"),
    }
}

#[test]
fn no_plugins_is_a_scope_for_one_and_a_failure_for_the_other() {
    let scope = resolve_plugins_scope(Rc::new(config("/project", &[])), vec![]).expect("nothing failed");
    assert!(scope.plugins().is_empty());
    match resolve_plugins_scope_and_err_if_empty(Rc::new(config("/project", &[])), vec![]) {
        Err(error) => assert_eq!(error, ResolutionError::NoPluginsFound(NoPluginsFoundError)),
        Ok(_) => panic!("a scope without plugins is refused"),
    }
}

#[test]
fn a_failing_plugin_comes_before_the_count() {
    match resolve_plugins_scope_and_err_if_empty(
        Rc::new(config("/project", &["md"])),
        vec![setup("markdown", 80, Err("no answer"))],
    ) {
        Err(error) => {
            assert_eq!(error, ResolutionError::ResolvePlugins(ResolvePluginsError("no answer".to_string())))
        }
        Ok(_) => panic!("a plugin failed"),
    }
    let scope = resolve_plugins_scope_and_err_if_empty(
        Rc::new(config("/project", &["md"])),
        vec![setup("markdown", 80, Ok(&["md"]))],
    )
    .expect("one plugin is enough");
    assert_eq!(scope.plugins().len(), 1);
}

#[test]
fn no_plugins_in_words() {
    assert_eq!(
        NoPluginsFoundError.message(),
        "No formatting plugins found. Ensure at least one is specified in the 'plugins' array of the configuration file."
    );
}

#[test]
fn unknown_properties_are_reported_unless_plugins_were_named() {
    assert!(ResolvePluginsOptions::for_plugin_override(&no_override()).check_top_level_unknown_property_diagnostics);
    assert!(
        !ResolvePluginsOptions::for_plugin_override(&vec!["typescript.wasm".to_string()])
            .check_top_level_unknown_property_diagnostics
    );
    let (resolver, _) = resolve_plugins_scope_and_paths(&vec!["typescript.wasm".to_string()]);
    assert!(!resolver.options.check_top_level_unknown_property_diagnostics);
    assert!(resolver.inherit_plugins);
    let (resolver, action) = resolver.resolve_config(ResolverEvent::ConfigResolved(Ok(config("/project", &["ts"]))));
    match action {
        ResolverAction::ResolvePlugins { options, .. } => {
            assert!(!options.check_top_level_unknown_property_diagnostics)
        }
        other => panic!("unexpected action: {:?}", other),
    }
    assert!(matches!(resolver.phase, ResolverPhase::AwaitingPlugins { .. }));
    match get_plugins_scope_from_args(&vec!["typescript.wasm".to_string()], Ok(config("/project", &["ts"]))) {
        ScopeFromArgs::Resolve { options, .. } => assert!(!options.check_top_level_unknown_property_diagnostics),
        other => panic!("unexpected step: {:?}", other),
    }
}

#[test]
fn scope_from_args_resolves_a_configuration_that_was_read() {
    match get_plugins_scope_from_args(&no_override(), Ok(config("/project", &["md", "ts"]))) {
        ScopeFromArgs::Resolve { config, options } => {
            assert_eq!(config.base_path, PathBuf::from("/project"));
            assert_eq!(*config.plugins, vec!["md".to_string(), "ts".to_string()]);
            assert!(options.check_top_level_unknown_property_diagnostics);
        }
        other => panic!("unexpected step: {:?}", other),
    }
}

#[test]
fn scope_from_args_stands_in_for_a_configuration_that_was_not_read() {
    match get_plugins_scope_from_args(&no_override(), Err("no configuration file".to_string())) {
        ScopeFromArgs::Degraded(scope) => {
            assert!(scope.config().is_none());
            assert!(scope.plugins().is_empty());
            assert_eq!(scope.process_plugin_count(), 0);
        }
        other => panic!("unexpected step: {:?}", other),
    }
}

#[test]
fn the_walk_begins_with_the_root() {
    let (resolver, action) = resolve_plugins_scope_and_paths(&no_override());
    assert!(matches!(action, ResolverAction::ResolveConfig { source: ConfigSource::Args }));
    assert!(matches!(resolver.phase, ResolverPhase::AwaitingConfig { inherited: None }));
    assert!(!resolver.inherit_plugins);
    assert!(resolver.options.check_top_level_unknown_property_diagnostics);
    assert!(resolver.resolved.is_empty());
    assert!(resolver.pending.is_empty());
}

#[test]
fn a_root_alone_gives_one_scope() {
    let (resolver, _) = resolve_plugins_scope_and_paths(&no_override());
    let (resolver, action) = resolve_node(
        resolver,
        config("/project", &["md", "ts"]),
        vec![setup("markdown", 80, Ok(&["md"])), setup("typescript", 80, Ok(&["ts"]))],
        vec![file("/project/a.ts", &["typescript"]), file("/project/readme.md", &["markdown"])],
        &[],
    );
    assert!(matches!(resolver.phase, ResolverPhase::Done));
    match action {
        ResolverAction::Finished(Ok(nodes)) => {
            assert_eq!(nodes.len(), 1);
            assert_eq!(names(&nodes[0]), vec!["markdown", "typescript"]);
            assert_eq!(
                nodes[0].file_paths_by_plugins,
                vec![group(&["typescript"], &["/project/a.ts"]), group(&["markdown"], &["/project/readme.md"])]
            );
        }
        other => panic!("unexpected action: {:?}", other),
    }
}

#[test]
fn a_root_with_one_nested_configuration_gives_two_scopes() {
    let (resolver, _) = resolve_plugins_scope_and_paths(&no_override());
    // the files beneath the nested configuration are not among those of the root
    let (resolver, action) = resolve_node(
        resolver,
        config("/project", &["md", "ts"]),
        vec![setup("markdown", 80, Ok(&["md"])), setup("typescript", 80, Ok(&["ts"]))],
        vec![file("/project/a.ts", &["typescript"]), file("/project/readme.md", &["markdown"])],
        &["/project/packages/app/dprint.json"],
    );
    match action {
        ResolverAction::ResolveConfig { source: ConfigSource::File(path) } => {
            assert_eq!(path, PathBuf::from("/project/packages/app/dprint.json"))
        }
        other => panic!("unexpected action: {:?}", other),
    }
    assert_eq!(resolver.resolved.len(), 1);
    let root_hash = resolver.resolved[0].scope.plugins_hash();
    let (resolver, action) = resolve_node(
        resolver,
        config("/project/packages/app", &["ts"]),
        vec![setup("typescript", 120, Ok(&["ts"]))],
        vec![file("/project/packages/app/main.ts", &["typescript"])],
        &[],
    );
    assert!(matches!(resolver.phase, ResolverPhase::Done));
    let nodes = match action {
        ResolverAction::Finished(Ok(nodes)) => nodes,
        other => panic!("unexpected action: {:?}", other),
    };
    assert_eq!(nodes.len(), 2);
    assert_eq!(base_path(&nodes[0]), PathBuf::from("/project"));
    assert_eq!(base_path(&nodes[1]), PathBuf::from("/project/packages/app"));
    assert_eq!(names(&nodes[0]), vec!["markdown", "typescript"]);
    assert_eq!(names(&nodes[1]), vec!["typescript"]);
    assert_eq!(
        nodes[0].file_paths_by_plugins,
        vec![group(&["typescript"], &["/project/a.ts"]), group(&["markdown"], &["/project/readme.md"])]
    );
    assert_eq!(
        nodes[1].file_paths_by_plugins,
        vec![group(&["typescript"], &["/project/packages/app/main.ts"])]
    );
    assert_eq!(nodes[0].scope.plugins_hash(), root_hash);
    assert_ne!(nodes[1].scope.plugins_hash(), root_hash);

    // a scope of the root's plugins alone, with the nested settings for typescript
    let typescript_of_root =
        resolve_plugins_scope(Rc::new(config("/project", &["ts"])), vec![setup("typescript", 80, Ok(&["ts"]))])
            .expect("nothing failed");
    assert_ne!(nodes[1].scope.plugins_hash(), typescript_of_root.plugins_hash());
}

#[test]
fn nested_configurations_are_walked_depth_first() {
    let one_plugin = || vec![setup("typescript", 80, Ok(&["ts"]))];
    let one_file = |path: &str| vec![file(path, &["typescript"])];
    let next_file = |action: ResolverAction| match action {
        ResolverAction::ResolveConfig { source: ConfigSource::File(path) } => path,
        other => panic!("unexpected action: {:?}", other),
    };
    let (resolver, _) = resolve_plugins_scope_and_paths(&no_override());
    let (resolver, action) =
        resolve_node(resolver, config("/r", &["ts"]), one_plugin(), one_file("/r/a.ts"), &["/r/x/c.json", "/r/y/c.json"]);
    assert_eq!(next_file(action), PathBuf::from("/r/x/c.json"));
    let (resolver, action) = resolve_node(
        resolver,
        config("/r/x", &["ts"]),
        one_plugin(),
        one_file("/r/x/a.ts"),
        &["/r/x/1/c.json", "/r/x/2/c.json"],
    );
    assert_eq!(next_file(action), PathBuf::from("/r/x/1/c.json"));
    let (resolver, action) =
        resolve_node(resolver, config("/r/x/1", &["ts"]), one_plugin(), one_file("/r/x/1/a.ts"), &[]);
    assert_eq!(next_file(action), PathBuf::from("/r/x/2/c.json"));
    let (resolver, action) =
        resolve_node(resolver, config("/r/x/2", &["ts"]), one_plugin(), one_file("/r/x/2/a.ts"), &[]);
    assert_eq!(next_file(action), PathBuf::from("/r/y/c.json"));
    let (_, action) = resolve_node(resolver, config("/r/y", &["ts"]), one_plugin(), one_file("/r/y/a.ts"), &[]);
    let nodes = match action {
        ResolverAction::Finished(Ok(nodes)) => nodes,
        other => panic!("unexpected action: {:?}", other),
    };
    let bases: Vec<PathBuf> = nodes.iter().map(base_path).collect();
    assert_eq!(
        bases,
        vec![
            PathBuf::from("/r"),
            PathBuf::from("/r/x"),
            PathBuf::from("/r/x/1"),
            PathBuf::from("/r/x/2"),
            PathBuf::from("/r/y"),
        ]
    );
}

#[test]
fn nested_configurations_take_the_plugins_that_the_caller_named() {
    let (resolver, _) = resolve_plugins_scope_and_paths(&vec!["only.wasm".to_string()]);
    let (resolver, action) = resolve_node(
        resolver,
        config("/r", &["only.wasm"]),
        vec![setup("only", 80, Ok(&["ts"]))],
        vec![file("/r/a.ts", &["only"])],
        &["/r/x/c.json"],
    );
    assert!(matches!(action, ResolverAction::ResolveConfig { .. }));
    let (_, action) =
        resolver.resolve_config(ResolverEvent::ConfigResolved(Ok(config("/r/x", &["md.wasm", "ts.wasm"]))));
    match action {
        ResolverAction::ResolvePlugins { config, .. } => {
            assert_eq!(*config.plugins, vec!["only.wasm".to_string()]);
            assert_eq!(config.base_path, PathBuf::from("/r/x"));
        }
        other => panic!("unexpected action: {:?}", other),
    }
}

#[test]
fn nested_configurations_keep_their_plugins_otherwise() {
    let (resolver, _) = resolve_plugins_scope_and_paths(&no_override());
    let (resolver, _) = resolve_node(
        resolver,
        config("/r", &["ts.wasm"]),
        vec![setup("typescript", 80, Ok(&["ts"]))],
        vec![file("/r/a.ts", &["typescript"])],
        &["/r/x/c.json"],
    );
    let (_, action) =
        resolver.resolve_config(ResolverEvent::ConfigResolved(Ok(config("/r/x", &["md.wasm", "ts.wasm"]))));
    match action {
        ResolverAction::ResolvePlugins { config, options } => {
            assert_eq!(*config.plugins, vec!["md.wasm".to_string(), "ts.wasm".to_string()]);
            assert!(options.check_top_level_unknown_property_diagnostics);
        }
        other => panic!("unexpected action: {:?}", other),
    }
}

#[test]
fn a_configuration_without_plugins_fails_before_its_files_are_looked_for() {
    let (resolver, _) = resolve_plugins_scope_and_paths(&no_override());
    let (resolver, _) = resolver.resolve_config(ResolverEvent::ConfigResolved(Ok(config("/r", &[]))));
    let (resolver, action) = resolver.resolve_config(ResolverEvent::PluginsResolved(Ok(vec![])));
    match action {
        ResolverAction::Finished(Err(error)) => {
            assert_eq!(error, ResolutionError::NoPluginsFound(NoPluginsFoundError))
        }
        other => panic!("unexpected action: {:?}", other),
    }
    assert!(matches!(resolver.phase, ResolverPhase::Done));
}

#[test]
fn a_file_without_a_plugin_fails_its_configuration() {
    let (resolver, _) = resolve_plugins_scope_and_paths(&no_override());
    let (resolver, action) = resolve_node(
        resolver,
        config("/r", &["ts.wasm"]),
        vec![setup("typescript", 80, Ok(&["ts"]))],
        vec![file("/r/a.ts", &["typescript"]), file("/r/logo.svg", &[])],
        &["/r/x/c.json"],
    );
    match action {
        ResolverAction::Finished(Err(error)) => {
            assert_eq!(error, ResolutionError::NoPluginForFile(PathBuf::from("/r/logo.svg")))
        }
        other => panic!("unexpected action: {:?}", other),
    }
    assert!(matches!(resolver.phase, ResolverPhase::Done));
    assert!(resolver.resolved.is_empty());
}

#[test]
fn a_configuration_without_files_fails() {
    let (resolver, _) = resolve_plugins_scope_and_paths(&no_override());
    let (_, action) = resolve_node(
        resolver,
        config("/r", &["ts.wasm"]),
        vec![setup("typescript", 80, Ok(&["ts"]))],
        vec![],
        &[],
    );
    assert!(matches!(action, ResolverAction::Finished(Err(ResolutionError::NoFilesFound))));
}

#[test]
fn failures_of_what_is_asked_are_handed_on() {
    let (resolver, _) = resolve_plugins_scope_and_paths(&no_override());
    let (_, action) = resolver.resolve_config(ResolverEvent::ConfigResolved(Err("not valid JSON".to_string())));
    match action {
        ResolverAction::Finished(Err(error)) => assert_eq!(error, ResolutionError::Config("not valid JSON".to_string())),
        other => panic!("unexpected action: {:?}", other),
    }

    let (resolver, _) = resolve_plugins_scope_and_paths(&no_override());
    let (resolver, _) = resolver.resolve_config(ResolverEvent::ConfigResolved(Ok(config("/r", &["ts.wasm"]))));
    let (_, action) = resolver.resolve_config(ResolverEvent::PluginsResolved(Err("download failed".to_string())));
    match action {
        ResolverAction::Finished(Err(error)) => {
            assert_eq!(error, ResolutionError::ResolvePlugins(ResolvePluginsError("download failed".to_string())))
        }
        other => panic!("unexpected action: {:?}", other),
    }

    let (resolver, _) = resolve_plugins_scope_and_paths(&no_override());
    let (resolver, _) = resolver.resolve_config(ResolverEvent::ConfigResolved(Ok(config("/r", &["ts.wasm"]))));
    let (resolver, _) =
        resolver.resolve_config(ResolverEvent::PluginsResolved(Ok(vec![setup("typescript", 80, Err("no answer"))])));
    assert!(matches!(resolver.phase, ResolverPhase::Done));

    let (resolver, _) = resolve_plugins_scope_and_paths(&no_override());
    let (resolver, _) = resolver.resolve_config(ResolverEvent::ConfigResolved(Ok(config("/r", &["ts.wasm"]))));
    let (resolver, _) =
        resolver.resolve_config(ResolverEvent::PluginsResolved(Ok(vec![setup("typescript", 80, Ok(&["ts"]))])));
    let (_, action) = resolver.resolve_config(ResolverEvent::FilesDiscovered(Err("permission denied".to_string())));
    match action {
        ResolverAction::Finished(Err(error)) => assert_eq!(error, ResolutionError::Config("permission denied".to_string())),
        other => panic!("unexpected action: {:?}", other),
    }
}

#[test]
fn an_event_out_of_turn_ends_the_walk() {
    let (resolver, _) = resolve_plugins_scope_and_paths(&no_override());
    let (resolver, action) = resolver.resolve_config(ResolverEvent::PluginsResolved(Ok(vec![])));
    assert!(matches!(action, ResolverAction::Finished(Err(ResolutionError::UnexpectedEvent))));
    assert!(matches!(resolver.phase, ResolverPhase::Done));
    let (_, action) = resolver.resolve_config(ResolverEvent::ConfigResolved(Ok(config("/r", &[]))));
    assert!(matches!(action, ResolverAction::Finished(Err(ResolutionError::UnexpectedEvent))));
}
