use plugin_scopes::config::{
    ConfigKeyMap, FileMatchingInfo, FormatConfig, GlobalConfiguration, PluginInfo, PluginReference,
};
use plugin_scopes::plugin::{
    AdmissionAction, AdmissionEvent, DiagnosticSlot, DiagnosticState, DiagnosticsReport, GetPluginResult,
    InitializedPluginWithConfig, PluginWithConfig,
};
use plugin_scopes::request::{
    HostFormatCallback, InitializedPluginFormatRequest, InitializedPluginWithConfigFormatRequest,
    PluginRequest,
};
use std::path::PathBuf;
use std::rc::Rc;
use std::sync::Arc;

fn plugin(name: &str) -> PluginWithConfig {
    let info = PluginInfo {
        name: name.to_string(),
        version: "0.1.0".to_string(),
        config_key: name.to_string(),
        help_url: "https://example.com/help".to_string(),
        config_schema_url: String::new(),
        update_url: None,
    };
    let global =
        GlobalConfiguration { line_width: Some(80), use_tabs: None, indent_width: None, new_line_kind: None };
    PluginWithConfig::new(
        Rc::new(PluginReference { info, is_process_plugin: true }),
        Some(vec!["**/*.md".to_string()]),
        Arc::new(FormatConfig { id: 7, global, raw: ConfigKeyMap::new() }),
        FileMatchingInfo { file_extensions: vec!["md".to_string()], file_names: vec![] },
    )
}

fn report(count: usize, text: &str) -> Result<DiagnosticsReport, String> {
    Ok(DiagnosticsReport { count, text: text.to_string() })
}

fn bound(plugin: &PluginWithConfig, instance: u32) -> InitializedPluginWithConfig<u32> {
    match plugin.initialize(Ok(instance)) {
        Ok(bound) => bound,
        Err(error) => panic!("unexpected failure: {}", error),
    }
}

/// One caller from its request to its answer, with a plugin that starts and
/// reports `diagnostics` whenever it is asked. Returns the answer, the text
/// for the error stream, and how often the plugin was asked.
fn pass(
    plugin: &mut PluginWithConfig,
    diagnostics: (usize, &str),
) -> (Result<GetPluginResult<u32>, String>, Option<String>, usize) {
    let mut asked = 0;
    let mut action = plugin.get_or_create_checking_config_diagnostics(AdmissionEvent::Requested);
    loop {
        action = match action {
            AdmissionAction::Initialize => {
                plugin.get_or_create_checking_config_diagnostics(AdmissionEvent::Initialized(Ok(1)))
            }
            AdmissionAction::OutputConfigDiagnostics(initialized) => {
                asked += 1;
                plugin.get_or_create_checking_config_diagnostics(AdmissionEvent::Checked(
                    initialized,
                    report(diagnostics.0, diagnostics.1),
                ))
            }
            AdmissionAction::Finished { result, log } => return (result, log, asked),
        };
    }
}

#[test]
fn slot_is_set_once() {
    let mut slot = DiagnosticSlot::new();
    assert_eq!(slot.get(), DiagnosticState::Unchecked);
    assert!(slot.record(3));
    assert_eq!(slot.get(), DiagnosticState::Checked(3));
    assert!(!slot.record(0));
    assert_eq!(slot.get(), DiagnosticState::Checked(3));
    assert!(!slot.record(5));
    assert_eq!(slot.get(), DiagnosticState::Checked(3));
}

#[test]
fn slot_remembers_zero() {
    let mut slot = DiagnosticSlot::new();
    assert!(slot.record(0));
    assert_eq!(slot.get(), DiagnosticState::Checked(0));
    assert!(!slot.record(2));
    assert_eq!(slot.get(), DiagnosticState::Checked(0));
}

#[test]
fn new_plugin_is_unchecked() {
    let plugin = plugin("markdown");
    assert_eq!(plugin.config_diagnostic_count.get(), DiagnosticState::Unchecked);
    assert_eq!(plugin.name(), "markdown");
    assert_eq!(plugin.info().version, "0.1.0");
    assert_eq!(plugin.info().help_url, "https://example.com/help");
    assert_eq!(plugin.associations, Some(vec!["**/*.md".to_string()]));
    assert_eq!(plugin.format_config.id, 7);
    assert_eq!(plugin.file_matching.file_extensions, vec!["md".to_string()]);
    assert!(plugin.plugin.is_process_plugin);
}

#[test]
fn initialize_binds_the_instance_to_the_configuration() {
    let plugin = plugin("markdown");
    let bound = bound(&plugin, 42);
    assert_eq!(bound.instance, 42);
    assert_eq!(*bound.instance(), 42);
    assert!(Rc::ptr_eq(&bound.plugin, &plugin.plugin));
    assert!(Arc::ptr_eq(&bound.format_config, &plugin.format_config));
    assert_eq!(bound.info().name, "markdown");
}

#[test]
fn initialize_hands_on_the_failure() {
    let plugin = plugin("markdown");
    let failed: Result<InitializedPluginWithConfig<u32>, String> =
        plugin.initialize(Err("could not start".to_string()));
    assert_eq!(failed, Err("could not start".to_string()));
}

#[test]
fn first_caller_checks_and_is_admitted() {
    let mut plugin = plugin("markdown");
    let first = plugin.get_or_create_checking_config_diagnostics::<u32>(AdmissionEvent::Requested);
    assert_eq!(first, AdmissionAction::Initialize);
    let second = plugin.get_or_create_checking_config_diagnostics(AdmissionEvent::Initialized(Ok(5u32)));
    let initialized = match second {
        AdmissionAction::OutputConfigDiagnostics(initialized) => initialized,
        other => panic!("unexpected action: {:?}", other),
    };
    assert_eq!(initialized.instance, 5);
    assert_eq!(plugin.config_diagnostic_count.get(), DiagnosticState::Unchecked);
    let third =
        plugin.get_or_create_checking_config_diagnostics(AdmissionEvent::Checked(initialized, report(0, "")));
    match third {
        AdmissionAction::Finished { result: Ok(GetPluginResult::Success(admitted)), log: None } => {
            assert_eq!(admitted.instance, 5);
        }
        other => panic!("unexpected action: {:?}", other),
    }
    assert_eq!(plugin.config_diagnostic_count.get(), DiagnosticState::Checked(0));
}

#[test]
fn later_callers_are_admitted_without_a_check() {
    let mut plugin = plugin("markdown");
    let (first, log, asked) = pass(&mut plugin, (0, ""));
    assert!(matches!(first, Ok(GetPluginResult::Success(_))));
    assert_eq!(log, None);
    assert_eq!(asked, 1);
    for _ in 0..3 {
        let (next, log, asked) = pass(&mut plugin, (9, "must not be asked"));
        assert!(matches!(next, Ok(GetPluginResult::Success(_))));
        assert_eq!(log, None);
        assert_eq!(asked, 0);
    }
    assert_eq!(plugin.config_diagnostic_count.get(), DiagnosticState::Checked(0));
}

#[test]
fn diagnostics_are_shown_once_and_every_caller_gets_the_count() {
    let mut plugin = plugin("markdown");
    let mut shown = Vec::new();
    let mut asked_in_all = 0;
    for _ in 0..5 {
        let (answer, log, asked) = pass(&mut plugin, (2, "[markdown]: two problems"));
        assert_eq!(answer, Ok(GetPluginResult::HadDiagnostics(2)));
        shown.extend(log);
        asked_in_all += asked;
    }
    assert_eq!(shown, vec!["[markdown]: two problems".to_string()]);
    assert_eq!(asked_in_all, 1);
    assert_eq!(plugin.config_diagnostic_count.get(), DiagnosticState::Checked(2));
}

#[test]
fn a_refused_plugin_is_not_started_again() {
    let mut plugin = plugin("markdown");
    let _ = pass(&mut plugin, (1, "one problem"));
    let again = plugin.get_or_create_checking_config_diagnostics::<u32>(AdmissionEvent::Requested);
    assert_eq!(
        again,
        AdmissionAction::Finished { result: Ok(GetPluginResult::HadDiagnostics(1)), log: None }
    );
}

#[test]
fn callers_that_overlap_see_the_text_once() {
    // two callers are both past the start before either has its report
    let mut plugin = plugin("markdown");
    assert_eq!(
        plugin.get_or_create_checking_config_diagnostics::<u32>(AdmissionEvent::Requested),
        AdmissionAction::Initialize
    );
    assert_eq!(
        plugin.get_or_create_checking_config_diagnostics::<u32>(AdmissionEvent::Requested),
        AdmissionAction::Initialize
    );
    let first = match plugin.get_or_create_checking_config_diagnostics(AdmissionEvent::Initialized(Ok(1u32))) {
        AdmissionAction::OutputConfigDiagnostics(initialized) => initialized,
        other => panic!("unexpected action: {:?}", other),
    };
    let second = match plugin.get_or_create_checking_config_diagnostics(AdmissionEvent::Initialized(Ok(2u32))) {
        AdmissionAction::OutputConfigDiagnostics(initialized) => initialized,
        other => panic!("unexpected action: {:?}", other),
    };
    let one = plugin.get_or_create_checking_config_diagnostics(AdmissionEvent::Checked(second, report(4, "four")));
    assert_eq!(
        one,
        AdmissionAction::Finished {
            result: Ok(GetPluginResult::HadDiagnostics(4)),
            log: Some("four".to_string())
        }
    );
    let other = plugin.get_or_create_checking_config_diagnostics(AdmissionEvent::Checked(first, report(4, "four")));
    assert_eq!(
        other,
        AdmissionAction::Finished { result: Ok(GetPluginResult::HadDiagnostics(4)), log: None }
    );
}

#[test]
fn a_count_that_is_known_is_not_replaced() {
    let mut plugin = plugin("markdown");
    let _ = pass(&mut plugin, (0, ""));
    let late = bound(&plugin, 3);
    let action = plugin.get_or_create_checking_config_diagnostics(AdmissionEvent::Checked(late, report(6, "six")));
    assert!(matches!(
        action,
        AdmissionAction::Finished { result: Ok(GetPluginResult::Success(_)), log: None }
    ));
    assert_eq!(plugin.config_diagnostic_count.get(), DiagnosticState::Checked(0));
}

#[test]
fn a_plugin_that_does_not_start_fails_the_caller() {
    let mut plugin = plugin("markdown");
    let action = plugin
        .get_or_create_checking_config_diagnostics::<u32>(AdmissionEvent::Initialized(Err("no process".to_string())));
    assert_eq!(action, AdmissionAction::Finished { result: Err("no process".to_string()), log: None });
    assert_eq!(plugin.config_diagnostic_count.get(), DiagnosticState::Unchecked);
}

#[test]
fn a_check_that_fails_leaves_the_plugin_unchecked() {
    let mut plugin = plugin("markdown");
    let initialized = bound(&plugin, 1);
    let action = plugin.get_or_create_checking_config_diagnostics(AdmissionEvent::Checked(
        initialized,
        Err("pipe closed".to_string()),
    ));
    assert_eq!(action, AdmissionAction::Finished { result: Err("pipe closed".to_string()), log: None });
    assert_eq!(plugin.config_diagnostic_count.get(), DiagnosticState::Unchecked);
    let (answer, log, asked) = pass(&mut plugin, (1, "one"));
    assert_eq!(answer, Ok(GetPluginResult::HadDiagnostics(1)));
    assert_eq!(log, Some("one".to_string()));
    assert_eq!(asked, 1);
}

#[test]
fn questions_carry_the_configuration() {
    let plugin = plugin("markdown");
    let bound = bound(&plugin, 1);
    match bound.resolved_config() {
        PluginRequest::ResolvedConfig { config } => assert!(Arc::ptr_eq(&config, &plugin.format_config)),
        other => panic!("unexpected request: {:?}", other),
    }
    match bound.file_matching_info() {
        PluginRequest::FileMatchingInfo { config } => assert!(Arc::ptr_eq(&config, &plugin.format_config)),
        other => panic!("unexpected request: {:?}", other),
    }
    assert_eq!(bound.license_text(), PluginRequest::LicenseText);
    match bound.output_config_diagnostics() {
        PluginRequest::OutputConfigDiagnostics { plugin_name, config } => {
            assert_eq!(plugin_name, "markdown");
            assert!(Arc::ptr_eq(&config, &plugin.format_config));
        }
        other => panic!("unexpected request: {:?}", other),
    }
}

#[test]
fn format_text_adds_the_configuration() {
    let plugin = plugin("markdown");
    let bound = bound(&plugin, 1);
    let mut overrides = ConfigKeyMap::new();
    overrides.insert("lineWidth".to_string(), plugin_scopes::config::ConfigKeyValue::Number(40));
    let overrides = Rc::new(overrides);
    let sent = bound.format_text(InitializedPluginWithConfigFormatRequest {
        file_path: PathBuf::from("docs/readme.md"),
        file_text: "# title".to_string(),
        range: Some(2..5),
        override_config: overrides.clone(),
        on_host_format: HostFormatCallback { scope_config: None },
    });
    assert_eq!(
        sent,
        PluginRequest::FormatText(InitializedPluginFormatRequest {
            file_path: PathBuf::from("docs/readme.md"),
            file_text: "# title".to_string(),
            range: Some(2..5),
            config: plugin.format_config.clone(),
            override_config: overrides,
            on_host_format: HostFormatCallback { scope_config: None },
        })
    );
}
