use plugin_scopes::config::{
    ConfigKeyMap, FileMatchingInfo, FormatConfig, GlobalConfiguration, PluginInfo, PluginReference,
};
use plugin_scopes::plugin::PluginWithConfig;
use plugin_scopes::request::clone_range;
use plugin_scopes::vectors::{names_eq, reversed};
use std::rc::Rc;
use std::sync::Arc;

fn names(list: &[&str]) -> Vec<String> {
    list.iter().map(|name| name.to_string()).collect()
}

#[test]
fn reversed_turns_a_list_around() {
    assert_eq!(reversed(Vec::<u8>::new()), Vec::<u8>::new());
    assert_eq!(reversed(vec![1]), vec![1]);
    assert_eq!(reversed(vec![1, 2, 3]), vec![3, 2, 1]);
    assert_eq!(reversed(names(&["a", "b"])), names(&["b", "a"]));
}

#[test]
fn lists_of_names_are_equal_place_by_place() {
    assert!(names_eq(&names(&[]), &names(&[])));
    assert!(names_eq(&names(&["typescript", "css"]), &names(&["typescript", "css"])));
    assert!(!names_eq(&names(&["typescript", "css"]), &names(&["css", "typescript"])));
    assert!(!names_eq(&names(&["typescript"]), &names(&["typescript", "css"])));
    assert!(!names_eq(&names(&["typescript", "css"]), &names(&["typescript"])));
    assert!(!names_eq(&names(&["typescript"]), &names(&["Typescript"])));
}

#[test]
fn ranges_are_copied_as_they_are() {
    assert_eq!(clone_range(&None), None);
    assert_eq!(clone_range(&Some(0..0)), Some(0..0));
    assert_eq!(clone_range(&Some(3..17)), Some(3..17));
}

#[test]
fn a_started_plugin_is_cloned_with_shared_configuration() {
    let info = PluginInfo {
        name: "markdown".to_string(),
        version: "1".to_string(),
        config_key: "markdown".to_string(),
        help_url: String::new(),
        config_schema_url: String::new(),
        update_url: Some("https://example.com/latest.json".to_string()),
    };
    let global =
        GlobalConfiguration { line_width: None, use_tabs: None, indent_width: None, new_line_kind: None };
    let plugin = PluginWithConfig::new(
        Rc::new(PluginReference { info, is_process_plugin: false }),
        None,
        Arc::new(FormatConfig { id: 3, global, raw: ConfigKeyMap::new() }),
        FileMatchingInfo { file_extensions: vec![], file_names: vec!["README".to_string()] },
    );
    let started = plugin.initialize(Ok("instance".to_string())).unwrap();
    let copy = started.clone();
    assert_eq!(copy, started);
    assert_eq!(copy.instance, "instance");
    assert!(Rc::ptr_eq(&copy.plugin, &started.plugin));
    assert!(Arc::ptr_eq(&copy.format_config, &plugin.format_config));
    assert_eq!(copy.info().update_url, Some("https://example.com/latest.json".to_string()));
}
