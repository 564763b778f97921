use plugin_scopes::config::{
    ConfigKeyMap, ConfigKeyValue, FileMatchingInfo, FormatConfig, GlobalConfiguration, NewLineKind,
    PluginInfo, PluginReference,
};
use plugin_scopes::encoding::{write_global, write_len, write_setting, write_text, write_u64, write_value};
use plugin_scopes::hasher::IncrementalHasher;
use plugin_scopes::plugin::PluginWithConfig;
use std::rc::Rc;
use std::sync::Arc;

fn no_global() -> GlobalConfiguration {
    GlobalConfiguration { line_width: None, use_tabs: None, indent_width: None, new_line_kind: None }
}

fn plugin(
    name: &str,
    version: &str,
    raw: ConfigKeyMap,
    associations: Option<Vec<String>>,
    global: GlobalConfiguration,
) -> PluginWithConfig {
    let info = PluginInfo {
        name: name.to_string(),
        version: version.to_string(),
        config_key: name.to_string(),
        help_url: String::new(),
        config_schema_url: String::new(),
        update_url: None,
    };
    PluginWithConfig::new(
        Rc::new(PluginReference { info, is_process_plugin: false }),
        associations,
        Arc::new(FormatConfig { id: 1, global, raw }),
        FileMatchingInfo { file_extensions: vec![], file_names: vec![] },
    )
}

fn hash_of(plugin: &PluginWithConfig) -> u64 {
    let mut hasher = IncrementalHasher::new();
    plugin.incremental_hash(&mut hasher);
    hasher.finish()
}

fn hash_of_bytes(bytes: &[u8]) -> u64 {
    let mut hasher = IncrementalHasher::new();
    hasher.write(bytes);
    hasher.finish()
}

fn sample_raw(order: &[&str]) -> ConfigKeyMap {
    let mut raw = ConfigKeyMap::new();
    for key in order {
        let value = match *key {
            "lineWidth" => ConfigKeyValue::Number(80),
            "quoteStyle" => ConfigKeyValue::String("preferSingle".to_string()),
            "semiColons" => ConfigKeyValue::Bool(true),
            _ => ConfigKeyValue::Object(ConfigKeyMap { entries: vec![(
                "a".to_string(),
                ConfigKeyValue::Array(vec![ConfigKeyValue::Number(1), ConfigKeyValue::Null]),
            )] }),
        };
        raw.insert(key.to_string(), value);
    }
    raw
}

fn sample_global() -> GlobalConfiguration {
    GlobalConfiguration {
        line_width: Some(120),
        use_tabs: Some(false),
        indent_width: Some(4),
        new_line_kind: Some(NewLineKind::LineFeed),
    }
}

fn sample(order: &[&str]) -> PluginWithConfig {
    plugin(
        "dprint-plugin-typescript",
        "0.88.3",
        sample_raw(order),
        Some(vec!["**/*.ts".to_string(), "**/*.tsx".to_string()]),
        sample_global(),
    )
}

const KEYS: [&str; 4] = ["lineWidth", "quoteStyle", "semiColons", "nested"];

#[test]
fn numbers_are_written_lowest_byte_first() {
    let mut hasher = IncrementalHasher::new();
    write_u64(&mut hasher, 0x0102_0304_0506_0708);
    assert_eq!(hasher.finish(), hash_of_bytes(&[8, 7, 6, 5, 4, 3, 2, 1]));
    let mut hasher = IncrementalHasher::new();
    write_len(&mut hasher, 3);
    assert_eq!(hasher.finish(), hash_of_bytes(&[3, 0, 0, 0, 0, 0, 0, 0]));
}

#[test]
fn texts_are_written_with_their_length() {
    let mut hasher = IncrementalHasher::new();
    write_text(&mut hasher, "ts");
    assert_eq!(hasher.finish(), hash_of_bytes(&[2, 0, 0, 0, 0, 0, 0, 0, b't', b's']));
    let mut hasher = IncrementalHasher::new();
    write_text(&mut hasher, "é");
    assert_eq!(hasher.finish(), hash_of_bytes(&[2, 0, 0, 0, 0, 0, 0, 0, 0xc3, 0xa9]));
    let mut hasher = IncrementalHasher::new();
    write_text(&mut hasher, "");
    assert_eq!(hasher.finish(), hash_of_bytes(&[0; 8]));
}

#[test]
fn values_are_written_with_their_kind() {
    let cases: Vec<(ConfigKeyValue, Vec<u8>)> = vec![
        (ConfigKeyValue::String("a".to_string()), vec![0, 1, 0, 0, 0, 0, 0, 0, 0, b'a']),
        (ConfigKeyValue::Number(0), vec![1, 0, 0, 0, 0x80, 0, 0, 0, 0]),
        (ConfigKeyValue::Number(-1), vec![1, 0xff, 0xff, 0xff, 0x7f, 0, 0, 0, 0]),
        (ConfigKeyValue::Number(i32::MIN), vec![1, 0, 0, 0, 0, 0, 0, 0, 0]),
        (ConfigKeyValue::Number(i32::MAX), vec![1, 0xff, 0xff, 0xff, 0xff, 0, 0, 0, 0]),
        (ConfigKeyValue::Bool(true), vec![2, 1]),
        (ConfigKeyValue::Bool(false), vec![2, 0]),
        (ConfigKeyValue::Array(vec![]), vec![3, 0, 0, 0, 0, 0, 0, 0, 0]),
        (
            ConfigKeyValue::Array(vec![ConfigKeyValue::Null, ConfigKeyValue::Bool(true)]),
            vec![3, 2, 0, 0, 0, 0, 0, 0, 0, 5, 2, 1],
        ),
        (
            ConfigKeyValue::Object(ConfigKeyMap { entries: vec![("k".to_string(), ConfigKeyValue::Null)] }),
            vec![4, 1, 0, 0, 0, 0, 0, 0, 0, 1, 0, 0, 0, 0, 0, 0, 0, b'k', 5],
        ),
        (ConfigKeyValue::Null, vec![5]),
    ];
    for (value, bytes) in cases {
        let mut hasher = IncrementalHasher::new();
        write_value(&mut hasher, &value);
        assert_eq!(hasher.finish(), hash_of_bytes(&bytes), "{:?}", value);
    }
}

#[test]
fn settings_are_written_with_a_mark() {
    let mut hasher = IncrementalHasher::new();
    write_setting(&mut hasher, None);
    assert_eq!(hasher.finish(), hash_of_bytes(&[0]));
    let mut hasher = IncrementalHasher::new();
    write_setting(&mut hasher, Some(4));
    assert_eq!(hasher.finish(), hash_of_bytes(&[1, 4, 0, 0, 0, 0, 0, 0, 0]));
    let mut hasher = IncrementalHasher::new();
    write_global(&mut hasher, &no_global());
    assert_eq!(hasher.finish(), hash_of_bytes(&[0, 0, 0, 0]));
    let mut hasher = IncrementalHasher::new();
    write_global(&mut hasher, &sample_global());
    let mut expected = vec![1, 120, 0, 0, 0, 0, 0, 0, 0];
    expected.extend([1, 0, 0, 0, 0, 0, 0, 0, 0]);
    expected.extend([1, 4, 0, 0, 0, 0, 0, 0, 0]);
    expected.extend([1, 1, 0, 0, 0, 0, 0, 0, 0]);
    assert_eq!(hasher.finish(), hash_of_bytes(&expected));
}

#[test]
fn fingerprint_of_a_bare_plugin() {
    let bare = plugin("ts", "1.0", ConfigKeyMap::new(), None, no_global());
    assert_eq!(hash_of(&bare), 0x4e30_4361_5e12_366e);
}

#[test]
fn fingerprint_of_a_configured_plugin() {
    assert_eq!(hash_of(&sample(&KEYS)), 0x88a3_c121_603f_4748);
}

#[test]
fn fingerprint_continues_the_hasher() {
    let mut hasher = IncrementalHasher::new();
    plugin("ts", "1.0", ConfigKeyMap::new(), None, no_global()).incremental_hash(&mut hasher);
    sample(&KEYS).incremental_hash(&mut hasher);
    assert_eq!(hasher.finish(), 0x7ba0_24b8_93cd_4ff7);
}

#[test]
fn fingerprint_is_the_same_on_every_call() {
    let plugin = sample(&KEYS);
    assert_eq!(hash_of(&plugin), hash_of(&plugin));
}

#[test]
fn fingerprint_ignores_the_order_of_keys() {
    let expected = hash_of(&sample(&KEYS));
    assert_eq!(hash_of(&sample(&["nested", "semiColons", "quoteStyle", "lineWidth"])), expected);
    assert_eq!(hash_of(&sample(&["quoteStyle", "nested", "lineWidth", "semiColons"])), expected);
}

#[test]
fn fingerprint_changes_with_a_raw_value() {
    let expected = hash_of(&sample(&KEYS));
    let mut raw = sample_raw(&KEYS);
    raw.insert("lineWidth".to_string(), ConfigKeyValue::Number(81));
    let changed = plugin(
        "dprint-plugin-typescript",
        "0.88.3",
        raw,
        Some(vec!["**/*.ts".to_string(), "**/*.tsx".to_string()]),
        sample_global(),
    );
    assert_ne!(hash_of(&changed), expected);
}

#[test]
fn fingerprint_changes_with_the_global_configuration() {
    let expected = hash_of(&sample(&KEYS));
    let mut global = sample_global();
    global.new_line_kind = Some(NewLineKind::CarriageReturnLineFeed);
    let changed = plugin(
        "dprint-plugin-typescript",
        "0.88.3",
        sample_raw(&KEYS),
        Some(vec!["**/*.ts".to_string(), "**/*.tsx".to_string()]),
        global,
    );
    assert_ne!(hash_of(&changed), expected);
    let unset = plugin(
        "dprint-plugin-typescript",
        "0.88.3",
        sample_raw(&KEYS),
        Some(vec!["**/*.ts".to_string(), "**/*.tsx".to_string()]),
        no_global(),
    );
    assert_ne!(hash_of(&unset), expected);
}

#[test]
fn fingerprint_changes_with_the_associations() {
    let expected = hash_of(&sample(&KEYS));
    let with = |associations: Option<Vec<String>>| {
        hash_of(&plugin("dprint-plugin-typescript", "0.88.3", sample_raw(&KEYS), associations, sample_global()))
    };
    assert_ne!(with(None), expected);
    assert_ne!(with(Some(vec![])), expected);
    assert_ne!(with(Some(vec![])), with(None));
    assert_ne!(with(Some(vec!["**/*.ts".to_string()])), expected);
    assert_ne!(with(Some(vec!["**/*.tsx".to_string(), "**/*.ts".to_string()])), expected);
    // patterns that run together to the same characters
    assert_ne!(
        with(Some(vec!["ab".to_string(), "c".to_string()])),
        with(Some(vec!["a".to_string(), "bc".to_string()]))
    );
}

#[test]
fn fingerprint_changes_with_name_and_version() {
    let expected = hash_of(&plugin("ts", "1.0", ConfigKeyMap::new(), None, no_global()));
    assert_ne!(hash_of(&plugin("ts", "1.1", ConfigKeyMap::new(), None, no_global())), expected);
    assert_ne!(hash_of(&plugin("t", "s1.0", ConfigKeyMap::new(), None, no_global())), expected);
}

#[test]
fn fingerprint_tells_nested_values_apart() {
    let with = |value: ConfigKeyValue| {
        let mut raw = ConfigKeyMap::new();
        raw.insert("key".to_string(), value);
        hash_of(&plugin("ts", "1.0", raw, None, no_global()))
    };
    let two = with(ConfigKeyValue::Array(vec![
        ConfigKeyValue::String("a".to_string()),
        ConfigKeyValue::String("b".to_string()),
    ]));
    let one = with(ConfigKeyValue::Array(vec![ConfigKeyValue::String("a\u{0}b".to_string())]));
    assert_ne!(two, one);
    assert_ne!(with(ConfigKeyValue::Null), with(ConfigKeyValue::Array(vec![])));
    assert_ne!(with(ConfigKeyValue::Bool(false)), with(ConfigKeyValue::Number(0)));
}
