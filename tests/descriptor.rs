use gdam::plugin::{parse_ini_line, parse_plugin_cfg, PluginInfo};

#[test]
fn reads_name_and_version_of_plugin_section() {
    let text = "[plugin]\n\nname=\"Dialogic\"\ndescription=\"x\"\nversion=\"2.0\"\n";
    let info = parse_plugin_cfg(text);
    assert_eq!(info.name, Some("Dialogic".to_string()));
    assert_eq!(info.version, Some("2.0".to_string()));
}

#[test]
fn ignores_keys_outside_plugin_section() {
    let text = "[other]\nversion=\"9\"\n[plugin]\nname = Tool\n[more]\nversion=3\n";
    let info = parse_plugin_cfg(text);
    assert_eq!(info.name, Some("Tool".to_string()));
    assert_eq!(info.version, None);
}

#[test]
fn empty_descriptor_gives_nothing() {
    assert_eq!(parse_plugin_cfg(""), PluginInfo { name: None, version: None });
    assert_eq!(parse_plugin_cfg("name=\"x\"\nversion=1"), PluginInfo { name: None, version: None });
}

#[test]
fn handles_crlf_and_indentation() {
    let text = "  [plugin]  \r\n  version = \"1.1\"  \r\n";
    let info = parse_plugin_cfg(text);
    assert_eq!(info.version, Some("1.1".to_string()));
}

#[test]
fn last_key_wins() {
    let text = "[plugin]\nversion=\"1\"\nversion=\"2\"\n";
    assert_eq!(parse_plugin_cfg(text).version, Some("2".to_string()));
}

#[test]
fn ini_line_splits_at_first_equals() {
    assert_eq!(
        parse_ini_line(" key = \"a=b\" "),
        Some(("key".to_string(), "a=b".to_string()))
    );
    assert_eq!(parse_ini_line("k=\"\"\""), Some(("k".to_string(), "".to_string())));
    assert_eq!(parse_ini_line("no pair here"), None);
    assert_eq!(parse_ini_line("=v"), Some(("".to_string(), "v".to_string())));
}
