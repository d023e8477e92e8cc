use bybit_trader::settings_::{g_, setting_or, settings_from, settings_key, SettingEntry, SettingsFile};

fn file(name: &str, content: Option<&str>) -> SettingsFile {
    SettingsFile { file_name: name.to_string(), content: content.map(|c| c.to_string()) }
}

fn entry(name: &str, value: &str) -> SettingEntry {
    SettingEntry { name: name.to_string(), value: value.to_string() }
}

#[test]
fn settings_key_strips_txt() {
    assert_eq!(settings_key("MODE.txt"), Some("MODE".to_string()));
    assert_eq!(settings_key("MODE.txt.txt"), Some("MODE".to_string()));
    assert_eq!(settings_key("MODE"), None);
    assert_eq!(settings_key("notes.md"), None);
}

#[test]
fn g_keeps_readable_txt_files() {
    let files = vec![
        file("MODE.txt", Some("-testnet")),
        file("README.md", Some("x")),
        file("API_EXCHANGE.txt", None),
        file("ACCOUNT_TYPE.txt", Some("UNIFIED")),
    ];
    let es = g_(&files);
    assert_eq!(es.len(), 2);
    assert_eq!((es[0].name.as_str(), es[0].value.as_str()), ("MODE", "-testnet"));
    assert_eq!((es[1].name.as_str(), es[1].value.as_str()), ("ACCOUNT_TYPE", "UNIFIED"));
}

#[test]
fn setting_or_takes_the_last_entry() {
    let es = vec![entry("MODE", "a"), entry("X", "y"), entry("MODE", "b")];
    assert_eq!(setting_or(&es, "MODE", "d"), "b");
    assert_eq!(setting_or(&es, "OTHER", "d"), "d");
    assert_eq!(setting_or(&vec![], "MODE", "d"), "d");
}

#[test]
fn settings_from_uses_defaults() {
    let s = settings_from(&vec![entry("MODE", "-testnet"), entry("THRESHOLD_PERCENT", "0.05")]);
    assert_eq!(s.MODE, "-testnet");
    assert_eq!(s.THRESHOLD_PERCENT, "0.05");
    assert_eq!(s.API_EXCHANGE, "default_exchange");
    assert_eq!(s.API_2_EXCHANGE, "default_exchange_2");
    assert_eq!(s.ACCOUNT_TYPE, "default_account");
    assert_eq!(s.LIMIT_PERCENT, "0.0");
}
