use logrustate::config::{
    block_to_entry, entries_from_toml, parse_size_to_bytes, LogConfig, LogEntry, TomlConfig, TomlLogBlock,
};

fn block(paths: &[&str], config: LogConfig) -> LogEntry {
    LogEntry { paths: paths.iter().map(|p| p.to_string()).collect(), config }
}

#[test]
fn size_plain_number() {
    assert_eq!(parse_size_to_bytes("100"), 100);
}

#[test]
fn size_kilobytes_either_case() {
    assert_eq!(parse_size_to_bytes("10k"), 10240);
    assert_eq!(parse_size_to_bytes("10K"), 10240);
}

#[test]
fn size_kelvin_sign_lowercases_to_k() {
    assert_eq!(parse_size_to_bytes("5\u{212A}"), 5 * 1024);
}

#[test]
fn size_megabytes_and_gigabytes() {
    assert_eq!(parse_size_to_bytes("2M"), 2 * 1024 * 1024);
    assert_eq!(parse_size_to_bytes("2m"), 2 * 1024 * 1024);
    assert_eq!(parse_size_to_bytes("1G"), 1024 * 1024 * 1024);
    assert_eq!(parse_size_to_bytes("3g"), 3 * 1024 * 1024 * 1024);
}

#[test]
fn size_without_digits_is_zero() {
    assert_eq!(parse_size_to_bytes("abc"), 0);
    assert_eq!(parse_size_to_bytes(""), 0);
    assert_eq!(parse_size_to_bytes("k"), 0);
}

#[test]
fn size_takes_leading_digits_only() {
    assert_eq!(parse_size_to_bytes("12x"), 12);
    assert_eq!(parse_size_to_bytes("7 k"), 7 * 1024);
    assert_eq!(parse_size_to_bytes("+5"), 0);
}

#[test]
fn size_too_large_number_is_zero() {
    assert_eq!(parse_size_to_bytes("99999999999999999999"), 0);
    assert_eq!(parse_size_to_bytes("18446744073709551615"), u64::MAX);
}

#[test]
fn default_config_sets_nothing() {
    let c = LogConfig::default();
    assert_eq!(c.rotate, None);
    assert_eq!(c.frequency, None);
    assert_eq!(c.compress, None);
    assert_eq!(c.mail, None);
}

#[test]
fn block_settings_win_over_global() {
    let mut c = LogConfig::default();
    c.rotate = Some(3);
    c.compress = Some(false);
    let mut g = LogConfig::default();
    g.rotate = Some(7);
    g.compress = Some(true);
    g.frequency = Some("daily".to_string());
    g.mail = Some("root".to_string());
    let m = c.with_defaults(&g);
    assert_eq!(m.rotate, Some(3));
    assert_eq!(m.compress, Some(false));
    assert_eq!(m.frequency, Some("daily".to_string()));
    assert_eq!(m.mail, Some("root".to_string()));
    assert_eq!(m.size, None);
    let twice = m.with_defaults(&g);
    assert_eq!(twice.rotate, m.rotate);
    assert_eq!(twice.frequency, m.frequency);
}

#[test]
fn toml_entries_get_global_defaults() {
    let mut g = LogConfig::default();
    g.rotate = Some(5);
    g.missingok = Some(true);
    let mut c1 = LogConfig::default();
    c1.rotate = Some(2);
    let c2 = LogConfig::default();
    let data = TomlConfig {
        global: Some(g),
        entries: Some(vec![block(&["/var/log/a.log"], c1), block(&["/var/log/b.log", "/var/log/c.log"], c2)]),
        logs: None,
    };
    let es = entries_from_toml(data);
    assert_eq!(es.len(), 2);
    assert_eq!(es[0].paths, vec!["/var/log/a.log".to_string()]);
    assert_eq!(es[0].config.rotate, Some(2));
    assert_eq!(es[0].config.missingok, Some(true));
    assert_eq!(es[1].paths.len(), 2);
    assert_eq!(es[1].config.rotate, Some(5));
}

#[test]
fn toml_without_entries_gives_none() {
    let data = TomlConfig { global: None, entries: None, logs: None };
    assert!(entries_from_toml(data).is_empty());
}

#[test]
fn toml_without_global_keeps_blocks() {
    let mut c = LogConfig::default();
    c.dateext = Some(true);
    let data = TomlConfig { global: None, entries: Some(vec![block(&["x"], c)]), logs: None };
    let es = entries_from_toml(data);
    assert_eq!(es[0].config.dateext, Some(true));
    assert_eq!(es[0].config.rotate, None);
}

fn logs_block(path: Option<&str>, paths: Option<&[&str]>, config: LogConfig) -> TomlLogBlock {
    TomlLogBlock {
        path: path.map(|p| p.to_string()),
        paths: paths.map(|ps| ps.iter().map(|p| p.to_string()).collect()),
        hourly: None,
        daily: None,
        weekly: None,
        monthly: None,
        yearly: None,
        config,
    }
}

#[test]
fn toml_logs_block_as_the_readme_writes_it() {
    let mut c = LogConfig::default();
    c.rotate = Some(7);
    c.compress = Some(true);
    c.missingok = Some(true);
    c.notifempty = Some(true);
    let mut b = logs_block(Some("/var/log/nginx/access.log"), None, c);
    b.daily = Some(true);
    let data = TomlConfig { global: None, entries: None, logs: Some(vec![b]) };
    let es = entries_from_toml(data);
    assert_eq!(es.len(), 1);
    assert_eq!(es[0].paths, vec!["/var/log/nginx/access.log".to_string()]);
    assert_eq!(es[0].config.frequency, Some("daily".to_string()));
    assert_eq!(es[0].config.rotate, Some(7));
    assert_eq!(es[0].config.compress, Some(true));
}

#[test]
fn toml_logs_block_frequency_and_paths() {
    let mut c = LogConfig::default();
    c.frequency = Some("weekly".to_string());
    let mut b = logs_block(Some("/c"), Some(&["/a", "/b"]), c);
    b.daily = Some(true);
    let e = block_to_entry(&b);
    assert_eq!(e.paths, vec!["/a".to_string(), "/b".to_string(), "/c".to_string()]);
    assert_eq!(e.config.frequency, Some("weekly".to_string()));
    let mut b2 = logs_block(None, None, LogConfig::default());
    b2.monthly = Some(true);
    b2.yearly = Some(true);
    let e2 = block_to_entry(&b2);
    assert!(e2.paths.is_empty());
    assert_eq!(e2.config.frequency, Some("monthly".to_string()));
    let e3 = block_to_entry(&logs_block(Some("/x"), None, LogConfig::default()));
    assert_eq!(e3.config.frequency, None);
}

#[test]
fn toml_entries_come_before_logs_blocks() {
    let mut g = LogConfig::default();
    g.rotate = Some(4);
    let data = TomlConfig {
        global: Some(g),
        entries: Some(vec![block(&["/e"], LogConfig::default())]),
        logs: Some(vec![logs_block(Some("/l"), None, LogConfig::default())]),
    };
    let es = entries_from_toml(data);
    assert_eq!(es.len(), 2);
    assert_eq!(es[0].paths, vec!["/e".to_string()]);
    assert_eq!(es[1].paths, vec!["/l".to_string()]);
    assert_eq!(es[1].config.rotate, Some(4));
}
