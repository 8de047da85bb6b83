use logrustate::legacy::{config_lines, LegacyParser};
use logrustate::config::LogEntry;

fn parse(content: &str, base: &str) -> (Vec<LogEntry>, Vec<String>) {
    let mut p = LegacyParser::new(base);
    let mut includes = Vec::new();
    for line in config_lines(content) {
        assert!(p.line_fits(&line));
        if let Some(pattern) = p.feed_line(&line) {
            includes.push(pattern);
        }
    }
    (p.finish(), includes)
}

#[test]
fn lines_split_like_str_lines() {
    assert_eq!(config_lines("a\nb\r\n\nc"), vec!["a", "b", "", "c"]);
    assert_eq!(config_lines("a\n"), vec!["a"]);
    assert!(config_lines("").is_empty());
    assert_eq!(config_lines("x\r"), vec!["x\r"]);
}

#[test]
fn block_with_directives() {
    let conf = "/var/log/nginx/*.log {\n  daily\n  rotate 7\n  compress\n  missingok\n  notifempty\n}\n";
    let (es, inc) = parse(conf, "/etc");
    assert!(inc.is_empty());
    assert_eq!(es.len(), 1);
    assert_eq!(es[0].paths, vec!["/var/log/nginx/*.log".to_string()]);
    let c = &es[0].config;
    assert_eq!(c.frequency, Some("daily".to_string()));
    assert_eq!(c.rotate, Some(7));
    assert_eq!(c.compress, Some(true));
    assert_eq!(c.missingok, Some(true));
    assert_eq!(c.notifempty, Some(true));
    assert_eq!(c.size, None);
}

#[test]
fn global_settings_fill_blocks_before_and_after() {
    let conf = "weekly\nrotate 4\n/a.log {\n rotate 2\n}\n/b.log \"/c.log\" {\n}\ncompress\n";
    let (es, _) = parse(conf, "");
    assert_eq!(es.len(), 2);
    assert_eq!(es[0].config.rotate, Some(2));
    assert_eq!(es[0].config.frequency, Some("weekly".to_string()));
    assert_eq!(es[0].config.compress, Some(true));
    assert_eq!(es[1].paths, vec!["/b.log".to_string(), "/c.log".to_string()]);
    assert_eq!(es[1].config.rotate, Some(4));
    assert_eq!(es[1].config.compress, Some(true));
}

#[test]
fn comments_and_blank_lines_are_ignored() {
    let conf = "# comment\n\n   \n/a {\n# rotate 9\n  rotate 1\n}\n";
    let (es, _) = parse(conf, "");
    assert_eq!(es.len(), 1);
    assert_eq!(es[0].config.rotate, Some(1));
}

#[test]
fn scripts_are_collected_until_endscript() {
    let conf = "/a {\n postrotate\n   kill -HUP 1\n\n   # skipped\n   echo done\n endscript\n prerotate\n  true\n endscript\n}\n";
    let (es, _) = parse(conf, "");
    assert_eq!(es[0].config.postrotate, Some("kill -HUP 1\n   echo done".to_string()));
    assert_eq!(es[0].config.prerotate, Some("true".to_string()));
}

#[test]
fn global_script_applies_to_blocks() {
    let conf = "postrotate\n/bin/true\nendscript\n/a {\n}\n";
    let (es, _) = parse(conf, "");
    assert_eq!(es[0].config.postrotate, Some("/bin/true".to_string()));
}

#[test]
fn include_relative_to_base_dir() {
    let (_, inc) = parse("include \"logrotate.d/*\"\n", "/etc");
    assert_eq!(inc, vec!["/etc/logrotate.d/*".to_string()]);
}

#[test]
fn include_absolute_and_empty_base() {
    let (_, inc) = parse("include /etc/other.conf\ninclude conf.d/x\n", "");
    assert_eq!(inc, vec!["/etc/other.conf".to_string(), "conf.d/x".to_string()]);
}

#[test]
fn include_base_with_trailing_slash() {
    let (_, inc) = parse("include a.conf\n", "/etc/");
    assert_eq!(inc, vec!["/etc/a.conf".to_string()]);
}

#[test]
fn included_blocks_get_this_files_globals() {
    let mut p = LegacyParser::new("/etc");
    assert_eq!(p.feed_line("rotate 3"), None);
    let pat = p.feed_line("include x.conf");
    assert_eq!(pat, Some("/etc/x.conf".to_string()));
    let mut sub = LegacyParser::new("/etc");
    sub.feed_line("/sub.log {");
    sub.feed_line("daily");
    sub.feed_line("}");
    p.add_included(sub.finish());
    p.feed_line("/main.log {");
    p.feed_line("}");
    let es = p.finish();
    assert_eq!(es.len(), 2);
    assert_eq!(es[0].paths, vec!["/sub.log".to_string()]);
    assert_eq!(es[0].config.rotate, Some(3));
    assert_eq!(es[0].config.frequency, Some("daily".to_string()));
    assert_eq!(es[1].paths, vec!["/main.log".to_string()]);
}

#[test]
fn unclosed_block_is_dropped() {
    let (es, _) = parse("/a {\nrotate 1\n", "");
    assert!(es.is_empty());
}

#[test]
fn closing_brace_without_block_does_nothing() {
    let (es, _) = parse("}\n/a {\n}\n", "");
    assert_eq!(es.len(), 1);
}

#[test]
fn invalid_numbers_unset_the_setting() {
    let (es, _) = parse("/a {\nrotate 5\nrotate many\nmaxage 3 4\n}\n", "");
    assert_eq!(es[0].config.rotate, None);
    assert_eq!(es[0].config.maxage, None);
    let (es, _) = parse("/a {\nrotate\nmaxage +12\n}\n", "");
    assert_eq!(es[0].config.rotate, None);
    assert_eq!(es[0].config.maxage, Some(12));
}

#[test]
fn size_directives() {
    let (es, _) = parse("/a {\nsize 100k\nminsize 1M\nmaxsize 2G\n}\n", "");
    assert_eq!(es[0].config.size, Some(100 * 1024));
    assert_eq!(es[0].config.minsize, Some(1024 * 1024));
    assert_eq!(es[0].config.maxsize, Some(2 * 1024 * 1024 * 1024));
}

#[test]
fn size_value_joined_from_words() {
    let (es, _) = parse("/a {\nsize 10 k\n}\n", "");
    assert_eq!(es[0].config.size, Some(10 * 1024));
}

#[test]
fn overflowing_size_line_does_not_fit() {
    let p = LegacyParser::new("");
    assert!(!p.line_fits("size 99999999999G"));
    assert!(p.line_fits("size 16G"));
    assert!(p.line_fits("# size 99999999999G"));
}

#[test]
fn negated_directives() {
    let conf = "/a {\ncompress\nnocompress\ndelaycompress\nnodelaycompress\ncopytruncate\nnocopytruncate\nmissingok\nnomissingok\nnotifempty\nifempty\ndateext\nnodateext\nsharedscripts\nnosharedscripts\n}\n";
    let (es, _) = parse(conf, "");
    let c = &es[0].config;
    assert_eq!(c.compress, Some(false));
    assert_eq!(c.delaycompress, Some(false));
    assert_eq!(c.copytruncate, Some(false));
    assert_eq!(c.missingok, Some(false));
    assert_eq!(c.notifempty, Some(false));
    assert_eq!(c.dateext, Some(false));
    assert_eq!(c.sharedscripts, Some(false));
}

#[test]
fn create_olddir_mail_dateformat() {
    let conf = "/a {\ncreate 0640 root adm\nolddir /var/log/old\nmail admin@example.com\ndateformat -%Y-%m-%d\n}\n/b {\ncreate\nolddir old\nnoolddir\n}\n/c {\ncreate x\nnocreate\ndateformat\n}\n";
    let (es, _) = parse(conf, "");
    assert_eq!(es[0].config.create, Some("0640 root adm".to_string()));
    assert_eq!(es[0].config.olddir, Some("/var/log/old".to_string()));
    assert_eq!(es[0].config.mail, Some("admin@example.com".to_string()));
    assert_eq!(es[0].config.dateformat, Some("-%Y-%m-%d".to_string()));
    assert_eq!(es[1].config.create, Some("".to_string()));
    assert_eq!(es[1].config.olddir, None);
    assert_eq!(es[2].config.create, None);
    assert_eq!(es[2].config.dateformat, None);
}

#[test]
fn frequencies_and_unknown_directives() {
    let (es, _) = parse("/a {\nhourly\nfrobnicate 3\n}\n/b {\nmonthly\nyearly\n}\n", "");
    assert_eq!(es[0].config.frequency, Some("hourly".to_string()));
    assert_eq!(es[1].config.frequency, Some("yearly".to_string()));
}

#[test]
fn unicode_whitespace_is_trimmed() {
    let (es, _) = parse("\u{3000}/a\u{a0}/b {\u{2003}\n\trotate\u{85}6\n}\n", "");
    assert_eq!(es[0].paths, vec!["/a".to_string(), "/b".to_string()]);
    assert_eq!(es[0].config.rotate, Some(6));
}

#[test]
fn open_brace_alone_gives_block_without_paths() {
    let (es, _) = parse("{\nrotate 1\n}\n", "");
    assert_eq!(es.len(), 1);
    assert!(es[0].paths.is_empty());
}

#[test]
fn directives_stay_in_their_block() {
    let (es, _) = parse("/a {\nrotate 1\ncompress\n}\n/b {\n}\n", "");
    assert_eq!(es[0].config.rotate, Some(1));
    assert_eq!(es[1].config.rotate, None);
    assert_eq!(es[1].config.compress, None);
}

#[test]
fn earlier_blocks_are_never_changed() {
    let mut p = LegacyParser::new("");
    for line in ["/a {", "rotate 1", "}", "/a {", "rotate 2", "}", "rotate 9", "postrotate", "x", "endscript"] {
        p.feed_line(line);
    }
    let es = p.finish();
    assert_eq!(es.len(), 2);
    assert_eq!(es[0].config.rotate, Some(1));
    assert_eq!(es[1].config.rotate, Some(2));
    assert_eq!(es[0].config.postrotate, Some("x".to_string()));
}

#[test]
fn inserted_blank_and_comment_lines_give_the_same_blocks() {
    let plain = "compress\n/a /b {\n rotate 3\n postrotate\n  echo one\n  echo two\n endscript\n}\ninclude /etc/x.d\n";
    let padded = "\n# head\ncompress\n\n/a /b {\n   \n rotate 3\n # note\n postrotate\n  echo one\n\n  # inside\n  echo two\n endscript\n\n}\n#\ninclude /etc/x.d\n\n";
    let (a, ia) = parse(plain, "/etc");
    let (b, ib) = parse(padded, "/etc");
    assert_eq!(format!("{:?}", a), format!("{:?}", b));
    assert_eq!(ia, ib);
    assert_eq!(a[0].config.postrotate, Some("echo one\n  echo two".to_string()));
}
