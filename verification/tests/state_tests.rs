use logrustate::datetime::DateTime;
use logrustate::state::StateDB;

fn dt(y: i32, mo: u32, d: u32, h: u32, mi: u32, s: u32) -> DateTime {
    DateTime { year: y, month: mo, day: d, hour: h, minute: mi, second: s, nanosecond: 0 }
}

fn loaded(date: &str) -> Option<DateTime> {
    let content = format!("header\n\"/p\" {}\n", date);
    StateDB::load("s", Some(&content)).get("/p")
}

#[test]
fn stored_dates_are_checked() {
    assert_eq!(loaded("2024-2-29-0:0:0"), Some(dt(2024, 2, 29, 0, 0, 0)));
    assert_eq!(loaded("2023-2-29-0:0:0"), None);
    assert_eq!(loaded("1900-2-29-0:0:0"), None);
    assert_eq!(loaded("2000-2-29-0:0:0"), Some(dt(2000, 2, 29, 0, 0, 0)));
    assert_eq!(loaded("2024-13-1-0:0:0"), None);
    assert_eq!(loaded("2024-4-31-0:0:0"), None);
    assert_eq!(loaded("2024-1-0-0:0:0"), None);
    assert_eq!(loaded("2024-1-1-24:0:0"), None);
    assert_eq!(loaded("2024-1-1-23:60:0"), None);
    assert_eq!(loaded("2024-1-1-23:59:60"), None);
    assert_eq!(loaded("262142-12-31-0:0:0"), Some(dt(262142, 12, 31, 0, 0, 0)));
    assert_eq!(loaded("262143-1-1-0:0:0"), None);
    assert_eq!(loaded("2024-3-5-6:7:8"), Some(dt(2024, 3, 5, 6, 7, 8)));
}

#[test]
fn elapsed_time_counts_calendar_days() {
    let mut db = StateDB::new("s");
    db.update_at("/a", dt(2024, 2, 28, 0, 0, 0));
    assert!(!db.should_rotate_at("/a", "weekly", dt(2024, 3, 5, 23, 59, 59)));
    assert!(db.should_rotate_at("/a", "weekly", dt(2024, 3, 6, 0, 0, 0)));
    db.update_at("/b", dt(2023, 2, 28, 0, 0, 0));
    assert!(!db.should_rotate_at("/b", "weekly", dt(2023, 3, 6, 23, 59, 59)));
    assert!(db.should_rotate_at("/b", "weekly", dt(2023, 3, 7, 0, 0, 0)));
    db.update_at("/c", dt(1999, 12, 31, 12, 0, 0));
    assert!(db.should_rotate_at("/c", "daily", dt(2000, 1, 1, 12, 0, 0)));
    assert!(!db.should_rotate_at("/c", "daily", dt(2000, 1, 1, 11, 59, 59)));
}

#[test]
fn fractions_of_a_second_round_toward_zero() {
    let mut db = StateDB::new("s");
    db.update_at("/a", DateTime { nanosecond: 500_000_000, ..dt(2024, 1, 1, 0, 0, 0) });
    assert!(!db.should_rotate_at("/a", "hourly", dt(2024, 1, 1, 1, 0, 0)));
    assert!(db.should_rotate_at("/a", "hourly", DateTime { nanosecond: 500_000_000, ..dt(2024, 1, 1, 1, 0, 0) }));
    db.update_at("/b", dt(2024, 1, 1, 1, 0, 0));
    assert!(!db.should_rotate_at("/b", "hourly", DateTime { nanosecond: 999_999_999, ..dt(2024, 1, 1, 1, 59, 59) }));
}

#[test]
fn load_missing_file_is_empty() {
    let db = StateDB::load("/var/lib/x/status", None);
    assert_eq!(db.path(), "/var/lib/x/status");
    assert_eq!(db.get("/var/log/a.log"), None);
    assert_eq!(db.save(), "logrotate state -- version 2\n");
}

#[test]
fn load_reads_records_after_header() {
    let content = "logrotate state -- version 2\n\"/var/log/a.log\" 2024-1-15-10:30:0\n  \"/var/log/b.log\"   2023-12-31-23:59:59  \n";
    let db = StateDB::load("s", Some(content));
    assert_eq!(db.get("/var/log/a.log"), Some(dt(2024, 1, 15, 10, 30, 0)));
    assert_eq!(db.get("/var/log/b.log"), Some(dt(2023, 12, 31, 23, 59, 59)));
}

#[test]
fn load_skips_the_first_line_whatever_it_is() {
    let db = StateDB::load("s", Some("\"/a\" 2024-1-1-0:0:0\n\"/b\" 2024-1-2-0:0:0\n"));
    assert_eq!(db.get("/a"), None);
    assert_eq!(db.get("/b"), Some(dt(2024, 1, 2, 0, 0, 0)));
}

#[test]
fn load_skips_malformed_lines() {
    let content = "h\nno quotes 2024-1-1-0:0:0\n\"/one-quote 2024-1-1-0:0:0\n\"/short\" 2024-1-1\n\"/bad\" 2024-2-30-0:0:0\n\"/late\" 2024-1-1-25:0:0\n";
    let db = StateDB::load("s", Some(content));
    assert_eq!(db.save(), "logrotate state -- version 2\n");
}

#[test]
fn load_uses_defaults_for_unparsable_fields() {
    let content = "h\n\"/a\" x-y-z-h:m:s\n\"/b\" 2020-+3-07-0:0: 5\n\"/c\" 2021-6-1-1:2:3:extra\n";
    let db = StateDB::load("s", Some(content));
    assert_eq!(db.get("/a"), Some(dt(1970, 1, 1, 0, 0, 0)));
    assert_eq!(db.get("/b"), Some(dt(2020, 3, 7, 0, 0, 0)));
    assert_eq!(db.get("/c"), Some(dt(2021, 6, 1, 1, 2, 3)));
}

#[test]
fn load_later_record_wins() {
    let content = "h\n\"/a\" 2020-1-1-0:0:0\n\"/a\" 2021-1-1-0:0:0\n";
    let db = StateDB::load("s", Some(content));
    assert_eq!(db.get("/a"), Some(dt(2021, 1, 1, 0, 0, 0)));
}

#[test]
fn save_sorts_by_path_without_padding() {
    let mut db = StateDB::new("s");
    db.update_at("/var/log/z.log", dt(2024, 3, 4, 5, 6, 7));
    db.update_at("/var/log/a.log", dt(2023, 11, 22, 13, 14, 15));
    db.update_at("/var/log/m.log", dt(999, 1, 1, 0, 0, 0));
    assert_eq!(
        db.save(),
        "logrotate state -- version 2\n\"/var/log/a.log\" 2023-11-22-13:14:15\n\"/var/log/m.log\" 999-1-1-0:0:0\n\"/var/log/z.log\" 2024-3-4-5:6:7\n"
    );
}

#[test]
fn save_orders_by_code_point() {
    let mut db = StateDB::new("s");
    db.update_at("b", dt(2024, 1, 1, 0, 0, 0));
    db.update_at("B", dt(2024, 1, 1, 0, 0, 0));
    db.update_at("ab", dt(2024, 1, 1, 0, 0, 0));
    db.update_at("a", dt(2024, 1, 1, 0, 0, 0));
    db.update_at("é", dt(2024, 1, 1, 0, 0, 0));
    let mut keys = vec!["b", "B", "ab", "a", "é"];
    keys.sort();
    let expected: String = std::iter::once("logrotate state -- version 2\n".to_string())
        .chain(keys.iter().map(|k| format!("\"{}\" 2024-1-1-0:0:0\n", k)))
        .collect();
    assert_eq!(db.save(), expected);
}

#[test]
fn update_replaces_record() {
    let mut db = StateDB::new("s");
    db.update_at("/a", dt(2020, 1, 1, 0, 0, 0));
    db.update_at("/a", dt(2022, 2, 2, 2, 2, 2));
    assert_eq!(db.get("/a"), Some(dt(2022, 2, 2, 2, 2, 2)));
    assert_eq!(db.save().lines().count(), 2);
}

#[test]
fn update_records_now() {
    let mut db = StateDB::new("s");
    db.update("/a");
    let t = db.get("/a").unwrap();
    assert!(t.nanosecond < 1_000_000_000);
    assert!(t.year >= 2020);
    let back = StateDB::load("s", Some(&db.save()));
    assert_eq!(back.get("/a"), Some(DateTime { nanosecond: 0, ..t }));
    assert!(!db.should_rotate("/a", "daily"));
}

#[test]
fn saving_then_loading_gives_the_state_back() {
    let mut db = StateDB::new("s");
    db.update_at("/var/log/a b.log", DateTime { nanosecond: 123, ..dt(2024, 2, 29, 23, 59, 59) });
    db.update_at("/x", dt(0, 1, 1, 0, 0, 0));
    let text = db.save();
    let back = StateDB::load("s", Some(&text));
    assert_eq!(back.get("/var/log/a b.log"), Some(dt(2024, 2, 29, 23, 59, 59)));
    assert_eq!(back.get("/x"), Some(dt(0, 1, 1, 0, 0, 0)));
    assert_eq!(back.save(), text);
}

#[test]
fn negative_year_does_not_read_back() {
    let mut db = StateDB::new("s");
    db.update_at("/n", dt(-5, 1, 2, 0, 0, 0));
    let text = db.save();
    assert!(text.contains("\"/n\" -5-1-2-0:0:0\n"));
    let back = StateDB::load("s", Some(&text));
    assert_eq!(back.get("/n"), Some(dt(1970, 5, 1, 2, 0, 0)));
}

#[test]
fn unrecorded_path_is_due() {
    let db = StateDB::new("s");
    let now = dt(2024, 1, 1, 0, 0, 0);
    assert!(db.should_rotate_at("/a", "daily", now));
    assert!(db.should_rotate_at("/a", "whenever", now));
    assert!(db.should_rotate("/a", "weekly"));
}

#[test]
fn just_rotated_is_not_due() {
    let mut db = StateDB::new("s");
    let t = dt(2024, 5, 5, 5, 5, 5);
    db.update_at("/a", t);
    for f in ["hourly", "daily", "weekly", "monthly", "yearly", "other"] {
        assert!(!db.should_rotate_at("/a", f, t));
    }
}

#[test]
fn hourly_and_daily_thresholds() {
    let mut db = StateDB::new("s");
    db.update_at("/a", dt(2024, 1, 10, 12, 0, 0));
    assert!(!db.should_rotate_at("/a", "hourly", dt(2024, 1, 10, 12, 59, 59)));
    assert!(db.should_rotate_at("/a", "hourly", dt(2024, 1, 10, 13, 0, 0)));
    assert!(!db.should_rotate_at("/a", "daily", dt(2024, 1, 11, 11, 59, 59)));
    assert!(db.should_rotate_at("/a", "daily", dt(2024, 1, 11, 12, 0, 0)));
}

#[test]
fn weekly_after_seven_days() {
    let mut db = StateDB::new("s");
    db.update_at("/a", dt(2024, 1, 10, 12, 0, 0));
    assert!(!db.should_rotate_at("/a", "weekly", dt(2024, 1, 17, 11, 59, 59)));
    assert!(db.should_rotate_at("/a", "weekly", dt(2024, 1, 17, 12, 0, 0)));
}

#[test]
fn clock_behind_record_is_not_due() {
    let mut db = StateDB::new("s");
    db.update_at("/a", dt(2024, 1, 10, 12, 0, 0));
    assert!(!db.should_rotate_at("/a", "hourly", dt(2023, 1, 10, 12, 0, 0)));
    assert!(!db.should_rotate_at("/a", "daily", dt(2020, 1, 10, 12, 0, 0)));
}

#[test]
fn monthly_on_month_change_or_31_days() {
    let mut db = StateDB::new("s");
    db.update_at("/a", dt(2024, 1, 31, 23, 0, 0));
    assert!(db.should_rotate_at("/a", "monthly", dt(2024, 2, 1, 0, 0, 0)));
    assert!(!db.should_rotate_at("/a", "monthly", dt(2024, 1, 31, 23, 30, 0)));
    db.update_at("/b", dt(2024, 1, 1, 0, 0, 0));
    assert!(db.should_rotate_at("/b", "monthly", dt(2025, 1, 1, 0, 0, 0)));
    assert!(!db.should_rotate_at("/b", "monthly", dt(2024, 1, 30, 0, 0, 0)));
}

#[test]
fn yearly_on_year_change_or_365_days() {
    let mut db = StateDB::new("s");
    db.update_at("/a", dt(2023, 12, 31, 23, 0, 0));
    assert!(db.should_rotate_at("/a", "yearly", dt(2024, 1, 1, 0, 0, 0)));
    assert!(!db.should_rotate_at("/a", "yearly", dt(2023, 12, 31, 23, 59, 0)));
    db.update_at("/b", dt(2024, 1, 1, 0, 0, 0));
    assert!(!db.should_rotate_at("/b", "yearly", dt(2024, 12, 30, 0, 0, 0)));
    assert!(db.should_rotate_at("/b", "yearly", dt(2024, 12, 31, 0, 0, 0)));
}

#[test]
fn unknown_frequency_never_due_once_recorded() {
    let mut db = StateDB::new("s");
    db.update_at("/a", dt(2000, 1, 1, 0, 0, 0));
    assert!(!db.should_rotate_at("/a", "Daily", dt(2024, 1, 1, 0, 0, 0)));
    assert!(!db.should_rotate_at("/a", "", dt(2024, 1, 1, 0, 0, 0)));
}

#[test]
fn due_stays_due_later() {
    let mut db = StateDB::new("s");
    db.update_at("/a", dt(2024, 1, 1, 0, 0, 0));
    let t1 = dt(2024, 1, 2, 0, 0, 0);
    assert!(db.should_rotate_at("/a", "daily", t1));
    for later in [dt(2024, 1, 2, 0, 0, 1), dt(2024, 6, 1, 0, 0, 0), dt(2030, 1, 1, 0, 0, 0)] {
        assert!(db.should_rotate_at("/a", "daily", later));
        assert!(db.should_rotate_at("/a", "hourly", later));
    }
}
