use logrustate::config::{LogConfig, LogEntry};
use logrustate::paths::{is_toml_path, join_path_str, parent_dir};
use logrustate::rotator::{
    date_format, date_suffix_at, decide_rotation, entry_steps, is_glob_pattern, rotation_plan, FileCheck, FileOp,
    FileStatus, RotateError, Rotation, Rotator, Step,
};
use logrustate::datetime::DateTime;
use logrustate::state::StateDB;

fn cfg() -> LogConfig {
    LogConfig::default()
}

fn entry(paths: &[&str], config: LogConfig) -> LogEntry {
    LogEntry { paths: paths.iter().map(|p| p.to_string()).collect(), config }
}

fn s(x: &str) -> String {
    x.to_string()
}

#[test]
fn glob_patterns() {
    assert!(is_glob_pattern("/var/log/*.log"));
    assert!(is_glob_pattern("/var/log/a?.log"));
    assert!(!is_glob_pattern("/var/log/a.log"));
}

#[test]
fn paths_join_and_parts() {
    assert_eq!(join_path_str("/var/log", "old"), "/var/log/old");
    assert_eq!(join_path_str("/var/log/", "old"), "/var/log/old");
    assert_eq!(join_path_str("", "old"), "old");
    assert_eq!(join_path_str("/var/log", "/abs"), "/abs");
    assert_eq!(join_path_str("a", ""), "a/");
    assert_eq!(parent_dir("/var/log/a.log"), "/var/log");
    assert_eq!(parent_dir("a.log"), "");
    assert_eq!(parent_dir("/"), "");
    let mut c = cfg();
    c.rotate = Some(1);
    assert_eq!(rotation_plan("/var/log/a.log", &c, "").file_name, "a.log");
    assert_eq!(rotation_plan("/", &c, "").file_name, "");
}

#[test]
fn toml_paths_by_extension() {
    assert!(is_toml_path("/etc/logrustate.toml"));
    assert!(!is_toml_path("/etc/logrotate.conf"));
    assert!(!is_toml_path("/etc/.toml"));
    assert!(!is_toml_path("/etc/x.TOML"));
}

#[test]
fn empty_file_with_notifempty_is_kept_even_when_forced() {
    let mut c = cfg();
    c.notifempty = Some(true);
    assert_eq!(decide_rotation(0, &c, true, true), FileCheck::Empty);
    assert!(!decide_rotation(0, &c, true, true).rotates());
    assert_eq!(decide_rotation(1, &c, true, false), FileCheck::Forced);
}

#[test]
fn size_thresholds() {
    let mut c = cfg();
    c.size = Some(100);
    assert_eq!(decide_rotation(101, &c, false, false), FileCheck::OverSize { size: 101, limit: 100 });
    assert_eq!(decide_rotation(100, &c, false, false), FileCheck::NotDue);
    assert_eq!(decide_rotation(100, &c, false, true), FileCheck::Due);
    let mut c = cfg();
    c.minsize = Some(10);
    assert_eq!(decide_rotation(11, &c, false, true), FileCheck::OverMinSizeAndDue { size: 11, limit: 10 });
    assert_eq!(decide_rotation(11, &c, false, false), FileCheck::NotDue);
    assert_eq!(decide_rotation(5, &c, false, true), FileCheck::Due);
    let mut c = cfg();
    c.maxsize = Some(10);
    assert_eq!(decide_rotation(11, &c, false, false), FileCheck::OverMaxSizeOrDue { size: 11, limit: 10 });
    assert_eq!(decide_rotation(1, &c, false, true), FileCheck::OverMaxSizeOrDue { size: 1, limit: 10 });
    assert_eq!(decide_rotation(1, &c, false, false), FileCheck::NotDue);
    assert!(!FileCheck::NotDue.rotates());
    assert!(!FileCheck::Missing.rotates());
    assert!(FileCheck::Due.rotates());
}

#[test]
fn missing_file_checks() {
    let mut db = StateDB::new("s");
    let r = Rotator::new(&mut db, false, false, false);
    let mut c = cfg();
    match r.should_rotate_file("/nope", None, &c) {
        Err(RotateError::Metadata { path }) => assert_eq!(path, "/nope"),
        other => panic!("unexpected {:?}", other),
    }
    c.missingok = Some(true);
    assert_eq!(r.should_rotate_file("/nope", None, &c).unwrap(), FileCheck::Missing);
}

#[test]
fn file_checks_use_the_state() {
    let mut db = StateDB::new("s");
    db.update("/recent");
    let r = Rotator::new(&mut db, false, false, false);
    let mut c = cfg();
    c.frequency = Some(s("daily"));
    assert_eq!(r.should_rotate_file("/new", Some(5), &c).unwrap(), FileCheck::Due);
    assert_eq!(r.should_rotate_file("/recent", Some(5), &c).unwrap(), FileCheck::NotDue);
    let none = cfg();
    assert_eq!(r.should_rotate_file("/new", Some(5), &none).unwrap(), FileCheck::NotDue);
    let forced = Rotator::new(r.state_db, false, false, true);
    assert_eq!(forced.should_rotate_file("/recent", Some(5), &c).unwrap(), FileCheck::Forced);
}

#[test]
fn process_entry_collects_checks_and_steps() {
    let mut db = StateDB::new("s");
    let r = Rotator::new(&mut db, false, false, false);
    let mut c = cfg();
    c.size = Some(10);
    c.prerotate = Some(s("pre"));
    c.postrotate = Some(s("post"));
    let e = entry(&["/a", "/b"], c);
    let files = vec![
        FileStatus { path: s("/a"), size: Some(20) },
        FileStatus { path: s("/b"), size: Some(5) },
    ];
    let plan = r.process_entry(&e, &files);
    assert!(plan.failed.is_none());
    assert_eq!(plan.checks, vec![FileCheck::OverSize { size: 20, limit: 10 }, FileCheck::NotDue]);
    let steps: Vec<String> = plan.steps.iter().map(|st| format!("{:?}", st)).collect();
    assert_eq!(
        steps,
        vec![
            format!("{:?}", Step::RunScript { script: s("pre"), arg: s("/a") }),
            format!("{:?}", Step::Rotate { file: s("/a") }),
            format!("{:?}", Step::RunScript { script: s("post"), arg: s("/a") }),
        ]
    );
}

#[test]
fn process_entry_stops_at_a_failed_check() {
    let mut db = StateDB::new("s");
    let r = Rotator::new(&mut db, false, false, true);
    let e = entry(&["/a", "/b", "/c"], cfg());
    let files = vec![
        FileStatus { path: s("/a"), size: Some(20) },
        FileStatus { path: s("/b"), size: None },
        FileStatus { path: s("/c"), size: Some(5) },
    ];
    let plan = r.process_entry(&e, &files);
    assert_eq!(plan.checks, vec![FileCheck::Forced]);
    match plan.failed {
        Some(RotateError::Metadata { path }) => assert_eq!(path, "/b"),
        _ => panic!("expected a metadata failure"),
    }
    assert!(plan.steps.is_empty());
}

#[test]
fn process_entry_with_nothing_to_rotate() {
    let mut db = StateDB::new("s");
    let r = Rotator::new(&mut db, false, false, false);
    let mut c = cfg();
    c.prerotate = Some(s("pre"));
    c.sharedscripts = Some(true);
    let e = entry(&["/a"], c);
    let plan = r.process_entry(&e, &vec![FileStatus { path: s("/a"), size: Some(1) }]);
    assert_eq!(plan.checks, vec![FileCheck::NotDue]);
    assert!(plan.steps.is_empty());
}

#[test]
fn shared_scripts_run_once() {
    let mut c = cfg();
    c.prerotate = Some(s("pre"));
    c.postrotate = Some(s("post"));
    c.sharedscripts = Some(true);
    let e = entry(&["/var/log/*.log", "/x"], c);
    let steps = entry_steps(&e, &vec![s("/var/log/a.log"), s("/var/log/b.log")]);
    let got: Vec<String> = steps.iter().map(|st| format!("{:?}", st)).collect();
    let want: Vec<String> = vec![
        Step::RunScript { script: s("pre"), arg: s("/var/log/*.log /x") },
        Step::Rotate { file: s("/var/log/a.log") },
        Step::Rotate { file: s("/var/log/b.log") },
        Step::RunScript { script: s("post"), arg: s("/var/log/*.log /x") },
    ]
    .iter()
    .map(|st| format!("{:?}", st))
    .collect();
    assert_eq!(got, want);
    assert!(entry_steps(&e, &vec![]).is_empty());
}

#[test]
fn unshared_scripts_run_per_file() {
    let mut c = cfg();
    c.prerotate = Some(s("pre"));
    let e = entry(&["/a", "/b"], c);
    let steps = entry_steps(&e, &vec![s("/a"), s("/b")]);
    let got: Vec<String> = steps.iter().map(|st| format!("{:?}", st)).collect();
    let want: Vec<String> = vec![
        Step::RunScript { script: s("pre"), arg: s("/a") },
        Step::Rotate { file: s("/a") },
        Step::RunScript { script: s("pre"), arg: s("/b") },
        Step::Rotate { file: s("/b") },
    ]
    .iter()
    .map(|st| format!("{:?}", st))
    .collect();
    assert_eq!(got, want);
}

fn ops(plan_ops: &[FileOp]) -> Vec<String> {
    plan_ops.iter().map(|o| format!("{:?}", o)).collect()
}

fn want(v: Vec<FileOp>) -> Vec<String> {
    v.iter().map(|o| format!("{:?}", o)).collect()
}

#[test]
fn numbered_rotation_plan() {
    let mut c = cfg();
    c.rotate = Some(3);
    let p = rotation_plan("/var/log/app.log", &c, "");
    assert_eq!(p.dest_base, "/var/log");
    assert_eq!(p.file_name, "app.log");
    assert_eq!(
        ops(&p.ops),
        want(vec![
            FileOp::RemoveIfExists { path: s("/var/log/app.log.3") },
            FileOp::RenameIfExists { from: s("/var/log/app.log.2"), to: s("/var/log/app.log.3") },
            FileOp::RenameIfExists { from: s("/var/log/app.log.1"), to: s("/var/log/app.log.2") },
            FileOp::Rename { from: s("/var/log/app.log"), to: s("/var/log/app.log.1") },
            FileOp::CreateLog { path: s("/var/log/app.log") },
        ])
    );
}

#[test]
fn compressed_rotation_plan() {
    let mut c = cfg();
    c.rotate = Some(2);
    c.compress = Some(true);
    c.copytruncate = Some(true);
    let p = rotation_plan("/l/a.log", &c, "");
    assert_eq!(
        ops(&p.ops),
        want(vec![
            FileOp::RemoveIfExists { path: s("/l/a.log.2.gz") },
            FileOp::RenameIfExists { from: s("/l/a.log.1.gz"), to: s("/l/a.log.2.gz") },
            FileOp::Copy { from: s("/l/a.log"), to: s("/l/a.log.1") },
            FileOp::Truncate { path: s("/l/a.log") },
            FileOp::Compress { from: s("/l/a.log.1"), to: s("/l/a.log.1.gz") },
            FileOp::Remove { path: s("/l/a.log.1") },
        ])
    );
}

#[test]
fn delayed_compression_plan() {
    let mut c = cfg();
    c.rotate = Some(5);
    c.compress = Some(true);
    c.delaycompress = Some(true);
    let p = rotation_plan("a.log", &c, "");
    assert_eq!(p.dest_base, "");
    assert_eq!(
        ops(&p.ops),
        want(vec![
            FileOp::RemoveIfExists { path: s("a.log.5.gz") },
            FileOp::RenameIfExists { from: s("a.log.4.gz"), to: s("a.log.5.gz") },
            FileOp::RenameIfExists { from: s("a.log.3.gz"), to: s("a.log.4.gz") },
            FileOp::RenameIfExists { from: s("a.log.2.gz"), to: s("a.log.3.gz") },
            FileOp::RenameIfExists { from: s("a.log.1"), to: s("a.log.2") },
            FileOp::Rename { from: s("a.log"), to: s("a.log.1") },
            FileOp::CreateLog { path: s("a.log") },
            FileOp::CompressIfExists { from: s("a.log.2"), to: s("a.log.2.gz") },
        ])
    );
}

#[test]
fn no_rotate_count_means_no_operations() {
    let p = rotation_plan("/l/a.log", &cfg(), "");
    assert!(p.ops.is_empty());
    let mut c = cfg();
    c.rotate = Some(0);
    assert!(rotation_plan("/l/a.log", &c, "").ops.is_empty());
}

#[test]
fn olddir_plan() {
    let mut c = cfg();
    c.rotate = Some(1);
    c.olddir = Some(s("old"));
    let p = rotation_plan("/l/a.log", &c, "");
    assert_eq!(p.dest_base, "/l/old");
    assert_eq!(
        ops(&p.ops),
        want(vec![
            FileOp::CreateDirAll { dir: s("/l/old") },
            FileOp::RemoveIfExists { path: s("/l/old/a.log.1") },
            FileOp::Rename { from: s("/l/a.log"), to: s("/l/old/a.log.1") },
            FileOp::CreateLog { path: s("/l/a.log") },
        ])
    );
    c.olddir = Some(s("/archive"));
    assert_eq!(rotation_plan("/l/a.log", &c, "").dest_base, "/archive");
}

#[test]
fn dateext_plan() {
    let mut c = cfg();
    c.dateext = Some(true);
    let p = rotation_plan("/l/a.log", &c, "-20240102");
    assert_eq!(
        ops(&p.ops),
        want(vec![
            FileOp::Rename { from: s("/l/a.log"), to: s("/l/a.log-20240102") },
            FileOp::CreateLog { path: s("/l/a.log") },
        ])
    );
}

#[test]
fn dateext_compressed_plan_extends_the_extension() {
    let mut c = cfg();
    c.dateext = Some(true);
    c.compress = Some(true);
    let p = rotation_plan("/l/a.log", &c, "-20240102");
    assert_eq!(
        ops(&p.ops),
        want(vec![
            FileOp::Rename { from: s("/l/a.log"), to: s("/l/a.log-20240102") },
            FileOp::CreateLog { path: s("/l/a.log") },
            FileOp::Compress { from: s("/l/a.log-20240102"), to: s("/l/a.log-20240102.gz") },
            FileOp::Remove { path: s("/l/a.log-20240102") },
        ])
    );
    let p = rotation_plan("/l/syslog", &c, "-20240102");
    assert_eq!(
        ops(&p.ops)[2],
        format!(
            "{:?}",
            FileOp::Compress { from: s("/l/syslog-20240102"), to: s("/l/syslog-20240102.gz") }
        )
    );
}

#[test]
fn dateext_plan_prunes_to_rotate_copies() {
    let mut c = cfg();
    c.dateext = Some(true);
    c.rotate = Some(7);
    c.copytruncate = Some(true);
    let p = rotation_plan("/l/a.log", &c, "-20240102");
    assert_eq!(
        ops(&p.ops),
        want(vec![
            FileOp::Copy { from: s("/l/a.log"), to: s("/l/a.log-20240102") },
            FileOp::Truncate { path: s("/l/a.log") },
            FileOp::PruneDated { dir: s("/l"), name: s("a.log"), format: s("-%Y%m%d"), keep: 7 },
        ])
    );
}

#[test]
fn dry_run_only_reports() {
    let mut db = StateDB::new("s");
    let mut c = cfg();
    c.rotate = Some(3);
    let r = Rotator::new(&mut db, true, false, false);
    assert!(matches!(r.rotate_single_file("/l/a.log", &c), Ok(Rotation::DryRun)));
    let mut db2 = StateDB::new("s");
    let r2 = Rotator::new(&mut db2, false, false, false);
    match r2.rotate_single_file("/l/a.log", &c) {
        Ok(Rotation::Apply(p)) => assert_eq!(p.ops.len(), 5),
        _ => panic!("not a dry run"),
    }
}

#[test]
fn dateext_rotation_names_the_copy_by_todays_date() {
    let mut db = StateDB::new("s");
    let mut c = cfg();
    c.dateext = Some(true);
    c.dateformat = Some(s("-%Y"));
    let r = Rotator::new(&mut db, false, false, false);
    match r.rotate_single_file("/l/a.log", &c) {
        Ok(Rotation::Apply(p)) => match &p.ops[0] {
            FileOp::Rename { from, to } => {
                assert_eq!(from, "/l/a.log");
                assert!(to.starts_with("/l/a.log-2"));
                assert_eq!(to.len(), "/l/a.log-2024".len());
            }
            other => panic!("unexpected {:?}", other),
        },
        _ => panic!("a rotation was expected"),
    }
}

#[test]
fn invalid_date_format_is_refused() {
    let mut db = StateDB::new("s");
    let mut c = cfg();
    c.dateext = Some(true);
    c.dateformat = Some(s("-%Q"));
    let r = Rotator::new(&mut db, false, false, false);
    match r.rotate_single_file("/l/a.log", &c) {
        Err(RotateError::InvalidDateFormat { format }) => assert_eq!(format, "-%Q"),
        _ => panic!("the format should be refused"),
    }
    c.dateformat = Some(s("-%#z"));
    assert!(matches!(
        r.rotate_single_file("/l/a.log", &c),
        Err(RotateError::InvalidDateFormat { .. })
    ));
    c.dateext = Some(false);
    assert!(matches!(r.rotate_single_file("/l/a.log", &c), Ok(Rotation::Apply(_))));
}

#[test]
fn unreadable_date_is_refused_with_rotate() {
    let mut db = StateDB::new("s");
    let mut c = cfg();
    c.dateext = Some(true);
    c.dateformat = Some(s(""));
    let r = Rotator::new(&mut db, false, false, false);
    assert!(matches!(r.rotate_single_file("/l/a.log", &c), Ok(Rotation::Apply(_))));
    c.rotate = Some(3);
    match r.rotate_single_file("/l/a.log", &c) {
        Err(RotateError::DateNotRecognised { format, date }) => {
            assert_eq!(format, "");
            assert_eq!(date, "");
        }
        _ => panic!("an empty date cannot name a copy"),
    }
}

fn jan2() -> DateTime {
    DateTime { year: 2024, month: 1, day: 2, hour: 3, minute: 4, second: 5, nanosecond: 0 }
}

#[test]
fn date_suffix_at_a_given_time() {
    let mut c = cfg();
    assert_eq!(date_suffix_at(&c, &jan2(), 0).unwrap(), "-20240102");
    c.dateformat = Some(s("-%b%d-%H%M"));
    assert_eq!(date_suffix_at(&c, &jan2(), 3600).unwrap(), "-Jan02-0304");
    c.dateformat = Some(s("-%z"));
    assert_eq!(date_suffix_at(&c, &jan2(), -5400).unwrap(), "--0130");
    c.dateformat = Some(s("%#z"));
    assert!(matches!(date_suffix_at(&c, &jan2(), 0), Err(RotateError::InvalidDateFormat { .. })));
    c.dateformat = Some(s("-%Y"));
    c.rotate = Some(2);
    assert_eq!(date_suffix_at(&c, &jan2(), 0).unwrap(), "-2024");
}

#[test]
fn rotated_paths() {
    let mut db = StateDB::new("s");
    let r = Rotator::new(&mut db, false, false, false);
    let mut c = cfg();
    assert_eq!(r.get_rotated_path("/l", "a.log", 12, &c), "/l/a.log.12");
    c.compress = Some(true);
    assert_eq!(r.get_rotated_path("/l", "a.log", 1, &c), "/l/a.log.1.gz");
    c.delaycompress = Some(true);
    assert_eq!(r.get_rotated_path("/l", "a.log", 1, &c), "/l/a.log.1");
    assert_eq!(r.get_rotated_path("/l", "a.log", 2, &c), "/l/a.log.2.gz");
}

#[test]
fn record_rotation_updates_state() {
    let mut db = StateDB::new("s");
    {
        let mut r = Rotator::new(&mut db, true, true, false);
        r.record_rotation("/l/a.log");
    }
    let t = db.get("/l/a.log").expect("recorded");
    assert!(t.month >= 1 && t.month <= 12 && t.hour < 24 && t.nanosecond < 1_000_000_000);
}

#[test]
fn default_date_format() {
    let mut c = cfg();
    assert_eq!(date_format(&c), "-%Y%m%d");
    c.dateformat = Some(s("-%Y-%m-%d-%s"));
    assert_eq!(date_format(&c), "-%Y-%m-%d-%s");
}

#[test]
fn script_command_line() {
    assert_eq!(logrustate::rotator::script_command("kill -HUP 1", "/a /b"), "kill -HUP 1 /a /b");
    assert_eq!(logrustate::rotator::script_command("x", ""), "x ");
}
