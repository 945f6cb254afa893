use fim::filter::{has_prefix, is_ignored, should_skip, FilterError};
use fim::logger::{LoggerBridge, LoggerPlatforms};
use fim::monitor::{build_monitors, build_monitors_at, DirWatcher, ScheduleKind};
use fim::policy::{Ignore, Policy, Schedule, Watch};
use fim::schedule::{parse_u64, CronSchedule, IntervalSchedule};

fn strings(v: &[&str]) -> Vec<String> {
    v.iter().map(|s| s.to_string()).collect()
}

fn ignore(patterns: &[&str], paths: &[&str]) -> Option<Ignore> {
    Some(Ignore { patterns: Some(strings(patterns)), paths: Some(strings(paths)) })
}

#[test]
fn prefix_follows_path_components() {
    assert!(has_prefix("/var/log/syslog", "/var/log"));
    assert!(has_prefix("/var/log", "/var/log"));
    assert!(has_prefix("/var/log/x", "/var/"));
    assert!(!has_prefix("/var/logs/x", "/var/log"));
    assert!(!has_prefix("/var", "/var/log"));
    assert!(has_prefix("/anything", ""));
    assert!(has_prefix("/a", "/a/"));
    assert!(has_prefix("//a//b", "/a"));
    assert!(has_prefix("/a/./b", "/a/b"));
    assert!(!has_prefix("a", "/a"));
    assert!(!has_prefix("./a", "a"));
    assert!(has_prefix("./a/b", "./a"));
}

#[test]
fn filter_by_path_prefix() {
    let ig = ignore(&[], &["/tmp"]);
    assert_eq!(is_ignored(&ig, "/tmp/a", "a"), Ok(true));
    assert_eq!(is_ignored(&ig, "/home/a", "a"), Ok(false));
    assert_eq!(is_ignored(&None, "/tmp/a", "a"), Ok(false));
}

#[test]
fn filter_by_decoded_pattern() {
    // "%5C.log%24" decodes to "\.log$".
    let ig = ignore(&["%5C.log%24"], &[]);
    assert_eq!(is_ignored(&ig, "/v/app.log", "app.log"), Ok(true));
    assert_eq!(is_ignored(&ig, "/v/app.logs", "app.logs"), Ok(false));
}

#[test]
fn filter_errors() {
    assert_eq!(is_ignored(&ignore(&["("], &[]), "/a", "a"), Err(FilterError::InvalidPattern));
    assert_eq!(is_ignored(&ignore(&["%FF"], &[]), "/a", "a"), Err(FilterError::Undecodable));
    // A matching prefix decides before any pattern is tried.
    assert_eq!(is_ignored(&ignore(&["("], &["/a"]), "/a/b", "b"), Ok(true));
}

#[test]
fn skip_checks_directories_then_files() {
    let dirs = ignore(&["cache"], &[]);
    let files = ignore(&["^secret"], &[]);
    assert_eq!(should_skip(&files, &dirs, "/h/cache/x", "/h/cache", "x"), Ok(true));
    assert_eq!(should_skip(&files, &dirs, "/h/d/secret.txt", "/h/d", "secret.txt"), Ok(true));
    assert_eq!(should_skip(&files, &dirs, "/h/d/notes", "/h/d", "notes"), Ok(false));
}

#[test]
fn interval_schedule_parses_and_fires() {
    let mut s = IntervalSchedule::new_at("10".to_string(), strings(&["/a"]), None, None, 100).unwrap();
    assert_eq!(s.next_run, 110);
    assert!(s.interrogate_at(110).is_none());
    let q = s.interrogate_at(111).unwrap();
    assert_eq!(q.dirs, strings(&["/a"]));
    assert_eq!(s.next_run, 121);
    assert!(IntervalSchedule::new_at("ten".to_string(), Vec::new(), None, None, 0).is_err());
    assert!(IntervalSchedule::new_at("".to_string(), Vec::new(), None, None, 0).is_err());
    assert_eq!(IntervalSchedule::new_at("+5".to_string(), Vec::new(), None, None, 0).unwrap().interval, 5);
    assert!(IntervalSchedule::new("5".to_string(), Vec::new(), None, None).is_ok());
}

#[test]
fn cron_schedule_validates_and_fires() {
    let mut s = CronSchedule::new_at("* * * * *".to_string(), strings(&["/b"]), None, None, 0).unwrap();
    assert_eq!(s.next_run, 60);
    assert!(s.interrogate_at(59).is_none());
    assert!(s.interrogate_at(60).is_some());
    assert_eq!(s.next_run, 120);
    assert!(CronSchedule::new_at("not a cron".to_string(), Vec::new(), None, None, 0).is_err());
}

#[test]
fn schedule_errors_name_the_schedule() {
    let e = IntervalSchedule::new_at("abc".to_string(), Vec::new(), None, None, 0).err().unwrap();
    assert_eq!(e, "IntervalSchedule expected integer interval, got abc");
    let e = CronSchedule::new_at("bad".to_string(), Vec::new(), None, None, 0).err().unwrap();
    assert_eq!(e, "CronSchedule expected cron schedule, got bad");
    assert_eq!(LoggerBridge::new(LoggerPlatforms::Off).err().unwrap(), "Platform None not supported!");
}

#[test]
fn poll_returns_due_targets_in_order() {
    let policy = Policy {
        watch: None,
        schedule: Some(vec![
            ("a".to_string(), Schedule { dirs: strings(&["/a"]), ignore_files: None, ignore_dirs: None, interval: Some(10), cron: None }),
            ("b".to_string(), Schedule { dirs: strings(&["/b"]), ignore_files: ignore(&["x"], &[]), ignore_dirs: None, interval: Some(5), cron: None }),
            ("c".to_string(), Schedule { dirs: strings(&["/c"]), ignore_files: None, ignore_dirs: None, interval: Some(100), cron: None }),
        ]),
    };
    let (_, r) = build_monitors_at(policy, 0).unwrap();
    let mut r = r.unwrap();
    let due = r.poll_at(20);
    assert_eq!(due.len(), 2);
    assert_eq!(due[0].dirs, strings(&["/a"]));
    assert_eq!(due[1].dirs, strings(&["/b"]));
    assert!(due[1].ignore_files.is_some());
    match &r.schedules[0] {
        ScheduleKind::Interval(s) => assert_eq!(s.next_run, 30),
        ScheduleKind::Cron(_) => panic!("expected an interval schedule"),
    }
    match &r.schedules[2] {
        ScheduleKind::Interval(s) => assert_eq!(s.next_run, 100),
        ScheduleKind::Cron(_) => panic!("expected an interval schedule"),
    }
}

#[test]
fn logger_buffers_until_flush() {
    assert!(LoggerBridge::new(LoggerPlatforms::Off).is_err());
    let mut b = LoggerBridge::new(LoggerPlatforms::Redis).unwrap();
    b.log("one".to_string());
    b.log("two".to_string());
    assert_eq!(b.flush(), strings(&["one", "two"]));
    assert!(b.flush().is_empty());
    assert_eq!(LoggerPlatforms::Redis.name(), "Redis");
}

fn schedule(interval: Option<u32>, cron: Option<&str>) -> Schedule {
    Schedule {
        dirs: strings(&["/s"]),
        ignore_files: None,
        ignore_dirs: None,
        interval,
        cron: cron.map(|c| c.to_string()),
    }
}

#[test]
fn monitors_follow_policy() {
    let policy = Policy {
        watch: Some(Watch { dirs: strings(&["/w"]), ignore_files: None, ignore_dirs: None }),
        schedule: Some(vec![
            ("every".to_string(), schedule(Some(30), None)),
            ("nightly".to_string(), schedule(None, Some("0 0 * * *"))),
            ("idle".to_string(), schedule(None, None)),
        ]),
    };
    let (w, r) = build_monitors_at(policy, 1000).unwrap();
    let w = w.unwrap();
    assert_eq!(w.watch_dirs, strings(&["/w"]));
    assert!(w.ignore_files.is_none() && w.ignore_dirs.is_none());
    let mut r = r.unwrap();
    assert_eq!(r.schedules.len(), 2);
    match &r.schedules[0] {
        ScheduleKind::Interval(s) => {
            assert_eq!(s.interval, 30);
            assert_eq!(s.next_run, 1030);
        }
        ScheduleKind::Cron(_) => panic!("expected the interval schedule first"),
    }
    match &r.schedules[1] {
        ScheduleKind::Cron(s) => {
            assert_eq!(s.expression, "0 0 * * *");
            assert_eq!(s.next_run, 86400);
        }
        ScheduleKind::Interval(_) => panic!("expected the cron schedule second"),
    }
    let due = r.poll_at(1031);
    assert_eq!(due.len(), 1);
    assert_eq!(due[0].dirs, strings(&["/s"]));
}

#[test]
fn both_timings_are_refused() {
    let policy = Policy { watch: None, schedule: Some(vec![("x".to_string(), schedule(Some(1), Some("* * * * *")))]) };
    assert!(build_monitors_at(policy, 0).is_err());
    let empty = Policy { watch: None, schedule: None };
    let (w, r) = build_monitors_at(empty, 0).unwrap();
    assert!(w.is_none() && r.is_none());
}

#[test]
fn watcher_scans_written_path() {
    let w = DirWatcher::new(strings(&["/w"]), ignore(&["x"], &[]), None);
    let q = w.on_write("/w/f".to_string());
    assert_eq!(q.dirs, strings(&["/w/f"]));
    assert!(q.ignore_files.is_some());
    assert!(q.ignore_dirs.is_none());
}

#[test]
fn decimal_parse_matches_std() {
    for s in ["0", "7", "+5", "", "+", "-1", "1a", " 1", "007", "18446744073709551615", "18446744073709551616", "99999999999999999999"] {
        assert_eq!(parse_u64(s), s.parse::<u64>().ok(), "{:?}", s);
    }
}

#[test]
fn double_timing_fails_before_the_clock() {
    let policy = Policy { watch: None, schedule: Some(vec![("x".to_string(), schedule(Some(1), Some("* * * * *")))]) };
    assert_eq!(
        build_monitors(policy).err().unwrap(),
        "Cannot have a schedule with both a cron and interval schedule!"
    );
    let ok = Policy {
        watch: Some(Watch { dirs: strings(&["/w"]), ignore_files: ignore(&["a"], &[]), ignore_dirs: None }),
        schedule: Some(vec![("y".to_string(), schedule(Some(60), None))]),
    };
    let (w, r) = build_monitors(ok).unwrap();
    let w = w.unwrap();
    assert_eq!(w.ignore_files.unwrap().patterns, Some(strings(&["a"])));
    assert_eq!(r.unwrap().schedules.len(), 1);
}

#[test]
fn interval_parse_error_comes_before_the_clock() {
    let e = IntervalSchedule::new("abc".to_string(), Vec::new(), None, None).err().unwrap();
    assert_eq!(e, "IntervalSchedule expected integer interval, got abc");
}
