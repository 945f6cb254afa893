use std::cell::RefCell;
use std::collections::HashMap;

use fim::broker::{BrokerImpl, BrokerProxy};
use fim::comparer::Verdict;
use fim::metadata::FileMetadata;
use fim::scanner::{FilesystemScanner, ScanOutcome};
use fim::schedule::IntervalSchedule;
use fim::store::{DatabaseImpl, DatabaseProxy};

struct Store {
    connected: bool,
    fail: bool,
    records: RefCell<HashMap<String, FileMetadata>>,
}

impl DatabaseImpl for Store {
    fn connect(&mut self) -> Result<(), String> {
        self.connected = true;
        Ok(())
    }

    fn get_file(&self, file_name: &str) -> Result<Option<FileMetadata>, String> {
        if self.fail {
            return Err("store unavailable".to_string());
        }
        Ok(self.records.borrow().get(file_name).map(|m| m.duplicate()))
    }

    fn upsert(&self, file_info: FileMetadata) -> Result<(), String> {
        self.records.borrow_mut().insert(file_info.path.clone(), file_info);
        Ok(())
    }
}

struct Broker {
    lines: Vec<String>,
}

impl BrokerImpl for Broker {
    fn get_policy(&self) -> String {
        "[watch]\ndirs = [\"/w\"]\n".to_string()
    }

    fn log_details(&self, _name: String, _value: String) {}

    fn log(&mut self, msg: String) {
        self.lines.push(msg);
    }
}

fn store(fail: bool) -> Store {
    Store { connected: false, fail, records: RefCell::new(HashMap::new()) }
}

fn meta(perms: u32, hash: &str) -> FileMetadata {
    FileMetadata { path: "/f".to_string(), uid: 1, gid: 1, perms, hash: hash.to_string() }
}

fn verdict(o: ScanOutcome) -> Verdict {
    match o {
        ScanOutcome::Compared { verdict, write_error, .. } => {
            assert!(write_error.is_none());
            verdict
        }
        ScanOutcome::LookupFailed(r) => panic!("lookup failed: {}", r),
    }
}

#[test]
fn scanner_records_new_then_unchanged_then_changed() {
    let broker = BrokerProxy::new(Broker { lines: Vec::new() });
    let db = DatabaseProxy::new(store(false)).unwrap();
    let mut s = FilesystemScanner::new(broker, db);
    assert_eq!(verdict(s.check_file(meta(0o644, "aa"))), Verdict::New);
    assert_eq!(verdict(s.check_file(meta(0o644, "aa"))), Verdict::Unchanged);
    // The whole record counts here: a permission change alone is reported.
    assert_eq!(verdict(s.check_file(meta(0o600, "aa"))), Verdict::Changed);
    assert_eq!(verdict(s.check_file(meta(0o600, "bb"))), Verdict::Changed);
}

#[test]
fn scanner_carries_the_baseline_it_compared() {
    let db = DatabaseProxy::new(store(false)).unwrap();
    let mut s = FilesystemScanner::new(BrokerProxy::new(Broker { lines: Vec::new() }), db);
    s.check_file(meta(0o644, "aa"));
    match s.check_file(meta(0o600, "aa")) {
        ScanOutcome::Compared { baseline, verdict, .. } => {
            assert_eq!(baseline.unwrap().perms, 0o644);
            assert_eq!(verdict, Verdict::Changed);
        }
        ScanOutcome::LookupFailed(r) => panic!("lookup failed: {}", r),
    }
}

#[test]
fn failed_connection_is_passed_on() {
    let r = DatabaseProxy::after_connect(store(false), Err("no route".to_string()));
    assert_eq!(r.err().unwrap(), "no route");
    assert!(DatabaseProxy::after_connect(store(false), Ok(())).is_ok());
}

#[test]
fn scanner_reports_store_failure() {
    let db = DatabaseProxy::new(store(true)).unwrap();
    let mut s = FilesystemScanner::new(BrokerProxy::new(Broker { lines: Vec::new() }), db);
    match s.check_file(meta(0o644, "aa")) {
        ScanOutcome::LookupFailed(r) => assert_eq!(r, "store unavailable"),
        ScanOutcome::Compared { .. } => panic!("expected a lookup failure"),
    }
}

#[test]
fn broker_proxy_forwards() {
    let mut b = BrokerProxy::new(Broker { lines: Vec::new() });
    assert!(b.get_policy().contains("[watch]"));
    b.log("hello".to_string());
    b.log_details("k".to_string(), "v".to_string());
}

#[test]
fn interval_too_large_is_refused() {
    assert!(IntervalSchedule::new_at("10".to_string(), Vec::new(), None, None, u64::MAX - 5).is_err());
    assert!(IntervalSchedule::new_at("5".to_string(), Vec::new(), None, None, u64::MAX - 5).is_ok());
    assert!(IntervalSchedule::new_at("18446744073709551616".to_string(), Vec::new(), None, None, 0).is_err());
}
