use fim::reader::{read_step, ReadProgress, CHUNK_SIZE};
use fim::stage::{DispatchAction, Dispatcher, ScheduleDecision, worker_next, WorkerAction, WorkerEvent};
use fim::traverse::{split_listing, EntryKind, ListedEntry};

fn entry(path: &str, kind: EntryKind) -> ListedEntry {
    ListedEntry { path: path.to_string(), kind }
}

#[test]
fn listing_split_skips_links() {
    let entries = vec![
        entry("/r/sub", EntryKind::Directory),
        entry("/r/a.txt", EntryKind::RegularFile),
        entry("/r/link", EntryKind::Symlink),
        entry("/r/fifo", EntryKind::Other),
        entry("/r/b.txt", EntryKind::RegularFile),
    ];
    let s = split_listing(&entries);
    assert_eq!(s.subdirs, vec!["/r/sub".to_string()]);
    assert_eq!(s.files, vec!["/r/a.txt".to_string(), "/r/b.txt".to_string()]);
}

#[test]
fn empty_listing_splits_to_nothing() {
    let s = split_listing(&Vec::new());
    assert!(s.subdirs.is_empty());
    assert!(s.files.is_empty());
}

#[test]
fn read_step_forwards_bytes_and_resubmits() {
    let p = ReadProgress::start("/f".to_string(), 2500);
    assert_eq!(p.total_chunks, 3);
    let r = read_step(p, vec![1u8; CHUNK_SIZE]);
    assert_eq!(r.chunk.file_name, "/f");
    assert_eq!(r.chunk.chunk, Some(vec![1u8; CHUNK_SIZE]));
    let n = r.next.unwrap();
    assert_eq!(n.offset, 1024);
    assert_eq!(n.chunk_index, 1);
    assert_eq!(n.total_chunks, 3);
}

#[test]
fn read_step_at_end_sends_sentinel() {
    let p = ReadProgress { name: "/f".to_string(), offset: 7, chunk_index: 1, total_chunks: 1 };
    let r = read_step(p, Vec::new());
    assert_eq!(r.chunk.file_name, "/f");
    assert!(r.chunk.chunk.is_none());
    assert!(r.next.is_none());
}

#[test]
fn chunk_count_of_exact_multiple() {
    assert_eq!(ReadProgress::start("x".to_string(), 10240).total_chunks, 10);
    assert_eq!(ReadProgress::start("x".to_string(), 0).total_chunks, 0);
}

#[test]
fn dispatcher_routes_round_robin() {
    let mut d = Dispatcher::new(3);
    let go = ScheduleDecision { timeout_ms: 10, retry_on_empty: true };
    assert_eq!(d.step(go, true), DispatchAction::Route(0));
    assert_eq!(d.step(go, true), DispatchAction::Route(1));
    assert_eq!(d.step(go, false), DispatchAction::Idle);
    assert_eq!(d.step(go, true), DispatchAction::Route(0));
    assert!(!d.is_stopped());
}

#[test]
fn dispatcher_never_stops_while_retrying() {
    let mut d = Dispatcher::new(2);
    let go = ScheduleDecision { timeout_ms: 0, retry_on_empty: true };
    for _ in 0..1000 {
        assert_ne!(d.step(go, false), DispatchAction::Stop);
    }
    assert!(!d.is_stopped());
}

#[test]
fn dispatcher_stops_on_empty_wait_without_retry() {
    let mut d = Dispatcher::new(2);
    let stop = ScheduleDecision { timeout_ms: 60000, retry_on_empty: false };
    assert_eq!(d.step(stop, true), DispatchAction::Route(0));
    assert!(!d.is_stopped());
    assert_eq!(d.step(stop, false), DispatchAction::Stop);
    assert!(d.is_stopped());
    // Shutdown is final.
    assert_eq!(d.step(ScheduleDecision { timeout_ms: 1, retry_on_empty: true }, true), DispatchAction::Stop);
}

#[test]
fn worker_survives_failures() {
    assert_eq!(worker_next(WorkerEvent::Failed, false), WorkerAction::Wait);
    assert_eq!(worker_next(WorkerEvent::Failed, true), WorkerAction::Wait);
    assert_eq!(worker_next(WorkerEvent::Handled, true), WorkerAction::Wait);
    assert_eq!(worker_next(WorkerEvent::Disconnected, false), WorkerAction::Wait);
    assert_eq!(worker_next(WorkerEvent::Disconnected, true), WorkerAction::Exit);
}
