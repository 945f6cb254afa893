use std::collections::{HashMap, VecDeque};

use fim::comparer::{compare_digest, compare_metadata, reconcile, Verdict};
use fim::digest::digest_hex;
use fim::hasher::AccumulatorTable;
use fim::metadata::FileMetadata;
use fim::reader::{read_step, ReadProgress, CHUNK_SIZE};
use fim::records::FileHash;
use fim::traverse::{split_listing, EntryKind, ListedEntry};

/// A directory tree held in memory: listings by directory, contents by file.
struct Tree {
    dirs: HashMap<String, Vec<(String, EntryKind)>>,
    files: HashMap<String, Vec<u8>>,
}

impl Tree {
    fn list(&self, dir: &str) -> Vec<ListedEntry> {
        self.dirs[dir]
            .iter()
            .map(|(p, k)| ListedEntry { path: p.clone(), kind: *k })
            .collect()
    }

    fn read_at(&self, name: &str, offset: u64) -> Vec<u8> {
        let c = &self.files[name];
        let start = (offset as usize).min(c.len());
        let stop = (start + CHUNK_SIZE).min(c.len());
        c[start..stop].to_vec()
    }
}

/// Runs the four stages to completion, each through its own queue with
/// feedback, and returns what reached the last one.
fn run_pipeline(tree: &Tree, root: &str) -> Vec<FileHash> {
    let mut dirs: VecDeque<String> = VecDeque::from(vec![root.to_string()]);
    let mut reads: VecDeque<ReadProgress> = VecDeque::new();
    let mut chunks = VecDeque::new();
    let mut table = AccumulatorTable::new();
    let mut results = Vec::new();
    loop {
        if let Some(d) = dirs.pop_front() {
            let split = split_listing(&tree.list(&d));
            dirs.extend(split.subdirs);
            for f in split.files {
                let size = tree.files[&f].len() as u64;
                reads.push_back(ReadProgress::start(f, size));
            }
        } else if let Some(p) = reads.pop_front() {
            let bytes = tree.read_at(&p.name, p.offset);
            let step = read_step(p, bytes);
            chunks.push_back(step.chunk);
            if let Some(n) = step.next {
                reads.push_back(n);
            }
        } else if let Some(c) = chunks.pop_front() {
            if let Some(h) = table.absorb(c) {
                results.push(h);
            }
        } else {
            break;
        }
    }
    assert_eq!(table.len(), 0);
    results
}

fn sample_tree() -> (Tree, Vec<u8>) {
    let big: Vec<u8> = (0..10_000u32).map(|i| (i % 256) as u8).collect();
    let mut dirs = HashMap::new();
    dirs.insert(
        "/root".to_string(),
        vec![
            ("/root/sub".to_string(), EntryKind::Directory),
            ("/root/empty".to_string(), EntryKind::RegularFile),
            ("/root/loop".to_string(), EntryKind::Symlink),
        ],
    );
    dirs.insert("/root/sub".to_string(), vec![("/root/sub/big".to_string(), EntryKind::RegularFile)]);
    let mut files = HashMap::new();
    files.insert("/root/empty".to_string(), Vec::new());
    files.insert("/root/sub/big".to_string(), big.clone());
    (Tree { dirs, files }, big)
}

#[test]
fn end_to_end_two_records() {
    let (tree, big) = sample_tree();
    let mut results = run_pipeline(&tree, "/root");
    results.sort_by(|a, b| a.name.cmp(&b.name));
    assert_eq!(results.len(), 2);
    assert_eq!(results[0].name, "/root/empty");
    assert_eq!(results[0].hash, "e3b0c44298fc1c149afbf4c8996fb92427ae41e4649b934ca495991b7852b855");
    assert_eq!(results[1].name, "/root/sub/big");
    assert_eq!(results[1].hash, digest_hex(&big));
}

#[test]
fn end_to_end_reads_big_file_in_ten_chunks() {
    let (tree, _) = sample_tree();
    let mut p = ReadProgress::start("/root/sub/big".to_string(), 10_000);
    assert_eq!(p.total_chunks, 10);
    let mut n = 0;
    loop {
        let bytes = tree.read_at(&p.name, p.offset);
        let step = read_step(p, bytes);
        match step.next {
            Some(next) => {
                n += 1;
                p = next;
            }
            None => break,
        }
    }
    assert_eq!(n, 10);
}

fn record(perms: u32, hash: &str) -> FileMetadata {
    FileMetadata { path: "/etc/passwd".to_string(), uid: 0, gid: 0, perms, hash: hash.to_string() }
}

#[test]
fn permission_change_alone_is_not_a_content_change() {
    let baseline = Some(record(0o644, "aa"));
    let local = record(0o600, "aa");
    assert_eq!(compare_digest(&baseline, &local.hash), Verdict::Unchanged);
    assert_eq!(compare_metadata(&baseline, &local), Verdict::Changed);
    let r = reconcile(local, &baseline);
    assert_eq!(r.verdict, Verdict::Unchanged);
    assert!(r.upsert.is_none());
}

#[test]
fn content_change_is_reported_and_written() {
    let baseline = Some(record(0o644, "aa"));
    let r = reconcile(record(0o644, "bb"), &baseline);
    assert_eq!(r.verdict, Verdict::Changed);
    assert_eq!(r.upsert.unwrap().hash, "bb");
}

#[test]
fn unknown_file_is_new() {
    let r = reconcile(record(0o644, "aa"), &None);
    assert_eq!(r.verdict, Verdict::New);
    assert!(r.upsert.is_some());
    assert_eq!(compare_metadata(&None, &record(0, "x")), Verdict::New);
}

#[test]
fn identical_records_are_unchanged() {
    let baseline = Some(record(0o644, "aa"));
    assert_eq!(compare_metadata(&baseline, &record(0o644, "aa")), Verdict::Unchanged);
    assert!(record(1, "a") == record(1, "a"));
    assert!(record(1, "a") != record(2, "a"));
}
