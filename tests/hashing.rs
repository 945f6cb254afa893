use fim::digest::digest_hex;
use fim::hasher::AccumulatorTable;
use fim::records::FileChunk;

const EMPTY_DIGEST: &str = "e3b0c44298fc1c149afbf4c8996fb92427ae41e4649b934ca495991b7852b855";
const ABC_DIGEST: &str = "ba7816bf8f01cfea414140de5dae2223b00361a396177a9cb410ff61f20015ad";

fn data(name: &str, bytes: &[u8]) -> FileChunk {
    FileChunk { file_name: name.to_string(), chunk: Some(bytes.to_vec()) }
}

fn end(name: &str) -> FileChunk {
    FileChunk { file_name: name.to_string(), chunk: None }
}

#[test]
fn one_pass_digest_of_empty_input() {
    assert_eq!(digest_hex(b""), EMPTY_DIGEST);
}

#[test]
fn one_pass_digest_of_abc() {
    assert_eq!(digest_hex(b"abc"), ABC_DIGEST);
    assert_eq!(digest_hex(&[7u8; 3000]).len(), 64);
}

#[test]
fn zero_byte_file_yields_empty_digest() {
    let mut t = AccumulatorTable::new();
    let r = t.absorb(end("/empty")).expect("a digest for the empty file");
    assert_eq!(r.name, "/empty");
    assert_eq!(r.hash, EMPTY_DIGEST);
    assert_eq!(t.len(), 0);
}

#[test]
fn streaming_digest_equals_one_pass_digest() {
    let content: Vec<u8> = (0..5000u32).map(|i| (i * 7 % 251) as u8).collect();
    for cut in [1usize, 3, 1024, 4999, 5000] {
        let mut t = AccumulatorTable::new();
        for piece in content.chunks(cut) {
            assert!(t.absorb(data("/f", piece)).is_none());
        }
        let r = t.absorb(end("/f")).unwrap();
        assert_eq!(r.hash, digest_hex(&content));
    }
}

#[test]
fn split_abc_hashes_like_abc() {
    let mut t = AccumulatorTable::new();
    assert!(t.absorb(data("x", b"a")).is_none());
    assert!(t.absorb(data("x", b"bc")).is_none());
    assert_eq!(t.absorb(end("x")).unwrap().hash, ABC_DIGEST);
}

#[test]
fn interleaved_files_keep_separate_states() {
    let mut t = AccumulatorTable::new();
    assert!(t.absorb(data("a", b"a")).is_none());
    assert!(t.absorb(data("b", b"xyz")).is_none());
    assert!(t.absorb(data("a", b"bc")).is_none());
    assert_eq!(t.len(), 2);
    let ra = t.absorb(end("a")).unwrap();
    assert_eq!(ra.name, "a");
    assert_eq!(ra.hash, ABC_DIGEST);
    assert_eq!(t.len(), 1);
    let rb = t.absorb(end("b")).unwrap();
    assert_eq!(rb.hash, digest_hex(b"xyz"));
    assert_eq!(t.len(), 0);
}

#[test]
fn table_holds_only_files_mid_read() {
    let mut t = AccumulatorTable::new();
    assert_eq!(t.len(), 0);
    t.absorb(data("a", b"1"));
    t.absorb(data("a", b"2"));
    assert_eq!(t.len(), 1);
    assert!(t.contains(&"a".to_string()));
    t.absorb(end("a"));
    assert!(!t.contains(&"a".to_string()));
    assert_eq!(t.len(), 0);
    // A fresh sequence for the same identity starts over.
    t.absorb(data("a", b"abc"));
    assert_eq!(t.absorb(end("a")).unwrap().hash, ABC_DIGEST);
}
