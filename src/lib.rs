//! File-integrity monitoring: the decision logic of a multi-stage scanning
//! pipeline (traversal, chunked reading, streaming hashing, comparison).
//!
//! Each stage of the pipeline is a pool of workers fed round-robin from one
//! queue, with a feedback path into that queue and a drain to the next stage.
//! This crate holds what those stages decide: the dispatch and worker rules
//! (`stage`), the split of a directory listing (`traverse`, with the whole
//! traversal in `walk`), one read of a file (`reader`), the table of running
//! hashes (`hasher`, `digest`) and the verdict on a finished file
//! (`comparer`). Threads, channels and file-system access belong to the
//! program that drives them. Around the pipeline stand the policy
//! (`policy`, `filter`, `schedule`, `monitor`) and the seams to the broker,
//! the baseline store and the log (`broker`, `store`, `scanner`, `logger`).
pub mod broker;
pub mod comparer;
pub mod digest;
pub mod filter;
pub mod hasher;
pub mod logger;
pub mod metadata;
pub mod monitor;
pub mod policy;
pub mod reader;
pub mod records;
pub mod scanner;
pub mod schedule;
pub mod stage;
pub mod store;
pub mod traverse;
pub mod walk;
