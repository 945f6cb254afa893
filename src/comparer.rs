use vstd::prelude::*;

use crate::metadata::{FileMetadata, MetadataView};

verus! {

/// How a scanned file stands against its baseline record.
#[derive(Clone, Copy, PartialEq, Eq, Structural, Debug)]
pub enum Verdict {
    /// The store has no record of the file.
    New,
    /// The store's record differs.
    Changed,
    /// The store's record agrees.
    Unchanged,
}

/// The verdict by content: a file has changed exactly when its digest differs
/// from the recorded one.
pub open spec fn digest_verdict(baseline: Option<MetadataView>, digest: Seq<char>) -> Verdict {
    match baseline {
        None => Verdict::New,
        Some(b) => if b.hash == digest {
            Verdict::Unchanged
        } else {
            Verdict::Changed
        },
    }
}

/// The verdict by the whole record: owner, group, permission bits and digest.
pub open spec fn metadata_verdict(baseline: Option<MetadataView>, local: MetadataView) -> Verdict {
    match baseline {
        None => Verdict::New,
        Some(b) => if b == local {
            Verdict::Unchanged
        } else {
            Verdict::Changed
        },
    }
}

pub open spec fn opt_view(o: Option<FileMetadata>) -> Option<MetadataView> {
    match o {
        Some(m) => Some(m@),
        None => None,
    }
}

/// Compares a file's digest with its baseline record, if it has one.
pub fn compare_digest(baseline: &Option<FileMetadata>, digest: &String) -> (r: Verdict)
    ensures
        r == digest_verdict(opt_view(*baseline), digest@),
{
    match baseline {
        None => Verdict::New,
        Some(b) => if b.hash == *digest {
            Verdict::Unchanged
        } else {
            Verdict::Changed
        },
    }
}

/// Compares a file's whole record with its baseline record, if it has one.
pub fn compare_metadata(baseline: &Option<FileMetadata>, local: &FileMetadata) -> (r: Verdict)
    ensures
        r == metadata_verdict(opt_view(*baseline), local@),
{
    match baseline {
        None => Verdict::New,
        Some(b) => if *b == *local {
            Verdict::Unchanged
        } else {
            Verdict::Changed
        },
    }
}

/// What the result sink does with one finished file.
pub struct Reconciliation {
    pub verdict: Verdict,
    /// The record to write to the store, if any.
    pub upsert: Option<FileMetadata>,
}

/// Reconciles a scanned file with its baseline by content digest: a new or
/// changed file is written to the store, an unchanged one is left alone.
pub fn reconcile(local: FileMetadata, baseline: &Option<FileMetadata>) -> (r: Reconciliation)
    ensures
        r.verdict == digest_verdict(opt_view(*baseline), local@.hash),
        r.verdict == Verdict::Unchanged <==> r.upsert is None,
        r.upsert matches Some(u) ==> u@ == local@,
{
    let verdict = compare_digest(baseline, &local.hash);
    match verdict {
        Verdict::Unchanged => Reconciliation { verdict, upsert: None },
        _ => Reconciliation { verdict, upsert: Some(local) },
    }
}

/// Reconciles a scanned file with its baseline by the whole record, as the
/// scheduled and watched scans do: a new or differing file is written to the
/// store, an identical one is left alone.
pub fn reconcile_metadata(local: FileMetadata, baseline: &Option<FileMetadata>) -> (r: Reconciliation)
    ensures
        r.verdict == metadata_verdict(opt_view(*baseline), local@),
        r.verdict == Verdict::Unchanged <==> r.upsert is None,
        r.upsert matches Some(u) ==> u@ == local@,
{
    let verdict = compare_metadata(baseline, &local);
    match verdict {
        Verdict::Unchanged => Reconciliation { verdict, upsert: None },
        _ => Reconciliation { verdict, upsert: Some(local) },
    }
}

/// The content verdict depends on the digest alone: a file whose permission
/// bits, owner or group changed but whose content did not stays unchanged,
/// while the whole-record comparison reports it as changed.
pub proof fn lemma_content_alone_decides(baseline: MetadataView, local: MetadataView)
    requires
        baseline.path == local.path,
        baseline.hash == local.hash,
    ensures
        digest_verdict(Some(baseline), local.hash) == Verdict::Unchanged,
        baseline.perms != local.perms ==> metadata_verdict(Some(baseline), local)
            == Verdict::Changed,
        baseline == local ==> metadata_verdict(Some(baseline), local) == Verdict::Unchanged,
{
}

} // verus!
