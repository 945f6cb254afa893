use vstd::prelude::*;

use crate::broker::{BrokerImpl, BrokerProxy};
use crate::comparer::{Verdict, metadata_verdict, opt_view, reconcile_metadata};
use crate::metadata::{FileMetadata, MetadataView};
use crate::store::{DatabaseImpl, DatabaseProxy};

verus! {

/// What checking one file against the store came to.
pub enum ScanOutcome {
    /// The store could not be asked.
    LookupFailed(String),
    /// The file was compared with the record the store returned; a new or
    /// changed file was written back, and the write's error, if any, is kept.
    Compared { baseline: Option<FileMetadata>, verdict: Verdict, write_error: Option<String> },
}

/// Checks scanned files against the baseline store and records what changed.
pub struct FilesystemScanner<B: BrokerImpl, D: DatabaseImpl> {
    _broker: BrokerProxy<B>,
    database: DatabaseProxy<D>,
}

impl<B: BrokerImpl, D: DatabaseImpl> FilesystemScanner<B, D> {
    pub closed spec fn broker(&self) -> BrokerProxy<B> {
        self._broker
    }

    pub closed spec fn database(&self) -> DatabaseProxy<D> {
        self.database
    }

    /// A scanner over `broker` and `database`, which it holds as given.
    pub fn new(broker: BrokerProxy<B>, database: DatabaseProxy<D>) -> (r: Self)
        ensures
            r.broker() == broker,
            r.database() == database,
    {
        FilesystemScanner { _broker: broker, database }
    }

    /// Looks up the record for the scanned file `local` by its path and
    /// compares the whole records: a new or changed file is written to the
    /// store, an unchanged one is not, and a failed lookup writes nothing. A
    /// failed write does not undo the verdict.
    pub fn check_file(&mut self, local: FileMetadata) -> (r: ScanOutcome)
        ensures
            final(self).database().lookups() == old(self).database().lookups().push(local@.path),
            final(self).database().answers().len() == old(self).database().answers().len() + 1,
            final(self).database().answers().drop_last() == old(self).database().answers(),
            r matches ScanOutcome::LookupFailed(e) ==> final(self).database().answers().last()
                == Err::<Option<MetadataView>, Seq<char>>(e@),
            r matches ScanOutcome::Compared { baseline, .. } ==> final(self).database().answers().last()
                == Ok::<Option<MetadataView>, Seq<char>>(opt_view(baseline)),
            final(self).broker() == old(self).broker(),
            r is LookupFailed ==> final(self).database().writes() == old(self).database().writes(),
            r matches ScanOutcome::Compared { baseline, verdict, .. } ==> verdict
                == metadata_verdict(opt_view(baseline), local@),
            r matches ScanOutcome::Compared { verdict, write_error, .. } ==> (verdict
                == Verdict::Unchanged ==> write_error is None),
            r matches ScanOutcome::Compared { verdict, .. } ==> (verdict == Verdict::Unchanged
                ==> final(self).database().writes() == old(self).database().writes()),
            r matches ScanOutcome::Compared { verdict, .. } ==> (verdict != Verdict::Unchanged
                ==> final(self).database().writes() == old(self).database().writes().push(local@)),
    {
        let baseline = match self.database.get_file(local.path.as_str()) {
            Ok(b) => b,
            Err(e) => return ScanOutcome::LookupFailed(e),
        };
        let rec = reconcile_metadata(local, &baseline);
        let write_error = match rec.upsert {
            Some(u) => match self.database.upsert(u) {
                Ok(()) => None,
                Err(e) => Some(e),
            },
            None => None,
        };
        ScanOutcome::Compared { baseline, verdict: rec.verdict, write_error }
    }
}

} // verus!
