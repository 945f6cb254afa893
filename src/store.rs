use vstd::prelude::*;

use crate::metadata::{FileMetadata, MetadataView};

verus! {

/// The kinds of baseline store.
pub enum DatabaseType {
    MongoDB,
}

/// A baseline store of file records, keyed by path.
pub trait DatabaseImpl {
    /// Connects to the store.
    fn connect(&mut self) -> Result<(), String>;

    /// The record for a path, if the store has one.
    fn get_file(&self, file_name: &str) -> Result<Option<FileMetadata>, String>;

    /// Writes a record, replacing the one for the same path.
    fn upsert(&self, file_info: FileMetadata) -> Result<(), String>;
}

/// A lookup's answer in the abstract.
pub open spec fn answer_view(r: Result<Option<FileMetadata>, String>) -> Result<Option<MetadataView>, Seq<char>> {
    match r {
        Ok(Some(m)) => Ok(Some(m@)),
        Ok(None) => Ok(None),
        Err(e) => Err(e@),
    }
}

/// The rest of the agent's view of the baseline store. It keeps account of
/// what it has passed on and got back: the paths it asked the store to look
/// up, the store's answers, and the records it sent the store to write, each
/// in order.
pub struct DatabaseProxy<D: DatabaseImpl> {
    backend: D,
    asked: Ghost<Seq<Seq<char>>>,
    answered: Ghost<Seq<Result<Option<MetadataView>, Seq<char>>>>,
    sent: Ghost<Seq<MetadataView>>,
}

impl<D: DatabaseImpl> DatabaseProxy<D> {
    /// The store behind the proxy.
    pub closed spec fn backend(&self) -> D {
        self.backend
    }

    /// The paths passed on to `get_file`, in order.
    pub closed spec fn lookups(&self) -> Seq<Seq<char>> {
        self.asked@
    }

    /// The store's answers to `get_file`, in order.
    pub closed spec fn answers(&self) -> Seq<Result<Option<MetadataView>, Seq<char>>> {
        self.answered@
    }

    /// The records passed on to `upsert`, in order.
    pub closed spec fn writes(&self) -> Seq<MetadataView> {
        self.sent@
    }

    /// Nothing has been passed on yet.
    pub open spec fn fresh(&self) -> bool {
        &&& self.lookups() == Seq::<Seq<char>>::empty()
        &&& self.answers() == Seq::<Result<Option<MetadataView>, Seq<char>>>::empty()
        &&& self.writes() == Seq::<MetadataView>::empty()
    }

    /// Wraps `backend` once its connection attempt came back as `connected`:
    /// a failed connection is passed on unchanged.
    pub fn after_connect(backend: D, connected: Result<(), String>) -> (r: Result<DatabaseProxy<D>, String>)
        ensures
            r is Ok <==> connected is Ok,
            r matches Ok(p) ==> p.backend() == backend && p.fresh(),
            connected matches Err(e) ==> r matches Err(f) && f == e,
    {
        match connected {
            Ok(()) => Ok(
                DatabaseProxy {
                    backend,
                    asked: Ghost(Seq::empty()),
                    answered: Ghost(Seq::empty()),
                    sent: Ghost(Seq::empty()),
                },
            ),
            Err(e) => Err(e),
        }
    }

    /// Connects `backend` and wraps it; a failed connection is returned.
    pub fn new(backend: D) -> (r: Result<DatabaseProxy<D>, String>)
        ensures
            r matches Ok(p) ==> p.fresh(),
    {
        let mut backend = backend;
        let connected = backend.connect();
        DatabaseProxy::after_connect(backend, connected)
    }

    pub fn get_file(&mut self, file_name: &str) -> (r: Result<Option<FileMetadata>, String>)
        ensures
            final(self).lookups() == old(self).lookups().push(file_name@),
            final(self).answers() == old(self).answers().push(answer_view(r)),
            final(self).writes() == old(self).writes(),
            final(self).backend() == old(self).backend(),
    {
        self.asked = Ghost(self.asked@.push(file_name@));
        let r = self.backend.get_file(file_name);
        self.answered = Ghost(self.answered@.push(answer_view(r)));
        r
    }

    pub fn upsert(&mut self, file_info: FileMetadata) -> (r: Result<(), String>)
        ensures
            final(self).writes() == old(self).writes().push(file_info@),
            final(self).lookups() == old(self).lookups(),
            final(self).answers() == old(self).answers(),
            final(self).backend() == old(self).backend(),
    {
        self.sent = Ghost(self.sent@.push(file_info@));
        self.backend.upsert(file_info)
    }
}

} // verus!
