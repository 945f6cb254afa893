use vstd::prelude::*;

verus! {

/// What the baseline store keeps of one file.
pub struct FileMetadata {
    pub path: String,
    pub uid: u32,
    pub gid: u32,
    pub perms: u32,
    pub hash: String,
}

/// A file's record in the abstract.
pub struct MetadataView {
    pub path: Seq<char>,
    pub uid: u32,
    pub gid: u32,
    pub perms: u32,
    pub hash: Seq<char>,
}

impl View for FileMetadata {
    type V = MetadataView;

    open spec fn view(&self) -> MetadataView {
        MetadataView {
            path: self.path@,
            uid: self.uid,
            gid: self.gid,
            perms: self.perms,
            hash: self.hash@,
        }
    }
}

impl PartialEq for FileMetadata {
    fn eq(&self, o: &FileMetadata) -> (r: bool)
        ensures
            r == (self@ == o@),
    {
        self.path == o.path && self.uid == o.uid && self.gid == o.gid && self.perms == o.perms
            && self.hash == o.hash
    }
}

impl vstd::std_specs::cmp::PartialEqSpecImpl for FileMetadata {
    open spec fn obeys_eq_spec() -> bool {
        true
    }

    open spec fn eq_spec(&self, o: &FileMetadata) -> bool {
        self@ == o@
    }
}

impl Eq for FileMetadata {

}

impl FileMetadata {
    pub fn duplicate(&self) -> (r: FileMetadata)
        ensures
            r@ == self@,
    {
        FileMetadata {
            path: self.path.clone(),
            uid: self.uid,
            gid: self.gid,
            perms: self.perms,
            hash: self.hash.clone(),
        }
    }
}

} // verus!
