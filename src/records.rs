use vstd::prelude::*;

verus! {

/// A piece of one file's content travelling from the reader to the hasher.
/// A record without bytes marks the end of the file.
pub struct FileChunk {
    pub file_name: String,
    pub chunk: Option<Vec<u8>>,
}

impl View for FileChunk {
    type V = (Seq<char>, Option<Seq<u8>>);

    open spec fn view(&self) -> (Seq<char>, Option<Seq<u8>>) {
        (
            self.file_name@,
            match self.chunk {
                Some(v) => Some(v@),
                None => None,
            },
        )
    }
}

/// A finished digest for one file, as lowercase hexadecimal text.
pub struct FileHash {
    pub name: String,
    pub hash: String,
}

impl View for FileHash {
    type V = (Seq<char>, Seq<char>);

    open spec fn view(&self) -> (Seq<char>, Seq<char>) {
        (self.name@, self.hash@)
    }
}

} // verus!
