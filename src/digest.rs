use vstd::prelude::*;

verus! {

/// The SHA-256 digest of a byte string.
pub uninterp spec fn sha256_of(data: Seq<u8>) -> Seq<u8>;

/// A running SHA-256 computation over the bytes fed to it so far.
///
/// `sha2::Sha256` is an alias of a generic core wrapper that cannot be
/// declared as a type of its own, so the state sits in a private field and is
/// reached only through the three wrappers below.
#[verifier::external_body]
pub struct StreamHash {
    inner: sha2::Sha256,
}

/// The bytes that a running hash has absorbed so far, in order.
pub uninterp spec fn absorbed(h: StreamHash) -> Seq<u8>;

impl View for StreamHash {
    type V = Seq<u8>;

    open spec fn view(&self) -> Seq<u8> {
        absorbed(*self)
    }
}

impl StreamHash {
    /// Relies on sha2's `Digest::new`: a fresh state has absorbed nothing.
    #[verifier::external_body]
    pub(crate) fn new() -> (r: StreamHash)
        ensures
            absorbed(r) == Seq::<u8>::empty(),
    {
        StreamHash { inner: <sha2::Sha256 as sha2::Digest>::new() }
    }

    /// Relies on sha2's `Digest::update`: the bytes are appended to what the
    /// state has absorbed.
    #[verifier::external_body]
    pub(crate) fn update(&mut self, data: &[u8])
        ensures
            absorbed(*final(self)) == absorbed(*old(self)) + data@,
    {
        sha2::Digest::update(&mut self.inner, data)
    }

    /// Relies on sha2's `Digest::finalize`: the 32-byte SHA-256 digest of
    /// every byte absorbed.
    #[verifier::external_body]
    pub(crate) fn finalize(self) -> (r: Vec<u8>)
        ensures
            r@ == sha256_of(absorbed(self)),
            r@.len() == 32,
    {
        sha2::Digest::finalize(self.inner).to_vec()
    }
}

/// The lowercase hexadecimal digit for a value below sixteen.
pub open spec fn hex_digit(n: u8) -> char
    recommends
        n < 16,
{
    seq!['0', '1', '2', '3', '4', '5', '6', '7', '8', '9', 'a', 'b', 'c', 'd', 'e', 'f'][n as int]
}

/// Two lowercase hexadecimal digits per byte, high nibble first.
pub open spec fn hex_text(b: Seq<u8>) -> Seq<char>
    decreases b.len(),
{
    if b.len() == 0 {
        Seq::empty()
    } else {
        hex_text(b.drop_last()) + seq![hex_digit(b.last() / 16), hex_digit(b.last() % 16)]
    }
}

proof fn lemma_hex_text_len(b: Seq<u8>)
    ensures
        hex_text(b).len() == 2 * b.len(),
    decreases b.len(),
{
    if b.len() > 0 {
        lemma_hex_text_len(b.drop_last());
    }
}

/// Relies on data_encoding's `HEXLOWER.encode`: two lowercase hexadecimal
/// digits per byte, high nibble first.
#[verifier::external_body]
fn encode_hex(bytes: &[u8]) -> (r: String)
    ensures
        r@ == hex_text(bytes@),
{
    data_encoding::HEXLOWER.encode(bytes)
}

/// The digest text that the pipeline reports for a file with this content.
pub open spec fn digest_text(content: Seq<u8>) -> Seq<char> {
    hex_text(sha256_of(content))
}

/// Finishes a running hash and renders its digest as lowercase hexadecimal.
pub fn finish_hex(h: StreamHash) -> (r: String)
    ensures
        r@ == digest_text(h@),
        r@.len() == 64,
{
    let d = h.finalize();
    proof {
        lemma_hex_text_len(d@);
    }
    encode_hex(d.as_slice())
}

/// Hashes a whole byte string in one pass and renders the digest as
/// lowercase hexadecimal.
pub fn digest_hex(data: &[u8]) -> (r: String)
    ensures
        r@ == digest_text(data@),
        r@.len() == 64,
{
    let mut h = StreamHash::new();
    h.update(data);
    proof {
        assert(h@ =~= data@);
    }
    finish_hex(h)
}

} // verus!
