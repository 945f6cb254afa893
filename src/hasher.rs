use vstd::prelude::*;
use vstd::string::StringSliceAdditionalSpecFns;

use crate::digest::{StreamHash, digest_text, finish_hex};
use crate::records::{FileChunk, FileHash};

verus! {

/// The running hash of one file that is still being read.
pub struct Accumulator {
    pub name: String,
    pub state: StreamHash,
}

/// The hasher's shared table: at most one running hash per file identity.
pub struct AccumulatorTable {
    entries: Vec<Accumulator>,
    model: Ghost<Map<Seq<char>, Seq<u8>>>,
}

/// The bytes recorded for `name` so far, empty when it has no entry.
pub open spec fn bytes_of(t: Map<Seq<char>, Seq<u8>>, name: Seq<char>) -> Seq<u8> {
    if t.contains_key(name) {
        t[name]
    } else {
        Seq::empty()
    }
}

/// What folding one chunk record into the table does: the new table, and the
/// finished `(identity, digest)` record, if any.
pub open spec fn absorb_step(
    t: Map<Seq<char>, Seq<u8>>,
    name: Seq<char>,
    data: Option<Seq<u8>>,
) -> (Map<Seq<char>, Seq<u8>>, Option<(Seq<char>, Seq<char>)>) {
    match data {
        Some(d) => (t.insert(name, bytes_of(t, name) + d), None),
        None => (t.remove(name), Some((name, digest_text(bytes_of(t, name))))),
    }
}

impl AccumulatorTable {
    /// Each entry holds a distinct identity, and the model maps exactly those
    /// identities to the bytes that their running hashes have absorbed.
    pub closed spec fn wf(&self) -> bool {
        &&& forall|i: int, j: int|
            0 <= i < j < self.entries@.len() ==> self.entries@[i].name@
                != self.entries@[j].name@
        &&& forall|i: int|
            0 <= i < self.entries@.len() ==> self.model@.contains_key(
                #[trigger] self.entries@[i].name@,
            ) && self.model@[self.entries@[i].name@] == self.entries@[i].state@
        &&& forall|k: Seq<char>|
            self.model@.contains_key(k) ==> exists|i: int|
                0 <= i < self.entries@.len() && #[trigger] self.entries@[i].name@ == k
    }

    /// Identity to the bytes absorbed so far for that file.
    pub closed spec fn view(&self) -> Map<Seq<char>, Seq<u8>> {
        self.model@
    }

    /// Number of live entries.
    pub closed spec fn live(&self) -> nat {
        self.entries@.len()
    }

    pub proof fn lemma_live_is_domain_size(&self)
        requires
            self.wf(),
        ensures
            self.view().dom().finite(),
            self.live() == self.view().dom().len(),
    {
        let names = self.entries@.map_values(|e: Accumulator| e.name@);
        assert forall|i: int, j: int| 0 <= i < j < names.len() implies names[i] != names[j] by {
            assert(self.entries@[i].name@ != self.entries@[j].name@);
        }
        assert(names.no_duplicates());
        assert(self.view().dom() =~= names.to_set()) by {
            assert forall|k: Seq<char>| self.view().dom().contains(k) implies names.to_set().contains(k) by {
                let i = choose|i: int| 0 <= i < self.entries@.len() && #[trigger] self.entries@[i].name@ == k;
                assert(names[i] == k);
            }
            assert forall|k: Seq<char>| names.to_set().contains(k) implies self.view().dom().contains(k) by {
                let i = choose|i: int| 0 <= i < names.len() && names[i] == k;
                assert(self.entries@[i].name@ == k);
            }
        }
        names.unique_seq_to_set();
    }

    pub fn new() -> (r: AccumulatorTable)
        ensures
            r.wf(),
            r.view() == Map::<Seq<char>, Seq<u8>>::empty(),
    {
        AccumulatorTable { entries: Vec::new(), model: Ghost(Map::empty()) }
    }

    /// The number of files with a running hash.
    pub fn len(&self) -> (r: usize)
        requires
            self.wf(),
        ensures
            r == self.view().dom().len(),
    {
        proof {
            self.lemma_live_is_domain_size();
        }
        self.entries.len()
    }

    /// Whether `name` has a running hash.
    pub fn contains(&self, name: &String) -> (r: bool)
        requires
            self.wf(),
        ensures
            r == self.view().contains_key(name@),
    {
        match self.find(name) {
            Some(_) => true,
            None => false,
        }
    }

    /// The position of the entry for `name`, if there is one.
    fn find(&self, name: &String) -> (r: Option<usize>)
        requires
            self.wf(),
        ensures
            match r {
                Some(i) => i < self.entries@.len() && self.entries@[i as int].name@ == name@,
                None => !self.view().contains_key(name@),
            },
    {
        let mut i: usize = 0;
        while i < self.entries.len()
            invariant
                self.wf(),
                i <= self.entries@.len(),
                forall|j: int| 0 <= j < i ==> self.entries@[j].name@ != name@,
            decreases self.entries@.len() - i,
        {
            if self.entries[i].name == *name {
                return Some(i);
            }
            i = i + 1;
        }
        None
    }

    /// Takes the entry at `i` out of the table.
    fn take(&mut self, i: usize) -> (r: Accumulator)
        requires
            old(self).wf(),
            i < old(self).entries@.len(),
        ensures
            final(self).wf(),
            r.name@ == old(self).entries@[i as int].name@,
            r.state@ == old(self).view()[r.name@],
            final(self).view() == old(self).view().remove(r.name@),
            final(self).live() + 1 == old(self).live(),
    {
        let ghost before = self.entries@;
        let e = self.entries.swap_remove(i);
        let ghost k = e.name@;
        self.model = Ghost(self.model@.remove(k));
        proof {
            let after = self.entries@;
            assert forall|a: int|
                0 <= a < after.len() implies after[a] == before[a] || (a == i && after[a]
                == before[before.len() - 1]) by {}
            assert forall|a: int, b: int|
                0 <= a < b < after.len() implies after[a].name@ != after[b].name@ by {
                let pa = if a == i { before.len() - 1 } else { a };
                let pb = if b == i { before.len() - 1 } else { b };
                assert(before[pa].name@ != before[pb].name@);
            }
            assert forall|a: int|
                0 <= a < after.len() implies self.model@.contains_key(#[trigger] after[a].name@)
                && self.model@[after[a].name@] == after[a].state@ by {
                let pa = if a == i { before.len() - 1 } else { a };
                assert(before[pa].name@ != before[i as int].name@);
            }
            assert forall|q: Seq<char>| self.model@.contains_key(q) implies exists|a: int|
                0 <= a < after.len() && #[trigger] after[a].name@ == q by {
                let p = choose|p: int| 0 <= p < before.len() && #[trigger] before[p].name@ == q;
                if p == before.len() - 1 {
                    assert(after[i as int].name@ == q);
                } else {
                    assert(after[p].name@ == q);
                }
            }
        }
        e
    }

    /// Puts an entry for an identity that has none into the table.
    fn put(&mut self, e: Accumulator)
        requires
            old(self).wf(),
            !old(self).view().contains_key(e.name@),
        ensures
            final(self).wf(),
            final(self).view() == old(self).view().insert(e.name@, e.state@),
            final(self).live() == old(self).live() + 1,
    {
        let ghost before = self.entries@;
        let ghost k = e.name@;
        let ghost v = e.state@;
        self.entries.push(e);
        self.model = Ghost(self.model@.insert(k, v));
        proof {
            let after = self.entries@;
            assert forall|a: int| 0 <= a < before.len() implies before[a].name@ != k by {
                assert(self.model@.contains_key(before[a].name@));
            }
            assert forall|a: int, b: int|
                0 <= a < b < after.len() implies after[a].name@ != after[b].name@ by {
                if b == before.len() {
                    assert(after[a] == before[a]);
                }
            }
            assert forall|q: Seq<char>| self.model@.contains_key(q) implies exists|a: int|
                0 <= a < after.len() && #[trigger] after[a].name@ == q by {
                if q == k {
                    assert(after[before.len() as int].name@ == q);
                } else {
                    let p = choose|p: int| 0 <= p < before.len() && #[trigger] before[p].name@ == q;
                    assert(after[p].name@ == q);
                }
            }
        }
    }

    /// Folds one chunk record into the table. Bytes extend the running hash of
    /// their file, starting one if the file has none; the end-of-file record
    /// finishes the file's hash (the hash of no bytes if none were seen),
    /// removes its entry and returns the digest.
    pub fn absorb(&mut self, chunk: FileChunk) -> (r: Option<FileHash>)
        requires
            old(self).wf(),
        ensures
            final(self).wf(),
            final(self).view() == absorb_step(old(self).view(), chunk@.0, chunk@.1).0,
            match r {
                Some(h) => absorb_step(old(self).view(), chunk@.0, chunk@.1).1 == Some(h@),
                None => absorb_step(old(self).view(), chunk@.0, chunk@.1).1 is None,
            },
            r matches Some(h) ==> h.hash@.len() == 64,
    {
        let ghost t = self.view();
        let ghost name = chunk.file_name@;
        let pos = self.find(&chunk.file_name);
        match chunk.chunk {
            Some(data) => {
                let mut e = match pos {
                    Some(i) => self.take(i),
                    None => Accumulator { name: chunk.file_name, state: StreamHash::new() },
                };
                e.state.update(data.as_slice());
                proof {
                    assert(e.state@ =~= bytes_of(t, name) + data@);
                }
                self.put(e);
                proof {
                    assert(self.view() =~= t.insert(name, bytes_of(t, name) + data@));
                }
                None
            },
            None => {
                let state = match pos {
                    Some(i) => self.take(i).state,
                    None => StreamHash::new(),
                };
                proof {
                    assert(state@ =~= bytes_of(t, name));
                    assert(self.view() =~= t.remove(name));
                }
                let hash = finish_hex(state);
                Some(FileHash { name: chunk.file_name, hash })
            },
        }
    }
}

/// The shard of a name's bytes among `n` shards: the bytes are added up one by
/// one, modulo `n`.
pub open spec fn shard_spec(b: Seq<u8>, n: nat) -> nat
    decreases b.len(),
{
    if b.len() == 0 || n == 0 {
        0
    } else {
        (((shard_spec(b.drop_last(), n) + b.last()) as int) % (n as int)) as nat
    }
}

/// Which of `shards` tables holds the running hash of `name`. It depends on
/// the name alone, so every chunk of one file meets the same table, while
/// different files spread over the tables and can be hashed under different
/// locks.
pub fn shard_of(name: &str, shards: usize) -> (r: usize)
    requires
        shards > 0,
    ensures
        r < shards,
        r == shard_spec(name.spec_bytes(), shards as nat),
{
    let b = name.as_bytes();
    let mut acc: usize = 0;
    let mut i: usize = 0;
    while i < b.len()
        invariant
            b@ == name.spec_bytes(),
            i <= b@.len(),
            acc < shards,
            acc == shard_spec(b@.subrange(0, i as int), shards as nat),
        decreases b@.len() - i,
    {
        proof {
            assert(b@.subrange(0, i as int + 1).drop_last() =~= b@.subrange(0, i as int));
        }
        acc = ((acc as u128 + b[i] as u128) % shards as u128) as usize;
        i = i + 1;
    }
    proof {
        assert(b@.subrange(0, b@.len() as int) =~= b@);
    }
    acc
}

/// Folds a sequence of chunk records, in order, into a table: the final table
/// and the digest records emitted along the way.
pub open spec fn absorb_all(
    t: Map<Seq<char>, Seq<u8>>,
    recs: Seq<(Seq<char>, Option<Seq<u8>>)>,
) -> (Map<Seq<char>, Seq<u8>>, Seq<(Seq<char>, Seq<char>)>)
    decreases recs.len(),
{
    if recs.len() == 0 {
        (t, Seq::empty())
    } else {
        let (t1, out) = absorb_all(t, recs.drop_last());
        let (t2, emitted) = absorb_step(t1, recs.last().0, recs.last().1);
        match emitted {
            Some(e) => (t2, out.push(e)),
            None => (t2, out),
        }
    }
}

/// The chunks of a file, joined in order.
pub open spec fn joined(chunks: Seq<Seq<u8>>) -> Seq<u8>
    decreases chunks.len(),
{
    if chunks.len() == 0 {
        Seq::empty()
    } else {
        joined(chunks.drop_last()) + chunks.last()
    }
}

/// The records that the reader sends for one file cut into `chunks`: one
/// record per chunk, in order, and no end-of-file record.
pub open spec fn data_records(name: Seq<char>, chunks: Seq<Seq<u8>>) -> Seq<
    (Seq<char>, Option<Seq<u8>>),
> {
    chunks.map_values(|c: Seq<u8>| (name, Some(c)))
}

/// A file is mid-read after `recs` when some record brought bytes of it and no
/// end-of-file record for it came later.
pub open spec fn mid_read(recs: Seq<(Seq<char>, Option<Seq<u8>>)>, name: Seq<char>) -> bool {
    exists|i: int|
        0 <= i < recs.len() && #[trigger] recs[i].0 == name && recs[i].1 is Some && forall|j: int|
            i < j < recs.len() && #[trigger] recs[j].0 == name ==> recs[j].1 is Some
}

proof fn lemma_data_records_fold(t: Map<Seq<char>, Seq<u8>>, name: Seq<char>, chunks: Seq<Seq<u8>>)
    ensures
        absorb_all(t, data_records(name, chunks)).1 == Seq::<(Seq<char>, Seq<char>)>::empty(),
        absorb_all(t, data_records(name, chunks)).0 == (if chunks.len() == 0 {
            t
        } else {
            t.insert(name, bytes_of(t, name) + joined(chunks))
        }),
    decreases chunks.len(),
{
    let recs = data_records(name, chunks);
    if chunks.len() > 0 {
        let prefix = chunks.drop_last();
        assert(recs.drop_last() =~= data_records(name, prefix));
        lemma_data_records_fold(t, name, prefix);
        let t1 = absorb_all(t, recs.drop_last()).0;
        assert(bytes_of(t1, name) =~= bytes_of(t, name) + joined(prefix));
        assert(recs.last() == (name, Some(chunks.last())));
        assert(joined(chunks) == joined(prefix) + chunks.last());
        assert(bytes_of(t1, name) + chunks.last() =~= bytes_of(t, name) + joined(chunks));
        assert(t1.insert(name, bytes_of(t1, name) + chunks.last()) =~= t.insert(
            name,
            bytes_of(t, name) + joined(chunks),
        ));
    }
}

/// Chunking transparency: whatever chunks a file's content is cut into, the
/// streaming path emits exactly one record for the file, carrying the digest
/// of the whole content hashed in one pass, and leaves no entry behind.
pub proof fn lemma_chunking_transparent(
    t: Map<Seq<char>, Seq<u8>>,
    name: Seq<char>,
    chunks: Seq<Seq<u8>>,
)
    requires
        !t.contains_key(name),
    ensures
        absorb_all(t, data_records(name, chunks).push((name, None))).1 == seq![
            (name, digest_text(joined(chunks))),
        ],
        absorb_all(t, data_records(name, chunks).push((name, None))).0 == t,
{
    let recs = data_records(name, chunks).push((name, None));
    assert(recs.drop_last() =~= data_records(name, chunks));
    lemma_data_records_fold(t, name, chunks);
    let t1 = absorb_all(t, recs.drop_last()).0;
    assert(bytes_of(t1, name) =~= joined(chunks));
    assert(t1.remove(name) =~= t);
    assert(Seq::<(Seq<char>, Seq<char>)>::empty().push((name, digest_text(joined(chunks))))
        =~= seq![(name, digest_text(joined(chunks)))]);
}

/// The chunks that consecutive reads of the given lengths take from `content`,
/// starting at its first byte.
pub open spec fn consecutive_reads(content: Seq<u8>, lens: Seq<nat>) -> Seq<Seq<u8>>
    decreases lens.len(),
{
    if lens.len() == 0 {
        Seq::empty()
    } else {
        let before = total(lens.drop_last());
        consecutive_reads(content, lens.drop_last()).push(
            content.subrange(before as int, (before + lens.last()) as int),
        )
    }
}

/// The sum of the lengths.
pub open spec fn total(lens: Seq<nat>) -> nat
    decreases lens.len(),
{
    if lens.len() == 0 {
        0
    } else {
        total(lens.drop_last()) + lens.last()
    }
}

proof fn lemma_reads_join(content: Seq<u8>, lens: Seq<nat>)
    requires
        total(lens) <= content.len(),
    ensures
        joined(consecutive_reads(content, lens)) == content.subrange(0, total(lens) as int),
    decreases lens.len(),
{
    if lens.len() == 0 {
        assert(content.subrange(0, 0) =~= Seq::<u8>::empty());
    } else {
        let pre = lens.drop_last();
        lemma_reads_join(content, pre);
        let reads = consecutive_reads(content, lens);
        assert(reads.drop_last() == consecutive_reads(content, pre));
        assert(content.subrange(0, total(pre) as int) + content.subrange(
            total(pre) as int,
            total(lens) as int,
        ) =~= content.subrange(0, total(lens) as int));
    }
}

/// A file read to its end by consecutive reads, whatever their lengths,
/// yields one record from the streaming path, carrying the digest of the
/// file's whole content hashed in one pass.
pub proof fn lemma_file_digest_through_reads(
    t: Map<Seq<char>, Seq<u8>>,
    name: Seq<char>,
    content: Seq<u8>,
    lens: Seq<nat>,
)
    requires
        !t.contains_key(name),
        total(lens) == content.len(),
    ensures
        absorb_all(t, data_records(name, consecutive_reads(content, lens)).push((name, None))).1
            == seq![(name, digest_text(content))],
{
    lemma_reads_join(content, lens);
    assert(content.subrange(0, content.len() as int) =~= content);
    lemma_chunking_transparent(t, name, consecutive_reads(content, lens));
}

/// The records of one identity, in their order.
pub open spec fn records_of(recs: Seq<(Seq<char>, Option<Seq<u8>>)>, name: Seq<char>) -> Seq<
    (Seq<char>, Option<Seq<u8>>),
>
    decreases recs.len(),
{
    if recs.len() == 0 {
        Seq::empty()
    } else if recs.last().0 == name {
        records_of(recs.drop_last(), name).push(recs.last())
    } else {
        records_of(recs.drop_last(), name)
    }
}

/// The digest records emitted for one identity, in their order.
pub open spec fn emitted_for(out: Seq<(Seq<char>, Seq<char>)>, name: Seq<char>) -> Seq<
    (Seq<char>, Seq<char>),
>
    decreases out.len(),
{
    if out.len() == 0 {
        Seq::empty()
    } else if out.last().0 == name {
        emitted_for(out.drop_last(), name).push(out.last())
    } else {
        emitted_for(out.drop_last(), name)
    }
}

/// Files hashed side by side do not disturb each other: whatever records of
/// other files are interleaved with a file's own, the digest records emitted
/// for it, and its entry in the table, are those of its own records alone.
pub proof fn lemma_interleaving_transparent(
    t: Map<Seq<char>, Seq<u8>>,
    recs: Seq<(Seq<char>, Option<Seq<u8>>)>,
    name: Seq<char>,
)
    ensures
        emitted_for(absorb_all(t, recs).1, name) == emitted_for(
            absorb_all(t, records_of(recs, name)).1,
            name,
        ),
        absorb_all(t, recs).0.contains_key(name) == absorb_all(t, records_of(recs, name)).0.contains_key(
            name,
        ),
        bytes_of(absorb_all(t, recs).0, name) == bytes_of(
            absorb_all(t, records_of(recs, name)).0,
            name,
        ),
    decreases recs.len(),
{
    if recs.len() > 0 {
        let pre = recs.drop_last();
        let last = recs.last();
        lemma_interleaving_transparent(t, pre, name);
        let (a0, aout) = absorb_all(t, pre);
        let own = records_of(recs, name);
        let own_pre = records_of(pre, name);
        let (b0, bout) = absorb_all(t, own_pre);
        let (a1, ae) = absorb_step(a0, last.0, last.1);
        if last.0 == name {
            assert(own.drop_last() =~= own_pre);
            assert(own.last() == last);
            assert(bytes_of(a0, name) == bytes_of(b0, name));
            let (b1, be) = absorb_step(b0, last.0, last.1);
            assert(ae == be);
            match ae {
                Some(e) => {
                    assert(aout.push(e).drop_last() =~= aout);
                    assert(bout.push(e).drop_last() =~= bout);
                },
                None => {},
            }
        } else {
            assert(own =~= own_pre);
            assert(bytes_of(a1, name) == bytes_of(a0, name));
            match ae {
                Some(e) => {
                    assert(aout.push(e).drop_last() =~= aout);
                },
                None => {},
            }
        }
    }
}

/// A file without content: its end-of-file record alone yields the digest of
/// the empty input.
pub proof fn lemma_empty_file_digest(t: Map<Seq<char>, Seq<u8>>, name: Seq<char>)
    requires
        !t.contains_key(name),
    ensures
        absorb_all(t, seq![(name, None::<Seq<u8>>)]).1 == seq![
            (name, digest_text(Seq::<u8>::empty())),
        ],
{
    lemma_chunking_transparent(t, name, Seq::empty());
    assert(data_records(name, Seq::<Seq<u8>>::empty()).push((name, None)) =~= seq![
        (name, None::<Seq<u8>>),
    ]);
    assert(joined(Seq::<Seq<u8>>::empty()) =~= Seq::<u8>::empty());
}

/// The table holds an entry exactly for the files that are mid-read: after the
/// end-of-file record of a file is folded, the file has no entry.
pub proof fn lemma_table_holds_files_mid_read(recs: Seq<(Seq<char>, Option<Seq<u8>>)>)
    ensures
        forall|name: Seq<char>|
            #[trigger] absorb_all(Map::empty(), recs).0.contains_key(name) <==> mid_read(
                recs,
                name,
            ),
    decreases recs.len(),
{
    if recs.len() > 0 {
        let prefix = recs.drop_last();
        lemma_table_holds_files_mid_read(prefix);
        let last = recs.last();
        let n = recs.len() - 1;
        let t1 = absorb_all(Map::empty(), prefix).0;
        assert(absorb_all(Map::empty(), recs).0 == absorb_step(t1, last.0, last.1).0);
        assert forall|name: Seq<char>|
            #[trigger] absorb_all(Map::empty(), recs).0.contains_key(name) <==> mid_read(
                recs,
                name,
            ) by {
            if name != last.0 {
                if mid_read(prefix, name) {
                    let i = choose|i: int|
                        0 <= i < prefix.len() && #[trigger] prefix[i].0 == name && prefix[i].1 is Some
                            && forall|j: int|
                            i < j < prefix.len() && #[trigger] prefix[j].0 == name
                                ==> prefix[j].1 is Some;
                    assert(recs[i].0 == name);
                    assert forall|j: int|
                        i < j < recs.len() && #[trigger] recs[j].0 == name implies recs[j].1 is Some by {
                        assert(prefix[j].0 == name);
                    }
                }
                if mid_read(recs, name) {
                    let i = choose|i: int|
                        0 <= i < recs.len() && #[trigger] recs[i].0 == name && recs[i].1 is Some
                            && forall|j: int|
                            i < j < recs.len() && #[trigger] recs[j].0 == name ==> recs[j].1 is Some;
                    assert(prefix[i].0 == name);
                    assert forall|j: int|
                        i < j < prefix.len() && #[trigger] prefix[j].0 == name implies prefix[j].1 is Some by {
                        assert(recs[j].0 == name);
                    }
                }
            } else if last.1 is Some {
                assert(recs[n].0 == name);
            } else {
                if mid_read(recs, name) {
                    let i = choose|i: int|
                        0 <= i < recs.len() && #[trigger] recs[i].0 == name && recs[i].1 is Some
                            && forall|j: int|
                            i < j < recs.len() && #[trigger] recs[j].0 == name ==> recs[j].1 is Some;
                    assert(recs[n].0 == name);
                }
            }
        }
    }
}

} // verus!
