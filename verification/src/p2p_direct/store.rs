//! The blind store, and upload and download through it.
//!
//! A store maps an opaque identifier to bytes and learns nothing else. An upload frames the
//! stream, seals every block, pads their number with decoys, and stores them and the sealed
//! manifest under random identifiers. A download goes the other way.

use crate::bytes::{copy_bytes, push_all, read_le, same_bytes, to_array};
use crate::p2p_direct::crypto::{
    block_key, derive_block_key, derive_manifest_key, manifest_key, open, random_array, random_fill,
    random_nonce, random_object_id, seal, RootKey, AEAD_TAG_LEN, NONCE_LEN,
};
use crate::p2p_direct::encode::{
    block_row, block_rows, blocks_for, decoded_manifest, ladder_total,
    law_blocks_are_as_few_as_hold_the_stream, law_blocks_come_in_stream_order, lemma_blocks_for,
    manifest_bytes, manifest_len, ordered_rows, row_index, BlockRef, EncodeParams, Ladder, Manifest,
    MANIFEST_VERSION,
};
use crate::p2p_direct::{Error, Failure, ReadCap};
use crate::primitives::{aead_opened, wipe_array, xchacha_seal, AEAD_MESSAGE_LIMIT};
use crate::text::{chars_of, copy_text, decimal, decimal_spec, hex, hex_spec, push_text, string_of};
use vstd::prelude::*;
use vstd::slice::slice_subrange;

verus! {

// ── Stores ───────────────────────────────────────────────────────────────────

/// A store that holds bytes under opaque identifiers. It must not record who wrote or read them.
///
/// What is proved of a transfer holds of stores that define `objects`, as `InMemoryStore` does. A
/// store that keeps the default does not meet the contract of `put`, and nothing is proved of
/// transfers through it: a store on the network is such a store.
pub trait BlindStore {
    /// What the store holds. The default is one unknown value for every store.
    open spec fn objects(&self) -> Map<Seq<u8>, Seq<u8>> {
        arbitrary()
    }

    /// Whether the store serves every request that it can. A store elsewhere may fail at any time.
    open spec fn answers(&self) -> bool {
        false
    }

    /// Stores `data` under `id`. An identifier in use is refused.
    fn put(&mut self, id: &[u8; 32], data: &[u8]) -> (r: Result<(), Error>)
        ensures
            final(self).answers() == old(self).answers(),
            r is Ok ==> !old(self).objects().contains_key(id@),
            r is Ok ==> final(self).objects() == old(self).objects().insert(id@, data@),
            old(self).answers() && !old(self).objects().contains_key(id@) ==> r is Ok,
            old(self).answers() && r is Err ==> final(self).objects() == old(self).objects(),
            old(self).answers() ==> (r matches Err(e) ==> e@ == Failure::Store(
                "object already exists"@,
            )),
    ;

    /// The bytes stored under `id`.
    fn get(&self, id: &[u8; 32]) -> (r: Result<Vec<u8>, Error>)
        ensures
            r matches Ok(d) ==> self.objects().contains_key(id@) && d@ == self.objects()[id@],
            self.answers() && self.objects().contains_key(id@) ==> r is Ok,
            self.answers() ==> (r matches Err(e) ==> e@ == Failure::Store("object not found"@)),
    ;
}

/// The map that a list of entries stands for; later entries win.
pub open spec fn objects_of(entries: Seq<([u8; 32], Vec<u8>)>) -> Map<Seq<u8>, Seq<u8>>
    decreases entries.len(),
{
    if entries.len() == 0 {
        Map::empty()
    } else {
        let e = entries[entries.len() - 1];
        objects_of(entries.subrange(0, entries.len() - 1)).insert(e.0@, e.1@)
    }
}

/// A store in memory.
pub struct InMemoryStore {
    entries: Vec<([u8; 32], Vec<u8>)>,
}

impl InMemoryStore {
    /// The entries in the order in which they were put.
    pub closed spec fn entries(self) -> Seq<([u8; 32], Vec<u8>)> {
        self.entries@
    }

    /// No identifier is stored twice.
    #[verifier::type_invariant]
    spec fn distinct(self) -> bool {
        distinct_ids(self.entries@)
    }
}

/// No identifier occurs twice.
pub open spec fn distinct_ids(entries: Seq<([u8; 32], Vec<u8>)>) -> bool {
    forall|i: int, j: int|
        0 <= i < j < entries.len() ==> (#[trigger] entries[i]).0@ != (#[trigger] entries[j]).0@
}

proof fn lemma_objects_of(entries: Seq<([u8; 32], Vec<u8>)>, i: int)
    requires
        distinct_ids(entries),
        0 <= i < entries.len(),
    ensures
        objects_of(entries).contains_key(entries[i].0@),
        objects_of(entries)[entries[i].0@] == entries[i].1@,
    decreases entries.len(),
{
    let init = entries.subrange(0, entries.len() - 1);
    if i < entries.len() - 1 {
        assert(init[i] == entries[i]);
        assert forall|a: int, b: int| 0 <= a < b < init.len() implies (#[trigger] init[a]).0@
            != (#[trigger] init[b]).0@ by {
            assert(entries[a].0@ != entries[b].0@);
        }
        lemma_objects_of(init, i);
        assert(entries[i].0@ != entries[entries.len() - 1].0@);
    }
}

proof fn lemma_objects_of_key(entries: Seq<([u8; 32], Vec<u8>)>, k: Seq<u8>)
    requires
        objects_of(entries).contains_key(k),
    ensures
        exists|i: int| 0 <= i < entries.len() && (#[trigger] entries[i]).0@ == k,
    decreases entries.len(),
{
    if entries.len() > 0 {
        let init = entries.subrange(0, entries.len() - 1);
        if entries[entries.len() - 1].0@ != k {
            lemma_objects_of_key(init, k);
            let i = choose|i: int| 0 <= i < init.len() && (#[trigger] init[i]).0@ == k;
            assert(entries[i].0@ == k);
        }
    }
}

proof fn lemma_objects_of_len(entries: Seq<([u8; 32], Vec<u8>)>)
    requires
        distinct_ids(entries),
    ensures
        objects_of(entries).dom().finite(),
        objects_of(entries).dom().len() == entries.len(),
    decreases entries.len(),
{
    if entries.len() > 0 {
        let init = entries.subrange(0, entries.len() - 1);
        let last = entries[entries.len() - 1];
        assert forall|a: int, b: int| 0 <= a < b < init.len() implies (#[trigger] init[a]).0@
            != (#[trigger] init[b]).0@ by {
            assert(entries[a].0@ != entries[b].0@);
        }
        lemma_objects_of_len(init);
        if objects_of(init).contains_key(last.0@) {
            lemma_objects_of_key(init, last.0@);
            let i = choose|i: int| 0 <= i < init.len() && (#[trigger] init[i]).0@ == last.0@;
            assert(entries[i].0@ != last.0@);
        }
        assert(objects_of(entries).dom() =~= objects_of(init).dom().insert(last.0@));
    } else {
        assert(objects_of(entries).dom() =~= Set::empty());
    }
}

impl InMemoryStore {
    /// A store that holds nothing.
    pub fn new() -> (r: Self)
        ensures
            r.objects() == Map::<Seq<u8>, Seq<u8>>::empty(),
            r.answers(),
    {
        InMemoryStore { entries: Vec::new() }
    }

    /// The number of objects.
    pub fn len(&self) -> (r: usize)
        ensures
            self.objects().dom().finite(),
            r == self.objects().dom().len(),
            r == self.entries().len(),
    {
        proof {
            use_type_invariant(self);
            lemma_objects_of_len(self.entries@);
        }
        self.entries.len()
    }

    /// Whether nothing is stored.
    pub fn is_empty(&self) -> (r: bool)
        ensures
            r == (self.objects() == Map::<Seq<u8>, Seq<u8>>::empty()),
    {
        let n: usize = self.len();
        proof {
            if n == 0 {
                assert(self.objects() =~= Map::empty());
            }
        }
        n == 0
    }

    /// The lengths of the objects in the order in which they were put.
    pub fn object_lengths(&self) -> (r: Vec<usize>)
        ensures
            r@.len() == self.entries().len(),
            forall|i: int|
                0 <= i < r@.len() ==> {
                    &&& #[trigger] r@[i] == self.entries()[i].1@.len()
                    &&& self.objects().contains_key(self.entries()[i].0@)
                    &&& r@[i] == self.objects()[self.entries()[i].0@].len()
                },
            forall|k: Seq<u8>| #[trigger]
                self.objects().contains_key(k) ==> exists|i: int|
                    0 <= i < r@.len() && (#[trigger] self.entries()[i]).0@ == k,
    {
        proof {
            use_type_invariant(self);
        }
        let mut out: Vec<usize> = Vec::new();
        let mut i: usize = 0;
        while i < self.entries.len()
            invariant
                i <= self.entries@.len(),
                out@.len() == i,
                forall|j: int| 0 <= j < i ==> #[trigger] out@[j] == self.entries@[j].1@.len(),
            decreases self.entries@.len() - i,
        {
            out.push(self.entries[i].1.len());
            i = i + 1;
        }
        proof {
            assert forall|j: int| 0 <= j < out@.len() implies {
                &&& #[trigger] out@[j] == self.entries()[j].1@.len()
                &&& self.objects().contains_key(self.entries()[j].0@)
                &&& out@[j] == self.objects()[self.entries()[j].0@].len()
            } by {
                lemma_objects_of(self.entries@, j);
            }
            assert forall|k: Seq<u8>| #[trigger] self.objects().contains_key(k) implies exists|
                j: int,
            | 0 <= j < out@.len() && (#[trigger] self.entries()[j]).0@ == k by {
                lemma_objects_of_key(self.entries@, k);
                let j = choose|j: int|
                    0 <= j < self.entries@.len() && (#[trigger] self.entries@[j]).0@ == k;
                assert(self.entries()[j].0@ == k);
            }
        }
        out
    }

    fn position(&self, id: &[u8; 32]) -> (r: Option<usize>)
        ensures
            match r {
                Some(i) => i < self.entries@.len() && self.entries@[i as int].0@ == id@,
                None => forall|i: int|
                    0 <= i < self.entries@.len() ==> (#[trigger] self.entries@[i]).0@ != id@,
            },
    {
        let mut i: usize = 0;
        while i < self.entries.len()
            invariant
                i <= self.entries@.len(),
                forall|j: int| 0 <= j < i ==> (#[trigger] self.entries@[j]).0@ != id@,
            decreases self.entries@.len() - i,
        {
            if same_bytes(&self.entries[i].0, id) {
                return Some(i);
            }
            i = i + 1;
        }
        None
    }
}

impl BlindStore for InMemoryStore {
    closed spec fn objects(&self) -> Map<Seq<u8>, Seq<u8>> {
        objects_of(self.entries@)
    }

    closed spec fn answers(&self) -> bool {
        true
    }

    fn put(&mut self, id: &[u8; 32], data: &[u8]) -> (r: Result<(), Error>) {
        proof {
            use_type_invariant(&*self);
        }
        let at: Option<usize> = self.position(id);
        if let Some(i) = at {
            proof {
                lemma_objects_of(self.entries@, i as int);
            }
            return Err(Error::Store(copy_text("object already exists")));
        }
        proof {
            if self.objects().contains_key(id@) {
                lemma_objects_of_key(self.entries@, id@);
            }
        }
        let mut entries: Vec<([u8; 32], Vec<u8>)> = Vec::new();
        std::mem::swap(&mut entries, &mut self.entries);
        let ghost before = entries@;
        entries.push((*id, copy_bytes(data)));
        proof {
            assert(entries@.subrange(0, entries@.len() - 1) =~= before);
        }
        self.entries = entries;
        Ok(())
    }

    fn get(&self, id: &[u8; 32]) -> (r: Result<Vec<u8>, Error>) {
        proof {
            use_type_invariant(self);
        }
        match self.position(id) {
            Some(i) => {
                proof {
                    lemma_objects_of(self.entries@, i as int);
                }
                Ok(copy_bytes(&self.entries[i].1))
            },
            None => {
                proof {
                    if self.objects().contains_key(id@) {
                        lemma_objects_of_key(self.entries@, id@);
                    }
                }
                Err(Error::Store(copy_text("object not found")))
            },
        }
    }
}

// ── What a transfer is ───────────────────────────────────────────────────────

/// What is sent of the data: everything, or nothing where blocks hold nothing.
pub open spec fn stream_of(data: Seq<u8>, block_size: nat) -> Seq<u8> {
    if block_size == 0 {
        Seq::empty()
    } else {
        data
    }
}

/// Block `i` of the data, filled up with zeros.
pub open spec fn padded(data: Seq<u8>, block_size: nat, i: int) -> Seq<u8> {
    Seq::new(
        block_size,
        |k: int|
            if i * block_size + k < data.len() {
                data[i * block_size + k]
            } else {
                0u8
            },
    )
}

/// The store holds block `i` of the data under the reference, sealed with its key.
pub open spec fn block_stored(
    objects: Map<Seq<u8>, Seq<u8>>,
    root: Seq<u8>,
    data: Seq<u8>,
    block_size: nat,
    b: (Seq<u8>, Seq<u8>, Option<u32>),
    i: int,
) -> bool {
    &&& b.2 == Some(i as u32)
    &&& row_index(b) == i
    &&& objects.contains_key(b.0)
    &&& aead_opened(block_key(root, i as u32), b.1, Seq::empty(), objects[b.0]) == Some(
        padded(data, block_size, i),
    )
}

/// The store has grown by one object of the same length for each reference: what it held is
/// unchanged, no identifier was in use, none is used twice, and nothing else is new.
pub open spec fn grown(
    before: Map<Seq<u8>, Seq<u8>>,
    now: Map<Seq<u8>, Seq<u8>>,
    rows: Seq<(Seq<u8>, Seq<u8>, Option<u32>)>,
    object_len: nat,
) -> bool {
    &&& forall|k: Seq<u8>| #[trigger]
        before.contains_key(k) ==> now.contains_key(k) && now[k] == before[k]
    &&& forall|i: int|
        0 <= i < rows.len() ==> {
            &&& !before.contains_key((#[trigger] rows[i]).0)
            &&& now.contains_key(rows[i].0)
            &&& now[rows[i].0].len() == object_len
        }
    &&& forall|i: int, j: int|
        0 <= i < j < rows.len() ==> (#[trigger] rows[i]).0 != (#[trigger] rows[j]).0
    &&& forall|k: Seq<u8>| #[trigger]
        now.contains_key(k) ==> before.contains_key(k) || exists|i: int|
            0 <= i < rows.len() && (#[trigger] rows[i]).0 == k
    &&& before.dom().finite() ==> now.dom().finite() && now.dom().len() == before.dom().len()
        + rows.len()
}

proof fn lemma_grown_put(
    before: Map<Seq<u8>, Seq<u8>>,
    now: Map<Seq<u8>, Seq<u8>>,
    rows: Seq<(Seq<u8>, Seq<u8>, Option<u32>)>,
    object_len: nat,
    b: (Seq<u8>, Seq<u8>, Option<u32>),
    data: Seq<u8>,
)
    requires
        grown(before, now, rows, object_len),
        !now.contains_key(b.0),
        data.len() == object_len,
    ensures
        grown(before, now.insert(b.0, data), rows.push(b), object_len),
{
    let after = now.insert(b.0, data);
    let more = rows.push(b);
    assert forall|k: Seq<u8>| #[trigger] after.contains_key(k) implies before.contains_key(k)
        || exists|i: int| 0 <= i < more.len() && (#[trigger] more[i]).0 == k by {
        if k == b.0 {
            assert(more[rows.len() as int].0 == k);
        } else {
            assert(now.contains_key(k));
            if !before.contains_key(k) {
                let i = choose|i: int| 0 <= i < rows.len() && (#[trigger] rows[i]).0 == k;
                assert(more[i].0 == k);
            }
        }
    }
    assert(after.dom() =~= now.dom().insert(b.0));
}

// ── Reading a transfer ───────────────────────────────────────────────────────

/// The manifest in a store object: the nonce, and the sealed bytes.
pub open spec fn opened_manifest(object: Seq<u8>, root: Seq<u8>) -> Result<
    (u16, u32, u64, Seq<(Seq<u8>, Seq<u8>, Option<u32>)>),
    Failure,
> {
    if object.len() < NONCE_LEN {
        Err(Failure::Malformed("manifest object too short"@))
    } else {
        match aead_opened(
            manifest_key(root),
            object.subrange(0, 24),
            Seq::empty(),
            object.subrange(24, object.len() as int),
        ) {
            None => Err(Failure::Crypto),
            Some(bytes) => match decoded_manifest(bytes) {
                None => Err(Failure::Serialize),
                Some(m) => Ok(m),
            },
        }
    }
}

/// The shorter of a block and what remains.
pub open spec fn taken(block_size: nat, real_len: nat, written: nat) -> int {
    if block_size + written <= real_len {
        block_size as int
    } else {
        real_len - written
    }
}

/// What the first `n` blocks hold, put together in order.
pub open spec fn assembled(
    objects: Map<Seq<u8>, Seq<u8>>,
    root: Seq<u8>,
    ordered: Seq<(Seq<u8>, Seq<u8>, Option<u32>)>,
    block_size: nat,
    real_len: nat,
    n: nat,
) -> Result<Seq<u8>, Failure>
    decreases n,
{
    if n == 0 {
        Ok(Seq::empty())
    } else {
        match assembled(objects, root, ordered, block_size, real_len, (n - 1) as nat) {
            Err(f) => Err(f),
            Ok(out) => {
                let b = ordered[n - 1];
                if row_index(b) != n - 1 {
                    Err(Failure::Malformed("real block indices are not contiguous"@))
                } else if !objects.contains_key(b.0) {
                    Err(Failure::Store("object not found"@))
                } else {
                    match aead_opened(
                        block_key(root, (n - 1) as u32),
                        b.1,
                        Seq::empty(),
                        objects[b.0],
                    ) {
                        None => Err(Failure::Crypto),
                        Some(p) => if p.len() != block_size {
                            Err(Failure::Malformed("block plaintext has wrong length"@))
                        } else {
                            Ok(out + p.subrange(0, taken(block_size, real_len, out.len())))
                        },
                    }
                }
            },
        }
    }
}

/// Why a manifest is refused before any block is fetched.
pub open spec fn manifest_fault(m: (u16, u32, u64, Seq<(Seq<u8>, Seq<u8>, Option<u32>)>)) -> Option<
    Failure,
> {
    let listed = ordered_rows(m.3).len();
    let expected = blocks_for((m.2 as usize) as nat, m.1 as nat);
    if m.0 != MANIFEST_VERSION {
        Some(Failure::Malformed("unsupported manifest version "@ + decimal_spec(m.0 as nat)))
    } else if m.1 == 0 && m.2 > 0 {
        Some(Failure::Malformed("manifest has no block size"@))
    } else if listed != expected {
        Some(
            Failure::Malformed(
                "manifest lists "@ + decimal_spec(listed) + " real blocks but real_len implies "@
                    + decimal_spec(expected),
            ),
        )
    } else {
        None
    }
}

/// What a manifest promises, put together from the store.
pub open spec fn decoded_transfer(
    objects: Map<Seq<u8>, Seq<u8>>,
    root: Seq<u8>,
    m: (u16, u32, u64, Seq<(Seq<u8>, Seq<u8>, Option<u32>)>),
) -> Result<Seq<u8>, Failure> {
    let ordered = ordered_rows(m.3);
    match manifest_fault(m) {
        Some(f) => Err(f),
        None => match assembled(objects, root, ordered, m.1 as nat, m.2 as nat, ordered.len()) {
            Err(f) => Err(f),
            Ok(out) => if out.len() != m.2 {
                Err(Failure::Malformed("reassembled length mismatch"@))
            } else {
                Ok(out)
            },
        },
    }
}

/// What a capability gives access to in a store.
pub open spec fn downloaded(
    objects: Map<Seq<u8>, Seq<u8>>,
    root: Seq<u8>,
    manifest_id: Seq<u8>,
) -> Result<Seq<u8>, Failure> {
    if !objects.contains_key(manifest_id) {
        Err(Failure::Store("object not found"@))
    } else {
        match opened_manifest(objects[manifest_id], root) {
            Err(f) => Err(f),
            Ok(m) => decoded_transfer(objects, root, m),
        }
    }
}

/// What a download has appended before it stopped: the first blocks that an accepted manifest
/// lists.
pub open spec fn partly_downloaded(
    objects: Map<Seq<u8>, Seq<u8>>,
    root: Seq<u8>,
    manifest_id: Seq<u8>,
    part: Seq<u8>,
) -> bool {
    &&& objects.contains_key(manifest_id)
    &&& opened_manifest(objects[manifest_id], root) matches Ok(m) && {
        let ordered = ordered_rows(m.3);
        &&& manifest_fault(m) is None
        &&& exists|k: nat|
            k <= ordered.len() && #[trigger] assembled(
                objects,
                root,
                ordered,
                m.1 as nat,
                m.2 as nat,
                k,
            ) == Ok::<Seq<u8>, Failure>(part)
    }
}

/// A transfer of the data stands in the store under the manifest identifier: its blocks and
/// decoys, in number on the ladder and all of one length, and the manifest, which lists them in
/// some order.
pub open spec fn transferred(
    before: Map<Seq<u8>, Seq<u8>>,
    now: Map<Seq<u8>, Seq<u8>>,
    root: Seq<u8>,
    manifest_id: Seq<u8>,
    data: Seq<u8>,
    params: EncodeParams,
    reals: Seq<(Seq<u8>, Seq<u8>, Option<u32>)>,
    decoys: Seq<(Seq<u8>, Seq<u8>, Option<u32>)>,
) -> bool {
    let block_size = params.block_size as nat;
    let stream = stream_of(data, block_size);
    &&& reals.len() == blocks_for(stream.len(), block_size)
    &&& reals.len() + decoys.len() == ladder_total(params.ladder, reals.len())
    &&& forall|i: int|
        0 <= i < reals.len() ==> block_stored(now, root, data, block_size, #[trigger] reals[i], i)
    &&& forall|i: int| 0 <= i < decoys.len() ==> (#[trigger] decoys[i]).2 is None
    &&& !before.contains_key(manifest_id)
    &&& now.contains_key(manifest_id)
    &&& grown(
        before,
        now.remove(manifest_id),
        reals + decoys,
        (block_size + AEAD_TAG_LEN) as nat,
    )
    &&& opened_manifest(now[manifest_id], root) matches Ok(m) && {
        &&& m.0 == MANIFEST_VERSION
        &&& m.1 == params.block_size as u32
        &&& m.2 == stream.len()
        &&& m.3.to_multiset() == (reals + decoys).to_multiset()
    }
}

proof fn lemma_assembled(
    objects: Map<Seq<u8>, Seq<u8>>,
    root: Seq<u8>,
    data: Seq<u8>,
    block_size: nat,
    reals: Seq<(Seq<u8>, Seq<u8>, Option<u32>)>,
    n: nat,
)
    requires
        block_size > 0,
        reals.len() == blocks_for(data.len(), block_size),
        n <= reals.len(),
        forall|i: int|
            0 <= i < reals.len() ==> block_stored(
                objects,
                root,
                data,
                block_size,
                #[trigger] reals[i],
                i,
            ),
    ensures
        assembled(objects, root, reals, block_size, data.len(), n) == Ok::<Seq<u8>, Failure>(
            data.subrange(
                0,
                if n * block_size <= data.len() {
                    (n * block_size) as int
                } else {
                    data.len() as int
                },
            ),
        ),
    decreases n,
{
    if n == 0 {
        assert(0 * block_size == 0) by (nonlinear_arith);
        assert(data.subrange(0, 0) =~= Seq::empty());
    } else {
        let i = n - 1;
        lemma_assembled(objects, root, data, block_size, reals, i as nat);
        crate::p2p_direct::encode::law_blocks_cover(data.len(), block_size, i as nat);
        assert(block_stored(objects, root, data, block_size, reals[i], i));
        assert(n * block_size == i * block_size + block_size) by (nonlinear_arith)
            requires
                n == i + 1,
        ;
        let out = data.subrange(0, i * block_size);
        let p = padded(data, block_size, i);
        let take = taken(block_size, data.len(), out.len());
        assert(out + p.subrange(0, take) =~= data.subrange(0, i * block_size + take));
    }
}

/// What was uploaded comes back: the capability gives access to exactly the data that was sent.
pub proof fn law_download_after_upload(
    before: Map<Seq<u8>, Seq<u8>>,
    now: Map<Seq<u8>, Seq<u8>>,
    root: Seq<u8>,
    manifest_id: Seq<u8>,
    data: Seq<u8>,
    params: EncodeParams,
    reals: Seq<(Seq<u8>, Seq<u8>, Option<u32>)>,
    decoys: Seq<(Seq<u8>, Seq<u8>, Option<u32>)>,
)
    requires
        transferred(before, now, root, manifest_id, data, params, reals, decoys),
        params.block_size <= u32::MAX,
        data.len() <= usize::MAX,
    ensures
        downloaded(now, root, manifest_id) == Ok::<Seq<u8>, Failure>(
            stream_of(data, params.block_size as nat),
        ),
{
    let block_size = params.block_size as nat;
    let stream = stream_of(data, block_size);
    let m = opened_manifest(now[manifest_id], root)->Ok_0;
    law_blocks_come_in_stream_order(reals, decoys, m.3);
    if block_size > 0 {
        lemma_assembled(now, root, data, block_size, reals, reals.len());
        lemma_blocks_for(data.len(), block_size);
        let n = reals.len();
        assert(data.subrange(0, data.len() as int) =~= data);
    }
}

/// An upload adds to the store the blocks that the ladder asks for and the manifest.
pub proof fn law_stored_object_count(
    before: Map<Seq<u8>, Seq<u8>>,
    now: Map<Seq<u8>, Seq<u8>>,
    root: Seq<u8>,
    manifest_id: Seq<u8>,
    data: Seq<u8>,
    params: EncodeParams,
    reals: Seq<(Seq<u8>, Seq<u8>, Option<u32>)>,
    decoys: Seq<(Seq<u8>, Seq<u8>, Option<u32>)>,
)
    requires
        transferred(before, now, root, manifest_id, data, params, reals, decoys),
        before.dom().finite(),
    ensures
        now.dom().finite(),
        now.dom().len() == before.dom().len() + ladder_total(
            params.ladder,
            blocks_for(
                stream_of(data, params.block_size as nat).len(),
                params.block_size as nat,
            ),
        ) + 1,
{
    let rest = now.remove(manifest_id);
    assert(now.dom() =~= rest.dom().insert(manifest_id));
    assert((reals + decoys).len() == reals.len() + decoys.len());
}

/// The store cannot tell a block from a decoy by its length: every object that an upload adds,
/// but for the manifest, is one block and its tag long.
pub proof fn law_block_lengths(
    before: Map<Seq<u8>, Seq<u8>>,
    now: Map<Seq<u8>, Seq<u8>>,
    root: Seq<u8>,
    manifest_id: Seq<u8>,
    data: Seq<u8>,
    params: EncodeParams,
    reals: Seq<(Seq<u8>, Seq<u8>, Option<u32>)>,
    decoys: Seq<(Seq<u8>, Seq<u8>, Option<u32>)>,
    id: Seq<u8>,
)
    requires
        transferred(before, now, root, manifest_id, data, params, reals, decoys),
        now.contains_key(id),
        !before.contains_key(id),
        id != manifest_id,
    ensures
        now[id].len() == params.block_size + AEAD_TAG_LEN,
{
    let rest = now.remove(manifest_id);
    assert(rest.contains_key(id));
}

// ── Random choices ───────────────────────────────────────────────────────────

/// The end of the largest run of 64-bit numbers that holds every remainder equally often.
pub open spec fn zone(bound: u64) -> int {
    u64::MAX - u64::MAX % bound
}

/// The number below `bound` that a random number stands for; none where the number lies in the
/// incomplete run at the top, which would favour small results.
pub fn accept_below(x: u64, bound: usize) -> (r: Option<usize>)
    requires
        bound > 0,
    ensures
        r == (if x < zone(bound as u64) {
            Some((x % bound as u64) as usize)
        } else {
            None
        }),
        r matches Some(k) ==> k < bound,
{
    let b: u64 = bound as u64;
    let top: u64 = u64::MAX - u64::MAX % b;
    if x < top {
        Some((x % b) as usize)
    } else {
        None
    }
}

/// A random number below `bound`, each as likely as the other.
pub fn random_below(bound: usize) -> (r: usize)
    requires
        bound > 0,
    ensures
        r < bound,
{
    let mut tries: u64 = u64::MAX;
    while tries > 0
        invariant
            bound > 0,
        decreases tries,
    {
        let bytes: [u8; 8] = random_array();
        let x: u64 = read_le(&bytes);
        if let Some(k) = accept_below(x, bound) {
            return k;
        }
        tries = tries - 1;
    }
    0
}

proof fn lemma_swap_multiset<T>(s: Seq<T>, i: int, j: int)
    requires
        0 <= i < s.len(),
        0 <= j < s.len(),
    ensures
        s.update(i, s[j]).update(j, s[i]).to_multiset() == s.to_multiset(),
{
    broadcast use vstd::multiset::group_multiset_axioms;
    broadcast use vstd::seq_lib::group_to_multiset_ensures;

    s.to_multiset_ensures();
    vstd::seq_lib::to_multiset_update(s, i, s[j]);
    let t = s.update(i, s[j]);
    t.to_multiset_ensures();
    vstd::seq_lib::to_multiset_update(t, j, s[i]);
    assert(s.contains(s[i]) && s.contains(s[j]));
    assert(s.to_multiset().count(s[i]) > 0);
    assert(s.to_multiset().count(s[j]) > 0);
    assert(t.update(j, s[i]).to_multiset() =~= s.to_multiset());
}

/// The items with those at two places exchanged.
pub open spec fn swapped<T>(s: Seq<T>, i: int, j: int) -> Seq<T> {
    s.update(i, s[j]).update(j, s[i])
}

/// The picks of a shuffle of `n` items: one for each place from the last down to the second, of a
/// place not behind it.
pub open spec fn are_picks(picks: Seq<usize>, n: nat) -> bool {
    &&& picks.len() == if n == 0 {
        0
    } else {
        n - 1
    }
    &&& forall|k: int| 0 <= k < picks.len() ==> #[trigger] picks[k] < n - k
}

/// What the Fisher–Yates shuffle makes of items: from the last place down, each place exchanges
/// its item with that at the place picked for it.
pub open spec fn fisher_yates<T>(s: Seq<T>, picks: Seq<usize>) -> Seq<T>
    decreases picks.len(),
{
    if picks.len() == 0 {
        s
    } else {
        let k = picks.len() - 1;
        swapped(fisher_yates(s, picks.subrange(0, k)), s.len() - 1 - k, picks[k] as int)
    }
}

/// The Fisher–Yates shuffle keeps the items and their number.
proof fn lemma_fisher_yates<T>(s: Seq<T>, picks: Seq<usize>)
    requires
        picks.len() < s.len() || picks.len() == 0,
        forall|k: int| 0 <= k < picks.len() ==> #[trigger] picks[k] < s.len() - k,
    ensures
        fisher_yates(s, picks).len() == s.len(),
        fisher_yates(s, picks).to_multiset() == s.to_multiset(),
    decreases picks.len(),
{
    if picks.len() > 0 {
        let k = picks.len() - 1;
        let init = picks.subrange(0, k);
        lemma_fisher_yates(s, init);
        lemma_swap_multiset(fisher_yates(s, init), s.len() - 1 - k, picks[k] as int);
    }
}

/// Shuffles the items by given picks.
pub fn shuffle_by<T: Copy>(items: &mut Vec<T>, picks: &Vec<usize>)
    requires
        are_picks(picks@, old(items)@.len()),
    ensures
        final(items)@ == fisher_yates(old(items)@, picks@),
{
    let n: usize = items.len();
    let ghost before = items@;
    let mut k: usize = 0;
    assert(picks@.subrange(0, 0) =~= Seq::empty());
    while k < picks.len()
        invariant
            k <= picks@.len(),
            n == before.len(),
            n == items@.len(),
            are_picks(picks@, n as nat),
            items@ == fisher_yates(before, picks@.subrange(0, k as int)),
        decreases picks@.len() - k,
    {
        let ghost now = items@;
        let i: usize = n - 1 - k;
        let j: usize = picks[k];
        let a: T = items[i];
        let b: T = items[j];
        items.set(i, b);
        items.set(j, a);
        proof {
            let upto = picks@.subrange(0, k + 1);
            assert(upto.subrange(0, k as int) =~= picks@.subrange(0, k as int));
            assert(items@ =~= swapped(now, i as int, j as int));
        }
        k = k + 1;
    }
    assert(picks@.subrange(0, picks@.len() as int) =~= picks@);
}

/// Draws the picks of a shuffle of `n` items. Nothing is said of which they are.
fn draw_picks(n: usize) -> (r: Vec<usize>)
    ensures
        are_picks(r@, n as nat),
{
    let mut picks: Vec<usize> = Vec::new();
    let mut left: usize = n;
    while left > 1
        invariant
            left <= n,
            picks@.len() + left == n,
            n > 0 ==> left > 0,
            forall|k: int| 0 <= k < picks@.len() ==> #[trigger] picks@[k] < n - k,
        decreases left,
    {
        picks.push(random_below(left));
        left = left - 1;
    }
    picks
}

/// Puts the items in a random order: the Fisher–Yates shuffle by random picks. Nothing is said of
/// which picks they are.
pub fn shuffle<T: Copy>(items: &mut Vec<T>)
    ensures
        exists|picks: Seq<usize>|
            are_picks(picks, old(items)@.len()) && final(items)@ == #[trigger] fisher_yates(
                old(items)@,
                picks,
            ),
        final(items)@.len() == old(items)@.len(),
        final(items)@.to_multiset() == old(items)@.to_multiset(),
{
    let picks: Vec<usize> = draw_picks(items.len());
    proof {
        lemma_fisher_yates(items@, picks@);
    }
    shuffle_by(items, &picks);
}

/// Sequences of the same items, in whatever order, have images of the same items.
proof fn lemma_map_multiset<A, B>(a: Seq<A>, b: Seq<A>, f: spec_fn(A) -> B)
    requires
        a.to_multiset() == b.to_multiset(),
    ensures
        a.map_values(f).to_multiset() == b.map_values(f).to_multiset(),
    decreases a.len(),
{
    broadcast use vstd::multiset::group_multiset_axioms;
    broadcast use vstd::seq_lib::group_to_multiset_ensures;

    a.to_multiset_ensures();
    b.to_multiset_ensures();
    if a.len() == 0 {
        assert(a.map_values(f) =~= b.map_values(f));
    } else {
        let x = a[a.len() - 1];
        let a1 = a.remove(a.len() - 1);
        assert(a.contains(x));
        assert(b.to_multiset().count(x) > 0);
        assert(b.contains(x));
        let k = choose|k: int| 0 <= k < b.len() && b[k] == x;
        let b1 = b.remove(k);
        assert(a1.to_multiset() =~= b1.to_multiset());
        lemma_map_multiset(a1, b1, f);
        let ma = a.map_values(f);
        let mb = b.map_values(f);
        assert(ma.remove(a.len() - 1) =~= a1.map_values(f));
        assert(mb.remove(k) =~= b1.map_values(f));
        ma.to_multiset_ensures();
        mb.to_multiset_ensures();
        assert(ma.contains(ma[a.len() - 1]));
        assert(mb.contains(mb[k]));
        assert(ma.to_multiset() =~= ma.to_multiset().remove(f(x)).insert(f(x)));
        assert(mb.to_multiset() =~= mb.to_multiset().remove(f(x)).insert(f(x)));
    }
}

// ── Upload ───────────────────────────────────────────────────────────────────

/// The next block of the data, filled up with zeros, and how many of its bytes are of the data;
/// nothing at the end.
pub fn read_padded_block(data: &[u8], at: usize, block_size: usize) -> (r: Option<(Vec<u8>, usize)>)
    requires
        at <= data@.len(),
    ensures
        r is None <==> at == data@.len() || block_size == 0,
        r matches Some(b) ==> {
            &&& b.1 == if at + block_size <= data@.len() {
                block_size as int
            } else {
                data@.len() - at
            }
            &&& b.0@ == Seq::new(
                block_size as nat,
                |k: int|
                    if at + k < data@.len() {
                        data@[at + k]
                    } else {
                        0u8
                    },
            )
        },
{
    let left: usize = data.len() - at;
    let filled: usize = if block_size <= left {
        block_size
    } else {
        left
    };
    if filled == 0 {
        return None;
    }
    let mut buf: Vec<u8> = copy_bytes(slice_subrange(data, at, at + filled));
    assert forall|k: int| 0 <= k < filled implies buf@[k] == data@[at + k] by {}
    let ghost head = buf@;
    buf.resize(block_size, 0u8);
    assert forall|k: int| 0 <= k < block_size implies buf@[k] == (if at + k < data@.len() {
        data@[at + k]
    } else {
        0u8
    }) by {
        if k < filled {
            assert(buf@.subrange(0, filled as int) =~= head);
            assert(buf@.subrange(0, filled as int)[k] == head[k]);
        }
    }
    assert(buf@ =~= Seq::new(
        block_size as nat,
        |k: int|
            if at + k < data@.len() {
                data@[at + k]
            } else {
                0u8
            },
    ));
    Some((buf, filled))
}

/// Seals a block under its key and stores it under the given identifier.
fn store_block<S: BlindStore>(
    root: &RootKey,
    index: u32,
    block: &[u8],
    object_id: &[u8; 32],
    nonce: &[u8; 24],
    store: &mut S,
) -> (r: Result<BlockRef, Error>)
    ensures
        final(store).answers() == old(store).answers(),
        block@.len() >= AEAD_MESSAGE_LIMIT ==> (r matches Err(e) && e@ == Failure::Crypto)
            && final(store).objects() == old(store).objects(),
        r matches Ok(b) ==> {
            let sealed = xchacha_seal(block_key(root@, index), nonce@, Seq::empty(), block@);
            &&& block_row(b) == (object_id@, nonce@, Some(index))
            &&& !old(store).objects().contains_key(object_id@)
            &&& final(store).objects() == old(store).objects().insert(object_id@, sealed)
            &&& sealed.len() == block@.len() + AEAD_TAG_LEN
            &&& aead_opened(block_key(root@, index), nonce@, Seq::empty(), sealed) == Some(block@)
        },
        old(store).answers() && block@.len() < AEAD_MESSAGE_LIMIT ==> (r matches Err(e) ==> {
            &&& e@ == Failure::Store("object already exists"@)
            &&& old(store).objects().contains_key(object_id@)
            &&& final(store).objects() == old(store).objects()
        }),
{
    let mut key: [u8; 32] = derive_block_key(root, index);
    let sealed = seal(&key, nonce, block);
    wipe_array(&mut key);
    let ciphertext: Vec<u8> = match sealed {
        Ok(c) => c,
        Err(e) => return Err(e),
    };
    match store.put(object_id, &ciphertext) {
        Ok(()) => Ok(BlockRef { object_id: *object_id, nonce: *nonce, index: Some(index) }),
        Err(e) => Err(e),
    }
}

/// Stores random bytes of a block's length under the given identifier.
fn store_decoy<S: BlindStore>(
    object_len: usize,
    object_id: &[u8; 32],
    nonce: &[u8; 24],
    store: &mut S,
) -> (r: Result<BlockRef, Error>)
    ensures
        final(store).answers() == old(store).answers(),
        r matches Ok(b) ==> {
            &&& block_row(b) == (object_id@, nonce@, None::<u32>)
            &&& !old(store).objects().contains_key(object_id@)
            &&& final(store).objects() == old(store).objects().insert(
                object_id@,
                final(store).objects()[object_id@],
            )
            &&& final(store).objects()[object_id@].len() == object_len
        },
        old(store).answers() ==> (r matches Err(e) ==> {
            &&& e@ == Failure::Store("object already exists"@)
            &&& old(store).objects().contains_key(object_id@)
            &&& final(store).objects() == old(store).objects()
        }),
{
    let mut decoy: Vec<u8> = Vec::new();
    decoy.resize(object_len, 0u8);
    random_fill(decoy.as_mut_slice());
    match store.put(object_id, &decoy) {
        Ok(()) => Ok(BlockRef { object_id: *object_id, nonce: *nonce, index: None }),
        Err(e) => Err(e),
    }
}

/// Seals the manifest and stores it, its nonce before it, under the given identifier.
fn store_manifest<S: BlindStore>(
    root: &RootKey,
    manifest: &Manifest,
    id: &[u8; 32],
    nonce: &[u8; 24],
    store: &mut S,
) -> (r: Result<(), Error>)
    ensures
        final(store).answers() == old(store).answers(),
        manifest_bytes(manifest@).len() >= AEAD_MESSAGE_LIMIT ==> (r matches Err(e) && e@
            == Failure::Crypto) && final(store).objects() == old(store).objects(),
        r is Ok ==> {
            let object = nonce@ + xchacha_seal(
                manifest_key(root@),
                nonce@,
                Seq::empty(),
                manifest_bytes(manifest@),
            );
            &&& !old(store).objects().contains_key(id@)
            &&& final(store).objects() == old(store).objects().insert(id@, object)
            &&& opened_manifest(object, root@) == Ok::<
                (u16, u32, u64, Seq<(Seq<u8>, Seq<u8>, Option<u32>)>),
                Failure,
            >(manifest@)
        },
        old(store).answers() && manifest_bytes(manifest@).len() < AEAD_MESSAGE_LIMIT ==> (
        r matches Err(e) ==> {
            &&& e@ == Failure::Store("object already exists"@)
            &&& old(store).objects().contains_key(id@)
            &&& final(store).objects() == old(store).objects()
        }),
{
    let bytes: Vec<u8> = manifest.to_bytes();
    let mut key: [u8; 32] = derive_manifest_key(root);
    let result = seal(&key, nonce, &bytes);
    wipe_array(&mut key);
    let sealed: Vec<u8> = match result {
        Ok(c) => c,
        Err(e) => return Err(e),
    };
    let mut object: Vec<u8> = Vec::new();
    push_all(&mut object, nonce);
    push_all(&mut object, &sealed);
    assert(object@ =~= nonce@ + sealed@);
    assert(object@.subrange(0, 24) =~= nonce@);
    assert(object@.subrange(24, object@.len() as int) =~= sealed@);
    store.put(id, &object)
}

/// A number of blocks that reaches the end of the data, but not with one block less, is the
/// number that the data takes.
proof fn lemma_block_count(len: nat, block_size: nat, n: nat)
    requires
        block_size > 0,
        n * block_size >= len,
        n > 0 ==> (n - 1) * block_size < len,
    ensures
        n == blocks_for(len, block_size),
{
    lemma_blocks_for(len, block_size);
    let m = blocks_for(len, block_size);
    if n < m {
        assert((n + 1) * block_size <= m * block_size) by (nonlinear_arith)
            requires
                n + 1 <= m,
        ;
        assert((n + 1) * block_size == n * block_size + block_size) by (nonlinear_arith);
    } else if n > m {
        assert((n - 1) * block_size >= m * block_size) by (nonlinear_arith)
            requires
                n - 1 >= m,
        ;
    }
}

/// The blocks before a block that starts inside the data are fewer than the data takes.
proof fn lemma_block_count_above(len: nat, block_size: nat, n: nat)
    requires
        block_size > 0,
        n * block_size < len,
    ensures
        n < blocks_for(len, block_size),
{
    lemma_blocks_for(len, block_size);
    let m = blocks_for(len, block_size);
    if n >= m {
        assert(n * block_size >= m * block_size) by (nonlinear_arith)
            requires
                n >= m,
        ;
    }
}

/// The number of blocks at which block indices run out.
pub const BLOCK_LIMIT: u64 = 0x1_0000_0000;

/// The number of blocks that data takes.
pub open spec fn block_count(data: Seq<u8>, params: EncodeParams) -> nat {
    blocks_for(stream_of(data, params.block_size as nat).len(), params.block_size as nat)
}

/// The number of objects that a transfer stores besides the manifest: the blocks and the decoys.
pub open spec fn object_count(data: Seq<u8>, params: EncodeParams) -> nat {
    ladder_total(params.ladder, block_count(data, params))
}

/// Why data cannot be uploaded, whatever the store holds: a block is too long for the cipher, the
/// block indices run out, or the manifest is too long for the cipher.
pub open spec fn upload_fault(data: Seq<u8>, params: EncodeParams) -> Option<Failure> {
    let n = block_count(data, params);
    if n > 0 && params.block_size >= AEAD_MESSAGE_LIMIT {
        Some(Failure::Crypto)
    } else if n >= BLOCK_LIMIT {
        Some(Failure::Malformed("stream exceeds 2^32 blocks"@))
    } else if manifest_len(n, object_count(data, params)) >= AEAD_MESSAGE_LIMIT {
        Some(Failure::Crypto)
    } else {
        None
    }
}

/// The number of objects that are stored by the time a fault of the data shows: none where a block
/// is too long, as many blocks as there are indices where these run out, and all objects where the
/// manifest is too long.
pub open spec fn stored_at_fault(data: Seq<u8>, params: EncodeParams) -> nat {
    let n = block_count(data, params);
    if n > 0 && params.block_size >= AEAD_MESSAGE_LIMIT {
        0
    } else if n >= BLOCK_LIMIT {
        BLOCK_LIMIT as nat
    } else {
        object_count(data, params)
    }
}

/// The references of a transfer of `n` blocks under the given identifiers and nonces: first the
/// blocks in order, then the decoys.
pub open spec fn drawn_rows(ids: Seq<[u8; 32]>, nonces: Seq<[u8; 24]>, n: nat) -> Seq<
    (Seq<u8>, Seq<u8>, Option<u32>),
> {
    Seq::new(
        ids.len(),
        |i: int|
            (
                ids[i]@,
                nonces[i]@,
                if i < n {
                    Some(i as u32)
                } else {
                    None
                },
            ),
    )
}

/// No identifier of a transfer is in use, and none is used twice.
pub open spec fn fresh_rows(
    objects: Map<Seq<u8>, Seq<u8>>,
    rows: Seq<(Seq<u8>, Seq<u8>, Option<u32>)>,
    manifest_id: Seq<u8>,
) -> bool {
    &&& forall|i: int|
        0 <= i < rows.len() ==> !objects.contains_key((#[trigger] rows[i]).0) && rows[i].0
            != manifest_id
    &&& forall|i: int, j: int|
        0 <= i < j < rows.len() ==> (#[trigger] rows[i]).0 != (#[trigger] rows[j]).0
    &&& !objects.contains_key(manifest_id)
}

/// An upload has stopped at an identifier in use: the objects before it have been stored, and the
/// store holds the identifier that comes next, that of an object or of the manifest.
pub open spec fn collided(
    before: Map<Seq<u8>, Seq<u8>>,
    now: Map<Seq<u8>, Seq<u8>>,
    rows: Seq<(Seq<u8>, Seq<u8>, Option<u32>)>,
    manifest_id: Seq<u8>,
    object_len: nat,
    k: int,
) -> bool {
    &&& 0 <= k <= rows.len()
    &&& grown(before, now, rows.subrange(0, k), object_len)
    &&& now.contains_key(
        if k < rows.len() {
            rows[k].0
        } else {
            manifest_id
        },
    )
}

/// An upload of the data has stopped at an identifier in use, among as many as it takes.
pub open spec fn upload_collided(
    before: Map<Seq<u8>, Seq<u8>>,
    now: Map<Seq<u8>, Seq<u8>>,
    data: Seq<u8>,
    params: EncodeParams,
) -> bool {
    exists|
        rows: Seq<(Seq<u8>, Seq<u8>, Option<u32>)>,
        manifest_id: Seq<u8>,
        k: int,
    |
        rows.len() == object_count(data, params) && #[trigger] collided(
            before,
            now,
            rows,
            manifest_id,
            (params.block_size + AEAD_TAG_LEN) as nat,
            k,
        )
}

/// How an upload to a store that answers fails: by a fault of the data, when `at_fault` objects are
/// stored, or at an identifier in use. Either way it has stored the first of its objects and
/// changed nothing else.
pub open spec fn upload_stopped(
    before: Map<Seq<u8>, Seq<u8>>,
    now: Map<Seq<u8>, Seq<u8>>,
    rows: Seq<(Seq<u8>, Seq<u8>, Option<u32>)>,
    manifest_id: Seq<u8>,
    object_len: nat,
    fault: Option<Failure>,
    at_fault: nat,
    failure: Failure,
) -> bool {
    ||| fault == Some(failure) && at_fault <= rows.len() && grown(
        before,
        now,
        rows.subrange(0, at_fault as int),
        object_len,
    )
    ||| failure == Failure::Store("object already exists"@) && exists|k: int| #[trigger]
        collided(before, now, rows, manifest_id, object_len, k)
}

/// An upload stops at an identifier in use only where the identifiers were not fresh.
pub proof fn law_fresh_identifiers_do_not_collide(
    before: Map<Seq<u8>, Seq<u8>>,
    now: Map<Seq<u8>, Seq<u8>>,
    rows: Seq<(Seq<u8>, Seq<u8>, Option<u32>)>,
    manifest_id: Seq<u8>,
    object_len: nat,
    k: int,
)
    requires
        collided(before, now, rows, manifest_id, object_len, k),
    ensures
        !fresh_rows(before, rows, manifest_id),
{
    let done = rows.subrange(0, k);
    let id = if k < rows.len() {
        rows[k].0
    } else {
        manifest_id
    };
    if !before.contains_key(id) {
        let i = choose|i: int| 0 <= i < done.len() && (#[trigger] done[i]).0 == id;
        assert(rows[i].0 == id);
    }
}

/// The blocks of a stream have been stored up to the last index, and there is no index for the
/// rest.
pub open spec fn indices_ran_out(
    before: Map<Seq<u8>, Seq<u8>>,
    now: Map<Seq<u8>, Seq<u8>>,
    rows: Seq<(Seq<u8>, Seq<u8>, Option<u32>)>,
    object_len: nat,
    n: nat,
    failure: Failure,
) -> bool {
    &&& n >= BLOCK_LIMIT
    &&& failure == Failure::Malformed("stream exceeds 2^32 blocks"@)
    &&& grown(before, now, rows.subrange(0, BLOCK_LIMIT as int), object_len)
}

/// Stores the blocks of the data in order, until the block indices run out.
fn store_stream<S: BlindStore>(
    data: &[u8],
    params: &EncodeParams,
    root: &RootKey,
    ids: &Vec<[u8; 32]>,
    nonces: &Vec<[u8; 24]>,
    store: &mut S,
) -> (r: Result<Vec<BlockRef>, Error>)
    requires
        params.block_size + AEAD_TAG_LEN <= isize::MAX,
        block_count(data@, *params) <= ids@.len(),
        ids@.len() == nonces@.len(),
    ensures
        final(store).answers() == old(store).answers(),
        ({
            let bs = params.block_size as nat;
            let n = block_count(data@, *params);
            let rows = drawn_rows(ids@, nonces@, n);
            let object_len = (bs + AEAD_TAG_LEN) as nat;
            &&& n > 0 && bs >= AEAD_MESSAGE_LIMIT ==> (r matches Err(e) && e@ == Failure::Crypto)
                && final(store).objects() == old(store).objects()
            &&& r matches Ok(blocks) ==> {
                &&& n < BLOCK_LIMIT
                &&& block_rows(blocks@) == rows.subrange(0, n as int)
                &&& forall|i: int|
                    0 <= i < n ==> block_stored(
                        final(store).objects(),
                        root@,
                        data@,
                        bs,
                        #[trigger] rows[i],
                        i,
                    )
                &&& grown(
                    old(store).objects(),
                    final(store).objects(),
                    rows.subrange(0, n as int),
                    object_len,
                )
            }
            &&& old(store).answers() && (n > 0 ==> bs < AEAD_MESSAGE_LIMIT) ==> (r matches Err(
                e,
            ) ==> {
                ||| indices_ran_out(
                    old(store).objects(),
                    final(store).objects(),
                    rows,
                    object_len,
                    n,
                    e@,
                )
                ||| e@ == Failure::Store("object already exists"@) && exists|k: int|
                    k < n && #[trigger] collided(
                        old(store).objects(),
                        final(store).objects(),
                        rows,
                        Seq::empty(),
                        object_len,
                        k,
                    )
            })
        }),
{
    let block_size: usize = params.block_size;
    let mut blocks: Vec<BlockRef> = Vec::new();
    let mut at: usize = 0;
    let mut index: u32 = 0;
    let ghost before = store.objects();
    let ghost bs = block_size as nat;
    let ghost n = block_count(data@, *params);
    let ghost rows = drawn_rows(ids@, nonces@, n);
    proof {
        assert(block_rows(blocks@) =~= rows.subrange(0, 0));
        assert(rows.subrange(0, 0) =~= Seq::empty());
        assert(0 * bs == 0) by (nonlinear_arith);
    }
    while at < data.len() && block_size > 0
        invariant
            block_size + AEAD_TAG_LEN <= isize::MAX,
            block_size == params.block_size,
            bs == block_size,
            n == block_count(data@, *params),
            rows == drawn_rows(ids@, nonces@, n),
            n <= ids@.len(),
            ids@.len() == nonces@.len(),
            before == old(store).objects(),
            store.answers() == old(store).answers(),
            at <= data@.len(),
            at == (if index * bs <= data@.len() {
                index * bs
            } else {
                data@.len() as int
            }),
            index > 0 ==> bs > 0 && (index - 1) * bs < data@.len(),
            index <= n,
            block_rows(blocks@) == rows.subrange(0, index as int),
            index > 0 ==> block_size < AEAD_MESSAGE_LIMIT,
            index == 0 ==> store.objects() == before,
            forall|i: int|
                0 <= i < index ==> block_stored(
                    store.objects(),
                    root@,
                    data@,
                    bs,
                    #[trigger] rows[i],
                    i,
                ),
            grown(
                before,
                store.objects(),
                rows.subrange(0, index as int),
                (bs + AEAD_TAG_LEN) as nat,
            ),
        decreases data@.len() - at,
    {
        let ghost objects = store.objects();
        let ghost done = rows.subrange(0, index as int);
        proof {
            lemma_block_count_above(data@.len(), bs, index as nat);
        }
        let (block, filled) = match read_padded_block(data, at, block_size) {
            Some(b) => b,
            None => return Ok(blocks),
        };
        assert(block@ =~= padded(data@, bs, index as int));
        let b: BlockRef = match store_block(
            root,
            index,
            &block,
            &ids[index as usize],
            &nonces[index as usize],
            store,
        ) {
            Ok(b) => b,
            Err(e) => {
                proof {
                    if old(store).answers() && bs < AEAD_MESSAGE_LIMIT {
                        assert(rows[index as int].0 == ids@[index as int]@);
                        assert(collided(
                            before,
                            store.objects(),
                            rows,
                            Seq::empty(),
                            (bs + AEAD_TAG_LEN) as nat,
                            index as int,
                        ));
                    }
                }
                return Err(e);
            },
        };
        proof {
            let row = rows[index as int];
            assert(row == block_row(b));
            lemma_grown_put(
                before,
                objects,
                done,
                (bs + AEAD_TAG_LEN) as nat,
                row,
                store.objects()[row.0],
            );
            assert(store.objects() =~= objects.insert(row.0, store.objects()[row.0]));
            assert((index + 1) * bs == index * bs + bs) by (nonlinear_arith);
            assert(done.push(row) =~= rows.subrange(0, index + 1));
        }
        blocks.push(b);
        assert(block_rows(blocks@) =~= done.push(block_row(b)));
        at = at + filled;
        if index == u32::MAX {
            assert(indices_ran_out(
                before,
                store.objects(),
                rows,
                (bs + AEAD_TAG_LEN) as nat,
                n,
                Failure::Malformed("stream exceeds 2^32 blocks"@),
            ));
            return Err(Error::Malformed(copy_text("stream exceeds 2^32 blocks")));
        }
        index = index + 1;
    }
    proof {
        if block_size > 0 {
            lemma_block_count(data@.len(), bs, index as nat);
        } else {
            assert(blocks_for(0, 0) == 0);
        }
    }
    Ok(blocks)
}

/// The lengths of identifiers and nonces.
proof fn lemma_drawn_lengths(ids: Seq<[u8; 32]>, nonces: Seq<[u8; 24]>, n: nat)
    requires
        ids.len() == nonces.len(),
    ensures
        forall|i: int|
            0 <= i < ids.len() ==> (#[trigger] drawn_rows(ids, nonces, n)[i]).0.len() == 32
                && drawn_rows(ids, nonces, n)[i].1.len() == 24,
{
}

/// The same exchanges on items and on their images.
proof fn lemma_fisher_yates_map<A, B>(s: Seq<A>, picks: Seq<usize>, f: spec_fn(A) -> B)
    requires
        picks.len() < s.len() || picks.len() == 0,
        forall|k: int| 0 <= k < picks.len() ==> #[trigger] picks[k] < s.len() - k,
    ensures
        fisher_yates(s, picks).map_values(f) == fisher_yates(s.map_values(f), picks),
    decreases picks.len(),
{
    if picks.len() > 0 {
        let k = picks.len() - 1;
        let init = picks.subrange(0, k);
        lemma_fisher_yates_map(s, init, f);
        lemma_fisher_yates(s, init);
        let t = fisher_yates(s, init);
        assert(swapped(t, s.len() - 1 - k, picks[k] as int).map_values(f) =~= swapped(
            t.map_values(f),
            s.len() - 1 - k,
            picks[k] as int,
        ));
    }
}

/// A transfer of the data stands in the store under exactly these identifiers and nonces, with the
/// references listed in the order of the picks.
pub open spec fn transferred_as(
    before: Map<Seq<u8>, Seq<u8>>,
    now: Map<Seq<u8>, Seq<u8>>,
    root: Seq<u8>,
    manifest_id: Seq<u8>,
    manifest_nonce: Seq<u8>,
    data: Seq<u8>,
    params: EncodeParams,
    rows: Seq<(Seq<u8>, Seq<u8>, Option<u32>)>,
    picks: Seq<usize>,
) -> bool {
    let n = block_count(data, params) as int;
    let manifest = (
        MANIFEST_VERSION,
        params.block_size as u32,
        stream_of(data, params.block_size as nat).len() as u64,
        fisher_yates(rows, picks),
    );
    &&& transferred(
        before,
        now,
        root,
        manifest_id,
        data,
        params,
        rows.subrange(0, n),
        rows.subrange(n, rows.len() as int),
    )
    &&& now[manifest_id] == manifest_nonce + xchacha_seal(
        manifest_key(root),
        manifest_nonce,
        Seq::empty(),
        manifest_bytes(manifest),
    )
}

/// Uploads the data under the given identifiers and nonces, and lists the references in the order
/// of the picks. The contents of decoys are random.
///
/// With a store that answers and with fresh identifiers, the upload succeeds unless the data is
/// faulty, and what it stores is fixed but for the decoys. An upload that fails has stored what
/// comes before the identifier at which it stopped.
pub fn upload_with<S: BlindStore>(
    reader: &[u8],
    params: &EncodeParams,
    root: &RootKey,
    ids: &Vec<[u8; 32]>,
    nonces: &Vec<[u8; 24]>,
    manifest_id: &[u8; 32],
    manifest_nonce: &[u8; 24],
    picks: &Vec<usize>,
    store: &mut S,
) -> (r: Result<ReadCap, Error>)
    requires
        params.block_size + AEAD_TAG_LEN <= isize::MAX,
        object_count(reader@, *params) <= usize::MAX,
        ids@.len() == object_count(reader@, *params),
        nonces@.len() == ids@.len(),
        are_picks(picks@, ids@.len()),
    ensures
        final(store).answers() == old(store).answers(),
        r matches Ok(cap) ==> {
            let rows = drawn_rows(ids@, nonces@, block_count(reader@, *params));
            let before = old(store).objects();
            let now = final(store).objects();
            &&& upload_fault(reader@, *params) is None
            &&& fresh_rows(before, rows, manifest_id@)
            &&& cap == (ReadCap { root_key: *root, manifest_id: *manifest_id })
            &&& transferred_as(
                before,
                now,
                root@,
                manifest_id@,
                manifest_nonce@,
                reader@,
                *params,
                rows,
                picks@,
            )
            &&& params.block_size <= u32::MAX ==> downloaded(now, root@, manifest_id@) == Ok::<
                Seq<u8>,
                Failure,
            >(stream_of(reader@, params.block_size as nat))
        },
        old(store).answers() && fresh_rows(
            old(store).objects(),
            drawn_rows(ids@, nonces@, block_count(reader@, *params)),
            manifest_id@,
        ) ==> match upload_fault(reader@, *params) {
            None => r is Ok,
            Some(f) => r matches Err(e) && e@ == f,
        },
        old(store).answers() ==> (r matches Err(e) ==> upload_stopped(
            old(store).objects(),
            final(store).objects(),
            drawn_rows(ids@, nonces@, block_count(reader@, *params)),
            manifest_id@,
            (params.block_size + AEAD_TAG_LEN) as nat,
            upload_fault(reader@, *params),
            stored_at_fault(reader@, *params),
            e@,
        )),
{
    let block_size: usize = params.block_size;
    let object_len: usize = block_size + AEAD_TAG_LEN;
    let ghost before = old(store).objects();
    let ghost n0 = block_count(reader@, *params);
    let ghost rows = drawn_rows(ids@, nonces@, n0);
    proof {
        assert(reader@.len() == reader.len());
        crate::p2p_direct::encode::law_ladder_covers(params.ladder, n0);
        assert(rows.subrange(0, 0) =~= Seq::empty());
        assert(grown(before, before, rows.subrange(0, 0), object_len as nat));
    }
    let stream_len: u64 = if block_size == 0 {
        0
    } else {
        reader.len() as u64
    };
    let real_blocks: usize = params.real_blocks(stream_len);
    let mut blocks: Vec<BlockRef> = match store_stream(reader, params, root, ids, nonces, store) {
        Ok(b) => b,
        Err(e) => {
            proof {
                if old(store).answers() {
                    if n0 > 0 && block_size >= AEAD_MESSAGE_LIMIT {
                        assert(grown(
                            before,
                            store.objects(),
                            rows.subrange(0, 0),
                            object_len as nat,
                        ));
                    } else if indices_ran_out(
                        before,
                        store.objects(),
                        rows,
                        object_len as nat,
                        n0,
                        e@,
                    ) {
                        assert(upload_fault(reader@, *params) == Some(e@));
                    } else {
                        let k = choose|k: int|
                            k < n0 && #[trigger] collided(
                                before,
                                store.objects(),
                                rows,
                                Seq::empty(),
                                object_len as nat,
                                k,
                            );
                        assert(collided(
                            before,
                            store.objects(),
                            rows,
                            manifest_id@,
                            object_len as nat,
                            k,
                        ));
                        law_fresh_identifiers_do_not_collide(
                            before,
                            store.objects(),
                            rows,
                            manifest_id@,
                            object_len as nat,
                            k,
                        );
                    }
                    assert(upload_stopped(
                        before,
                        store.objects(),
                        rows,
                        manifest_id@,
                        object_len as nat,
                        upload_fault(reader@, *params),
                        stored_at_fault(reader@, *params),
                        e@,
                    ));
                }
            }
            return Err(e);
        },
    };
    let mut n: usize = real_blocks;
    while n < ids.len()
        invariant
            store.answers() == old(store).answers(),
            before == old(store).objects(),
            object_len == block_size + AEAD_TAG_LEN,
            block_size == params.block_size,
            n0 == block_count(reader@, *params),
            rows == drawn_rows(ids@, nonces@, n0),
            ids@.len() == nonces@.len(),
            real_blocks == n0,
            real_blocks <= n <= ids@.len(),
            n0 > 0 ==> block_size < AEAD_MESSAGE_LIMIT,
            n0 < BLOCK_LIMIT,
            block_rows(blocks@) == rows.subrange(0, n as int),
            forall|i: int|
                0 <= i < n0 ==> block_stored(
                    store.objects(),
                    root@,
                    reader@,
                    block_size as nat,
                    #[trigger] rows[i],
                    i,
                ),
            grown(before, store.objects(), rows.subrange(0, n as int), object_len as nat),
        decreases ids@.len() - n,
    {
        let ghost objects = store.objects();
        let ghost done = rows.subrange(0, n as int);
        let ghost row = rows[n as int];
        let b: BlockRef = match store_decoy(object_len, &ids[n], &nonces[n], store) {
            Ok(b) => b,
            Err(e) => {
                proof {
                    if old(store).answers() {
                        assert(collided(
                            before,
                            store.objects(),
                            rows,
                            manifest_id@,
                            object_len as nat,
                            n as int,
                        ));
                        law_fresh_identifiers_do_not_collide(
                            before,
                            store.objects(),
                            rows,
                            manifest_id@,
                            object_len as nat,
                            n as int,
                        );
                        assert(upload_stopped(
                            before,
                            store.objects(),
                            rows,
                            manifest_id@,
                            object_len as nat,
                            upload_fault(reader@, *params),
                            stored_at_fault(reader@, *params),
                            e@,
                        ));
                    }
                }
                return Err(e);
            },
        };
        proof {
            assert(row == block_row(b));
            lemma_grown_put(
                before,
                objects,
                done,
                object_len as nat,
                row,
                store.objects()[row.0],
            );
            assert(done.push(row) =~= rows.subrange(0, n + 1));
            assert forall|i: int| 0 <= i < n0 implies block_stored(
                store.objects(),
                root@,
                reader@,
                block_size as nat,
                #[trigger] rows[i],
                i,
            ) by {
                assert(block_stored(objects, root@, reader@, block_size as nat, rows[i], i));
            }
        }
        blocks.push(b);
        assert(block_rows(blocks@) =~= done.push(block_row(b)));
        n = n + 1;
    }
    let ghost listed = blocks@;
    assert(rows.subrange(0, rows.len() as int) =~= rows);
    assert(block_rows(listed).len() == listed.len());
    shuffle_by(&mut blocks, picks);
    let ghost shuffled = fisher_yates(rows, picks@);
    proof {
        lemma_fisher_yates_map(listed, picks@, |b: BlockRef| block_row(b));
        lemma_fisher_yates(rows, picks@);
        assert(block_rows(blocks@) == shuffled);
        lemma_drawn_lengths(ids@, nonces@, n0);
    }
    let manifest: Manifest = Manifest {
        version: MANIFEST_VERSION,
        block_size: block_size as u32,
        real_len: stream_len,
        blocks,
    };
    let ghost objects = store.objects();
    proof {
        crate::p2p_direct::encode::lemma_manifest_len_shuffled(manifest@, rows, n0);
    }
    match store_manifest(root, &manifest, manifest_id, manifest_nonce, store) {
        Ok(()) => {},
        Err(e) => {
            proof {
                if old(store).answers() {
                    if upload_fault(reader@, *params) is None {
                        assert(collided(
                            before,
                            store.objects(),
                            rows,
                            manifest_id@,
                            object_len as nat,
                            rows.len() as int,
                        ));
                        law_fresh_identifiers_do_not_collide(
                            before,
                            store.objects(),
                            rows,
                            manifest_id@,
                            object_len as nat,
                            rows.len() as int,
                        );
                    } else {
                        assert(grown(
                            before,
                            store.objects(),
                            rows.subrange(0, rows.len() as int),
                            object_len as nat,
                        ));
                    }
                    assert(upload_stopped(
                        before,
                        store.objects(),
                        rows,
                        manifest_id@,
                        object_len as nat,
                        upload_fault(reader@, *params),
                        stored_at_fault(reader@, *params),
                        e@,
                    ));
                }
            }
            return Err(e);
        },
    }
    proof {
        let now = store.objects();
        let reals = rows.subrange(0, n0 as int);
        let decoys = rows.subrange(n0 as int, rows.len() as int);
        assert(now.remove(manifest_id@) =~= objects);
        assert(!before.contains_key(manifest_id@));
        assert(reals + decoys =~= rows);
        assert forall|i: int| 0 <= i < reals.len() implies block_stored(
            now,
            root@,
            reader@,
            block_size as nat,
            #[trigger] reals[i],
            i,
        ) by {
            assert(reals[i] == rows[i]);
            assert(block_stored(objects, root@, reader@, block_size as nat, rows[i], i));
        }
        assert forall|i: int| 0 <= i < decoys.len() implies (#[trigger] decoys[i]).2 is None by {
            assert(decoys[i] == rows[n0 + i]);
        }
        assert forall|i: int| 0 <= i < rows.len() implies (#[trigger] rows[i]).0
            != manifest_id@ by {
            assert(objects.contains_key(rows[i].0));
        }
        assert(transferred(
            before,
            now,
            root@,
            manifest_id@,
            reader@,
            *params,
            reals,
            decoys,
        ));
        if params.block_size <= u32::MAX {
            law_download_after_upload(
                before,
                now,
                root@,
                manifest_id@,
                reader@,
                *params,
                reals,
                decoys,
            );
        }
    }
    Ok(ReadCap { root_key: *root, manifest_id: *manifest_id })
}

/// Draws identifiers and nonces for a number of objects.
fn draw_references(n: usize) -> (r: (Vec<[u8; 32]>, Vec<[u8; 24]>))
    ensures
        r.0@.len() == n,
        r.1@.len() == n,
{
    let mut ids: Vec<[u8; 32]> = Vec::new();
    let mut nonces: Vec<[u8; 24]> = Vec::new();
    while ids.len() < n
        invariant
            ids@.len() <= n,
            ids@.len() == nonces@.len(),
        decreases n - ids@.len(),
    {
        ids.push(random_object_id());
        nonces.push(random_nonce());
    }
    (ids, nonces)
}

/// Uploads the data to the store and returns the capability to read it.
///
/// The capability gives the data back, the store keeps what it held, and all that it sees of the
/// transfer are objects of one length, in number on the ladder, and the manifest. An upload to a
/// store that answers fails only where the data is faulty or where a random identifier is in use,
/// and then it has stored what comes before that identifier. Where nothing is stored but the
/// manifest, and the store is empty, no identifier can be in use.
pub fn upload<S: BlindStore>(
    reader: &[u8],
    params: &EncodeParams,
    root: &RootKey,
    store: &mut S,
) -> (r: Result<ReadCap, Error>)
    requires
        params.block_size + AEAD_TAG_LEN <= isize::MAX,
        object_count(reader@, *params) <= usize::MAX,
    ensures
        final(store).answers() == old(store).answers(),
        ({
            let object_len = (params.block_size + AEAD_TAG_LEN) as nat;
            let before = old(store).objects();
            let now = final(store).objects();
            &&& r matches Ok(cap) ==> {
                &&& upload_fault(reader@, *params) is None
                &&& cap.root_key == *root
                &&& exists|
                    reals: Seq<(Seq<u8>, Seq<u8>, Option<u32>)>,
                    decoys: Seq<(Seq<u8>, Seq<u8>, Option<u32>)>,
                | #[trigger]
                    transferred(
                        before,
                        now,
                        root@,
                        cap.manifest_id@,
                        reader@,
                        *params,
                        reals,
                        decoys,
                    )
                &&& params.block_size <= u32::MAX ==> downloaded(
                    now,
                    root@,
                    cap.manifest_id@,
                ) == Ok::<Seq<u8>, Failure>(stream_of(reader@, params.block_size as nat))
            }
            &&& old(store).answers() && object_count(reader@, *params) == 0 && before == Map::<
                Seq<u8>,
                Seq<u8>,
            >::empty() && upload_fault(reader@, *params) is None ==> r is Ok
            &&& old(store).answers() ==> (r matches Err(e) ==> {
                ||| upload_fault(reader@, *params) == Some(e@) && exists|
                    rows: Seq<(Seq<u8>, Seq<u8>, Option<u32>)>,
                |
                    rows.len() == stored_at_fault(reader@, *params) && #[trigger] grown(
                        before,
                        now,
                        rows,
                        object_len,
                    )
                ||| e@ == Failure::Store("object already exists"@) && upload_collided(
                    before,
                    now,
                    reader@,
                    *params,
                )
            })
        }),
{
    let stream_len: u64 = if params.block_size == 0 {
        0
    } else {
        reader.len() as u64
    };
    proof {
        assert(reader@.len() == reader.len());
    }
    let real_blocks: usize = params.real_blocks(stream_len);
    let total_blocks: usize = params.ladder.total_blocks(real_blocks);
    let (ids, nonces) = draw_references(total_blocks);
    let manifest_id: [u8; 32] = random_object_id();
    let manifest_nonce: [u8; 24] = random_nonce();
    let picks: Vec<usize> = draw_picks(total_blocks);
    let r = upload_with(
        reader,
        params,
        root,
        &ids,
        &nonces,
        &manifest_id,
        &manifest_nonce,
        &picks,
        store,
    );
    proof {
        let n = block_count(reader@, *params);
        let rows = drawn_rows(ids@, nonces@, n);
        let object_len = (params.block_size + AEAD_TAG_LEN) as nat;
        let before = old(store).objects();
        if store.answers() && r is Err && upload_fault(reader@, *params) != Some(r->Err_0@) {
            let k = choose|k: int| #[trigger]
                collided(before, store.objects(), rows, manifest_id@, object_len, k);
            assert(rows.len() == object_count(reader@, *params));
            assert(upload_collided(before, store.objects(), reader@, *params));
        }
    }
    r
}

// ── Download ─────────────────────────────────────────────────────────────────

/// Opens the manifest in a store object.
pub fn open_manifest(object: &[u8], root: &RootKey) -> (r: Result<Manifest, Error>)
    ensures
        match opened_manifest(object@, root@) {
            Ok(m) => r matches Ok(x) && x@ == m,
            Err(f) => r matches Err(e) && e@ == f,
        },
{
    if object.len() < NONCE_LEN {
        return Err(Error::Malformed(copy_text("manifest object too short")));
    }
    let nonce: [u8; 24] = to_array(slice_subrange(object, 0, NONCE_LEN));
    let sealed: &[u8] = slice_subrange(object, NONCE_LEN, object.len());
    let mut key: [u8; 32] = derive_manifest_key(root);
    let opened = open(&key, &nonce, sealed);
    wipe_array(&mut key);
    let bytes: Vec<u8> = match opened {
        Ok(b) => b,
        Err(e) => return Err(e),
    };
    match Manifest::from_bytes(&bytes) {
        Ok(m) => Ok(m),
        Err(words) => Err(Error::Serialize(words)),
    }
}

fn version_error(version: u16) -> (r: Error)
    ensures
        r@ == Failure::Malformed(
            "unsupported manifest version "@ + decimal_spec(version as nat),
        ),
{
    let mut words: String = copy_text("unsupported manifest version ");
    push_text(&mut words, &decimal(version as u64));
    Error::Malformed(words)
}

fn count_error(listed: usize, expected: usize) -> (r: Error)
    ensures
        r@ == Failure::Malformed(
            "manifest lists "@ + decimal_spec(listed as nat)
                + " real blocks but real_len implies "@ + decimal_spec(expected as nat),
        ),
{
    let mut words: String = copy_text("manifest lists ");
    push_text(&mut words, &decimal(listed as u64));
    push_text(&mut words, " real blocks but real_len implies ");
    push_text(&mut words, &decimal(expected as u64));
    Error::Malformed(words)
}

/// Fetches a block from the store and opens it.
fn fetch_block<S: BlindStore>(store: &S, root: &RootKey, b: &BlockRef, index: u32) -> (r: Result<
    Vec<u8>,
    Error,
>)
    ensures
        r matches Ok(p) ==> {
            &&& store.objects().contains_key(b.object_id@)
            &&& aead_opened(
                block_key(root@, index),
                b.nonce@,
                Seq::empty(),
                store.objects()[b.object_id@],
            ) == Some(p@)
        },
        store.answers() ==> (r matches Err(e) ==> {
            ||| !store.objects().contains_key(b.object_id@) && e@ == Failure::Store(
                "object not found"@,
            )
            ||| store.objects().contains_key(b.object_id@) && aead_opened(
                block_key(root@, index),
                b.nonce@,
                Seq::empty(),
                store.objects()[b.object_id@],
            ) is None && e@ == Failure::Crypto
        }),
{
    let ciphertext: Vec<u8> = match store.get(&b.object_id) {
        Ok(c) => c,
        Err(e) => return Err(e),
    };
    let mut key: [u8; 32] = derive_block_key(root, index);
    let opened = open(&key, &b.nonce, &ciphertext);
    wipe_array(&mut key);
    opened
}

/// Puts together what a manifest promises and appends it to the output.
fn assemble<S: BlindStore>(
    store: &S,
    root: &RootKey,
    ordered: &Vec<BlockRef>,
    block_size: usize,
    real_len: u64,
    writer: &mut Vec<u8>,
) -> (r: Result<u64, Error>)
    ensures
        old(writer)@.is_prefix_of(final(writer)@),
        r matches Ok(n) ==> n == final(writer)@.len() - old(writer)@.len(),
        r is Ok ==> assembled(
            store.objects(),
            root@,
            block_rows(ordered@),
            block_size as nat,
            real_len as nat,
            ordered@.len(),
        ) == Ok::<Seq<u8>, Failure>(
            final(writer)@.subrange(old(writer)@.len() as int, final(writer)@.len() as int),
        ),
        store.answers() ==> (match assembled(
            store.objects(),
            root@,
            block_rows(ordered@),
            block_size as nat,
            real_len as nat,
            ordered@.len(),
        ) {
            Ok(_) => r is Ok,
            Err(f) => r matches Err(e) && e@ == f,
        }),
        r is Err ==> exists|k: nat|
            k <= ordered@.len() && #[trigger] assembled(
                store.objects(),
                root@,
                block_rows(ordered@),
                block_size as nat,
                real_len as nat,
                k,
            ) == Ok::<Seq<u8>, Failure>(
                final(writer)@.subrange(old(writer)@.len() as int, final(writer)@.len() as int),
            ),
{
    let ghost base = writer@;
    let ghost rows = block_rows(ordered@);
    let ghost objects = store.objects();
    let mut written: u64 = 0;
    let mut i: usize = 0;
    assert(writer@.subrange(base.len() as int, writer@.len() as int) =~= Seq::empty());
    while i < ordered.len()
        invariant
            i <= ordered@.len(),
            base == old(writer)@,
            rows == block_rows(ordered@),
            objects == store.objects(),
            base.is_prefix_of(writer@),
            written <= real_len,
            written == writer@.len() - base.len(),
            assembled(objects, root@, rows, block_size as nat, real_len as nat, i as nat) == Ok::<
                Seq<u8>,
                Failure,
            >(writer@.subrange(base.len() as int, writer@.len() as int)),
        decreases ordered@.len() - i,
    {
        let ghost out = writer@.subrange(base.len() as int, writer@.len() as int);
        let b: BlockRef = ordered[i];
        assert(rows[i as int] == block_row(b));
        let ghost step = assembled(
            objects,
            root@,
            rows,
            block_size as nat,
            real_len as nat,
            (i + 1) as nat,
        );
        let index: u32 = match b.index {
            Some(x) => x,
            None => {
                proof {
                    lemma_assembled_err(
                        objects,
                        root@,
                        rows,
                        block_size as nat,
                        real_len as nat,
                        (i + 1) as nat,
                        ordered@.len(),
                    );
                }
                return Err(
                    Error::Malformed(copy_text("real block indices are not contiguous")),
                );
            },
        };
        proof {
            if step is Err {
                lemma_assembled_err(
                    objects,
                    root@,
                    rows,
                    block_size as nat,
                    real_len as nat,
                    (i + 1) as nat,
                    ordered@.len(),
                );
            }
        }
        if index as usize != i {
            return Err(Error::Malformed(copy_text("real block indices are not contiguous")));
        }
        let plaintext: Vec<u8> = match fetch_block(store, root, &b, index) {
            Ok(p) => p,
            Err(e) => return Err(e),
        };
        if plaintext.len() != block_size {
            return Err(Error::Malformed(copy_text("block plaintext has wrong length")));
        }
        let remaining: u64 = real_len - written;
        let take: usize = if (block_size as u64) <= remaining {
            block_size
        } else {
            remaining as usize
        };
        let part: &[u8] = slice_subrange(&plaintext, 0, take);
        let ghost was = writer@;
        push_all(writer, part);
        written = written + take as u64;
        proof {
            assert(writer@.subrange(base.len() as int, writer@.len() as int) =~= out + part@);
            assert(base.is_prefix_of(writer@)) by {
                assert forall|k: int| 0 <= k < base.len() implies base[k] == writer@[k] by {
                    assert(base[k] == was[k]);
                }
            }
        }
        i = i + 1;
    }
    Ok(written)
}

/// A failure on the way is the failure of the whole.
proof fn lemma_assembled_err(
    objects: Map<Seq<u8>, Seq<u8>>,
    root: Seq<u8>,
    ordered: Seq<(Seq<u8>, Seq<u8>, Option<u32>)>,
    block_size: nat,
    real_len: nat,
    k: nat,
    n: nat,
)
    requires
        k <= n,
        assembled(objects, root, ordered, block_size, real_len, k) is Err,
    ensures
        assembled(objects, root, ordered, block_size, real_len, n) == assembled(
            objects,
            root,
            ordered,
            block_size,
            real_len,
            k,
        ),
    decreases n,
{
    if k < n {
        lemma_assembled_err(objects, root, ordered, block_size, real_len, k, (n - 1) as nat);
    }
}

/// Downloads what a capability gives access to and appends it to the output.
///
/// A download that succeeds has appended exactly the stream; one that fails has appended the first
/// blocks of it, and nothing where the manifest is refused. With a store that answers, the result
/// is decided by what the store holds.
pub fn download<S: BlindStore>(cap: &ReadCap, store: &S, writer: &mut Vec<u8>) -> (r: Result<
    (),
    Error,
>)
    ensures
        old(writer)@.is_prefix_of(final(writer)@),
        r is Ok ==> downloaded(store.objects(), cap.root_key@, cap.manifest_id@) == Ok::<
            Seq<u8>,
            Failure,
        >(final(writer)@.subrange(old(writer)@.len() as int, final(writer)@.len() as int)),
        store.answers() ==> (match downloaded(
            store.objects(),
            cap.root_key@,
            cap.manifest_id@,
        ) {
            Ok(_) => r is Ok,
            Err(f) => r matches Err(e) && e@ == f,
        }),
        r is Err ==> final(writer)@ == old(writer)@ || partly_downloaded(
            store.objects(),
            cap.root_key@,
            cap.manifest_id@,
            final(writer)@.subrange(old(writer)@.len() as int, final(writer)@.len() as int),
        ),
{
    let object: Vec<u8> = match store.get(&cap.manifest_id) {
        Ok(o) => o,
        Err(e) => return Err(e),
    };
    let manifest: Manifest = match open_manifest(&object, &cap.root_key) {
        Ok(m) => m,
        Err(e) => return Err(e),
    };
    if manifest.version != MANIFEST_VERSION {
        return Err(version_error(manifest.version));
    }
    let block_size: usize = manifest.block_size as usize;
    if block_size == 0 && manifest.real_len > 0 {
        return Err(Error::Malformed(copy_text("manifest has no block size")));
    }
    let ordered: Vec<BlockRef> = manifest.real_blocks_ordered();
    let exact: EncodeParams = EncodeParams { block_size, ladder: Ladder::Exact };
    let expected: usize = exact.real_blocks(manifest.real_len);
    assert(block_rows(ordered@).len() == ordered@.len());
    if ordered.len() != expected {
        return Err(count_error(ordered.len(), expected));
    }
    let written: u64 = match assemble(
        store,
        &cap.root_key,
        &ordered,
        block_size,
        manifest.real_len,
        writer,
    ) {
        Ok(n) => n,
        Err(e) => return Err(e),
    };
    if written != manifest.real_len {
        return Err(Error::Malformed(copy_text("reassembled length mismatch")));
    }
    Ok(())
}

/// The first blocks hold the beginning of what all blocks hold.
proof fn lemma_assembled_prefix(
    objects: Map<Seq<u8>, Seq<u8>>,
    root: Seq<u8>,
    ordered: Seq<(Seq<u8>, Seq<u8>, Option<u32>)>,
    block_size: nat,
    real_len: nat,
    k: nat,
    n: nat,
)
    requires
        k <= n,
        assembled(objects, root, ordered, block_size, real_len, n) is Ok,
    ensures
        assembled(objects, root, ordered, block_size, real_len, k) is Ok,
        assembled(objects, root, ordered, block_size, real_len, k)->Ok_0.is_prefix_of(
            assembled(objects, root, ordered, block_size, real_len, n)->Ok_0,
        ),
    decreases n,
{
    if k < n {
        lemma_assembled_prefix(objects, root, ordered, block_size, real_len, k, (n - 1) as nat);
        let short = assembled(objects, root, ordered, block_size, real_len, k)->Ok_0;
        let mid = assembled(objects, root, ordered, block_size, real_len, (n - 1) as nat)->Ok_0;
        let long = assembled(objects, root, ordered, block_size, real_len, n)->Ok_0;
        assert(mid.is_prefix_of(long));
        assert forall|i: int| 0 <= i < short.len() implies short[i] == long[i] by {
            assert(short[i] == mid[i]);
            assert(mid[i] == long[i]);
        }
    }
}

/// A download that stops halfway, from a store that fails, has appended the beginning of the
/// stream and nothing else.
pub proof fn law_partial_download_is_a_prefix(
    objects: Map<Seq<u8>, Seq<u8>>,
    root: Seq<u8>,
    manifest_id: Seq<u8>,
    part: Seq<u8>,
)
    requires
        partly_downloaded(objects, root, manifest_id, part),
        downloaded(objects, root, manifest_id) is Ok,
    ensures
        part.is_prefix_of(downloaded(objects, root, manifest_id)->Ok_0),
{
    let m = opened_manifest(objects[manifest_id], root)->Ok_0;
    let ordered = ordered_rows(m.3);
    let k = choose|k: nat|
        k <= ordered.len() && #[trigger] assembled(
            objects,
            root,
            ordered,
            m.1 as nat,
            m.2 as nat,
            k,
        ) == Ok::<Seq<u8>, Failure>(part);
    lemma_assembled_prefix(objects, root, ordered, m.1 as nat, m.2 as nat, k, ordered.len());
}

// ── Addresses of an HTTP store ───────────────────────────────────────────────

/// The text without the slashes at its end.
pub open spec fn without_slashes(s: Seq<char>) -> Seq<char>
    decreases s.len(),
{
    if s.len() > 0 && s[s.len() - 1] == '/' {
        without_slashes(s.subrange(0, s.len() - 1))
    } else {
        s
    }
}

/// The namespace of an HTTP store: the address without the slashes at its end.
pub fn store_namespace(base_url: &str) -> (r: String)
    ensures
        r@ == without_slashes(base_url@),
{
    let chars: Vec<char> = chars_of(base_url);
    let mut n: usize = chars.len();
    assert(chars@.subrange(0, n as int) =~= chars@);
    while n > 0 && chars[n - 1] == '/'
        invariant
            n <= chars@.len(),
            without_slashes(chars@.subrange(0, n as int)) == without_slashes(chars@),
        decreases n,
    {
        assert(chars@.subrange(0, n as int).subrange(0, n - 1) =~= chars@.subrange(0, n - 1));
        n = n - 1;
    }
    assert(chars@.subrange(0, n as int).len() == n);
    string_of(slice_subrange(&chars, 0, n))
}

/// The address of an object: the namespace, a slash and the identifier in hexadecimal.
pub fn object_url(namespace: &str, id: &[u8; 32]) -> (r: String)
    ensures
        r@ == namespace@ + "/"@ + hex_spec(id@),
{
    let mut out: String = copy_text(namespace);
    push_text(&mut out, "/");
    push_text(&mut out, &hex(id));
    out
}

// ── Laws ─────────────────────────────────────────────────────────────────────

/// A store holds what was put into it, under the identifier it was put under: one more entry is one
/// more object, or a new value where the identifier was in use.
pub proof fn law_store_holds_what_was_put(entries: Seq<([u8; 32], Vec<u8>)>, e: ([u8; 32], Vec<u8>))
    ensures
        objects_of(Seq::empty()) == Map::<Seq<u8>, Seq<u8>>::empty(),
        objects_of(entries.push(e)) == objects_of(entries).insert(e.0@, e.1@),
{
    assert(entries.push(e).subrange(0, entries.len() as int) =~= entries);
}

/// A block is its part of the data, with zeros behind it where the data ends.
pub proof fn law_blocks_hold_their_part_of_the_data(data: Seq<u8>, block_size: nat, i: int, k: int)
    requires
        0 <= i,
        0 <= k < block_size,
    ensures
        padded(data, block_size, i).len() == block_size,
        i * block_size + k < data.len() ==> padded(data, block_size, i)[k] == data[i * block_size
            + k],
        i * block_size + k >= data.len() ==> padded(data, block_size, i)[k] == 0,
{
}

/// All data is sent, unless blocks have no length.
pub proof fn law_all_data_is_sent(data: Seq<u8>, block_size: nat)
    ensures
        block_size > 0 ==> stream_of(data, block_size) == data,
        block_size == 0 ==> stream_of(data, block_size).len() == 0,
{
}

/// What a download puts together grows block by block: each block adds what it holds, cut to what
/// remains; the first block that is out of order, missing, or does not open ends it.
pub proof fn law_download_goes_block_by_block(
    objects: Map<Seq<u8>, Seq<u8>>,
    root: Seq<u8>,
    ordered: Seq<(Seq<u8>, Seq<u8>, Option<u32>)>,
    block_size: nat,
    real_len: nat,
    n: nat,
    out: Seq<u8>,
    p: Seq<u8>,
)
    requires
        assembled(objects, root, ordered, block_size, real_len, n) == Ok::<Seq<u8>, Failure>(out),
        out.len() <= real_len,
        n < 0x1_0000_0000,
    ensures
        assembled(objects, root, ordered, block_size, real_len, 0) == Ok::<Seq<u8>, Failure>(
            Seq::empty(),
        ),
        ordered[n as int].2 == Some(n as u32) && objects.contains_key(ordered[n as int].0)
            && aead_opened(
            block_key(root, n as u32),
            ordered[n as int].1,
            Seq::empty(),
            objects[ordered[n as int].0],
        ) == Some(p) && p.len() == block_size ==> assembled(
            objects,
            root,
            ordered,
            block_size,
            real_len,
            n + 1,
        ) == Ok::<Seq<u8>, Failure>(
            out + p.subrange(
                0,
                if block_size <= real_len - out.len() {
                    block_size as int
                } else {
                    real_len - out.len()
                },
            ),
        ),
        ordered[n as int].2 != Some(n as u32) ==> assembled(
            objects,
            root,
            ordered,
            block_size,
            real_len,
            n + 1,
        ) is Err,
        !objects.contains_key(ordered[n as int].0) ==> assembled(
            objects,
            root,
            ordered,
            block_size,
            real_len,
            n + 1,
        ) is Err,
        aead_opened(
            block_key(root, n as u32),
            ordered[n as int].1,
            Seq::empty(),
            objects[ordered[n as int].0],
        ) is None ==> assembled(objects, root, ordered, block_size, real_len, n + 1) is Err,
{
}

/// The manifest object is a nonce and what was sealed under it with the key of the manifest.
pub proof fn law_opening_a_manifest(nonce: Seq<u8>, sealed: Seq<u8>, root: Seq<u8>)
    requires
        nonce.len() == 24,
    ensures
        opened_manifest(nonce + sealed, root) == match aead_opened(
            manifest_key(root),
            nonce,
            Seq::empty(),
            sealed,
        ) {
            None => Err(Failure::Crypto),
            Some(bytes) => match decoded_manifest(bytes) {
                None => Err(Failure::Serialize),
                Some(m) => Ok(m),
            },
        },
        sealed.len() < 24 ==> opened_manifest(sealed, root) == Err::<
            (u16, u32, u64, Seq<(Seq<u8>, Seq<u8>, Option<u32>)>),
            Failure,
        >(Failure::Malformed("manifest object too short"@)),
{
    let all = nonce + sealed;
    assert(all.subrange(0, 24) =~= nonce);
    assert(all.subrange(24, all.len() as int) =~= sealed);
}

/// A manifest is accepted exactly where it has the known version, says how long a block is, and
/// lists as many real blocks as its length takes.
pub proof fn law_accepted_manifests(m: (u16, u32, u64, Seq<(Seq<u8>, Seq<u8>, Option<u32>)>))
    ensures
        manifest_fault(m) is None <==> m.0 == 1 && (m.1 > 0 || m.2 == 0) && ordered_rows(m.3).len()
            == blocks_for((m.2 as usize) as nat, m.1 as nat),
        m.0 != 1 ==> manifest_fault(m) == Some(
            Failure::Malformed("unsupported manifest version "@ + decimal_spec(m.0 as nat)),
        ),
{
}

/// A download gives data of exactly the promised length, and fails where there is no manifest or
/// where it is refused.
pub proof fn law_download_has_the_promised_length(
    objects: Map<Seq<u8>, Seq<u8>>,
    root: Seq<u8>,
    manifest_id: Seq<u8>,
)
    ensures
        !objects.contains_key(manifest_id) ==> downloaded(objects, root, manifest_id) == Err::<
            Seq<u8>,
            Failure,
        >(Failure::Store("object not found"@)),
        downloaded(objects, root, manifest_id) matches Ok(data) ==> {
            &&& objects.contains_key(manifest_id)
            &&& opened_manifest(objects[manifest_id], root) matches Ok(m) && {
                &&& manifest_fault(m) is None
                &&& data.len() == m.2
                &&& assembled(
                    objects,
                    root,
                    ordered_rows(m.3),
                    m.1 as nat,
                    m.2 as nat,
                    ordered_rows(m.3).len(),
                ) == Ok::<Seq<u8>, Failure>(data)
            }
        },
{
}

/// Random numbers are taken up to a multiple of the bound, so that every result is met equally
/// often, and no whole run below the limit of 64 bits is left out.
pub proof fn law_every_result_is_equally_likely(bound: u64)
    requires
        bound > 0,
    ensures
        zone(bound) % (bound as int) == 0,
        u64::MAX - zone(bound) < bound,
        0 <= zone(bound) <= u64::MAX,
{
    let m = u64::MAX as int;
    let b = bound as int;
    vstd::arithmetic::div_mod::lemma_fundamental_div_mod(m, b);
    assert(m - m % b == b * (m / b));
    vstd::arithmetic::div_mod::lemma_mod_multiples_basic(m / b, b);
    assert((m / b) * b == b * (m / b)) by (nonlinear_arith);
}

/// A shuffle keeps every item, neither more nor fewer, and each pick exchanges two of them: the
/// last that has not been settled and the one that is picked.
pub proof fn law_shuffle_keeps_the_items<T>(s: Seq<T>, picks: Seq<usize>, pick: usize)
    requires
        picks.push(pick).len() < s.len(),
        forall|k: int|
            0 <= k < picks.push(pick).len() ==> #[trigger] picks.push(pick)[k] < s.len() - k,
    ensures
        fisher_yates(s, picks).to_multiset() == s.to_multiset(),
        fisher_yates(s, picks).len() == s.len(),
        fisher_yates(s, Seq::empty()) == s,
        ({
            let before = fisher_yates(s, picks);
            let after = fisher_yates(s, picks.push(pick));
            let last = s.len() - 1 - picks.len();
            &&& after.len() == s.len()
            &&& after[last] == before[pick as int]
            &&& after[pick as int] == before[last]
            &&& forall|k: int|
                0 <= k < s.len() && k != last && k != pick ==> #[trigger] after[k] == before[k]
        }),
{
    assert forall|k: int| 0 <= k < picks.len() implies #[trigger] picks[k] < s.len() - k by {
        assert(picks.push(pick)[k] == picks[k]);
    }
    assert(picks.push(pick)[picks.len() as int] == pick);
    lemma_fisher_yates(s, picks);
    assert(picks.push(pick).subrange(0, picks.len() as int) =~= picks);
}

/// A transfer takes as many blocks as hold the data, and as many objects as the ladder says.
pub proof fn law_blocks_of_a_transfer(data: Seq<u8>, params: EncodeParams)
    ensures
        params.block_size > 0 ==> block_count(data, params) * params.block_size >= data.len(),
        params.block_size > 0 && data.len() > 0 ==> (block_count(data, params) - 1)
            * params.block_size < data.len(),
        params.block_size == 0 || data.len() == 0 ==> block_count(data, params) == 0,
        object_count(data, params) == ladder_total(params.ladder, block_count(data, params)),
{
    if params.block_size > 0 {
        law_blocks_are_as_few_as_hold_the_stream(data.len(), params.block_size as nat);
        lemma_blocks_for(data.len(), params.block_size as nat);
    }
}

/// Data can be uploaded exactly where its blocks and its manifest are short enough for the cipher
/// and its blocks can be counted in thirty-two bits.
pub proof fn law_what_can_be_uploaded(data: Seq<u8>, params: EncodeParams)
    ensures
        upload_fault(data, params) is None <==> (block_count(data, params) == 0 || params.block_size
            < AEAD_MESSAGE_LIMIT) && block_count(data, params) < 0x1_0000_0000 && 22 + 61
            * block_count(data, params) + 57 * (object_count(data, params) - block_count(data, params))
            < AEAD_MESSAGE_LIMIT,
        upload_fault(data, params) is Some && block_count(data, params) > 0 && params.block_size
            >= AEAD_MESSAGE_LIMIT ==> stored_at_fault(data, params) == 0,
        block_count(data, params) >= 0x1_0000_0000 && params.block_size < AEAD_MESSAGE_LIMIT
            ==> stored_at_fault(data, params) == 0x1_0000_0000,
{
}

/// The references of a transfer have the identifiers and nonces that were drawn, in order; the
/// blocks come first, with their indices, and the decoys behind them have none.
pub proof fn law_references_of_a_transfer(
    ids: Seq<[u8; 32]>,
    nonces: Seq<[u8; 24]>,
    n: nat,
    i: int,
)
    ensures
        drawn_rows(ids, nonces, n).len() == ids.len(),
        0 <= i < ids.len() ==> drawn_rows(ids, nonces, n)[i].0 == ids[i]@ && drawn_rows(
            ids,
            nonces,
            n,
        )[i].1 == nonces[i]@,
        0 <= i < ids.len() && i < n ==> drawn_rows(ids, nonces, n)[i].2 == Some(i as u32),
        0 <= i < ids.len() && i >= n ==> drawn_rows(ids, nonces, n)[i].2 is None,
{
}

/// The slashes at the end of an address are left out, and nothing else of it.
pub proof fn law_slashes_at_the_end_are_left_out(s: Seq<char>)
    ensures
        without_slashes(s.push('/')) == without_slashes(s),
        s.len() > 0 && s[s.len() - 1] != '/' ==> without_slashes(s) == s,
        without_slashes(Seq::empty()) == Seq::<char>::empty(),
{
    assert(s.push('/').subrange(0, s.len() as int) =~= s);
}

/// An upload that fails loses nothing: every object that was in the store is there as it was. It
/// fails by a fault of the data, or because an identifier was in use.
pub proof fn law_failed_upload_loses_nothing(
    before: Map<Seq<u8>, Seq<u8>>,
    now: Map<Seq<u8>, Seq<u8>>,
    rows: Seq<(Seq<u8>, Seq<u8>, Option<u32>)>,
    manifest_id: Seq<u8>,
    object_len: nat,
    fault: Option<Failure>,
    at_fault: nat,
    failure: Failure,
    id: Seq<u8>,
)
    requires
        upload_stopped(before, now, rows, manifest_id, object_len, fault, at_fault, failure),
    ensures
        before.contains_key(id) ==> now.contains_key(id) && now[id] == before[id],
        fault == Some(failure) || failure == Failure::Store("object already exists"@),
        now.contains_key(id) && !before.contains_key(id) ==> exists|i: int|
            0 <= i < rows.len() && (#[trigger] rows[i]).0 == id,
{
    if fault == Some(failure) && at_fault <= rows.len() && grown(
        before,
        now,
        rows.subrange(0, at_fault as int),
        object_len,
    ) {
        lemma_grown_part(before, now, rows, at_fault as int, object_len, id);
    } else {
        let k = choose|k: int| #[trigger]
            collided(before, now, rows, manifest_id, object_len, k);
        lemma_grown_part(before, now, rows, k, object_len, id);
    }
}

proof fn lemma_grown_part(
    before: Map<Seq<u8>, Seq<u8>>,
    now: Map<Seq<u8>, Seq<u8>>,
    rows: Seq<(Seq<u8>, Seq<u8>, Option<u32>)>,
    n: int,
    object_len: nat,
    id: Seq<u8>,
)
    requires
        0 <= n <= rows.len(),
        grown(before, now, rows.subrange(0, n), object_len),
    ensures
        before.contains_key(id) ==> now.contains_key(id) && now[id] == before[id],
        now.contains_key(id) && !before.contains_key(id) ==> exists|i: int|
            0 <= i < rows.len() && (#[trigger] rows[i]).0 == id,
{
    if now.contains_key(id) && !before.contains_key(id) {
        let part = rows.subrange(0, n);
        let i = choose|i: int| 0 <= i < part.len() && (#[trigger] part[i]).0 == id;
        assert(rows[i].0 == id);
    }
}

/// A shuffle of items has one pick for each but one, of a place among those not settled.
pub proof fn law_picks_of_a_shuffle(picks: Seq<usize>, n: nat, k: int)
    requires
        are_picks(picks, n),
    ensures
        n > 0 ==> picks.len() == n - 1,
        n == 0 ==> picks.len() == 0,
        0 <= k < picks.len() ==> picks[k] <= n - 1 - k,
{
}

/// An upload that met an identifier in use, or ran out of indices, loses nothing either.
pub proof fn law_stopped_upload_loses_nothing(
    before: Map<Seq<u8>, Seq<u8>>,
    now: Map<Seq<u8>, Seq<u8>>,
    data: Seq<u8>,
    params: EncodeParams,
    rows: Seq<(Seq<u8>, Seq<u8>, Option<u32>)>,
    object_len: nat,
    n: nat,
    failure: Failure,
    id: Seq<u8>,
)
    requires
        upload_collided(before, now, data, params) || indices_ran_out(
            before,
            now,
            rows,
            object_len,
            n,
            failure,
        ),
    ensures
        before.contains_key(id) ==> now.contains_key(id) && now[id] == before[id],
        indices_ran_out(before, now, rows, object_len, n, failure) ==> n >= 0x1_0000_0000 && failure
            == Failure::Malformed("stream exceeds 2^32 blocks"@),
{
    if upload_collided(before, now, data, params) {
        let (rows, manifest_id, k) = choose|
            rows: Seq<(Seq<u8>, Seq<u8>, Option<u32>)>,
            manifest_id: Seq<u8>,
            k: int,
        |
            rows.len() == object_count(data, params) && #[trigger] collided(
                before,
                now,
                rows,
                manifest_id,
                (params.block_size + AEAD_TAG_LEN) as nat,
                k,
            );
        lemma_grown_part(
            before,
            now,
            rows,
            k,
            (params.block_size + AEAD_TAG_LEN) as nat,
            id,
        );
    }
}

/// The manifest of a transfer is its nonce and the sealed bytes of a manifest of version one, with
/// the block size, the length of the data and the references in the order of the shuffle; blocks
/// come before decoys in the references that were drawn.
pub proof fn law_manifest_of_a_transfer(
    before: Map<Seq<u8>, Seq<u8>>,
    now: Map<Seq<u8>, Seq<u8>>,
    root: Seq<u8>,
    manifest_id: Seq<u8>,
    nonce: Seq<u8>,
    data: Seq<u8>,
    params: EncodeParams,
    rows: Seq<(Seq<u8>, Seq<u8>, Option<u32>)>,
    picks: Seq<usize>,
)
    requires
        transferred_as(before, now, root, manifest_id, nonce, data, params, rows, picks),
        nonce.len() == 24,
    ensures
        now.contains_key(manifest_id),
        now[manifest_id].subrange(0, 24) == nonce,
        now[manifest_id].subrange(24, now[manifest_id].len() as int) == xchacha_seal(
            manifest_key(root),
            nonce,
            Seq::empty(),
            manifest_bytes(
                (
                    1u16,
                    params.block_size as u32,
                    stream_of(data, params.block_size as nat).len() as u64,
                    fisher_yates(rows, picks),
                ),
            ),
        ),
{
    let object = now[manifest_id];
    assert(object.subrange(0, 24) =~= nonce);
    let manifest = (
        1u16,
        params.block_size as u32,
        stream_of(data, params.block_size as nat).len() as u64,
        fisher_yates(rows, picks),
    );
    assert(object.subrange(24, object.len() as int) =~= xchacha_seal(
        manifest_key(root),
        nonce,
        Seq::empty(),
        manifest_bytes(manifest),
    ));
}

/// What a download says where it fails at a block, and of a manifest that it does not accept.
pub proof fn law_words_for_a_failed_download(
    objects: Map<Seq<u8>, Seq<u8>>,
    root: Seq<u8>,
    ordered: Seq<(Seq<u8>, Seq<u8>, Option<u32>)>,
    block_size: nat,
    real_len: nat,
    n: nat,
    m: (u16, u32, u64, Seq<(Seq<u8>, Seq<u8>, Option<u32>)>),
)
    requires
        assembled(objects, root, ordered, block_size, real_len, n) is Ok,
        n < 0x1_0000_0000,
    ensures
        ({
            let b = ordered[n as int];
            let next = assembled(objects, root, ordered, block_size, real_len, n + 1);
            let opened = aead_opened(
                block_key(root, n as u32),
                b.1,
                Seq::empty(),
                objects[b.0],
            );
            &&& b.2 != Some(n as u32) ==> next == Err::<Seq<u8>, Failure>(
                Failure::Malformed("real block indices are not contiguous"@),
            )
            &&& b.2 == Some(n as u32) && !objects.contains_key(b.0) ==> next == Err::<
                Seq<u8>,
                Failure,
            >(Failure::Store("object not found"@))
            &&& b.2 == Some(n as u32) && objects.contains_key(b.0) && opened is None ==> next
                == Err::<Seq<u8>, Failure>(Failure::Crypto)
            &&& b.2 == Some(n as u32) && objects.contains_key(b.0) && opened is Some
                && opened->Some_0.len() != block_size ==> next == Err::<Seq<u8>, Failure>(
                Failure::Malformed("block plaintext has wrong length"@),
            )
        }),
        m.0 == 1 && m.1 == 0 && m.2 > 0 ==> manifest_fault(m) == Some(
            Failure::Malformed("manifest has no block size"@),
        ),
        m.0 == 1 && m.1 > 0 && ordered_rows(m.3).len() != blocks_for(
            (m.2 as usize) as nat,
            m.1 as nat,
        ) ==> manifest_fault(m) == Some(
            Failure::Malformed(
                "manifest lists "@ + decimal_spec(ordered_rows(m.3).len())
                    + " real blocks but real_len implies "@ + decimal_spec(
                    blocks_for((m.2 as usize) as nat, m.1 as nat),
                ),
            ),
        ),
{
}

} // verus!
