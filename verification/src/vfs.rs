//! The file table of a vault and its binary form.

use crate::bytes::{le, le_value, lemma_le_len, lemma_le_value_of_le, lemma_pow256_values};
use vstd::prelude::*;
use vstd::utf8::encode_utf8;

verus! {

// ── Types ────────────────────────────────────────────────────────────────────

/// One encrypted chunk of a file.
#[derive(Clone, Copy, Debug, PartialEq, Eq)]
pub struct ChunkEntry {
    /// Length of the complete on-disk v1 blob, with magic prefix, salt, nonce and tag.
    pub cipher_len: usize,
    /// Place of the blob in the vault file.
    pub offset: u64,
    /// Random per-chunk identifier, which binds the blob to this chunk.
    pub file_id: [u8; 16],
    /// Plaintext length before uniform padding. Zero means that nothing was padded.
    pub plain_len: usize,
}

/// One file of the vault.
#[derive(Debug)]
pub struct FileIndex {
    pub vfs_name: String,
    pub chunks: Vec<ChunkEntry>,
    pub last_modified_unix: u64,
}

/// The root of the vault: its file table and the salt of the chunker.
#[derive(Debug)]
pub struct VaultMetadata {
    pub file_table: Vec<FileIndex>,
    pub cdc_salt: [u8; 32],
}

// ── Views ────────────────────────────────────────────────────────────────────

/// A chunk entry as plain values: length, place, identifier and plaintext length.
pub open spec fn chunk_row(c: ChunkEntry) -> (usize, u64, Seq<u8>, usize) {
    (c.cipher_len, c.offset, c.file_id@, c.plain_len)
}

/// The entries of a file as plain values.
pub open spec fn chunk_rows(c: Seq<ChunkEntry>) -> Seq<(usize, u64, Seq<u8>, usize)> {
    c.map_values(|e: ChunkEntry| chunk_row(e))
}

/// A file as plain values: name, chunks and time of the last change.
pub open spec fn file_row(f: FileIndex) -> (Seq<char>, Seq<(usize, u64, Seq<u8>, usize)>, u64) {
    (f.vfs_name@, chunk_rows(f.chunks@), f.last_modified_unix)
}

/// The file table as plain values.
pub open spec fn table_rows(t: Seq<FileIndex>) -> Seq<
    (Seq<char>, Seq<(usize, u64, Seq<u8>, usize)>, u64),
> {
    t.map_values(|f: FileIndex| file_row(f))
}

impl View for VaultMetadata {
    type V = (Seq<(Seq<char>, Seq<(usize, u64, Seq<u8>, usize)>, u64)>, Seq<u8>);

    open spec fn view(&self) -> Self::V {
        (table_rows(self.file_table@), self.cdc_salt@)
    }
}

// ── Binary form ──────────────────────────────────────────────────────────────

/// The bytes of a chunk entry.
pub open spec fn chunk_entry_bytes(c: (usize, u64, Seq<u8>, usize)) -> Seq<u8> {
    le(c.0 as nat, 8) + le(c.1 as nat, 8) + c.2 + le(c.3 as nat, 8)
}

/// The bytes of a file: name and chunks with their counts before them, and the time.
pub open spec fn file_bytes(f: (Seq<char>, Seq<(usize, u64, Seq<u8>, usize)>, u64)) -> Seq<u8> {
    le(encode_utf8(f.0).len(), 8) + encode_utf8(f.0) + le(f.1.len(), 8) + f.1.map_values(
        |c: (usize, u64, Seq<u8>, usize)| chunk_entry_bytes(c),
    ).flatten() + le(f.2 as nat, 8)
}

/// The bytes of the metadata: the files with their count before them, and the salt.
pub open spec fn metadata_bytes(
    m: (Seq<(Seq<char>, Seq<(usize, u64, Seq<u8>, usize)>, u64)>, Seq<u8>),
) -> Seq<u8> {
    le(m.0.len(), 8) + m.0.map_values(
        |f: (Seq<char>, Seq<(usize, u64, Seq<u8>, usize)>, u64)| file_bytes(f),
    ).flatten() + m.1
}

/// The error of the binary codec.
#[verifier::external_type_specification]
#[verifier::external_body]
pub struct ExBincodeError(bincode::ErrorKind);

/// The words of an error of the binary codec. Nothing is said of them.
#[verifier::external_body]
pub(crate) fn codec_words(e: Box<bincode::ErrorKind>) -> String {
    e.to_string()
}

/// The metadata that the binary codec reads from a byte sequence, where it can.
pub uninterp spec fn decoded_metadata(b: Seq<u8>) -> Option<
    (Seq<(Seq<char>, Seq<(usize, u64, Seq<u8>, usize)>, u64)>, Seq<u8>),
>;

/// The entries of a file, written as tuples, as plain values.
pub open spec fn tuple_chunk_rows(c: Seq<(usize, u64, [u8; 16], usize)>) -> Seq<
    (usize, u64, Seq<u8>, usize),
> {
    c.map_values(|e: (usize, u64, [u8; 16], usize)| (e.0, e.1, e.2@, e.3))
}

/// The file table, written as tuples, as plain values.
pub open spec fn tuple_rows(t: Seq<(String, Vec<(usize, u64, [u8; 16], usize)>, u64)>) -> Seq<
    (Seq<char>, Seq<(usize, u64, Seq<u8>, usize)>, u64),
> {
    t.map_values(
        |f: (String, Vec<(usize, u64, [u8; 16], usize)>, u64)|
            (f.0@, tuple_chunk_rows(f.1@), f.2),
    )
}

/// `bincode::serialize` of the file table and the salt: fixed-width little-endian integers, each
/// sequence with its length before it, arrays as they are. Memory is its only limit, and
/// `bincode::deserialize` reads the values back, whatever bytes come behind.
#[verifier::external_body]
fn bincode_metadata(
    table: &Vec<(String, Vec<(usize, u64, [u8; 16], usize)>, u64)>,
    cdc_salt: &[u8; 32],
) -> (r: Result<Vec<u8>, Box<bincode::ErrorKind>>)
    ensures
        r is Ok,
        r matches Ok(b) ==> b@ == metadata_bytes((tuple_rows(table@), cdc_salt@)),
        r matches Ok(b) ==> forall|tail: Seq<u8>| #[trigger]
            decoded_metadata(b@ + tail) == Some((tuple_rows(table@), cdc_salt@)),
{
    bincode::serialize(&(table, cdc_salt))
}

/// `bincode::deserialize` of a file table and a salt.
#[verifier::external_body]
fn unbincode_metadata(b: &[u8]) -> (r: Result<
    (Vec<(String, Vec<(usize, u64, [u8; 16], usize)>, u64)>, [u8; 32]),
    Box<bincode::ErrorKind>,
>)
    ensures
        r matches Ok(v) ==> decoded_metadata(b@) == Some((tuple_rows(v.0@), v.1@)),
        r is Err ==> decoded_metadata(b@) is None,
{
    bincode::deserialize(b)
}

impl VaultMetadata {
    /// The bytes of the metadata. Reading them gives the metadata back, whatever comes behind them.
    pub fn to_bytes(&self) -> (r: Vec<u8>)
        ensures
            r@ == metadata_bytes(self@),
            decoded_metadata(r@) == Some(self@),
            forall|tail: Seq<u8>| #[trigger] decoded_metadata(r@ + tail) == Some(self@),
    {
        let mut table: Vec<(String, Vec<(usize, u64, [u8; 16], usize)>, u64)> = Vec::new();
        let mut i: usize = 0;
        while i < self.file_table.len()
            invariant
                i <= self.file_table@.len(),
                tuple_rows(table@) == table_rows(self.file_table@.subrange(0, i as int)),
            decreases self.file_table@.len() - i,
        {
            let f: &FileIndex = &self.file_table[i];
            let mut chunks: Vec<(usize, u64, [u8; 16], usize)> = Vec::new();
            let mut j: usize = 0;
            while j < f.chunks.len()
                invariant
                    j <= f.chunks@.len(),
                    tuple_chunk_rows(chunks@) == chunk_rows(f.chunks@.subrange(0, j as int)),
                decreases f.chunks@.len() - j,
            {
                let c: ChunkEntry = f.chunks[j];
                let ghost before = chunks@;
                chunks.push((c.cipher_len, c.offset, c.file_id, c.plain_len));
                assert(tuple_chunk_rows(chunks@) =~= tuple_chunk_rows(before).push(chunk_row(c)));
                assert(chunk_rows(f.chunks@.subrange(0, j + 1)) =~= chunk_rows(
                    f.chunks@.subrange(0, j as int),
                ).push(chunk_row(c)));
                j = j + 1;
            }
            assert(f.chunks@.subrange(0, f.chunks@.len() as int) =~= f.chunks@);
            let ghost before = table@;
            table.push((f.vfs_name.clone(), chunks, f.last_modified_unix));
            assert(tuple_rows(table@) =~= tuple_rows(before).push(file_row(*f)));
            assert(table_rows(self.file_table@.subrange(0, i + 1)) =~= table_rows(
                self.file_table@.subrange(0, i as int),
            ).push(file_row(*f)));
            i = i + 1;
        }
        assert(self.file_table@.subrange(0, self.file_table@.len() as int) =~= self.file_table@);
        match bincode_metadata(&table, &self.cdc_salt) {
            Ok(b) => {
                assert(b@ + Seq::<u8>::empty() =~= b@);
                b
            },
            Err(_) => Vec::new(),
        }
    }

    /// Reads metadata from its bytes; the words of the codec where it cannot.
    pub fn from_bytes(b: &[u8]) -> (r: Result<VaultMetadata, String>)
        ensures
            match r {
                Ok(m) => decoded_metadata(b@) == Some(m@),
                Err(_) => decoded_metadata(b@) is None,
            },
    {
        let (rows, cdc_salt) = match unbincode_metadata(b) {
            Ok(v) => v,
            Err(e) => return Err(codec_words(e)),
        };
        let mut table: Vec<FileIndex> = Vec::new();
        let mut i: usize = 0;
        while i < rows.len()
            invariant
                i <= rows@.len(),
                table_rows(table@) == tuple_rows(rows@.subrange(0, i as int)),
            decreases rows@.len() - i,
        {
            let row: &(String, Vec<(usize, u64, [u8; 16], usize)>, u64) = &rows[i];
            let mut chunks: Vec<ChunkEntry> = Vec::new();
            let mut j: usize = 0;
            while j < row.1.len()
                invariant
                    j <= row.1@.len(),
                    chunk_rows(chunks@) == tuple_chunk_rows(row.1@.subrange(0, j as int)),
                decreases row.1@.len() - j,
            {
                let c: &(usize, u64, [u8; 16], usize) = &row.1[j];
                let ghost before = chunks@;
                let e: ChunkEntry = ChunkEntry {
                    cipher_len: c.0,
                    offset: c.1,
                    file_id: c.2,
                    plain_len: c.3,
                };
                chunks.push(e);
                assert(chunk_rows(chunks@) =~= chunk_rows(before).push(chunk_row(e)));
                assert(tuple_chunk_rows(row.1@.subrange(0, j + 1)) =~= tuple_chunk_rows(
                    row.1@.subrange(0, j as int),
                ).push(chunk_row(e)));
                j = j + 1;
            }
            assert(row.1@.subrange(0, row.1@.len() as int) =~= row.1@);
            let ghost before = table@;
            let f: FileIndex = FileIndex {
                vfs_name: row.0.clone(),
                chunks,
                last_modified_unix: row.2,
            };
            let ghost fr = file_row(f);
            table.push(f);
            assert(table_rows(table@) =~= table_rows(before).push(fr));
            assert(tuple_rows(rows@.subrange(0, i + 1)) =~= tuple_rows(
                rows@.subrange(0, i as int),
            ).push(fr));
            i = i + 1;
        }
        assert(rows@.subrange(0, rows@.len() as int) =~= rows@);
        Ok(VaultMetadata { file_table: table, cdc_salt })
    }
}

// ── Laws ─────────────────────────────────────────────────────────────────────

/// The view of a table has a row for each file, with its name, its chunks in their order, and the
/// time of its last change.
pub proof fn law_rows_are_those_of_the_files(t: Seq<FileIndex>, i: int, k: int)
    ensures
        table_rows(t).len() == t.len(),
        0 <= i < t.len() ==> table_rows(t)[i].0 == t[i].vfs_name@,
        0 <= i < t.len() ==> table_rows(t)[i].2 == t[i].last_modified_unix,
        0 <= i < t.len() ==> table_rows(t)[i].1.len() == t[i].chunks@.len(),
        0 <= i < t.len() && 0 <= k < t[i].chunks@.len() ==> table_rows(t)[i].1[k] == (
            t[i].chunks@[k].cipher_len,
            t[i].chunks@[k].offset,
            t[i].chunks@[k].file_id@,
            t[i].chunks@[k].plain_len,
        ),
{
}

/// A chunk entry is forty bytes: its length, its place, its identifier and its plaintext length.
pub proof fn law_chunk_entry_in_its_places(c: (usize, u64, Seq<u8>, usize))
    requires
        c.2.len() == 16,
    ensures
        chunk_entry_bytes(c).len() == 40,
        le_value(chunk_entry_bytes(c).subrange(0, 8)) == c.0,
        le_value(chunk_entry_bytes(c).subrange(8, 16)) == c.1,
        chunk_entry_bytes(c).subrange(16, 32) == c.2,
        le_value(chunk_entry_bytes(c).subrange(32, 40)) == c.3,
{
    let b = chunk_entry_bytes(c);
    lemma_pow256_values();
    lemma_le_len(c.0 as nat, 8);
    lemma_le_len(c.1 as nat, 8);
    lemma_le_len(c.3 as nat, 8);
    lemma_le_value_of_le(c.0 as nat, 8);
    lemma_le_value_of_le(c.1 as nat, 8);
    lemma_le_value_of_le(c.3 as nat, 8);
    assert(b.subrange(0, 8) =~= le(c.0 as nat, 8));
    assert(b.subrange(8, 16) =~= le(c.1 as nat, 8));
    assert(b.subrange(16, 32) =~= c.2);
    assert(b.subrange(32, 40) =~= le(c.3 as nat, 8));
}

} // verus!
