//! What a file of the vault holds.

use crate::crypto::{decrypt_chunk, open_chunk, UnlockedVault};
use crate::primitives::wipe_bytes;
use crate::storage::VaultError;
use crate::text::same_text;
use crate::vfs::{ChunkEntry, FileIndex};
use vstd::prelude::*;
use vstd::slice::slice_subrange;

verus! {

// ── Finding a file ───────────────────────────────────────────────────────────

/// The place of the first file of a name; the length of the table where there is none.
pub open spec fn first_index(t: Seq<FileIndex>, name: Seq<char>) -> int
    decreases t.len(),
{
    if t.len() == 0 || t[0].vfs_name@ == name {
        0
    } else {
        1 + first_index(t.subrange(1, t.len() as int), name)
    }
}

/// A file of that name is in the table.
pub open spec fn has_name(t: Seq<FileIndex>, name: Seq<char>) -> bool {
    exists|i: int| 0 <= i < t.len() && (#[trigger] t[i]).vfs_name@ == name
}

/// No two files of the table have the same name.
pub open spec fn names_unique(t: Seq<FileIndex>) -> bool {
    forall|i: int, j: int|
        0 <= i < j < t.len() ==> (#[trigger] t[i]).vfs_name@ != (#[trigger] t[j]).vfs_name@
}

/// `first_index` is the least place of the name, and marks a name that is not there.
pub proof fn lemma_first_index(t: Seq<FileIndex>, name: Seq<char>)
    ensures
        0 <= first_index(t, name) <= t.len(),
        first_index(t, name) < t.len() ==> t[first_index(t, name)].vfs_name@ == name,
        forall|j: int| 0 <= j < first_index(t, name) ==> (#[trigger] t[j]).vfs_name@ != name,
        has_name(t, name) <==> first_index(t, name) < t.len(),
    decreases t.len(),
{
    if t.len() > 0 && t[0].vfs_name@ != name {
        let rest = t.subrange(1, t.len() as int);
        lemma_first_index(rest, name);
        assert forall|j: int| 0 <= j < first_index(t, name) implies (#[trigger] t[j]).vfs_name@
            != name by {
            if j > 0 {
                assert(rest[j - 1] == t[j]);
            }
        }
    }
}

/// The least place of a name decides `first_index`.
pub proof fn lemma_first_index_is(t: Seq<FileIndex>, name: Seq<char>, i: int)
    requires
        0 <= i <= t.len(),
        i < t.len() ==> t[i].vfs_name@ == name,
        forall|j: int| 0 <= j < i ==> (#[trigger] t[j]).vfs_name@ != name,
    ensures
        first_index(t, name) == i,
{
    lemma_first_index(t, name);
    let k = first_index(t, name);
    if k < i {
        assert(t[k].vfs_name@ != name);
    }
}

/// The first file of a name.
pub fn find_file(table: &Vec<FileIndex>, name: &str) -> (r: Option<usize>)
    ensures
        match r {
            Some(i) => i < table@.len() && i == first_index(table@, name@),
            None => first_index(table@, name@) == table@.len(),
        },
        r is Some <==> has_name(table@, name@),
{
    let mut i: usize = 0;
    while i < table.len()
        invariant
            i <= table@.len(),
            forall|j: int| 0 <= j < i ==> (#[trigger] table@[j]).vfs_name@ != name@,
        decreases table@.len() - i,
    {
        if same_text(&table[i].vfs_name, name) {
            proof {
                lemma_first_index_is(table@, name@, i as int);
            }
            return Some(i);
        }
        i = i + 1;
    }
    proof {
        lemma_first_index_is(table@, name@, table@.len() as int);
    }
    None
}

// ── Contents ─────────────────────────────────────────────────────────────────

/// What a chunk of the vault holds: its blob decrypted, without the padding. A recorded length of
/// zero keeps everything; one above what was decrypted is an error.
pub open spec fn chunk_content(image: Seq<u8>, dek: Seq<u8>, c: ChunkEntry) -> Result<
    Seq<u8>,
    VaultError,
> {
    if c.offset + c.cipher_len > image.len() {
        Err(VaultError::ShortRead)
    } else {
        match open_chunk(
            dek,
            image.subrange(c.offset as int, c.offset + c.cipher_len),
            c.file_id@,
        ) {
            Err(e) => Err(VaultError::Decrypt(e)),
            Ok(p) => if c.plain_len > p.len() {
                Err(VaultError::PlainLength)
            } else if c.plain_len > 0 {
                Ok(p.subrange(0, c.plain_len as int))
            } else {
                Ok(p)
            },
        }
    }
}

/// What a list of chunks holds, one after the other; the error of the first that does not open.
pub open spec fn contents(image: Seq<u8>, dek: Seq<u8>, chunks: Seq<ChunkEntry>) -> Result<
    Seq<u8>,
    VaultError,
>
    decreases chunks.len(),
{
    if chunks.len() == 0 {
        Ok(Seq::empty())
    } else {
        match contents(image, dek, chunks.subrange(0, chunks.len() - 1)) {
            Err(e) => Err(e),
            Ok(head) => match chunk_content(image, dek, chunks[chunks.len() - 1]) {
                Err(e) => Err(e),
                Ok(p) => Ok(head + p),
            },
        }
    }
}

/// What the file of a name holds.
pub open spec fn file_contents(
    image: Seq<u8>,
    dek: Seq<u8>,
    t: Seq<FileIndex>,
    name: Seq<char>,
) -> Result<Seq<u8>, VaultError> {
    if has_name(t, name) {
        contents(image, dek, t[first_index(t, name)].chunks@)
    } else {
        Err(VaultError::NotFound)
    }
}

/// Decrypts one chunk of the vault and strips its padding.
pub fn process_secure_chunk(
    image: &[u8],
    cipher_len: usize,
    file_id: &[u8; 16],
    unlocked_vault: &UnlockedVault,
    chunk_offset: u64,
    plain_len: usize,
) -> (r: Result<Vec<u8>, VaultError>)
    ensures
        ({
            let c = ChunkEntry { cipher_len, offset: chunk_offset, file_id: *file_id, plain_len };
            match r {
                Ok(p) => chunk_content(image@, unlocked_vault.dek@, c) == Ok::<
                    Seq<u8>,
                    VaultError,
                >(p@),
                Err(e) => chunk_content(image@, unlocked_vault.dek@, c) == Err::<
                    Seq<u8>,
                    VaultError,
                >(e),
            }
        }),
{
    let len: usize = image.len();
    if chunk_offset > len as u64 {
        return Err(VaultError::ShortRead);
    }
    let start: usize = chunk_offset as usize;
    if cipher_len > len - start {
        return Err(VaultError::ShortRead);
    }
    let blob: &[u8] = slice_subrange(image, start, start + cipher_len);
    match decrypt_chunk(unlocked_vault, blob, file_id) {
        Err(e) => Err(VaultError::Decrypt(e)),
        Ok(plain) => {
            let mut plain: Vec<u8> = plain;
            if plain_len > plain.len() {
                wipe_bytes(&mut plain);
                Err(VaultError::PlainLength)
            } else if plain_len > 0 {
                let content: Vec<u8> = vstd::slice::slice_to_vec(
                    slice_subrange(&plain, 0, plain_len),
                );
                wipe_bytes(&mut plain);
                Ok(content)
            } else {
                Ok(plain)
            }
        },
    }
}

/// Every chunk ends at or before `end`.
pub open spec fn chunks_end_by(chunks: Seq<ChunkEntry>, end: int) -> bool {
    forall|i: int| 0 <= i < chunks.len() ==> (#[trigger] chunks[i]).offset + chunks[i].cipher_len <= end
}

/// Every chunk begins at or behind `start`.
pub open spec fn chunks_start_from(chunks: Seq<ChunkEntry>, start: int) -> bool {
    forall|i: int| 0 <= i < chunks.len() ==> start <= (#[trigger] chunks[i]).offset
}

/// Two lists of chunks that hold the same blobs, each at its own place in its own file, hold the
/// same contents.
pub proof fn lemma_contents_same_blobs(
    a: Seq<u8>,
    b: Seq<u8>,
    dek: Seq<u8>,
    ca: Seq<ChunkEntry>,
    cb: Seq<ChunkEntry>,
)
    requires
        ca.len() == cb.len(),
        chunks_end_by(ca, a.len() as int),
        chunks_end_by(cb, b.len() as int),
        forall|i: int|
            #![trigger ca[i]]
            #![trigger cb[i]]
            0 <= i < ca.len() ==> {
                &&& ca[i].cipher_len == cb[i].cipher_len
                &&& ca[i].file_id == cb[i].file_id
                &&& ca[i].plain_len == cb[i].plain_len
                &&& a.subrange(ca[i].offset as int, ca[i].offset + ca[i].cipher_len) == b.subrange(
                    cb[i].offset as int,
                    cb[i].offset + cb[i].cipher_len,
                )
            },
    ensures
        contents(a, dek, ca) == contents(b, dek, cb),
    decreases ca.len(),
{
    if ca.len() > 0 {
        let n = ca.len() - 1;
        let pa = ca.subrange(0, n);
        let pb = cb.subrange(0, n);
        assert forall|i: int| 0 <= i < pa.len() implies pa[i] == ca[i] && pb[i] == cb[i] by {}
        lemma_contents_same_blobs(a, b, dek, pa, pb);
        assert(ca[n].cipher_len == cb[n].cipher_len);
    }
}

/// Chunks that lie where two files agree hold the same contents in both.
pub proof fn lemma_contents_frame(
    a: Seq<u8>,
    b: Seq<u8>,
    dek: Seq<u8>,
    chunks: Seq<ChunkEntry>,
    start: int,
    end: int,
)
    requires
        0 <= start,
        end <= a.len(),
        end <= b.len(),
        chunks_start_from(chunks, start),
        chunks_end_by(chunks, end),
        forall|i: int| start <= i < end ==> a[i] == b[i],
    ensures
        contents(a, dek, chunks) == contents(b, dek, chunks),
{
    assert forall|i: int|
        #![trigger chunks[i]]
        0 <= i < chunks.len() implies a.subrange(
        chunks[i].offset as int,
        chunks[i].offset + chunks[i].cipher_len,
    ) == b.subrange(chunks[i].offset as int, chunks[i].offset + chunks[i].cipher_len) by {
        assert(a.subrange(chunks[i].offset as int, chunks[i].offset + chunks[i].cipher_len)
            =~= b.subrange(chunks[i].offset as int, chunks[i].offset + chunks[i].cipher_len));
    }
    lemma_contents_same_blobs(a, b, dek, chunks, chunks);
}

/// One more chunk, written behind the others, adds its content to theirs.
pub proof fn lemma_contents_push(
    a: Seq<u8>,
    b: Seq<u8>,
    dek: Seq<u8>,
    chunks: Seq<ChunkEntry>,
    entry: ChunkEntry,
    at: int,
    head: Seq<u8>,
    p: Seq<u8>,
)
    requires
        0 <= at <= a.len(),
        at <= b.len(),
        chunks_end_by(chunks, at),
        forall|i: int| 0 <= i < at ==> a[i] == b[i],
        contents(a, dek, chunks) == Ok::<Seq<u8>, VaultError>(head),
        chunk_content(b, dek, entry) == Ok::<Seq<u8>, VaultError>(p),
    ensures
        contents(b, dek, chunks.push(entry)) == Ok::<Seq<u8>, VaultError>(head + p),
{
    lemma_contents_frame(a, b, dek, chunks, 0, at);
    let all = chunks.push(entry);
    assert(all.subrange(0, all.len() - 1) =~= chunks);
}

// ── Laws ─────────────────────────────────────────────────────────────────────

/// A file holds what its chunks hold, one after the other and none left out; the first chunk that
/// does not open decides the error.
pub proof fn law_contents_join_the_chunks(
    image: Seq<u8>,
    dek: Seq<u8>,
    a: Seq<ChunkEntry>,
    c: ChunkEntry,
    b: Seq<ChunkEntry>,
)
    ensures
        contents(image, dek, Seq::empty()) == Ok::<Seq<u8>, VaultError>(Seq::empty()),
        contents(image, dek, seq![c]) == chunk_content(image, dek, c),
        contents(image, dek, a + b) == match (contents(image, dek, a), contents(image, dek, b)) {
            (Ok(x), Ok(y)) => Ok(x + y),
            (Err(e), _) => Err(e),
            (Ok(_), Err(e)) => Err(e),
        },
    decreases b.len(),
{
    let one = seq![c];
    assert(one.subrange(0, one.len() - 1) =~= Seq::empty());
    assert(contents(image, dek, one.subrange(0, one.len() - 1)) == Ok::<Seq<u8>, VaultError>(
        Seq::empty(),
    ));
    if chunk_content(image, dek, c) is Ok {
        let p = chunk_content(image, dek, c)->Ok_0;
        assert(Seq::<u8>::empty() + p =~= p);
    }
    if b.len() == 0 {
        assert(a + b =~= a);
        if contents(image, dek, a) is Ok {
            let x = contents(image, dek, a)->Ok_0;
            assert(x + Seq::<u8>::empty() =~= x);
        }
    } else {
        let init = b.subrange(0, b.len() - 1);
        law_contents_join_the_chunks(image, dek, a, c, init);
        assert((a + b).subrange(0, (a + b).len() - 1) =~= a + init);
        if contents(image, dek, a) is Ok && contents(image, dek, init) is Ok && chunk_content(
            image,
            dek,
            b[b.len() - 1],
        ) is Ok {
            let x = contents(image, dek, a)->Ok_0;
            let y = contents(image, dek, init)->Ok_0;
            let z = chunk_content(image, dek, b[b.len() - 1])->Ok_0;
            assert(x + y + z =~= x + (y + z));
        }
    }
}

/// A chunk is read from its place, opened under its own identifier, and cut to its recorded length:
/// it holds the beginning of what was sealed, or all of it where no length is recorded.
pub proof fn law_chunk_is_read_from_its_place(image: Seq<u8>, dek: Seq<u8>, c: ChunkEntry)
    ensures
        c.offset + c.cipher_len > image.len() ==> chunk_content(image, dek, c) == Err::<
            Seq<u8>,
            VaultError,
        >(VaultError::ShortRead),
        c.offset + c.cipher_len <= image.len() ==> match open_chunk(
            dek,
            image.subrange(c.offset as int, c.offset + c.cipher_len),
            c.file_id@,
        ) {
            Err(e) => chunk_content(image, dek, c) == Err::<Seq<u8>, VaultError>(
                VaultError::Decrypt(e),
            ),
            Ok(p) => {
                &&& chunk_content(image, dek, c) is Ok <==> c.plain_len <= p.len()
                &&& chunk_content(image, dek, c) matches Ok(x) ==> {
                    &&& x.len() == if c.plain_len == 0 {
                        p.len()
                    } else {
                        c.plain_len as nat
                    }
                    &&& x == p.subrange(0, x.len() as int)
                }
                &&& chunk_content(image, dek, c) matches Err(e) ==> e == VaultError::PlainLength
            },
        },
{
    if c.offset + c.cipher_len <= image.len() {
        let r = open_chunk(
            dek,
            image.subrange(c.offset as int, c.offset + c.cipher_len),
            c.file_id@,
        );
        if r is Ok {
            let p = r->Ok_0;
            assert(p.subrange(0, p.len() as int) =~= p);
        }
    }
}

/// A file is found by its exact name: what is read under a name is what the first file of that name
/// holds, and where no file has the name nothing is found.
pub proof fn law_file_is_found_by_its_name(
    image: Seq<u8>,
    dek: Seq<u8>,
    t: Seq<FileIndex>,
    name: Seq<char>,
    i: int,
)
    ensures
        (0 <= i < t.len() && t[i].vfs_name@ == name && forall|j: int|
            0 <= j < i ==> (#[trigger] t[j]).vfs_name@ != name) ==> first_index(t, name) == i
            && file_contents(image, dek, t, name) == contents(image, dek, t[i].chunks@),
        (forall|j: int| 0 <= j < t.len() ==> (#[trigger] t[j]).vfs_name@ != name)
            ==> file_contents(image, dek, t, name) == Err::<Seq<u8>, VaultError>(
            VaultError::NotFound,
        ),
{
    if 0 <= i < t.len() && t[i].vfs_name@ == name && forall|j: int|
        0 <= j < i ==> (#[trigger] t[j]).vfs_name@ != name {
        lemma_first_index_is(t, name, i);
    }
}

} // verus!
