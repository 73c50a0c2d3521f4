//! Content-defined chunking of file data.

use fastcdc::v2020::StreamCDC;
use vstd::prelude::*;

verus! {

pub const MIN_CHUNK_SIZE: u32 = 2048;

pub const AVG_CHUNK_SIZE: u32 = 4096;

pub const MAX_CHUNK_SIZE: usize = 8192;

/// The places at which FastCDC, 2020 version, cuts a byte sequence: offset and length of each
/// piece.
pub uninterp spec fn fastcdc_cuts(data: Seq<u8>, min: u32, avg: u32, max: u32) -> Seq<(u64, usize)>;

/// The place at which the piece `i` ends.
pub open spec fn cut_end(cuts: Seq<(u64, usize)>, i: int) -> int {
    cuts[i].0 + cuts[i].1
}

/// The pieces lie one after the other from zero to `len`, none empty and none longer than `max`.
pub open spec fn cuts_cover(cuts: Seq<(u64, usize)>, len: nat, max: nat) -> bool {
    &&& forall|i: int| 0 <= i < cuts.len() ==> 0 < (#[trigger] cuts[i]).1 <= max
    &&& forall|i: int|
        0 <= i < cuts.len() ==> (#[trigger] cuts[i]).0 == if i == 0 {
            0
        } else {
            cut_end(cuts, i - 1)
        }
    &&& len == if cuts.len() == 0 {
        0
    } else {
        cut_end(cuts, cuts.len() - 1)
    }
}

/// `StreamCDC` over a byte slice: the pieces lie one after the other, cover the data and respect
/// the greatest length. A slice is read without errors. Sizes that the chunker refuses are left
/// out.
#[verifier::external_body]
fn stream_cuts(data: &[u8], min: u32, avg: u32, max: u32) -> (r: Result<
    Vec<(u64, usize)>,
    (),
>)
    requires
        64 <= min <= 1_048_576,
        256 <= avg <= 4_194_304,
        1024 <= max <= 16_777_216,
        min <= max,
        avg <= max,
    ensures
        r is Ok,
        r matches Ok(v) ==> v@ == fastcdc_cuts(data@, min, avg, max),
        r matches Ok(v) ==> cuts_cover(v@, data@.len(), max as nat),
{
    StreamCDC::new(data, min, avg, max).map(|c| {
        c.map(|c| (c.offset, c.length)).map_err(|_| ())
    }).collect()
}

/// Cuts data into content-defined pieces of 2 to 8 KiB: offset and length of each.
pub fn chunk_data(source: &[u8]) -> (r: Vec<(u64, usize)>)
    ensures
        r@ == fastcdc_cuts(source@, MIN_CHUNK_SIZE, AVG_CHUNK_SIZE, MAX_CHUNK_SIZE as u32),
        r@ == fastcdc_cuts(source@, 2048, 4096, 8192),
        cuts_cover(r@, source@.len(), MAX_CHUNK_SIZE as nat),
{
    match stream_cuts(source, MIN_CHUNK_SIZE, AVG_CHUNK_SIZE, MAX_CHUNK_SIZE as u32) {
        Ok(v) => v,
        Err(_) => Vec::new(),
    }
}

// ── Laws ─────────────────────────────────────────────────────────────────────

/// Every byte lies in a piece, the first piece begins with the first byte, each piece begins where
/// the one before it ends, and the last ends with the last byte.
pub proof fn law_pieces_cover_the_data(cuts: Seq<(u64, usize)>, len: nat, max: nat, at: int)
    requires
        cuts_cover(cuts, len, max),
    ensures
        0 <= at < len ==> exists|i: int|
            0 <= i < cuts.len() && (#[trigger] cuts[i]).0 <= at < cuts[i].0 + cuts[i].1,
        forall|i: int, j: int|
            0 <= i < j < cuts.len() ==> (#[trigger] cuts[i]).0 + cuts[i].1 <= (#[trigger] cuts[j]).0,
        forall|i: int| 0 <= i < cuts.len() ==> 0 < (#[trigger] cuts[i]).1 <= max,
{
    assert forall|i: int, j: int| 0 <= i < j < cuts.len() implies (#[trigger] cuts[i]).0 + cuts[i].1
        <= (#[trigger] cuts[j]).0 by {
        lemma_pieces_in_order(cuts, len, max, i, j);
    }
    if 0 <= at < len {
        lemma_piece_of(cuts, len, max, at, cuts.len() - 1);
    }
}

proof fn lemma_pieces_in_order(cuts: Seq<(u64, usize)>, len: nat, max: nat, i: int, j: int)
    requires
        cuts_cover(cuts, len, max),
        0 <= i < j < cuts.len(),
    ensures
        cuts[i].0 + cuts[i].1 <= cuts[j].0,
    decreases j - i,
{
    assert(cuts[j].0 == cut_end(cuts, j - 1));
    if i < j - 1 {
        lemma_pieces_in_order(cuts, len, max, i, j - 1);
    }
}

proof fn lemma_piece_of(cuts: Seq<(u64, usize)>, len: nat, max: nat, at: int, n: int)
    requires
        cuts_cover(cuts, len, max),
        0 <= n < cuts.len(),
        0 <= at < cut_end(cuts, n),
    ensures
        exists|i: int|
            0 <= i < cuts.len() && (#[trigger] cuts[i]).0 <= at < cuts[i].0 + cuts[i].1,
    decreases n,
{
    if cuts[n].0 <= at {
        assert(cuts[n].0 <= at < cuts[n].0 + cuts[n].1);
    } else {
        assert(n > 0);
        lemma_piece_of(cuts, len, max, at, n - 1);
    }
}

} // verus!
