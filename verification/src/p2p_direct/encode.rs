//! Framing of a stream: blocks of one size, the ladder of block counts, and the manifest.

use crate::bytes::{le, le_value, lemma_le_len, lemma_le_value_of_le, lemma_pow256_values};
use crate::p2p_direct::crypto::DEFAULT_BLOCK_SIZE;
use crate::vfs::codec_words;
use vstd::arithmetic::power2::{lemma_pow2_unfold, pow2};
use vstd::multiset::Multiset;
use vstd::prelude::*;

verus! {

// ── The ladder ───────────────────────────────────────────────────────────────

/// The steps to which the number of stored blocks is rounded up.
#[derive(Debug, Clone, Copy, PartialEq, Eq, Structural)]
pub enum Ladder {
    /// The next power of two.
    NextPowerOfTwo,
    /// The next positive multiple.
    MultipleOf(u32),
    /// No padding.
    Exact,
}

/// The least power of two that is not below `n`.
pub open spec fn next_pow2(n: nat) -> nat
    decreases n,
{
    if n <= 1 {
        1
    } else {
        2 * next_pow2((n + 1) / 2)
    }
}

/// The least multiple of `n` that is not below `x`.
pub open spec fn next_multiple(x: nat, n: nat) -> nat
    recommends
        n > 0,
{
    ((x + n - 1) as nat / n) * n
}

/// The step of a ladder of multiples: at least one.
pub open spec fn step_of(n: u32) -> nat {
    if n == 0 {
        1
    } else {
        n as nat
    }
}

/// The number of stored blocks for a number of real blocks.
pub open spec fn ladder_total(ladder: Ladder, real_blocks: nat) -> nat {
    if real_blocks == 0 {
        0
    } else {
        match ladder {
            Ladder::Exact => real_blocks,
            Ladder::NextPowerOfTwo => next_pow2(real_blocks),
            Ladder::MultipleOf(n) => next_multiple(real_blocks, step_of(n)),
        }
    }
}

fn next_power_of_two(n: usize) -> (r: usize)
    requires
        next_pow2(n as nat) <= usize::MAX,
    ensures
        r == next_pow2(n as nat),
    decreases n,
{
    if n <= 1 {
        1
    } else {
        2 * next_power_of_two(n / 2 + n % 2)
    }
}

/// The whole blocks of size `n` that it takes to hold `x`.
fn div_ceil(x: usize, n: usize) -> (r: usize)
    requires
        n > 0,
    ensures
        r == (x + n - 1) / (n as int),
{
    let q: usize = x / n;
    let m: usize = x % n;
    proof {
        assert(x == q * n + m && 0 <= m < n) by {
            vstd::arithmetic::div_mod::lemma_fundamental_div_mod(x as int, n as int);
            assert((n as int) * (q as int) == q * n) by (nonlinear_arith);
        }
        let (q_, n_, m_): (int, int, int) = (q as int, n as int, m as int);
        if m == 0 {
            assert((q_ * n_ + (n_ - 1)) / n_ == q_) by (nonlinear_arith)
                requires
                    n_ > 0,
            ;
        } else {
            assert(((q_ + 1) * n_ + (m_ - 1)) / n_ == q_ + 1) by (nonlinear_arith)
                requires
                    n_ > 0,
                    0 < m_ < n_,
            ;
            assert((q_ + 1) * n_ + (m_ - 1) == x + n - 1) by (nonlinear_arith)
                requires
                    x == q_ * n_ + m_,
                    n == n_,
            ;
            assert(q_ + 1 <= x) by (nonlinear_arith)
                requires
                    x == q_ * n_ + m_,
                    n_ > 0,
                    m_ > 0,
                    q_ >= 0,
            ;
        }
    }
    if m == 0 {
        q
    } else {
        q + 1
    }
}

impl Ladder {
    /// The number of blocks, real and decoy, for a number of real blocks.
    pub fn total_blocks(self, real_blocks: usize) -> (r: usize)
        requires
            ladder_total(self, real_blocks as nat) <= usize::MAX,
        ensures
            r == ladder_total(self, real_blocks as nat),
            r >= real_blocks,
    {
        proof {
            law_ladder_covers(self, real_blocks as nat);
        }
        if real_blocks == 0 {
            return 0;
        }
        match self {
            Ladder::Exact => real_blocks,
            Ladder::NextPowerOfTwo => next_power_of_two(real_blocks),
            Ladder::MultipleOf(n) => {
                let step: usize = if n == 0 {
                    1
                } else {
                    n as usize
                };
                div_ceil(real_blocks, step) * step
            },
        }
    }
}

proof fn lemma_next_pow2(n: nat)
    ensures
        next_pow2(n) >= n,
        next_pow2(n) >= 1,
        n >= 1 ==> next_pow2(n) < 2 * n,
        exists|k: nat| next_pow2(n) == #[trigger] pow2(k),
    decreases n,
{
    if n <= 1 {
        vstd::arithmetic::power2::lemma2_to64();
        assert(next_pow2(n) == pow2(0));
    } else {
        let h = (n + 1) / 2;
        lemma_next_pow2(h);
        let k = choose|k: nat| next_pow2(h) == #[trigger] pow2(k);
        lemma_pow2_unfold((k + 1) as nat);
        assert(next_pow2(n) == pow2((k + 1) as nat));
        if n % 2 == 1 {
            // The half is odd or even; either way its power is below twice the half.
            if h == 1 {
            } else {
                lemma_pow2_even_bound(h, k);
            }
        }
    }
}

/// A power of two below `2 * h`, for `h` above one, is at most `2 * h - 2`.
proof fn lemma_pow2_even_bound(h: nat, k: nat)
    requires
        h >= 2,
        pow2(k) < 2 * h,
    ensures
        pow2(k) <= 2 * h - 2,
{
    if k == 0 {
        vstd::arithmetic::power2::lemma2_to64();
    } else {
        lemma_pow2_unfold(k);
    }
}

proof fn lemma_next_multiple(x: nat, n: nat)
    requires
        n > 0,
    ensures
        next_multiple(x, n) >= x,
        next_multiple(x, n) < x + n,
        next_multiple(x, n) % n == 0,
{
    let y: int = x + n - 1;
    let m: int = n as int;
    vstd::arithmetic::div_mod::lemma_fundamental_div_mod(y, m);
    assert(m * (y / m) == (y / m) * m) by (nonlinear_arith);
    vstd::arithmetic::div_mod::lemma_mod_multiples_basic(y / m, m);
    assert((y / m) * m >= 0) by (nonlinear_arith)
        requires
            y >= 0,
            m > 0,
    ;
}

/// The ladder never loses blocks.
pub proof fn law_ladder_covers(ladder: Ladder, real_blocks: nat)
    ensures
        ladder_total(ladder, real_blocks) >= real_blocks,
        ladder_total(ladder, real_blocks) == 0 <==> real_blocks == 0,
{
    if real_blocks > 0 {
        match ladder {
            Ladder::Exact => {},
            Ladder::NextPowerOfTwo => {
                lemma_next_pow2(real_blocks);
            },
            Ladder::MultipleOf(n) => {
                lemma_next_multiple(real_blocks, step_of(n));
            },
        }
    }
}

/// A total lands on the steps of its ladder and overshoots by less than one step: a power of two
/// below twice the real count, or a multiple less than one step away.
pub proof fn law_ladder_lands_on_steps(real_blocks: nat, n: u32)
    requires
        real_blocks > 0,
    ensures
        exists|k: nat| ladder_total(Ladder::NextPowerOfTwo, real_blocks) == #[trigger] pow2(k),
        ladder_total(Ladder::NextPowerOfTwo, real_blocks) < 2 * real_blocks,
        ladder_total(Ladder::MultipleOf(n), real_blocks) % step_of(n) == 0,
        ladder_total(Ladder::MultipleOf(n), real_blocks) < real_blocks + step_of(n),
        ladder_total(Ladder::Exact, real_blocks) == real_blocks,
{
    lemma_next_pow2(real_blocks);
    lemma_next_multiple(real_blocks, step_of(n));
}

/// More real blocks never take fewer stored blocks.
pub proof fn law_ladder_monotone(ladder: Ladder, a: nat, b: nat)
    requires
        a <= b,
    ensures
        ladder_total(ladder, a) <= ladder_total(ladder, b),
{
    if a > 0 {
        match ladder {
            Ladder::Exact => {},
            Ladder::NextPowerOfTwo => {
                lemma_next_pow2_monotone(a, b);
            },
            Ladder::MultipleOf(n) => {
                let m = step_of(n) as int;
                vstd::arithmetic::div_mod::lemma_div_is_ordered(a + m - 1, b + m - 1, m);
                vstd::arithmetic::mul::lemma_mul_inequality(
                    (a + m - 1) / m,
                    (b + m - 1) / m,
                    m,
                );
            },
        }
    }
}

proof fn lemma_next_pow2_monotone(a: nat, b: nat)
    requires
        a <= b,
    ensures
        next_pow2(a) <= next_pow2(b),
    decreases b,
{
    if a <= 1 {
        lemma_next_pow2(b);
    } else {
        lemma_next_pow2_monotone((a + 1) / 2, (b + 1) / 2);
    }
}

// ── Framing ──────────────────────────────────────────────────────────────────

/// How a stream is framed and padded.
#[derive(Debug, Clone, Copy)]
pub struct EncodeParams {
    /// The length of every block before sealing.
    pub block_size: usize,
    pub ladder: Ladder,
}

impl Default for EncodeParams {
    fn default() -> (r: Self)
        ensures
            r.block_size == DEFAULT_BLOCK_SIZE,
            r.block_size == 1024 * 1024,
            r.ladder == Ladder::NextPowerOfTwo,
    {
        EncodeParams { block_size: DEFAULT_BLOCK_SIZE, ladder: Ladder::NextPowerOfTwo }
    }
}

/// The blocks of a size that it takes to hold a stream.
pub open spec fn blocks_for(len: nat, block_size: nat) -> nat {
    if len == 0 {
        0
    } else {
        ((len + block_size - 1) / (block_size as int)) as nat
    }
}

impl EncodeParams {
    /// The blocks that it takes to hold a stream of the given length.
    pub fn real_blocks(&self, stream_len: u64) -> (r: usize)
        requires
            stream_len > 0 ==> self.block_size > 0,
        ensures
            r == blocks_for((stream_len as usize) as nat, self.block_size as nat),
            r <= stream_len as usize,
    {
        if stream_len == 0 {
            return 0;
        }
        let len: usize = stream_len as usize;
        let r: usize = div_ceil(len, self.block_size);
        proof {
            let (l, b): (int, int) = (len as int, self.block_size as int);
            assert(l > 0 ==> (l + b - 1) / b <= l) by (nonlinear_arith)
                requires
                    b > 0,
            ;
            assert((b - 1) / b == 0) by (nonlinear_arith)
                requires
                    b > 0,
            ;
        }
        r
    }
}

/// A framing plan for a stream of known length.
#[derive(Debug, Clone, Copy, PartialEq, Eq, Structural)]
pub struct BlockPlan {
    pub real_len: u64,
    pub block_size: usize,
    pub real_blocks: usize,
    pub total_blocks: usize,
}

impl BlockPlan {
    /// The number of decoys.
    pub fn decoy_blocks(&self) -> (r: usize)
        requires
            self.total_blocks >= self.real_blocks,
        ensures
            r == self.total_blocks - self.real_blocks,
    {
        self.total_blocks - self.real_blocks
    }
}

/// The framing plan for a stream of `real_len` bytes.
pub fn plan(real_len: u64, params: &EncodeParams) -> (r: BlockPlan)
    requires
        real_len > 0 ==> params.block_size > 0,
        ladder_total(
            params.ladder,
            blocks_for((real_len as usize) as nat, params.block_size as nat),
        ) <= usize::MAX,
    ensures
        r.real_len == real_len,
        r.block_size == params.block_size,
        r.real_blocks == blocks_for((real_len as usize) as nat, params.block_size as nat),
        r.total_blocks == ladder_total(params.ladder, r.real_blocks as nat),
        r.total_blocks >= r.real_blocks,
{
    let real_blocks: usize = params.real_blocks(real_len);
    let total_blocks: usize = params.ladder.total_blocks(real_blocks);
    BlockPlan { real_len, block_size: params.block_size, real_blocks, total_blocks }
}

/// Where block `index` ends: a whole block on, or at the end of the stream.
pub open spec fn block_end(real_len: nat, block_size: nat, index: nat) -> nat {
    if index * block_size + block_size <= real_len {
        index * block_size + block_size
    } else {
        real_len
    }
}

/// The bytes of the stream that block `index` holds: from where to where.
pub fn block_bounds(plan: &BlockPlan, index: usize) -> (r: (u64, u64))
    requires
        index * plan.block_size + plan.block_size <= u64::MAX,
    ensures
        r.0 == index * plan.block_size,
        r.1 == block_end(plan.real_len as nat, plan.block_size as nat, index as nat),
{
    assert(index * plan.block_size >= 0) by (nonlinear_arith)
        requires
            index >= 0,
            plan.block_size >= 0,
    ;
    let start: u64 = (index as u64) * (plan.block_size as u64);
    let full: u64 = start + plan.block_size as u64;
    let end: u64 = if full < plan.real_len {
        full
    } else {
        plan.real_len
    };
    (start, end)
}

/// The blocks cover the stream without gap: each starts inside the stream where the one before
/// ends, the first at zero, and the last ends at the stream's end.
pub proof fn law_blocks_cover(real_len: nat, block_size: nat, index: nat)
    requires
        block_size > 0,
        index < blocks_for(real_len, block_size),
    ensures
        index * block_size < real_len,
        index * block_size < block_end(real_len, block_size, index) <= index * block_size + block_size,
        index + 1 < blocks_for(real_len, block_size) ==> block_end(real_len, block_size, index) == (
        index + 1) * block_size,
        index + 1 == blocks_for(real_len, block_size) ==> block_end(real_len, block_size, index)
            == real_len,
{
    lemma_blocks_for(real_len, block_size);
    let n = blocks_for(real_len, block_size);
    assert((index + 1) * block_size == index * block_size + block_size) by (nonlinear_arith);
    assert((index + 1) * block_size <= n * block_size) by (nonlinear_arith)
        requires
            index + 1 <= n,
    ;
    assert(index + 2 <= n ==> (index + 2) * block_size <= n * block_size) by (nonlinear_arith);
    assert((index + 2) * block_size == index * block_size + 2 * block_size) by (nonlinear_arith);
}

/// The bounds of the number of blocks.
pub proof fn lemma_blocks_for(len: nat, block_size: nat)
    requires
        block_size > 0,
    ensures
        blocks_for(len, block_size) * block_size >= len,
        len > 0 ==> blocks_for(len, block_size) > 0,
        blocks_for(len, block_size) * block_size < len + block_size,
{
    if len > 0 {
        let y: int = len + block_size - 1;
        let m: int = block_size as int;
        vstd::arithmetic::div_mod::lemma_fundamental_div_mod(y, m);
        assert(m * (y / m) == (y / m) * m) by (nonlinear_arith);
        assert(y / m >= 1) by (nonlinear_arith)
            requires
                y >= m,
                m > 0,
        ;
    } else {
        assert(0 * block_size == 0) by (nonlinear_arith);
    }
}

// ── The manifest ─────────────────────────────────────────────────────────────

/// Where a block lies and how it is opened.
#[derive(Debug, Clone, Copy, PartialEq, Eq)]
pub struct BlockRef {
    /// The store object of the block.
    pub object_id: [u8; 32],
    /// The nonce of the block; random for a decoy.
    pub nonce: [u8; 24],
    /// The place of a real block in the stream; none for a decoy.
    pub index: Option<u32>,
}

impl BlockRef {
    /// Whether the block holds nothing of the stream.
    pub fn is_decoy(&self) -> (r: bool)
        ensures
            r == (self.index is None),
    {
        self.index.is_none()
    }
}

/// A block reference as plain values.
pub open spec fn block_row(b: BlockRef) -> (Seq<u8>, Seq<u8>, Option<u32>) {
    (b.object_id@, b.nonce@, b.index)
}

/// Block references as plain values.
pub open spec fn block_rows(blocks: Seq<BlockRef>) -> Seq<(Seq<u8>, Seq<u8>, Option<u32>)> {
    blocks.map_values(|b: BlockRef| block_row(b))
}

/// The version of the manifest.
pub const MANIFEST_VERSION: u16 = 1;

/// The description of a transfer: the only thing that knows the true length and the decoys.
#[derive(Debug, Clone)]
pub struct Manifest {
    pub version: u16,
    pub block_size: u32,
    pub real_len: u64,
    /// All blocks, shuffled. Real blocks are put together by their index.
    pub blocks: Vec<BlockRef>,
}

impl View for Manifest {
    type V = (u16, u32, u64, Seq<(Seq<u8>, Seq<u8>, Option<u32>)>);

    open spec fn view(&self) -> Self::V {
        (self.version, self.block_size, self.real_len, block_rows(self.blocks@))
    }
}

/// The stream index of a real block.
pub open spec fn row_index(b: (Seq<u8>, Seq<u8>, Option<u32>)) -> int {
    match b.2 {
        Some(i) => i as int,
        None => -1,
    }
}

/// Puts a block behind those whose index is not above its own.
pub open spec fn insert_row(
    s: Seq<(Seq<u8>, Seq<u8>, Option<u32>)>,
    b: (Seq<u8>, Seq<u8>, Option<u32>),
) -> Seq<(Seq<u8>, Seq<u8>, Option<u32>)>
    decreases s.len(),
{
    if s.len() == 0 || row_index(s[s.len() - 1]) <= row_index(b) {
        s.push(b)
    } else {
        insert_row(s.subrange(0, s.len() - 1), b).push(s[s.len() - 1])
    }
}

/// The real blocks by index; blocks of one index in the order in which they are listed.
pub open spec fn ordered_rows(s: Seq<(Seq<u8>, Seq<u8>, Option<u32>)>) -> Seq<
    (Seq<u8>, Seq<u8>, Option<u32>),
>
    decreases s.len(),
{
    if s.len() == 0 {
        Seq::empty()
    } else {
        let before = ordered_rows(s.subrange(0, s.len() - 1));
        let b = s[s.len() - 1];
        if b.2 is Some {
            insert_row(before, b)
        } else {
            before
        }
    }
}

proof fn lemma_insert_row(
    s: Seq<(Seq<u8>, Seq<u8>, Option<u32>)>,
    b: (Seq<u8>, Seq<u8>, Option<u32>),
    at: int,
)
    requires
        0 <= at <= s.len(),
        at > 0 ==> row_index(s[at - 1]) <= row_index(b),
        forall|k: int| at <= k < s.len() ==> row_index(#[trigger] s[k]) > row_index(b),
    ensures
        insert_row(s, b) == s.insert(at, b),
    decreases s.len(),
{
    if at == s.len() {
        assert(s.insert(at, b) =~= s.push(b));
    } else {
        let last = s[s.len() - 1];
        let init = s.subrange(0, s.len() - 1);
        lemma_insert_row(init, b, at);
        assert(s.insert(at, b) =~= init.insert(at, b).push(last));
    }
}

impl Manifest {
    /// The real blocks in the order in which they are put together.
    pub fn real_blocks_ordered(&self) -> (r: Vec<BlockRef>)
        ensures
            block_rows(r@) == ordered_rows(self@.3),
    {
        let mut out: Vec<BlockRef> = Vec::new();
        let mut i: usize = 0;
        let ghost rows = block_rows(self.blocks@);
        assert(block_rows(out@) =~= ordered_rows(rows.subrange(0, 0)));
        while i < self.blocks.len()
            invariant
                i <= self.blocks@.len(),
                rows == block_rows(self.blocks@),
                block_rows(out@) == ordered_rows(rows.subrange(0, i as int)),
                out@.len() <= i,
                forall|k: int| 0 <= k < out@.len() ==> (#[trigger] out@[k]).index is Some,
            decreases self.blocks@.len() - i,
        {
            let b: BlockRef = self.blocks[i];
            let ghost upto = rows.subrange(0, i + 1);
            assert(upto.subrange(0, upto.len() - 1) =~= rows.subrange(0, i as int));
            assert(upto[i as int] == block_row(b));
            if let Some(index) = b.index {
                let mut at: usize = out.len();
                let ghost before = block_rows(out@);
                while at > 0 && after(&out[at - 1], index)
                    invariant
                        at <= out@.len(),
                        before == block_rows(out@),
                        b.index == Some(index),
                        forall|k: int|
                            at <= k < out@.len() ==> row_index(#[trigger] before[k]) > row_index(
                                block_row(b),
                            ),
                        forall|k: int|
                            0 <= k < out@.len() ==> (#[trigger] out@[k]).index is Some,
                    decreases at,
                {
                    assert(before[at - 1] == block_row(out@[at - 1]));
                    at = at - 1;
                }
                proof {
                    if at > 0 {
                        assert(before[at - 1] == block_row(out@[at - 1]));
                    }
                    lemma_insert_row(before, block_row(b), at as int);
                }
                out.insert(at, b);
                assert(block_rows(out@) =~= before.insert(at as int, block_row(b)));
            }
            i = i + 1;
        }
        assert(rows.subrange(0, rows.len() as int) =~= rows);
        out
    }
}

/// Whether a real block comes after the index.
fn after(b: &BlockRef, index: u32) -> (r: bool)
    requires
        b.index is Some,
    ensures
        r == (row_index(block_row(*b)) > index),
{
    match b.index {
        Some(i) => i > index,
        None => false,
    }
}

/// By index: nothing lies behind a block of higher index.
pub open spec fn rows_sorted(s: Seq<(Seq<u8>, Seq<u8>, Option<u32>)>) -> bool {
    forall|i: int, j: int| 0 <= i < j < s.len() ==> row_index(s[i]) <= row_index(s[j])
}

/// The real blocks among all blocks.
pub open spec fn real_rows(s: Seq<(Seq<u8>, Seq<u8>, Option<u32>)>) -> Multiset<
    (Seq<u8>, Seq<u8>, Option<u32>),
> {
    s.to_multiset().filter(|b: (Seq<u8>, Seq<u8>, Option<u32>)| b.2 is Some)
}

proof fn lemma_insert_row_sorted(
    s: Seq<(Seq<u8>, Seq<u8>, Option<u32>)>,
    b: (Seq<u8>, Seq<u8>, Option<u32>),
)
    requires
        rows_sorted(s),
    ensures
        rows_sorted(insert_row(s, b)),
        insert_row(s, b).to_multiset() == s.to_multiset().insert(b),
        forall|k: int|
            0 <= k < insert_row(s, b).len() ==> #[trigger] insert_row(s, b)[k] == b || s.contains(
                insert_row(s, b)[k],
            ),
    decreases s.len(),
{
    broadcast use vstd::multiset::group_multiset_axioms;
    broadcast use vstd::seq_lib::group_to_multiset_ensures;

    let r = insert_row(s, b);
    if s.len() == 0 || row_index(s[s.len() - 1]) <= row_index(b) {
        assert forall|k: int| 0 <= k < r.len() implies #[trigger] r[k] == b || s.contains(r[k]) by {
            if k < s.len() {
                assert(r[k] == s[k]);
            }
        }
    } else {
        let init = s.subrange(0, s.len() - 1);
        let last = s[s.len() - 1];
        lemma_insert_row_sorted(init, b);
        let q = insert_row(init, b);
        assert(init.push(last) =~= s);
        assert(r == q.push(last));
        assert(r.to_multiset() =~= s.to_multiset().insert(b));
        assert forall|k: int| 0 <= k < r.len() implies #[trigger] r[k] == b || s.contains(r[k]) by {
            if k < q.len() {
                assert(r[k] == q[k]);
                if q[k] != b {
                    let m = choose|m: int| 0 <= m < init.len() && init[m] == q[k];
                    assert(s[m] == q[k]);
                }
            } else {
                assert(s[s.len() - 1] == r[k]);
            }
        }
        assert forall|i: int, j: int| 0 <= i < j < r.len() implies row_index(r[i]) <= row_index(
            r[j],
        ) by {
            if j == r.len() - 1 {
                assert(r[i] == q[i]);
                if q[i] != b {
                    let m = choose|m: int| 0 <= m < init.len() && init[m] == q[i];
                    assert(s[m] == q[i]);
                }
            } else {
                assert(r[i] == q[i] && r[j] == q[j]);
            }
        }
    }
}

/// The order of reassembly is the order of the indices, and holds exactly the blocks that are no
/// decoys.
pub proof fn law_reassembly_order(s: Seq<(Seq<u8>, Seq<u8>, Option<u32>)>)
    ensures
        rows_sorted(ordered_rows(s)),
        ordered_rows(s).to_multiset() == real_rows(s),
    decreases s.len(),
{
    broadcast use vstd::multiset::group_multiset_axioms;
    broadcast use vstd::seq_lib::group_to_multiset_ensures;

    if s.len() == 0 {
        assert(ordered_rows(s).to_multiset() =~= real_rows(s));
    } else {
        let init = s.subrange(0, s.len() - 1);
        let b = s[s.len() - 1];
        law_reassembly_order(init);
        assert(init.push(b) =~= s);
        if b.2 is Some {
            lemma_insert_row_sorted(ordered_rows(init), b);
            assert(real_rows(s) =~= real_rows(init).insert(b));
        } else {
            assert(real_rows(s) =~= real_rows(init));
        }
    }
}

/// Sorted lists of the same blocks are the same list, where no two blocks have the same index.
proof fn lemma_sorted_unique(
    s: Seq<(Seq<u8>, Seq<u8>, Option<u32>)>,
    t: Seq<(Seq<u8>, Seq<u8>, Option<u32>)>,
)
    requires
        rows_sorted(s),
        rows_sorted(t),
        s.to_multiset() == t.to_multiset(),
        forall|i: int, j: int|
            0 <= i < j < s.len() ==> row_index(#[trigger] s[i]) != row_index(#[trigger] s[j]),
    ensures
        s == t,
    decreases s.len(),
{
    broadcast use vstd::multiset::group_multiset_axioms;
    broadcast use vstd::seq_lib::group_to_multiset_ensures;

    s.to_multiset_ensures();
    t.to_multiset_ensures();
    assert(s.len() == t.len());
    if s.len() == 0 {
        assert(s =~= t);
    } else {
        let n = s.len() - 1;
        let x = s[n];
        let y = t[n];
        assert(s.contains(x) && t.contains(y));
        assert(t.to_multiset().count(x) > 0 && s.to_multiset().count(y) > 0);
        let i = choose|i: int| 0 <= i < t.len() && t[i] == x;
        let j = choose|j: int| 0 <= j < s.len() && s[j] == y;
        assert(t.contains(x) && s.contains(y));
        assert(row_index(x) == row_index(y));
        assert(x == y);
        let si = s.remove(n);
        let ti = t.remove(n);
        assert(si.to_multiset() =~= ti.to_multiset());
        lemma_sorted_unique(si, ti);
        assert(s =~= si.push(x));
        assert(t =~= ti.push(y));
    }
}

/// Shuffling changes nothing: whatever the order in which blocks and decoys are listed, the blocks
/// come out in the same order, where no two have the same index.
pub proof fn law_order_is_irrelevant(
    a: Seq<(Seq<u8>, Seq<u8>, Option<u32>)>,
    b: Seq<(Seq<u8>, Seq<u8>, Option<u32>)>,
)
    requires
        a.to_multiset() == b.to_multiset(),
        forall|i: int, j: int|
            0 <= i < j < a.len() && (#[trigger] a[i]).2 is Some ==> a[i].2
                != (#[trigger] a[j]).2,
    ensures
        ordered_rows(a) == ordered_rows(b),
{
    broadcast use vstd::multiset::group_multiset_axioms;
    broadcast use vstd::seq_lib::group_to_multiset_ensures;

    let s = ordered_rows(a);
    let t = ordered_rows(b);
    law_reassembly_order(a);
    law_reassembly_order(b);
    assert(real_rows(a) =~= real_rows(b));
    a.to_multiset_ensures();
    s.to_multiset_ensures();
    assert forall|i: int, j: int| 0 <= i < j < s.len() implies row_index(#[trigger] s[i])
        != row_index(#[trigger] s[j]) by {
        assert(s.contains(s[i]) && s.contains(s[j]));
        assert(real_rows(a).count(s[i]) > 0 && real_rows(a).count(s[j]) > 0);
        assert(a.contains(s[i]) && a.contains(s[j]));
        let k = choose|k: int| 0 <= k < a.len() && a[k] == s[i];
        let l = choose|l: int| 0 <= l < a.len() && a[l] == s[j];
        if row_index(s[i]) == row_index(s[j]) {
            assert(k == l) by {
                if k < l {
                    assert(a[k].2 != a[l].2);
                } else if l < k {
                    assert(a[l].2 != a[k].2);
                }
            }
            let x = s[i];
            assert(s[j] == x);
            assert(a.to_multiset().count(x) <= 1) by {
                lemma_once(a, x, k);
            }
            assert(s.to_multiset().count(x) >= 2) by {
                lemma_twice(s, i, j);
            }
        }
    }
    lemma_sorted_unique(s, t);
}

/// An item that stands at one place only occurs once.
proof fn lemma_once<T>(s: Seq<T>, x: T, k: int)
    requires
        0 <= k < s.len(),
        s[k] == x,
        forall|i: int| 0 <= i < s.len() && i != k ==> s[i] != x,
    ensures
        s.to_multiset().count(x) <= 1,
{
    broadcast use vstd::multiset::group_multiset_axioms;
    broadcast use vstd::seq_lib::group_to_multiset_ensures;

    let r = s.remove(k);
    s.to_multiset_ensures();
    r.to_multiset_ensures();
    assert(!r.contains(x));
    assert(r.to_multiset().count(x) == 0);
}

/// An item that stands at two places occurs twice.
proof fn lemma_twice<T>(s: Seq<T>, i: int, j: int)
    requires
        0 <= i < j < s.len(),
        s[i] == s[j],
    ensures
        s.to_multiset().count(s[i]) >= 2,
{
    broadcast use vstd::multiset::group_multiset_axioms;
    broadcast use vstd::seq_lib::group_to_multiset_ensures;

    let r = s.remove(j);
    s.to_multiset_ensures();
    r.to_multiset_ensures();
    assert(r[i] == s[i]);
    assert(r.contains(s[i]));
    assert(r.to_multiset().count(s[i]) > 0);
    assert(s.contains(s[j]));
    assert(s.to_multiset().count(s[j]) > 0);
    assert(r.to_multiset() == s.to_multiset().remove(s[j]));
}

/// Whatever the order in which the blocks of a stream and the decoys are listed, the blocks come
/// out in stream order.
pub proof fn law_blocks_come_in_stream_order(
    reals: Seq<(Seq<u8>, Seq<u8>, Option<u32>)>,
    decoys: Seq<(Seq<u8>, Seq<u8>, Option<u32>)>,
    shuffled: Seq<(Seq<u8>, Seq<u8>, Option<u32>)>,
)
    requires
        forall|k: int| 0 <= k < reals.len() ==> row_index(#[trigger] reals[k]) == k,
        forall|k: int| 0 <= k < decoys.len() ==> (#[trigger] decoys[k]).2 is None,
        shuffled.to_multiset() == (reals + decoys).to_multiset(),
    ensures
        ordered_rows(shuffled) == reals,
{
    broadcast use vstd::multiset::group_multiset_axioms;
    broadcast use vstd::seq_lib::group_to_multiset_ensures;

    let s = ordered_rows(shuffled);
    law_reassembly_order(shuffled);
    vstd::seq_lib::lemma_multiset_commutative(reals, decoys);
    assert forall|b: (Seq<u8>, Seq<u8>, Option<u32>)| #[trigger]
        s.to_multiset().count(b) == reals.to_multiset().count(b) by {
        if b.2 is Some {
            assert(!decoys.contains(b));
            assert(decoys.to_multiset().count(b) == 0);
        } else {
            assert(!reals.contains(b)) by {
                if reals.contains(b) {
                    let k = choose|k: int| 0 <= k < reals.len() && reals[k] == b;
                    assert(row_index(reals[k]) == k);
                }
            }
            assert(reals.to_multiset().count(b) == 0);
        }
    }
    assert(s.to_multiset() =~= reals.to_multiset());
    s.to_multiset_ensures();
    reals.to_multiset_ensures();
    assert(reals.no_duplicates());
    reals.lemma_multiset_has_no_duplicates();
    s.lemma_multiset_has_no_duplicates_conv();
    let n = reals.len() as int;
    assert forall|k: int| 0 <= k < n implies reals[row_index(#[trigger] s[k])] == s[k] && 0
        <= row_index(s[k]) < n by {
        assert(s.contains(s[k]));
        assert(s.to_multiset().count(s[k]) > 0);
        assert(reals.to_multiset().count(s[k]) > 0);
        let m = choose|m: int| 0 <= m < reals.len() && reals[m] == s[k];
        assert(row_index(reals[m]) == m);
    }
    assert forall|i: int, j: int| 0 <= i < j < n implies row_index(s[i]) < row_index(s[j]) by {
        if row_index(s[i]) == row_index(s[j]) {
            assert(s[i] == s[j]);
        }
    }
    let idx = Seq::new(s.len(), |k: int| row_index(s[k]));
    lemma_strict_identity(idx, n);
    assert forall|k: int| 0 <= k < n implies s[k] == reals[k] by {
        assert(idx[k] == k);
    }
    assert(s =~= reals);
}

/// A strictly increasing sequence of `n` numbers below `n` counts.
proof fn lemma_strict_identity(idx: Seq<int>, n: int)
    requires
        idx.len() == n,
        forall|i: int, j: int| 0 <= i < j < n ==> idx[i] < idx[j],
        forall|k: int| 0 <= k < n ==> 0 <= #[trigger] idx[k] < n,
    ensures
        forall|k: int| 0 <= k < n ==> #[trigger] idx[k] == k,
{
    assert forall|k: int| 0 <= k < n implies #[trigger] idx[k] == k by {
        lemma_strict_lower(idx, k);
        lemma_strict_upper(idx, n, k);
    }
}

proof fn lemma_strict_lower(idx: Seq<int>, k: int)
    requires
        0 <= k < idx.len(),
        forall|i: int, j: int| 0 <= i < j < idx.len() ==> idx[i] < idx[j],
        forall|i: int| 0 <= i < idx.len() ==> 0 <= #[trigger] idx[i],
    ensures
        idx[k] >= k,
    decreases k,
{
    if k > 0 {
        lemma_strict_lower(idx, k - 1);
        assert(idx[k - 1] < idx[k]);
    }
}

proof fn lemma_strict_upper(idx: Seq<int>, n: int, k: int)
    requires
        idx.len() == n,
        0 <= k < n,
        forall|i: int, j: int| 0 <= i < j < idx.len() ==> idx[i] < idx[j],
        forall|i: int| 0 <= i < n ==> #[trigger] idx[i] < n,
    ensures
        idx[k] <= k,
    decreases n - k,
{
    if k < n - 1 {
        lemma_strict_upper(idx, n, k + 1);
        assert(idx[k] < idx[k + 1]);
    }
}

// ── Binary form of the manifest ──────────────────────────────────────────────

/// The bytes of a block reference: identifier, nonce, and a flag with the index where there is
/// one.
pub open spec fn block_bytes(b: (Seq<u8>, Seq<u8>, Option<u32>)) -> Seq<u8> {
    b.0 + b.1 + match b.2 {
        Some(i) => seq![1u8] + le(i as nat, 4),
        None => seq![0u8],
    }
}

/// The bytes of a manifest: version, block size and length, and the blocks with their count
/// before them.
pub open spec fn manifest_bytes(
    m: (u16, u32, u64, Seq<(Seq<u8>, Seq<u8>, Option<u32>)>),
) -> Seq<u8> {
    le(m.0 as nat, 2) + le(m.1 as nat, 4) + le(m.2 as nat, 8) + le(m.3.len(), 8) + m.3.map_values(
        |b: (Seq<u8>, Seq<u8>, Option<u32>)| block_bytes(b),
    ).flatten()
}

/// The manifest that the binary codec reads from a byte sequence, where it can.
pub uninterp spec fn decoded_manifest(b: Seq<u8>) -> Option<
    (u16, u32, u64, Seq<(Seq<u8>, Seq<u8>, Option<u32>)>),
>;

/// Block references, written as tuples, as plain values.
pub open spec fn tuple_block_rows(t: Seq<([u8; 32], [u8; 24], Option<u32>)>) -> Seq<
    (Seq<u8>, Seq<u8>, Option<u32>),
> {
    t.map_values(|b: ([u8; 32], [u8; 24], Option<u32>)| (b.0@, b.1@, b.2))
}

/// `bincode::serialize` of version, block size, length and blocks: fixed-width little-endian
/// integers, the sequence with its length before it, arrays as they are, a flag byte before an
/// optional value. Memory is its only limit, and `bincode::deserialize` reads the values back.
#[verifier::external_body]
fn bincode_manifest(
    version: u16,
    block_size: u32,
    real_len: u64,
    blocks: &Vec<([u8; 32], [u8; 24], Option<u32>)>,
) -> (r: Result<Vec<u8>, Box<bincode::ErrorKind>>)
    ensures
        r is Ok,
        r matches Ok(b) ==> b@ == manifest_bytes(
            (version, block_size, real_len, tuple_block_rows(blocks@)),
        ),
        r matches Ok(b) ==> decoded_manifest(b@) == Some(
            (version, block_size, real_len, tuple_block_rows(blocks@)),
        ),
{
    bincode::serialize(&(version, block_size, real_len, blocks))
}

/// `bincode::deserialize` of version, block size, length and blocks.
#[verifier::external_body]
fn unbincode_manifest(b: &[u8]) -> (r: Result<
    (u16, u32, u64, Vec<([u8; 32], [u8; 24], Option<u32>)>),
    Box<bincode::ErrorKind>,
>)
    ensures
        r matches Ok(v) ==> decoded_manifest(b@) == Some((v.0, v.1, v.2, tuple_block_rows(v.3@))),
        r is Err ==> decoded_manifest(b@) is None,
{
    bincode::deserialize(b)
}

/// The length of the bytes of a manifest that lists `total` blocks, `n` of them real: 22 bytes of
/// head, 61 for each real block and 57 for each decoy.
pub open spec fn manifest_len(n: nat, total: nat) -> int {
    22 + 61 * n + 57 * (total - n)
}

/// The number of real blocks in a list.
pub open spec fn real_count(s: Seq<(Seq<u8>, Seq<u8>, Option<u32>)>) -> nat
    decreases s.len(),
{
    if s.len() == 0 {
        0
    } else {
        real_count(s.subrange(0, s.len() - 1)) + (if s[s.len() - 1].2 is Some {
            1nat
        } else {
            0nat
        })
    }
}

/// A list of `n` blocks and then decoys has `n` real blocks.
proof fn lemma_real_count_split(s: Seq<(Seq<u8>, Seq<u8>, Option<u32>)>, n: nat)
    requires
        n <= s.len(),
        forall|i: int| 0 <= i < s.len() ==> ((#[trigger] s[i]).2 is Some <==> i < n),
    ensures
        real_count(s) == n,
    decreases s.len(),
{
    if s.len() > 0 {
        let init = s.subrange(0, s.len() - 1);
        lemma_real_count_split(
            init,
            if n < s.len() {
                n
            } else {
                (n - 1) as nat
            },
        );
    }
}

/// The number of real blocks counts, by what is listed and how often.
proof fn lemma_real_count_multiset(s: Seq<(Seq<u8>, Seq<u8>, Option<u32>)>)
    ensures
        real_count(s) == real_rows(s).len(),
    decreases s.len(),
{
    broadcast use vstd::multiset::group_multiset_axioms;
    broadcast use vstd::seq_lib::group_to_multiset_ensures;

    if s.len() == 0 {
        assert(real_rows(s) =~= vstd::multiset::Multiset::empty());
    } else {
        let init = s.subrange(0, s.len() - 1);
        let b = s[s.len() - 1];
        lemma_real_count_multiset(init);
        assert(init.push(b) =~= s);
        if b.2 is Some {
            assert(real_rows(s) =~= real_rows(init).insert(b));
        } else {
            assert(real_rows(s) =~= real_rows(init));
        }
    }
}

/// The length of the bytes of a manifest is decided by how many blocks it lists and how many of
/// them are real, in whatever order. `rows` is a list of the same references: `n` blocks, then
/// decoys.
pub proof fn lemma_manifest_len_shuffled(
    m: (u16, u32, u64, Seq<(Seq<u8>, Seq<u8>, Option<u32>)>),
    rows: Seq<(Seq<u8>, Seq<u8>, Option<u32>)>,
    n: nat,
)
    requires
        n <= rows.len(),
        forall|i: int| 0 <= i < rows.len() ==> ((#[trigger] rows[i]).2 is Some <==> i < n),
        forall|k: int|
            0 <= k < rows.len() ==> (#[trigger] rows[k]).0.len() == 32 && rows[k].1.len() == 24,
        m.3.to_multiset() == rows.to_multiset(),
        m.3.len() == rows.len(),
    ensures
        manifest_bytes(m).len() == manifest_len(n, rows.len()),
{
    broadcast use vstd::multiset::group_multiset_axioms;
    broadcast use vstd::seq_lib::group_to_multiset_ensures;

    lemma_real_count_split(rows, n);
    lemma_real_count_multiset(rows);
    lemma_real_count_multiset(m.3);
    assert(real_rows(m.3) =~= real_rows(rows));
    assert forall|k: int| 0 <= k < m.3.len() implies (#[trigger] m.3[k]).0.len() == 32
        && m.3[k].1.len() == 24 by {
        m.3.to_multiset_ensures();
        rows.to_multiset_ensures();
        assert(m.3.contains(m.3[k]));
        assert(m.3.to_multiset().count(m.3[k]) > 0);
        assert(rows.contains(m.3[k]));
    }
    lemma_le_len(m.0 as nat, 2);
    lemma_le_len(m.1 as nat, 4);
    lemma_le_len(m.2 as nat, 8);
    lemma_le_len(m.3.len(), 8);
    lemma_blocks_len(m.3);
}

proof fn lemma_blocks_len(s: Seq<(Seq<u8>, Seq<u8>, Option<u32>)>)
    requires
        forall|k: int| 0 <= k < s.len() ==> (#[trigger] s[k]).0.len() == 32 && s[k].1.len() == 24,
    ensures
        s.map_values(|b: (Seq<u8>, Seq<u8>, Option<u32>)| block_bytes(b)).flatten().len() == 57
            * s.len() + 4 * real_count(s),
    decreases s.len(),
{
    let f = |b: (Seq<u8>, Seq<u8>, Option<u32>)| block_bytes(b);
    if s.len() > 0 {
        let init = s.subrange(0, s.len() - 1);
        let b = s[s.len() - 1];
        lemma_blocks_len(init);
        assert(s.map_values(f) =~= init.map_values(f).push(f(b)));
        init.map_values(f).lemma_flatten_push(f(b));
        match b.2 {
            Some(i) => {
                lemma_le_len(i as nat, 4);
            },
            None => {},
        }
    }
}

impl Manifest {
    /// The bytes of the manifest. Reading them gives the manifest back.
    pub fn to_bytes(&self) -> (r: Vec<u8>)
        ensures
            r@ == manifest_bytes(self@),
            decoded_manifest(r@) == Some(self@),
    {
        let mut blocks: Vec<([u8; 32], [u8; 24], Option<u32>)> = Vec::new();
        let mut i: usize = 0;
        while i < self.blocks.len()
            invariant
                i <= self.blocks@.len(),
                tuple_block_rows(blocks@) == block_rows(self.blocks@.subrange(0, i as int)),
            decreases self.blocks@.len() - i,
        {
            let b: BlockRef = self.blocks[i];
            let ghost before = blocks@;
            blocks.push((b.object_id, b.nonce, b.index));
            assert(tuple_block_rows(blocks@) =~= tuple_block_rows(before).push(block_row(b)));
            assert(block_rows(self.blocks@.subrange(0, i + 1)) =~= block_rows(
                self.blocks@.subrange(0, i as int),
            ).push(block_row(b)));
            i = i + 1;
        }
        assert(self.blocks@.subrange(0, self.blocks@.len() as int) =~= self.blocks@);
        match bincode_manifest(self.version, self.block_size, self.real_len, &blocks) {
            Ok(b) => b,
            Err(_) => Vec::new(),
        }
    }

    /// Reads a manifest from its bytes, or says why the codec cannot.
    pub fn from_bytes(b: &[u8]) -> (r: Result<Manifest, String>)
        ensures
            match r {
                Ok(m) => decoded_manifest(b@) == Some(m@),
                Err(_) => decoded_manifest(b@) is None,
            },
    {
        let (version, block_size, real_len, rows) = match unbincode_manifest(b) {
            Ok(v) => v,
            Err(e) => return Err(codec_words(e)),
        };
        let mut blocks: Vec<BlockRef> = Vec::new();
        let mut i: usize = 0;
        while i < rows.len()
            invariant
                i <= rows@.len(),
                block_rows(blocks@) == tuple_block_rows(rows@.subrange(0, i as int)),
            decreases rows@.len() - i,
        {
            let row: &([u8; 32], [u8; 24], Option<u32>) = &rows[i];
            let ghost before = blocks@;
            let b: BlockRef = BlockRef { object_id: row.0, nonce: row.1, index: row.2 };
            blocks.push(b);
            assert(block_rows(blocks@) =~= block_rows(before).push(block_row(b)));
            assert(tuple_block_rows(rows@.subrange(0, i + 1)) =~= tuple_block_rows(
                rows@.subrange(0, i as int),
            ).push(block_row(b)));
            i = i + 1;
        }
        assert(rows@.subrange(0, rows@.len() as int) =~= rows@);
        Ok(Manifest { version, block_size, real_len, blocks })
    }
}

// ── Laws ─────────────────────────────────────────────────────────────────────

/// A ladder of multiples goes in steps of its number, or of one where that is zero.
pub proof fn law_steps_of_a_ladder(real_blocks: nat, n: u32)
    requires
        real_blocks > 0,
    ensures
        n > 0 ==> ladder_total(Ladder::MultipleOf(n), real_blocks) % (n as nat) == 0,
        n > 0 ==> real_blocks <= ladder_total(Ladder::MultipleOf(n), real_blocks) < real_blocks + n,
        ladder_total(Ladder::MultipleOf(0), real_blocks) == real_blocks,
        ladder_total(Ladder::Exact, real_blocks) == real_blocks,
{
    law_ladder_lands_on_steps(real_blocks, n);
    law_ladder_covers(Ladder::MultipleOf(n), real_blocks);
    law_ladder_lands_on_steps(real_blocks, 0);
    law_ladder_covers(Ladder::MultipleOf(0), real_blocks);
}

/// The blocks of a stream are as few as hold it.
pub proof fn law_blocks_are_as_few_as_hold_the_stream(len: nat, block_size: nat)
    requires
        block_size > 0,
    ensures
        blocks_for(len, block_size) * block_size >= len,
        blocks_for(len, block_size) > 0 ==> (blocks_for(len, block_size) - 1) * block_size < len,
        len == 0 ==> blocks_for(len, block_size) == 0,
{
    lemma_blocks_for(len, block_size);
    let n = blocks_for(len, block_size);
    assert((n - 1) * block_size == n * block_size - block_size) by (nonlinear_arith);
}

/// Every reference of a manifest is read as plain values, in its order, and with its index where it
/// is that of a real block.
pub proof fn law_references_as_plain_values(blocks: Seq<BlockRef>, i: int)
    ensures
        block_rows(blocks).len() == blocks.len(),
        0 <= i < blocks.len() ==> block_rows(blocks)[i] == (
            blocks[i].object_id@,
            blocks[i].nonce@,
            blocks[i].index,
        ),
{
}

/// The real blocks are put in order as they are listed one by one: a decoy changes nothing, and a
/// real block is added to those before it.
pub proof fn law_decoys_do_not_count(
    s: Seq<(Seq<u8>, Seq<u8>, Option<u32>)>,
    b: (Seq<u8>, Seq<u8>, Option<u32>),
)
    ensures
        b.2 is None ==> ordered_rows(s.push(b)) == ordered_rows(s),
        b.2 is Some ==> ordered_rows(s.push(b)).to_multiset() == ordered_rows(s).to_multiset().insert(
            b,
        ),
        b.2 is None ==> real_count(s.push(b)) == real_count(s),
        b.2 is Some ==> real_count(s.push(b)) == real_count(s) + 1,
        real_count(Seq::empty()) == 0,
{
    broadcast use vstd::multiset::group_multiset_axioms;
    broadcast use vstd::seq_lib::group_to_multiset_ensures;

    assert(s.push(b).subrange(0, s.len() as int) =~= s);
    if b.2 is Some {
        law_reassembly_order(s);
        law_reassembly_order(s.push(b));
        assert(real_rows(s.push(b)) =~= real_rows(s).insert(b));
    }
}

/// The bytes of a reference: identifier, nonce, and either a zero for a decoy or a one and the
/// index in four bytes, the least significant first.
pub proof fn law_reference_layout(b: (Seq<u8>, Seq<u8>, Option<u32>))
    requires
        b.0.len() == 32,
        b.1.len() == 24,
    ensures
        block_bytes(b).subrange(0, 32) == b.0,
        block_bytes(b).subrange(32, 56) == b.1,
        b.2 is None ==> block_bytes(b).len() == 57 && block_bytes(b)[56] == 0,
        b.2 matches Some(i) ==> block_bytes(b).len() == 61 && block_bytes(b)[56] == 1 && le_value(
            block_bytes(b).subrange(57, 61),
        ) == i,
{
    let x = block_bytes(b);
    assert(x.subrange(0, 32) =~= b.0);
    assert(x.subrange(32, 56) =~= b.1);
    if b.2 is Some {
        let i = b.2->Some_0;
        lemma_le_len(i as nat, 4);
        lemma_pow256_values();
        lemma_le_value_of_le(i as nat, 4);
        assert(x.subrange(57, 61) =~= le(i as nat, 4));
    }
}

} // verus!
