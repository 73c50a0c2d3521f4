//! Little-endian integers and small helpers on byte sequences.

use vstd::arithmetic::div_mod::lemma_div_denominator;
use vstd::arithmetic::power::{lemma_pow_positive, pow};
use vstd::prelude::*;

verus! {

/// `256` to the power `n`.
pub open spec fn pow256(n: nat) -> nat
    decreases n,
{
    if n == 0 {
        1
    } else {
        256 * pow256((n - 1) as nat)
    }
}

/// The `n` low-order bytes of `v`, least significant first.
pub open spec fn le(v: nat, n: nat) -> Seq<u8>
    decreases n,
{
    if n == 0 {
        Seq::empty()
    } else {
        seq![(v % 256) as u8] + le(v / 256, (n - 1) as nat)
    }
}

/// The number whose little-endian bytes are `s`.
pub open spec fn le_value(s: Seq<u8>) -> nat
    decreases s.len(),
{
    if s.len() == 0 {
        0
    } else {
        s[0] as nat + 256 * le_value(s.subrange(1, s.len() as int))
    }
}

/// `le` has the length that is asked for.
pub proof fn lemma_le_len(v: nat, n: nat)
    ensures
        le(v, n).len() == n,
    decreases n,
{
    if n > 0 {
        lemma_le_len(v / 256, (n - 1) as nat);
    }
}

/// The value of a byte sequence fits its length.
pub proof fn lemma_le_value_bound(s: Seq<u8>)
    ensures
        le_value(s) < pow256(s.len()),
    decreases s.len(),
{
    if s.len() > 0 {
        let t = s.subrange(1, s.len() as int);
        lemma_le_value_bound(t);
        assert(pow256(s.len()) == 256 * pow256(t.len()));
    }
}

/// Reading back the little-endian bytes of a number that fits gives the number.
pub proof fn lemma_le_value_of_le(v: nat, n: nat)
    requires
        v < pow256(n),
    ensures
        le_value(le(v, n)) == v,
    decreases n,
{
    lemma_le_len(v, n);
    if n > 0 {
        let rest = le(v / 256, (n - 1) as nat);
        let p = pow256((n - 1) as nat);
        assert(v / 256 < p) by (nonlinear_arith)
            requires
                v < 256 * p,
        ;
        lemma_le_value_of_le(v / 256, (n - 1) as nat);
        assert(le(v, n).subrange(1, n as int) =~= rest);
    }
}

/// Writing the value of a byte sequence gives the byte sequence.
pub proof fn lemma_le_of_le_value(s: Seq<u8>)
    ensures
        le(le_value(s), s.len()) == s,
    decreases s.len(),
{
    if s.len() > 0 {
        let t = s.subrange(1, s.len() as int);
        lemma_le_of_le_value(t);
        let v = le_value(s);
        assert(v % 256 == s[0] as nat && v / 256 == le_value(t)) by (nonlinear_arith)
            requires
                v == s[0] as nat + 256 * le_value(t),
                s[0] < 256,
        ;
        assert(seq![s[0]] + t =~= s);
    }
}

/// The bounds of the machine integers as powers of 256.
pub proof fn lemma_pow256_values()
    ensures
        pow256(2) == 0x1_0000,
        pow256(4) == 0x1_0000_0000,
        pow256(8) == 0x1_0000_0000_0000_0000,
{
    reveal_with_fuel(pow256, 9);
}

/// Appends the `n` little-endian bytes of `v`.
pub fn push_le(out: &mut Vec<u8>, v: u64, n: usize)
    ensures
        final(out)@ == old(out)@ + le(v as nat, n as nat),
{
    let ghost start = out@;
    let mut rest: u64 = v;
    let mut i: usize = 0;
    assert(start + le(v as nat, n as nat) =~= out@ + le(rest as nat, (n - i) as nat));
    while i < n
        invariant
            i <= n,
            out@ + le(rest as nat, (n - i) as nat) == start + le(v as nat, n as nat),
        decreases n - i,
    {
        let ghost before = out@;
        let b: u8 = (rest % 256) as u8;
        out.push(b);
        proof {
            let tail = le((rest / 256) as nat, (n - i - 1) as nat);
            assert(le(rest as nat, (n - i) as nat) =~= seq![b] + tail);
            assert(before + (seq![b] + tail) =~= before.push(b) + tail);
        }
        rest = rest / 256;
        i = i + 1;
    }
    assert(out@ + le(rest as nat, 0) =~= out@);
}

/// The number whose little-endian bytes are `s`.
pub fn read_le(s: &[u8]) -> (v: u64)
    requires
        s@.len() <= 8,
    ensures
        v == le_value(s@),
{
    let mut v: u64 = 0;
    let mut i: usize = s.len();
    assert(s@.subrange(i as int, s@.len() as int).len() == 0);
    while i > 0
        invariant
            i <= s@.len() <= 8,
            v == le_value(s@.subrange(i as int, s@.len() as int)),
        decreases i,
    {
        let ghost tail = s@.subrange(i as int, s@.len() as int);
        let ghost next = s@.subrange(i - 1, s@.len() as int);
        proof {
            assert(next.subrange(1, next.len() as int) =~= tail);
            lemma_le_value_bound(next);
            reveal_with_fuel(pow256, 9);
        }
        v = v * 256 + s[i - 1] as u64;
        i = i - 1;
    }
    assert(s@.subrange(0, s@.len() as int) =~= s@);
    v
}

/// Copies a slice into an array of the same length.
pub fn to_array<const N: usize>(s: &[u8]) -> (r: [u8; N])
    requires
        s@.len() == N,
    ensures
        r@ == s@,
{
    let mut out: [u8; N] = [0u8; N];
    let mut i: usize = 0;
    while i < N
        invariant
            i <= N,
            s@.len() == N,
            forall|j: int| 0 <= j < i ==> out@[j] == s@[j],
        decreases N - i,
    {
        out[i] = s[i];
        i = i + 1;
    }
    assert(out@ =~= s@);
    out
}

/// Appends a slice.
pub fn push_all(out: &mut Vec<u8>, s: &[u8])
    ensures
        final(out)@ == old(out)@ + s@,
{
    out.extend_from_slice(s);
    assert(out@ =~= old(out)@ + s@);
}

/// A copy of a byte sequence.
pub fn copy_bytes(s: &[u8]) -> (r: Vec<u8>)
    ensures
        r@ == s@,
{
    let mut out: Vec<u8> = Vec::new();
    push_all(&mut out, s);
    assert(out@ =~= s@);
    out
}

/// Whether two byte sequences are the same.
pub fn same_bytes(a: &[u8], b: &[u8]) -> (r: bool)
    ensures
        r == (a@ == b@),
{
    if a.len() != b.len() {
        return false;
    }
    let mut i: usize = 0;
    while i < a.len()
        invariant
            i <= a@.len(),
            a@.len() == b@.len(),
            forall|j: int| 0 <= j < i ==> a@[j] == b@[j],
        decreases a@.len() - i,
    {
        if a[i] != b[i] {
            return false;
        }
        i = i + 1;
    }
    assert(a@ =~= b@);
    true
}

// ── Laws ─────────────────────────────────────────────────────────────────────

/// Byte `i` of a number is its digit of weight `256^i`.
pub proof fn law_bytes_are_the_digits(v: nat, n: nat, i: nat)
    requires
        i < n,
    ensures
        le(v, n).len() == n,
        le(v, n)[i as int] as int == (v as int / pow(256, i)) % 256,
    decreases n,
{
    lemma_le_len(v, n);
    reveal(pow);
    if i == 0 {
        assert(v as int / 1 == v);
    } else {
        let j = (i - 1) as nat;
        law_bytes_are_the_digits(v / 256, (n - 1) as nat, j);
        lemma_pow_positive(256, j);
        lemma_div_denominator(v as int, 256, pow(256, j));
        assert(le(v, n)[i as int] == le(v / 256, (n - 1) as nat)[j as int]);
    }
}

/// The value of bytes is the sum of the bytes at their weights: a further byte counts for its
/// weight.
pub proof fn law_value_is_the_weighted_sum(s: Seq<u8>, x: u8)
    ensures
        le_value(Seq::empty()) == 0,
        le_value(s.push(x)) == le_value(s) + x * pow(256, s.len()),
    decreases s.len(),
{
    reveal(pow);
    let t = s.push(x);
    if s.len() == 0 {
        assert(t.subrange(1, 1).len() == 0);
        assert(le_value(t.subrange(1, t.len() as int)) == 0);
        assert(x * 1 == x) by (nonlinear_arith);
    } else {
        let rest = s.subrange(1, s.len() as int);
        law_value_is_the_weighted_sum(rest, x);
        assert(t.subrange(1, t.len() as int) =~= rest.push(x));
        let p = pow(256, rest.len());
        assert(256 * (le_value(rest) + x * p) == 256 * le_value(rest) + x * (256 * p))
            by (nonlinear_arith);
    }
}

/// The bytes of a number of up to four bytes, the least significant first.
pub proof fn law_four_bytes(v: nat)
    requires
        v < 0x1_0000_0000,
    ensures
        le(v, 4).len() == 4,
        v == le(v, 4)[0] + 0x100 * le(v, 4)[1] + 0x1_0000 * le(v, 4)[2] + 0x100_0000 * le(v, 4)[3],
{
    lemma_le_len(v, 4);
    let a = v / 256;
    let b = a / 256;
    let c = b / 256;
    assert(le(v, 4)[0] == v % 256);
    assert(le(v, 4)[1] == le(a, 3)[0]);
    assert(le(v, 4)[2] == le(a, 3)[1] && le(a, 3)[1] == le(b, 2)[0]);
    assert(le(v, 4)[3] == le(a, 3)[2] && le(a, 3)[2] == le(b, 2)[1] && le(b, 2)[1] == le(c, 1)[0]);
    lemma_le_len(a, 3);
    lemma_le_len(b, 2);
    lemma_le_len(c, 1);
    assert(v == a * 256 + v % 256 && a == b * 256 + a % 256 && b == c * 256 + b % 256 && c < 256);
}

} // verus!
