//! Raw bytes: searching them and telling two dumps apart.

use crate::text::{find, find_from, find_is_first, occurs_at};
use vstd::arithmetic::div_mod::{lemma_mod_multiples_vanish, lemma_mul_mod_noop_left,
    lemma_small_mod};
use vstd::arithmetic::mul::lemma_mul_is_associative;
use vstd::prelude::*;

verus! {

/// The hash of no bytes.
pub const FNV1A_OFFSET: u64 = 0xcbf2_9ce4_8422_2325;

/// The factor of each step.
pub const FNV1A_PRIME: u64 = 0x0000_0100_0000_01b3;

/// One step of the hash: the byte is mixed in, then the sum is multiplied modulo 2^64.
pub open spec fn fnv1a_step(hash: u64, b: u8) -> u64 {
    (((hash ^ (b as u64)) * FNV1A_PRIME) % 0x1_0000_0000_0000_0000) as u64
}

/// The hash of `bytes` continued from `hash`.
pub open spec fn fnv1a_from(hash: u64, bytes: Seq<u8>) -> u64
    decreases bytes.len(),
{
    if bytes.len() == 0 {
        hash
    } else {
        fnv1a_step(fnv1a_from(hash, bytes.drop_last()), bytes.last())
    }
}

/// The 64-bit FNV-1a hash.
pub open spec fn fnv1a(bytes: Seq<u8>) -> u64 {
    fnv1a_from(FNV1A_OFFSET, bytes)
}

/// Hashes bytes with 64-bit FNV-1a.
pub fn fnv1a_hash(bytes: &[u8]) -> (r: u64)
    ensures
        r == fnv1a(bytes@),
{
    let mut hash: u64 = FNV1A_OFFSET;
    let n: usize = bytes.len();
    for i in 0..n
        invariant
            n == bytes@.len(),
            hash == fnv1a_from(FNV1A_OFFSET, bytes@.take(i as int)),
    {
        assert(bytes@.take(i + 1).drop_last() == bytes@.take(i as int));
        let mixed: u64 = hash ^ (bytes[i] as u64);
        hash = mixed.wrapping_mul(FNV1A_PRIME);
    }
    assert(bytes@.take(n as int) == bytes@);
    hash
}

/// Hashing a text in two parts is hashing it whole.
pub proof fn fnv1a_continues(hash: u64, a: Seq<u8>, b: Seq<u8>)
    ensures
        fnv1a_from(hash, a + b) == fnv1a_from(fnv1a_from(hash, a), b),
    decreases b.len(),
{
    if b.len() == 0 {
        assert(a + b == a);
    } else {
        assert((a + b).drop_last() == a + b.drop_last());
        fnv1a_continues(hash, a, b.drop_last());
    }
}

proof fn factor_is_undone(x: u64)
    ensures
        ((x * FNV1A_PRIME) % 0x1_0000_0000_0000_0000) * 0xce96_5057_aff6_957bint
            % 0x1_0000_0000_0000_0000 == x,
{
    let m: int = 0x1_0000_0000_0000_0000;
    let p: int = 0x0000_0100_0000_01b3;
    let q: int = 0xce96_5057_aff6_957b;
    let k: int = 887285111055;
    let y: int = x as int;
    assert(p * q == k * m + 1);
    lemma_mul_mod_noop_left(y * p, q, m);
    lemma_mul_is_associative(y, p, q);
    assert(y * (k * m + 1) == m * (y * k) + y) by (nonlinear_arith);
    lemma_mod_multiples_vanish(y * k, y, m);
    lemma_small_mod(x as nat, m as nat);
}

proof fn steps_keep_apart(g: u64, h: u64, b: u8, c: u8)
    requires
        g ^ (b as u64) != h ^ (c as u64),
    ensures
        fnv1a_step(g, b) != fnv1a_step(h, c),
{
    factor_is_undone(g ^ (b as u64));
    factor_is_undone(h ^ (c as u64));
}

proof fn tail_keeps_apart(g: u64, h: u64, tail: Seq<u8>)
    requires
        g != h,
    ensures
        fnv1a_from(g, tail) != fnv1a_from(h, tail),
    decreases tail.len(),
{
    if tail.len() > 0 {
        tail_keeps_apart(g, h, tail.drop_last());
        let x = fnv1a_from(g, tail.drop_last());
        let y = fnv1a_from(h, tail.drop_last());
        let b = tail.last() as u64;
        assert(x != y ==> x ^ b != y ^ b) by (bit_vector);
        steps_keep_apart(x, y, tail.last(), tail.last());
    }
}

/// Changing one byte of a text always changes its hash.
pub proof fn one_byte_changes_the_hash(a: Seq<u8>, i: int, b: u8)
    requires
        0 <= i < a.len(),
        a[i] != b,
    ensures
        fnv1a(a.update(i, b)) != fnv1a(a),
{
    let head = a.take(i);
    let tail = a.skip(i + 1);
    let c = a[i];
    assert(a =~= head + seq![c] + tail);
    assert(a.update(i, b) =~= head + seq![b] + tail);
    assert((head + seq![c]).drop_last() =~= head);
    assert((head + seq![b]).drop_last() =~= head);
    fnv1a_continues(FNV1A_OFFSET, head + seq![c], tail);
    fnv1a_continues(FNV1A_OFFSET, head + seq![b], tail);
    let h = fnv1a(head);
    assert(b != c ==> h ^ (b as u64) != h ^ (c as u64)) by (bit_vector);
    steps_keep_apart(h, h, b, c);
    tail_keeps_apart(fnv1a_step(h, b), fnv1a_step(h, c), tail);
}

/// Finds the first place where `needle` stands in `haystack`.
pub fn find_subslice(haystack: &[u8], needle: &[u8]) -> (r: Option<usize>)
    requires
        needle@.len() > 0,
    ensures
        (match r {
            Some(i) => find(haystack@, needle@) == Some(i as int) && i + needle@.len()
                <= haystack@.len(),
            None => find(haystack@, needle@) is None,
        }),
{
    let n: usize = haystack.len();
    let m: usize = needle.len();
    if n < m {
        return None;
    }
    let mut i: usize = 0;
    while i <= n - m
        invariant
            n == haystack@.len(),
            m == needle@.len(),
            0 < m <= n,
            i <= n - m + 1,
            find(haystack@, needle@) == find_from(haystack@, needle@, i as int),
        decreases n - m + 1 - i,
    {
        let mut k: usize = 0;
        while k < m && haystack[i + k] == needle[k]
            invariant
                n == haystack@.len(),
                m == needle@.len(),
                m <= n,
                i <= n - m,
                k <= m,
                forall|j: int| 0 <= j < k ==> haystack@[i + j] == needle@[j],
            decreases m - k,
        {
            k += 1;
        }
        if k == m {
            assert(haystack@.subrange(i as int, i + needle@.len()) =~= needle@);
            return Some(i);
        }
        assert(haystack@.subrange(i as int, i + needle@.len())[k as int] != needle@[k as int]);
        i += 1;
    }
    None
}

/// The search returns the first place and, where it returns none, there is none.
pub proof fn find_subslice_exact(haystack: Seq<u8>, needle: Seq<u8>)
    ensures
        find(haystack, needle) matches Some(i) ==> occurs_at(haystack, needle, i)
            && forall|j: int| 0 <= j < i ==> !occurs_at(haystack, needle, j),
        find(haystack, needle) is None ==> forall|j: int| !occurs_at(haystack, needle, j),
{
    find_is_first(haystack, needle, 0);
    if find(haystack, needle) is None {
        assert forall|j: int| !occurs_at(haystack, needle, j) by {
            if j >= 0 {
            }
        }
    }
}

/// The hash starts at its offset, and each byte is mixed in and the whole multiplied by the
/// prime, modulo 2^64.
pub proof fn hash_goes_byte_by_byte(s: Seq<u8>, b: u8)
    ensures
        fnv1a(Seq::empty()) == 0xcbf2_9ce4_8422_2325,
        fnv1a(s.push(b)) == ((fnv1a(s) ^ (b as u64)) * 0x100_0000_01b3)
            % 0x1_0000_0000_0000_0000,
{
    assert(s.push(b).drop_last() =~= s);
}

} // verus!
