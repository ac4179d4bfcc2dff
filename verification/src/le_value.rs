use vstd::arithmetic::div_mod::{
    lemma_basic_div, lemma_div_denominator, lemma_div_multiples_vanish_fancy,
    lemma_fundamental_div_mod_converse, lemma_hoist_over_denominator, lemma_mod_multiples_vanish,
};
use vstd::arithmetic::mul::{
    lemma_mul_inequality, lemma_mul_is_associative, lemma_mul_is_commutative,
    lemma_mul_is_distributive_add_other_way,
};
use vstd::arithmetic::power2::{lemma2_to64, lemma2_to64_rest, lemma_pow2_adds, lemma_pow2_pos, pow2};
use vstd::bytes::spec_u64_to_le_bytes;
use vstd::prelude::*;

verus! {

// ---------------------------------------------------------------------------
// Little-endian place value of byte sequences (base 256).
// ---------------------------------------------------------------------------
/// The natural number that a byte sequence denotes in base 256,
/// least-significant byte first.
pub open spec fn le_bytes_nat(s: Seq<u8>) -> nat
    decreases s.len(),
{
    if s.len() == 0 {
        0
    } else {
        le_bytes_nat(s.drop_last()) + (s.last() as nat) * pow2((8 * (s.len() - 1)) as nat)
    }
}

/// Appending a byte adds it at the weight of the old length.
pub proof fn lemma_le_bytes_nat_push(s: Seq<u8>, x: u8)
    ensures
        le_bytes_nat(s.push(x)) == le_bytes_nat(s) + (x as nat) * pow2(8 * s.len()),
{
    assert(s.push(x).drop_last() =~= s);
    assert(s.push(x).last() == x);
    assert(s.push(x).len() == s.len() + 1);
    assert((8 * (s.push(x).len() - 1)) as nat == 8 * s.len());
    assert(le_bytes_nat(s.push(x)) == le_bytes_nat(s.push(x).drop_last()) + (s.push(x).last()
        as nat) * pow2((8 * (s.push(x).len() - 1)) as nat));
    assert(le_bytes_nat(s.push(x).drop_last()) == le_bytes_nat(s));
}

/// A byte sequence of length n denotes a value below 2^(8n).
pub proof fn lemma_le_bytes_nat_bound(s: Seq<u8>)
    ensures
        le_bytes_nat(s) < pow2(8 * s.len()),
    decreases s.len(),
{
    if s.len() == 0 {
        assert(pow2(0) == 1) by {
            lemma2_to64();
        }
    } else {
        let w = pow2((8 * (s.len() - 1)) as nat);
        lemma_le_bytes_nat_bound(s.drop_last());
        lemma_pow2_adds((8 * (s.len() - 1)) as nat, 8);
        assert(pow2(8) == 256) by {
            lemma2_to64();
        }
        lemma_mul_inequality(s.last() as int, 255, w as int);
        assert(le_bytes_nat(s) == le_bytes_nat(s.drop_last()) + (s.last() as nat) * w);
        assert(pow2(8 * s.len()) == w * 256);
    }
}

/// Concatenation shifts the second part up by the width of the first part.
pub proof fn lemma_le_bytes_nat_append(a: Seq<u8>, b: Seq<u8>)
    ensures
        le_bytes_nat(a + b) == le_bytes_nat(a) + le_bytes_nat(b) * pow2(8 * a.len()),
    decreases b.len(),
{
    let wa = pow2(8 * a.len());
    if b.len() == 0 {
        assert(a + b =~= a);
        assert(le_bytes_nat(b) == 0);
    } else {
        let w = pow2((8 * (b.len() - 1)) as nat);
        lemma_le_bytes_nat_append(a, b.drop_last());
        assert((a + b).drop_last() =~= a + b.drop_last());
        assert((a + b).last() == b.last());
        assert((a + b).len() == a.len() + b.len());
        assert((8 * ((a + b).len() - 1)) as nat == 8 * a.len() + (8 * (b.len() - 1)) as nat);
        assert(le_bytes_nat(a + b) == le_bytes_nat((a + b).drop_last()) + ((a + b).last() as nat)
            * pow2((8 * ((a + b).len() - 1)) as nat));
        assert(le_bytes_nat((a + b).drop_last()) == le_bytes_nat(a + b.drop_last()));
        assert(le_bytes_nat(b) == le_bytes_nat(b.drop_last()) + (b.last() as nat) * w);
        lemma_pow2_adds(8 * a.len(), (8 * (b.len() - 1)) as nat);
        assert(pow2((8 * ((a + b).len() - 1)) as nat) == wa * w);
        lemma_mul_is_commutative(wa as int, w as int);
        lemma_mul_is_associative(b.last() as int, w as int, wa as int);
        assert((b.last() as nat) * (wa * w) == ((b.last() as nat) * w) * wa);
        lemma_mul_is_distributive_add_other_way(
            wa as int,
            le_bytes_nat(b.drop_last()) as int,
            ((b.last() as nat) * w) as int,
        );
        assert(le_bytes_nat(b) * wa == le_bytes_nat(b.drop_last()) * wa + ((b.last() as nat) * w)
            * wa);
    }
}

/// Equal-length byte sequences with the same value are equal: the canonical
/// encoding is one-to-one.
pub proof fn lemma_le_bytes_nat_injective(a: Seq<u8>, b: Seq<u8>)
    requires
        a.len() == b.len(),
        le_bytes_nat(a) == le_bytes_nat(b),
    ensures
        a == b,
    decreases a.len(),
{
    if a.len() > 0 {
        let w = pow2((8 * (a.len() - 1)) as nat);
        let v = le_bytes_nat(a);
        lemma_pow2_pos((8 * (a.len() - 1)) as nat);
        lemma_le_bytes_nat_bound(a.drop_last());
        lemma_le_bytes_nat_bound(b.drop_last());
        lemma_fundamental_div_mod_converse(
            v as int,
            w as int,
            a.last() as int,
            le_bytes_nat(a.drop_last()) as int,
        );
        lemma_fundamental_div_mod_converse(
            v as int,
            w as int,
            b.last() as int,
            le_bytes_nat(b.drop_last()) as int,
        );
        lemma_le_bytes_nat_injective(a.drop_last(), b.drop_last());
        assert(a =~= a.drop_last().push(a.last()));
        assert(b =~= b.drop_last().push(b.last()));
    } else {
        assert(a =~= b);
    }
}

// ---------------------------------------------------------------------------
// Little-endian place value of 64-bit limb sequences (base 2^64).
// ---------------------------------------------------------------------------
/// The natural number that a limb sequence denotes in base 2^64,
/// least-significant limb first.
pub open spec fn le_limbs_nat(s: Seq<u64>) -> nat
    decreases s.len(),
{
    if s.len() == 0 {
        0
    } else {
        le_limbs_nat(s.drop_last()) + (s.last() as nat) * pow2((64 * (s.len() - 1)) as nat)
    }
}

/// Appending a limb adds it at the weight of the old length.
pub proof fn lemma_le_limbs_nat_push(s: Seq<u64>, x: u64)
    ensures
        le_limbs_nat(s.push(x)) == le_limbs_nat(s) + (x as nat) * pow2(64 * s.len()),
{
    assert(s.push(x).drop_last() =~= s);
    assert(s.push(x).last() == x);
    assert(s.push(x).len() == s.len() + 1);
    assert((64 * (s.push(x).len() - 1)) as nat == 64 * s.len());
    assert(le_limbs_nat(s.push(x)) == le_limbs_nat(s.push(x).drop_last()) + (s.push(x).last()
        as nat) * pow2((64 * (s.push(x).len() - 1)) as nat));
    assert(le_limbs_nat(s.push(x).drop_last()) == le_limbs_nat(s));
}

/// A limb sequence of length n denotes a value below 2^(64n).
pub proof fn lemma_le_limbs_nat_bound(s: Seq<u64>)
    ensures
        le_limbs_nat(s) < pow2(64 * s.len()),
    decreases s.len(),
{
    if s.len() == 0 {
        assert(pow2(0) == 1) by {
            lemma2_to64();
        }
    } else {
        let w = pow2((64 * (s.len() - 1)) as nat);
        lemma_le_limbs_nat_bound(s.drop_last());
        lemma_pow2_adds((64 * (s.len() - 1)) as nat, 64);
        assert(pow2(64) == 0x10000000000000000) by {
            lemma2_to64();
        }
        lemma_mul_inequality(s.last() as int, 0xffffffffffffffff, w as int);
        assert(le_limbs_nat(s) == le_limbs_nat(s.drop_last()) + (s.last() as nat) * w);
        assert(pow2(64 * s.len()) == w * 0x10000000000000000);
    }
}

/// Concatenation shifts the second part up by the width of the first part.
pub proof fn lemma_le_limbs_nat_append(a: Seq<u64>, b: Seq<u64>)
    ensures
        le_limbs_nat(a + b) == le_limbs_nat(a) + le_limbs_nat(b) * pow2(64 * a.len()),
    decreases b.len(),
{
    let wa = pow2(64 * a.len());
    if b.len() == 0 {
        assert(a + b =~= a);
        assert(le_limbs_nat(b) == 0);
    } else {
        let w = pow2((64 * (b.len() - 1)) as nat);
        lemma_le_limbs_nat_append(a, b.drop_last());
        assert((a + b).drop_last() =~= a + b.drop_last());
        assert((a + b).last() == b.last());
        assert((a + b).len() == a.len() + b.len());
        assert((64 * ((a + b).len() - 1)) as nat == 64 * a.len() + (64 * (b.len() - 1)) as nat);
        assert(le_limbs_nat(a + b) == le_limbs_nat((a + b).drop_last()) + ((a + b).last() as nat)
            * pow2((64 * ((a + b).len() - 1)) as nat));
        assert(le_limbs_nat((a + b).drop_last()) == le_limbs_nat(a + b.drop_last()));
        assert(le_limbs_nat(b) == le_limbs_nat(b.drop_last()) + (b.last() as nat) * w);
        lemma_pow2_adds(64 * a.len(), (64 * (b.len() - 1)) as nat);
        assert(pow2((64 * ((a + b).len() - 1)) as nat) == wa * w);
        lemma_mul_is_commutative(wa as int, w as int);
        lemma_mul_is_associative(b.last() as int, w as int, wa as int);
        assert((b.last() as nat) * (wa * w) == ((b.last() as nat) * w) * wa);
        lemma_mul_is_distributive_add_other_way(
            wa as int,
            le_limbs_nat(b.drop_last()) as int,
            ((b.last() as nat) * w) as int,
        );
        assert(le_limbs_nat(b) * wa == le_limbs_nat(b.drop_last()) * wa + ((b.last() as nat) * w)
            * wa);
    }
}

/// Equal-length limb sequences with the same value are equal.
pub proof fn lemma_le_limbs_nat_injective(a: Seq<u64>, b: Seq<u64>)
    requires
        a.len() == b.len(),
        le_limbs_nat(a) == le_limbs_nat(b),
    ensures
        a == b,
    decreases a.len(),
{
    if a.len() > 0 {
        let w = pow2((64 * (a.len() - 1)) as nat);
        let v = le_limbs_nat(a);
        lemma_pow2_pos((64 * (a.len() - 1)) as nat);
        lemma_le_limbs_nat_bound(a.drop_last());
        lemma_le_limbs_nat_bound(b.drop_last());
        lemma_fundamental_div_mod_converse(
            v as int,
            w as int,
            a.last() as int,
            le_limbs_nat(a.drop_last()) as int,
        );
        lemma_fundamental_div_mod_converse(
            v as int,
            w as int,
            b.last() as int,
            le_limbs_nat(b.drop_last()) as int,
        );
        lemma_le_limbs_nat_injective(a.drop_last(), b.drop_last());
        assert(a =~= a.drop_last().push(a.last()));
        assert(b =~= b.drop_last().push(b.last()));
    } else {
        assert(a =~= b);
    }
}

/// A limb sequence whose most significant limb is nonzero denotes a value of
/// at least the weight of that limb.
pub proof fn lemma_le_limbs_nat_lower(s: Seq<u64>)
    requires
        s.len() > 0,
        s.last() != 0,
    ensures
        le_limbs_nat(s) >= pow2((64 * (s.len() - 1)) as nat),
{
    let w = pow2((64 * (s.len() - 1)) as nat);
    lemma_mul_inequality(1, s.last() as int, w as int);
    assert(le_limbs_nat(s) == le_limbs_nat(s.drop_last()) + (s.last() as nat) * w);
}

/// Splitting a limb sequence at position q splits its value at weight 2^(64q).
pub proof fn lemma_le_limbs_split(s: Seq<u64>, q: int)
    requires
        0 <= q <= s.len(),
    ensures
        le_limbs_nat(s) == le_limbs_nat(s.take(q)) + le_limbs_nat(s.skip(q)) * pow2((64 * q) as nat),
        le_limbs_nat(s.take(q)) < pow2((64 * q) as nat),
{
    assert(s =~= s.take(q) + s.skip(q));
    lemma_le_limbs_nat_append(s.take(q), s.skip(q));
    lemma_le_limbs_nat_bound(s.take(q));
    assert(64 * s.take(q).len() == (64 * q) as nat);
}

/// The value of a nonempty limb sequence, decomposed at its first limb.
pub proof fn lemma_le_limbs_first(s: Seq<u64>)
    requires
        s.len() > 0,
    ensures
        le_limbs_nat(s) == s[0] + le_limbs_nat(s.skip(1)) * pow2(64),
{
    assert(s =~= s.take(1) + s.skip(1));
    lemma_le_limbs_nat_append(s.take(1), s.skip(1));
    lemma_le_limbs_nat_push(Seq::<u64>::empty(), s[0]);
    assert(le_limbs_nat(Seq::<u64>::empty()) == 0);
    assert(s.take(1) =~= Seq::<u64>::empty().push(s[0]));
    assert(pow2(0) == 1) by {
        lemma2_to64();
    }
    assert(le_limbs_nat(s.take(1)) == le_limbs_nat(Seq::<u64>::empty().push(s[0])));
    assert((s[0] as nat) * pow2(64 * Seq::<u64>::empty().len()) == (s[0] as nat) * 1);
    assert(le_limbs_nat(s.take(1)) == s[0]);
    assert(64 * s.take(1).len() == 64);
}

/// If two equal-length limb sequences agree above position j and differ at j,
/// the one with the smaller limb denotes the smaller value.
pub proof fn lemma_le_limbs_order(a: Seq<u64>, b: Seq<u64>, j: int)
    requires
        a.len() == b.len(),
        0 <= j < a.len(),
        a[j] < b[j],
        forall|k: int| j < k < a.len() ==> a[k] == b[k],
    ensures
        le_limbs_nat(a) < le_limbs_nat(b),
    decreases a.len(),
{
    let w = pow2((64 * (a.len() - 1)) as nat);
    if j == a.len() - 1 {
        lemma_le_limbs_nat_bound(a.drop_last());
        lemma_mul_inequality(a.last() as int + 1, b.last() as int, w as int);
        lemma_mul_is_distributive_add_other_way(w as int, a.last() as int, 1);
        assert(le_limbs_nat(a) == le_limbs_nat(a.drop_last()) + (a.last() as nat) * w);
        assert(le_limbs_nat(b) == le_limbs_nat(b.drop_last()) + (b.last() as nat) * w);
        assert(64 * a.drop_last().len() == (64 * (a.len() - 1)) as nat);
        assert((a.last() as nat + 1) * w == (a.last() as nat) * w + 1 * w);
    } else {
        lemma_le_limbs_order(a.drop_last(), b.drop_last(), j);
        assert(a.last() == b.last());
        assert(le_limbs_nat(a) == le_limbs_nat(a.drop_last()) + (a.last() as nat) * w);
        assert(le_limbs_nat(b) == le_limbs_nat(b.drop_last()) + (b.last() as nat) * w);
    }
}

// ---------------------------------------------------------------------------
// Single-bit access.
// ---------------------------------------------------------------------------
/// Whether bit i (0-indexed from the least significant) of n is set.
pub open spec fn bit_of(n: nat, i: nat) -> bool {
    (n / pow2(i)) % 2 == 1
}

/// Reading a bit of a + b * 2^k reads a below position k and b at or above it.
pub proof fn lemma_bit_split(a: nat, b: nat, k: nat, i: nat)
    requires
        a < pow2(k),
    ensures
        i < k ==> bit_of(a + b * pow2(k), i) == bit_of(a, i),
        i >= k ==> bit_of(a + b * pow2(k), i) == bit_of(b, (i - k) as nat),
{
    let n = a + b * pow2(k);
    lemma_pow2_pos(k);
    lemma_pow2_pos(i);
    if i < k {
        lemma_pow2_pos((k - i) as nat);
        lemma_pow2_adds(i, (k - i) as nat);
        // b * 2^k == (b * 2^(k-i)) * 2^i
        lemma_mul_is_associative(b as int, pow2((k - i) as nat) as int, pow2(i) as int);
        assert(b * pow2(k) == (b * pow2((k - i) as nat)) * pow2(i));
        // (a + (b * 2^(k-i)) * 2^i) / 2^i == a / 2^i + b * 2^(k-i)
        lemma_hoist_over_denominator(a as int, (b * pow2((k - i) as nat)) as int, pow2(i));
        assert(n as int / pow2(i) as int == a as int / pow2(i) as int + b * pow2((k - i) as nat));
        // b * 2^(k-i) is even since k - i >= 1
        lemma_pow2_adds(1, (k - i - 1) as nat);
        assert(pow2(1) == 2) by {
            lemma2_to64();
        }
        lemma_mul_is_commutative(2, pow2((k - i - 1) as nat) as int);
        lemma_mul_is_associative(b as int, pow2((k - i - 1) as nat) as int, 2);
        assert(b * pow2((k - i) as nat) == (b * pow2((k - i - 1) as nat)) * 2);
        // (x + m * 2) % 2 == x % 2
        lemma_mul_is_commutative((b * pow2((k - i - 1) as nat)) as int, 2);
        lemma_mod_multiples_vanish(
            (b * pow2((k - i - 1) as nat)) as int,
            (a as int) / (pow2(i) as int),
            2,
        );
    } else {
        lemma_pow2_adds(k, (i - k) as nat);
        // b * 2^k == 2^k * b
        lemma_mul_is_commutative(b as int, pow2(k) as int);
        // (2^k * b + a) / 2^k == b
        lemma_div_multiples_vanish_fancy(b as int, a as int, pow2(k) as int);
        assert(n as int / pow2(k) as int == b);
        // n / 2^i == (n / 2^k) / 2^(i-k)
        lemma_pow2_pos((i - k) as nat);
        lemma_div_denominator(n as int, pow2(k) as int, pow2((i - k) as nat) as int);
        assert(n as int / pow2(i) as int == b as int / pow2((i - k) as nat) as int);
    }
}

/// Bits at or above the width of a value read as zero.
pub proof fn lemma_bit_of_high(n: nat, i: nat)
    requires
        n < pow2(i),
    ensures
        !bit_of(n, i),
{
    lemma_pow2_pos(i);
    lemma_basic_div(n as int, pow2(i) as int);
}

// ---------------------------------------------------------------------------
// Bridge between a 64-bit limb and its eight little-endian bytes.
// ---------------------------------------------------------------------------
/// The eight little-endian bytes of a limb denote the limb's own value.
#[verifier::rlimit(50)]
pub proof fn lemma_u64_le_bytes_nat(x: u64)
    ensures
        spec_u64_to_le_bytes(x).len() == 8,
        le_bytes_nat(spec_u64_to_le_bytes(x)) == x,
{
    vstd::bytes::lemma_auto_spec_u64_to_from_le_bytes();
    vstd::bytes::spec_u64_to_le_bytes_to_open(x);
    let b0 = (x & 0xff) as u8;
    let b1 = ((x >> 8) & 0xff) as u8;
    let b2 = ((x >> 16) & 0xff) as u8;
    let b3 = ((x >> 24) & 0xff) as u8;
    let b4 = ((x >> 32) & 0xff) as u8;
    let b5 = ((x >> 40) & 0xff) as u8;
    let b6 = ((x >> 48) & 0xff) as u8;
    let b7 = ((x >> 56) & 0xff) as u8;
    assert((x & 0xff) < 256 && ((x >> 8) & 0xff) < 256 && ((x >> 16) & 0xff) < 256 && ((x >> 24)
        & 0xff) < 256 && ((x >> 32) & 0xff) < 256 && ((x >> 40) & 0xff) < 256 && ((x >> 48)
        & 0xff) < 256 && ((x >> 56) & 0xff) < 256) by (bit_vector);
    let e = Seq::<u8>::empty();
    let s1 = e.push(b0);
    let s2 = s1.push(b1);
    let s3 = s2.push(b2);
    let s4 = s3.push(b3);
    let s5 = s4.push(b4);
    let s6 = s5.push(b5);
    let s7 = s6.push(b6);
    let s8 = s7.push(b7);
    assert(spec_u64_to_le_bytes(x) =~= s8);
    lemma2_to64();
    lemma2_to64_rest();
    assert(e.len() == 0 && s1.len() == 1 && s2.len() == 2 && s3.len() == 3 && s4.len() == 4
        && s5.len() == 5 && s6.len() == 6 && s7.len() == 7 && s8.len() == 8);
    assert(le_bytes_nat(e) == 0);
    lemma_le_bytes_nat_push(e, b0);
    assert((b0 as nat) * pow2(8 * e.len()) == (b0 as nat) * 1);
    assert(le_bytes_nat(s1) == b0);
    lemma_le_bytes_nat_push(s1, b1);
    assert((b1 as nat) * pow2(8 * s1.len()) == (b1 as nat) * 0x100);
    assert(le_bytes_nat(s2) == b0 + b1 * 0x100);
    lemma_le_bytes_nat_push(s2, b2);
    assert((b2 as nat) * pow2(8 * s2.len()) == (b2 as nat) * 0x10000);
    assert(le_bytes_nat(s3) == b0 + b1 * 0x100 + b2 * 0x10000);
    lemma_le_bytes_nat_push(s3, b3);
    assert((b3 as nat) * pow2(8 * s3.len()) == (b3 as nat) * 0x1000000);
    assert(le_bytes_nat(s4) == b0 + b1 * 0x100 + b2 * 0x10000 + b3 * 0x1000000);
    lemma_le_bytes_nat_push(s4, b4);
    assert((b4 as nat) * pow2(8 * s4.len()) == (b4 as nat) * 0x100000000);
    assert(le_bytes_nat(s5) == b0 + b1 * 0x100 + b2 * 0x10000 + b3 * 0x1000000 + b4 * 0x100000000);
    lemma_le_bytes_nat_push(s5, b5);
    assert((b5 as nat) * pow2(8 * s5.len()) == (b5 as nat) * 0x10000000000);
    assert(le_bytes_nat(s6) == b0 + b1 * 0x100 + b2 * 0x10000 + b3 * 0x1000000 + b4 * 0x100000000
        + b5 * 0x10000000000);
    lemma_le_bytes_nat_push(s6, b6);
    assert((b6 as nat) * pow2(8 * s6.len()) == (b6 as nat) * 0x1000000000000);
    assert(le_bytes_nat(s7) == b0 + b1 * 0x100 + b2 * 0x10000 + b3 * 0x1000000 + b4 * 0x100000000
        + b5 * 0x10000000000 + b6 * 0x1000000000000);
    lemma_le_bytes_nat_push(s7, b7);
    assert((b7 as nat) * pow2(8 * s7.len()) == (b7 as nat) * 0x100000000000000);
    assert(le_bytes_nat(s8) == b0 + b1 * 0x100 + b2 * 0x10000 + b3 * 0x1000000 + b4 * 0x100000000
        + b5 * 0x10000000000 + b6 * 0x1000000000000 + b7 * 0x100000000000000);
    assert(x == (x & 0xff) + ((x >> 8) & 0xff) * 0x100 + ((x >> 16) & 0xff) * 0x10000 + ((x >> 24)
        & 0xff) * 0x1000000 + ((x >> 32) & 0xff) * 0x100000000 + ((x >> 40) & 0xff)
        * 0x10000000000 + ((x >> 48) & 0xff) * 0x1000000000000 + ((x >> 56) & 0xff)
        * 0x100000000000000) by (bit_vector);
}

} // verus!
