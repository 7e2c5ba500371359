//! The little-endian 64-bit word codec the interpreter stores words with.

use vstd::arithmetic::div_mod::lemma_div_denominator;
use vstd::arithmetic::div_mod::lemma_div_pos_is_pos;
use vstd::arithmetic::div_mod::lemma_fundamental_div_mod;
use vstd::arithmetic::div_mod::lemma_fundamental_div_mod_converse_mod;
use vstd::arithmetic::div_mod::lemma_mod_division_less_than_divisor;
use vstd::arithmetic::div_mod::lemma_small_mod;
use vstd::arithmetic::mul::lemma_mul_inequality;
use vstd::arithmetic::mul::lemma_mul_is_associative;
use vstd::arithmetic::mul::lemma_mul_is_commutative;
use vstd::arithmetic::mul::lemma_mul_is_distributive_add;
use vstd::arithmetic::mul::lemma_mul_is_distributive_sub;
use vstd::prelude::*;

verus! {

/// 256 to the power `i`.
pub open spec fn pow256(i: nat) -> int
    decreases i,
{
    if i == 0 {
        1
    } else {
        256 * pow256((i - 1) as nat)
    }
}

/// The unsigned value little-endian bytes denote.
pub open spec fn le_val(s: Seq<u8>) -> int
    decreases s.len(),
{
    if s.len() == 0 {
        0
    } else {
        s[0] + 256 * le_val(s.skip(1))
    }
}

/// The signed 64-bit value little-endian bytes denote: the unsigned value
/// reinterpreted in two's complement.
pub open spec fn le_i64(s: Seq<u8>) -> i64 {
    crate::tape::wrap_pos(le_val(s)) as i64
}

/// A signed 64-bit word reinterpreted as its unsigned two's-complement
/// value.
pub open spec fn u64_of_i64(v: i64) -> int {
    if v >= 0 {
        v as int
    } else {
        v + 0x1_0000_0000_0000_0000
    }
}

/// The eight little-endian bytes of a signed 64-bit word.
pub open spec fn le_of(v: i64) -> Seq<u8> {
    Seq::new(8, |i: int| ((u64_of_i64(v) / pow256(i as nat)) % 256) as u8)
}

/// The value of little-endian bytes is bounded by 256^len.
pub proof fn lemma_le_val_bound(s: Seq<u8>)
    ensures
        0 <= le_val(s) < pow256(s.len()),
    decreases s.len(),
{
    if s.len() > 0 {
        lemma_le_val_bound(s.skip(1));
    }
}

/// Decoding the encoding of a word gives the word back.
pub proof fn lemma_le_roundtrip(v: i64)
    ensures
        le_i64(le_of(v)) == v,
{
    let u = u64_of_i64(v);
    lemma_le_unfold(u, 8);
    assert(le_of(v) =~= le_digits(u, 8));
    lemma_pow256_vals();
    assert(le_val(le_digits(u, 8)) == u % pow256(8));
    assert(u % 0x1_0000_0000_0000_0000 == u) by {
        lemma_small_mod(u as nat, 0x1_0000_0000_0000_0000);
    }
    assert(crate::tape::wrap_pos(u) == v);
}

/// The first `n` base-256 digits of `u`, least significant first.
pub open spec fn le_digits(u: int, n: nat) -> Seq<u8> {
    Seq::new(n, |i: int| ((u / pow256(i as nat)) % 256) as u8)
}

/// The digits of `u` denote `u` modulo 256^n.
pub proof fn lemma_le_unfold(u: int, n: nat)
    requires
        u >= 0,
    ensures
        le_val(le_digits(u, n)) == u % pow256(n),
    decreases n,
{
    if n == 0 {
        assert(le_digits(u, 0) =~= Seq::<u8>::empty());
        assert(u % 1 == 0) by {
            lemma_mod_division_less_than_divisor(u, 1);
        }
    } else {
        let s = le_digits(u, n);
        let q = u / 256;
        assert(q >= 0) by {
            lemma_div_pos_is_pos(u, 256);
        }
        lemma_le_unfold(q, (n - 1) as nat);
        assert(s.skip(1) =~= le_digits(q, (n - 1) as nat)) by {
            assert forall|i: int| 0 <= i < n - 1 implies s.skip(1)[i] == le_digits(
                q,
                (n - 1) as nat,
            )[i] by {
                lemma_pow256_div(u, i as nat);
            }
        }
        assert(s[0] == (u % 256) as u8);
        lemma_fundamental_div_mod(u, 256);
        lemma_mod_division_less_than_divisor(u, 256);
        assert(le_val(s) == u % 256 + 256 * (q % pow256((n - 1) as nat)));
        lemma_mod_mul_shift(u, (n - 1) as nat);
    }
}

/// Dividing by 256 then by 256^i is dividing by 256^(i+1).
proof fn lemma_pow256_div(u: int, i: nat)
    requires
        u >= 0,
    ensures
        (u / 256) / pow256(i) == u / pow256(i + 1),
{
    assert(pow256(i) > 0) by {
        lemma_pow256_pos(i);
    }
    lemma_div_denominator(u, 256, pow256(i));
    assert(pow256(i + 1) == 256 * pow256(i));
}

/// 256^i is positive.
proof fn lemma_pow256_pos(i: nat)
    ensures
        pow256(i) > 0,
    decreases i,
{
    if i > 0 {
        lemma_pow256_pos((i - 1) as nat);
    }
}

/// u mod 256^(n+1) splits into the low digit plus 256 times the rest.
proof fn lemma_mod_mul_shift(u: int, n: nat)
    requires
        u >= 0,
    ensures
        u % 256 + 256 * ((u / 256) % pow256(n)) == u % (256 * pow256(n)),
{
    lemma_pow256_pos(n);
    let q = u / 256;
    let r = u % 256;
    let qq = q / pow256(n);
    let qr = q % pow256(n);
    lemma_fundamental_div_mod(u, 256);
    lemma_fundamental_div_mod(q, pow256(n));
    lemma_mod_division_less_than_divisor(u, 256);
    lemma_mod_division_less_than_divisor(q, pow256(n));
    assert(u == 256 * (pow256(n) * qq + qr) + r);
    assert(256 * (pow256(n) * qq + qr) == 256 * (pow256(n) * qq) + 256 * qr) by {
        lemma_mul_is_distributive_add(256, pow256(n) * qq, qr);
    }
    assert(256 * (pow256(n) * qq) == (256 * pow256(n)) * qq) by {
        lemma_mul_is_associative(256, pow256(n), qq);
    }
    assert(u == (256 * pow256(n)) * qq + (r + 256 * qr));
    assert(0 <= r + 256 * qr < 256 * pow256(n)) by {
        lemma_mul_inequality(qr, pow256(n) - 1, 256);
        assert(qr * 256 == 256 * qr) by {
            lemma_mul_is_commutative(qr, 256);
        }
        assert((pow256(n) - 1) * 256 == 256 * pow256(n) - 256) by {
            lemma_mul_is_distributive_sub(256, pow256(n), 1);
            lemma_mul_is_commutative(pow256(n) - 1, 256);
        }
    }
    lemma_fundamental_div_mod_converse_mod(u, 256 * pow256(n), qq, r + 256 * qr);
}

/// Encode a word as its eight little-endian bytes.
pub fn le_encode(v: i64) -> (r: Vec<u8>)
    ensures
        r@ == le_of(v),
        r@.len() == 8,
{
    let mut u: u64 = if v >= 0 {
        v as u64
    } else {
        let off = v - i64::MIN;
        (off as u64) + 0x8000_0000_0000_0000
    };
    let ghost u0 = u as int;
    proof {
        assert(u0 == u64_of_i64(v));
    }
    let mut r: Vec<u8> = Vec::new();
    let mut i: usize = 0;
    while i < 8
        invariant
            0 <= i <= 8,
            r@.len() == i,
            u0 == u64_of_i64(v),
            u as int == u0 / pow256(i as nat),
            forall|j: int| 0 <= j < i ==> r@[j] == ((u0 / pow256(j as nat)) % 256) as u8,
        decreases 8 - i,
    {
        r.push((u % 256) as u8);
        proof {
            lemma_pow256_pos(i as nat);
            lemma_div_denominator(u0, pow256(i as nat), 256);
            assert(pow256(i as nat + 1) == 256 * pow256(i as nat));
        }
        u = u / 256;
        i += 1;
    }
    proof {
        assert(r@ =~= le_of(v));
    }
    r
}

/// Decode up to eight little-endian bytes, zero-extending shorter inputs.
pub fn le_decode(bs: &Vec<u8>) -> (r: i64)
    requires
        bs@.len() <= 8,
    ensures
        r == le_i64(bs@),
{
    let mut acc: u64 = 0;
    let mut i: usize = bs.len();
    proof {
        assert(bs@.skip(i as int) =~= Seq::<u8>::empty());
        lemma_pow256_vals();
    }
    while i > 0
        invariant
            0 <= i <= bs@.len() <= 8,
            acc as int == le_val(bs@.skip(i as int)),
        decreases i,
    {
        proof {
            lemma_le_val_bound(bs@.skip(i as int));
            lemma_pow256_vals();
            assert(bs@.skip(i as int).len() <= 7);
            assert(pow256(bs@.skip(i as int).len()) <= 0x100_0000_0000_0000);
            assert(bs@.skip(i as int - 1).skip(1) =~= bs@.skip(i as int));
        }
        i -= 1;
        acc = acc * 256 + bs[i] as u64;
        proof {
            assert(bs@.skip(i as int)[0] == bs@[i as int]);
        }
    }
    proof {
        assert(bs@.skip(0) =~= bs@);
        lemma_le_val_bound(bs@);
        lemma_pow256_vals();
        assert(pow256(bs@.len()) <= 0x1_0000_0000_0000_0000);
    }
    if acc <= i64::MAX as u64 {
        acc as i64
    } else {
        let d = acc - 0x8000_0000_0000_0000;
        proof {
            assert(crate::tape::wrap_pos(acc as int) == d as int + i64::MIN);
        }
        (d as i64) + i64::MIN
    }
}

/// The first nine powers of 256, as literal values.
pub proof fn lemma_pow256_vals()
    ensures
        pow256(0) == 1,
        pow256(1) == 0x100,
        pow256(2) == 0x1_0000,
        pow256(3) == 0x100_0000,
        pow256(4) == 0x1_0000_0000,
        pow256(5) == 0x100_0000_0000,
        pow256(6) == 0x1_0000_0000_0000,
        pow256(7) == 0x100_0000_0000_0000,
        pow256(8) == 0x1_0000_0000_0000_0000,
{
    assert(pow256(0) == 1);
    assert(pow256(1) == 256 * pow256(0));
    assert(pow256(2) == 256 * pow256(1));
    assert(pow256(3) == 256 * pow256(2));
    assert(pow256(4) == 256 * pow256(3));
    assert(pow256(5) == 256 * pow256(4));
    assert(pow256(6) == 256 * pow256(5));
    assert(pow256(7) == 256 * pow256(6));
    assert(pow256(8) == 256 * pow256(7));
}

} // verus!
