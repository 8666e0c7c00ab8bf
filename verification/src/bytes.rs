//! Integers as bytes: big-endian fields of fixed width, and decimal digits.

use vstd::prelude::*;

verus! {

/// The number that the bytes of `s` spell, most significant byte first.
pub open spec fn be_value(s: Seq<u8>) -> nat
    decreases s.len(),
{
    if s.len() == 0 {
        0
    } else {
        be_value(s.drop_last()) * 256 + s.last() as nat
    }
}

/// The `n` least significant bytes of `v`, most significant byte first.
pub open spec fn be_bytes(v: nat, n: nat) -> Seq<u8>
    decreases n,
{
    if n == 0 {
        Seq::empty()
    } else {
        be_bytes(v / 256, (n - 1) as nat).push((v % 256) as u8)
    }
}

/// 256 to the power of `n`.
pub open spec fn pow256(n: nat) -> nat
    decreases n,
{
    if n == 0 {
        1
    } else {
        256 * pow256((n - 1) as nat)
    }
}

pub proof fn lemma_be_bytes_len(v: nat, n: nat)
    ensures
        be_bytes(v, n).len() == n,
    decreases n,
{
    if n > 0 {
        lemma_be_bytes_len(v / 256, (n - 1) as nat);
    }
}

/// Reading back what was written gives the number that was written, when it fits.
pub proof fn lemma_be_round_trip(v: nat, n: nat)
    requires
        v < pow256(n),
    ensures
        be_value(be_bytes(v, n)) == v,
        be_bytes(v, n).len() == n,
    decreases n,
{
    lemma_be_bytes_len(v, n);
    if n > 0 {
        let m = (n - 1) as nat;
        assert(v / 256 < pow256(m)) by (nonlinear_arith)
            requires
                v < 256 * pow256(m),
        ;
        lemma_be_round_trip(v / 256, m);
        assert(be_bytes(v, n).drop_last() =~= be_bytes(v / 256, m));
    }
}

/// Writing what was read gives the bytes that were read.
pub proof fn lemma_be_bytes_of_value(s: Seq<u8>)
    ensures
        be_bytes(be_value(s), s.len()) == s,
        be_value(s) < pow256(s.len()),
    decreases s.len(),
{
    if s.len() > 0 {
        let d = s.drop_last();
        lemma_be_bytes_of_value(d);
        let v = be_value(s);
        assert(v / 256 == be_value(d) && v % 256 == s.last() as nat) by {
            let a = be_value(d);
            let b = s.last() as nat;
            assert((a * 256 + b) / 256 == a && (a * 256 + b) % 256 == b) by (nonlinear_arith)
                requires
                    b < 256,
            ;
        }
        assert(be_bytes(v, s.len()) =~= s);
        assert(v < 256 * pow256(d.len())) by (nonlinear_arith)
            requires
                v == be_value(d) * 256 + s.last() as nat,
                be_value(d) < pow256(d.len()),
                (s.last() as nat) < 256,
        ;
    }
}

pub proof fn lemma_pow256_values()
    ensures
        pow256(0) == 1,
        pow256(1) == 0x100,
        pow256(2) == 0x1_0000,
        pow256(4) == 0x1_0000_0000,
        pow256(8) == 0x1_0000_0000_0000_0000,
{
    reveal_with_fuel(pow256, 10);
}

/// The sixteen-bit number at `at`.
pub fn read_u16(b: &[u8], at: usize) -> (r: u16)
    requires
        at + 2 <= b@.len(),
    ensures
        r == be_value(b@.subrange(at as int, at + 2)),
{
    let n = b.len();
    let ghost s = b@.subrange(at as int, at + 2);
    proof {
        reveal_with_fuel(be_value, 3);
        assert(s.drop_last().drop_last().len() == 0);
        assert(s.last() == b@[at + 1]);
        assert(s.drop_last().last() == b@[at as int]);
    }
    (b[at] as u16) * 256 + (b[at + 1] as u16)
}

/// The thirty-two-bit number at `at`.
pub fn read_u32(b: &[u8], at: usize) -> (r: u32)
    requires
        at + 4 <= b@.len(),
    ensures
        r == be_value(b@.subrange(at as int, at + 4)),
{
    let n = b.len();
    let hi = read_u16(b, at);
    let lo = read_u16(b, at + 2);
    proof {
        let s = b@.subrange(at as int, at + 4);
        let h = b@.subrange(at as int, at + 2);
        let l = b@.subrange(at + 2, at + 4);
        assert(s =~= h + l);
        lemma_be_value_concat(h, l);
        lemma_pow256_values();
    }
    (hi as u32) * 65536 + (lo as u32)
}

/// The sixty-four-bit number at `at`.
pub fn read_u64(b: &[u8], at: usize) -> (r: u64)
    requires
        at + 8 <= b@.len(),
    ensures
        r == be_value(b@.subrange(at as int, at + 8)),
{
    let n = b.len();
    let hi = read_u32(b, at);
    let lo = read_u32(b, at + 4);
    proof {
        let s = b@.subrange(at as int, at + 8);
        let h = b@.subrange(at as int, at + 4);
        let l = b@.subrange(at + 4, at + 8);
        assert(s =~= h + l);
        lemma_be_value_concat(h, l);
        lemma_pow256_values();
    }
    (hi as u64) * 4294967296 + (lo as u64)
}

/// Reading a concatenation: the head, shifted by the width of the tail, and the tail.
pub proof fn lemma_be_value_concat(a: Seq<u8>, b: Seq<u8>)
    ensures
        be_value(a + b) == be_value(a) * pow256(b.len()) + be_value(b),
    decreases b.len(),
{
    if b.len() == 0 {
        assert(a + b =~= a);
        assert(pow256(0) == 1);
        assert(be_value(b) == 0);
        assert(be_value(a) * 1 == be_value(a)) by (nonlinear_arith);
    } else {
        let d = b.drop_last();
        lemma_be_value_concat(a, d);
        assert(be_value(a + d) == be_value(a) * pow256(d.len()) + be_value(d));
        assert((a + b).drop_last() =~= a + d);
        assert((a + b).last() == b.last());
        let x = be_value(a);
        let p = pow256(d.len());
        let y = be_value(d);
        let z = b.last() as nat;
        assert(pow256(b.len()) == 256 * p);
        assert(be_value(b) == y * 256 + z);
        assert(be_value(a + b) == be_value(a + d) * 256 + z);
        assert((x * p + y) * 256 + z == x * (256 * p) + (y * 256 + z)) by (nonlinear_arith);
        assert(be_value(a) * pow256(b.len()) == x * (256 * p));
    }
}

/// Writing a number in `m + n` bytes: its upper part in `m`, then its lower part in `n`.
pub proof fn lemma_be_bytes_split(v: nat, m: nat, n: nat)
    ensures
        be_bytes(v, m + n) == be_bytes(v / pow256(n), m) + be_bytes(v % pow256(n), n),
    decreases n,
{
    if n == 0 {
        assert(be_bytes(v % pow256(0), 0) =~= Seq::<u8>::empty());
        assert(be_bytes(v, m) + Seq::<u8>::empty() =~= be_bytes(v, m));
        assert(v / 1 == v);
    } else {
        let k = (n - 1) as nat;
        let p = pow256(k);
        lemma_be_bytes_split(v / 256, m, k);
        assert(p > 0) by {
            lemma_pow256_positive(k);
        }
        assert((v / 256) / p == v / (256 * p) && (v / 256) % p == (v % (256 * p)) / 256 && (v % (256
            * p)) % 256 == v % 256) by (nonlinear_arith)
            requires
                p > 0,
        ;
        assert(be_bytes(v, m + n) =~= be_bytes(v / pow256(n), m) + be_bytes(v % pow256(n), n));
    }
}

pub proof fn lemma_pow256_positive(n: nat)
    ensures
        pow256(n) > 0,
    decreases n,
{
    if n > 0 {
        lemma_pow256_positive((n - 1) as nat);
        assert(256 * pow256((n - 1) as nat) > 0) by (nonlinear_arith)
            requires
                pow256((n - 1) as nat) > 0,
        ;
    }
}

/// Appends `v` as two bytes.
pub fn push_u16(out: &mut Vec<u8>, v: u16)
    ensures
        final(out)@ == old(out)@ + be_bytes(v as nat, 2),
{
    proof {
        reveal_with_fuel(be_bytes, 3);
    }
    out.push((v / 256) as u8);
    out.push((v % 256) as u8);
    assert(out@ =~= old(out)@ + be_bytes(v as nat, 2));
}

/// Appends `v` as four bytes.
pub fn push_u32(out: &mut Vec<u8>, v: u32)
    ensures
        final(out)@ == old(out)@ + be_bytes(v as nat, 4),
{
    proof {
        lemma_be_bytes_split(v as nat, 2, 2);
        lemma_pow256_values();
    }
    push_u16(out, (v / 65536) as u16);
    push_u16(out, (v % 65536) as u16);
    assert(out@ =~= old(out)@ + be_bytes(v as nat, 4));
}

/// Appends `v` as eight bytes.
pub fn push_u64(out: &mut Vec<u8>, v: u64)
    ensures
        final(out)@ == old(out)@ + be_bytes(v as nat, 8),
{
    proof {
        lemma_be_bytes_split(v as nat, 4, 4);
        lemma_pow256_values();
    }
    push_u32(out, (v / 4294967296) as u32);
    push_u32(out, (v % 4294967296) as u32);
    assert(out@ =~= old(out)@ + be_bytes(v as nat, 8));
}

/// Appends every byte of `src`.
pub fn push_all(out: &mut Vec<u8>, src: &[u8])
    ensures
        final(out)@ == old(out)@ + src@,
{
    let mut i: usize = 0;
    while i < src.len()
        invariant
            i <= src@.len(),
            out@ == old(out)@ + src@.subrange(0, i as int),
        decreases src@.len() - i,
    {
        out.push(src[i]);
        assert(out@ =~= old(out)@ + src@.subrange(0, i + 1));
        i += 1;
    }
    assert(src@.subrange(0, i as int) =~= src@);
}

/// The ASCII character for the digit `d`: `0` to `9`, then `a` to `f`.
pub open spec fn digit_char(d: nat) -> u8 {
    if d < 10 {
        (0x30 + d) as u8
    } else {
        (0x57 + d) as u8
    }
}

/// The digits of `n` to the base `base`, as ASCII, without leading zeros; "0" for zero.
pub open spec fn numeral(n: nat, base: nat) -> Seq<u8>
    decreases n,
    via numeral_decreases
{
    if n < base || base < 2 {
        seq![digit_char(n)]
    } else {
        numeral(n / base, base).push(digit_char(n % base))
    }
}

#[via_fn]
proof fn numeral_decreases(n: nat, base: nat) {
    if !(n < base || base < 2) {
        lemma_quotient_smaller(n, base);
    }
}

proof fn lemma_quotient_smaller(n: nat, base: nat)
    requires
        n >= base >= 2,
    ensures
        n / base < n,
        n % base < base,
{
    assert(n / base < n && n % base < base) by (nonlinear_arith)
        requires
            n >= base >= 2,
    ;
}

/// `n` in decimal.
pub open spec fn decimal(n: nat) -> Seq<u8> {
    numeral(n, 10)
}

/// `n` in lower-case hexadecimal.
pub open spec fn hexadecimal(n: nat) -> Seq<u8> {
    numeral(n, 16)
}

fn digit(d: u64) -> (r: u8)
    requires
        d < 16,
    ensures
        r == digit_char(d as nat),
{
    if d < 10 {
        0x30 + (d as u8)
    } else {
        0x57 + (d as u8)
    }
}

/// Appends `n` to the base `base`.
fn push_numeral(out: &mut Vec<u8>, n: u64, base: u64)
    requires
        2 <= base <= 16,
    ensures
        final(out)@ == old(out)@ + numeral(n as nat, base as nat),
{
    let mut digits: Vec<u8> = Vec::new();
    let mut rest: u64 = n;
    // `digits` collects the digits from the last to the first.
    assert(numeral(n as nat, base as nat) =~= numeral(rest as nat, base as nat) + digits@.reverse());
    while rest >= base
        invariant
            2 <= base <= 16,
            numeral(n as nat, base as nat) == numeral(rest as nat, base as nat) + digits@.reverse(),
        decreases rest,
    {
        let ghost before = digits@;
        let ghost prev = rest;
        let d = digit(rest % base);
        digits.push(d);
        rest = rest / base;
        proof {
            assert(digits@.reverse() =~= seq![d] + before.reverse());
            assert(numeral(prev as nat, base as nat) =~= numeral(rest as nat, base as nat) + seq![d]);
            assert(numeral(n as nat, base as nat) =~= numeral(rest as nat, base as nat) + digits@.reverse());
        }
    }
    out.push(digit(rest));
    let mut i: usize = digits.len();
    assert(digits@.reverse().subrange(0, 0) =~= Seq::<u8>::empty());
    while i > 0
        invariant
            i <= digits@.len(),
            numeral(n as nat, base as nat) == numeral(rest as nat, base as nat) + digits@.reverse(),
            rest < base,
            out@ =~= old(out)@ + numeral(rest as nat, base as nat) + digits@.reverse().subrange(
                0,
                digits@.len() - i,
            ),
        decreases i,
    {
        i -= 1;
        out.push(digits[i]);
        assert(digits@.reverse()[digits@.len() - 1 - i] == digits@[i as int]);
    }
    assert(digits@.reverse().subrange(0, digits@.len() as int) =~= digits@.reverse());
    assert(out@ =~= old(out)@ + numeral(n as nat, base as nat));
}

/// Appends `n` in decimal.
pub fn push_decimal(out: &mut Vec<u8>, n: u64)
    ensures
        final(out)@ == old(out)@ + decimal(n as nat),
{
    push_numeral(out, n, 10);
}

/// Appends `n` in lower-case hexadecimal.
pub fn push_hexadecimal(out: &mut Vec<u8>, n: u64)
    ensures
        final(out)@ == old(out)@ + hexadecimal(n as nat),
{
    push_numeral(out, n, 16);
}

} // verus!
