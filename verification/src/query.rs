//! Query strings: parameters by name, percent-decoding, and decimal numbers.

use vstd::prelude::*;

verus! {

/// Where `c` first occurs in `s`; the length of `s` where it does not occur.
pub open spec fn index_of(s: Seq<u8>, c: u8) -> int
    decreases s.len(),
{
    if s.len() == 0 {
        0
    } else if s[0] == c {
        0
    } else {
        1 + index_of(s.skip(1), c)
    }
}

pub proof fn lemma_index_of(s: Seq<u8>, c: u8)
    ensures
        0 <= index_of(s, c) <= s.len(),
        index_of(s, c) < s.len() ==> s[index_of(s, c)] == c,
        forall|k: int| 0 <= k < index_of(s, c) ==> s[k] != c,
    decreases s.len(),
{
    if s.len() > 0 && s[0] != c {
        let t = s.skip(1);
        lemma_index_of(t, c);
        assert forall|k: int| 0 <= k < index_of(s, c) implies s[k] != c by {
            if k > 0 {
                assert(s[k] == t[k - 1]);
            }
        }
    }
}

/// The first index `>= from` of `b` that holds `c`, or the length of `b`.
pub fn find_byte(b: &[u8], from: usize, c: u8) -> (r: usize)
    requires
        from <= b@.len(),
    ensures
        r == from + index_of(b@.skip(from as int), c),
        from <= r <= b@.len(),
{
    let mut i: usize = from;
    proof {
        lemma_index_of(b@.skip(from as int), c);
    }
    while i < b.len() && b[i] != c
        invariant
            from <= i <= b@.len(),
            from + index_of(b@.skip(from as int), c) == i + index_of(b@.skip(i as int), c),
        decreases b@.len() - i,
    {
        proof {
            let s = b@.skip(i as int);
            assert(s[0] == b@[i as int]);
            assert(s.skip(1) =~= b@.skip(i + 1));
        }
        i += 1;
    }
    proof {
        let s = b@.skip(i as int);
        if i < b@.len() {
            assert(s[0] == b@[i as int]);
        }
    }
    i
}

/// The first parameter of a query: everything before the first `&`.
pub open spec fn head(q: Seq<u8>) -> Seq<u8> {
    q.take(index_of(q, 0x26))
}

/// The query without its first parameter.
pub open spec fn tail(q: Seq<u8>) -> Seq<u8> {
    if index_of(q, 0x26) < q.len() {
        q.skip(index_of(q, 0x26) + 1)
    } else {
        Seq::empty()
    }
}

/// The name of a parameter: everything before its first `=`.
pub open spec fn name_of(parameter: Seq<u8>) -> Seq<u8> {
    parameter.take(index_of(parameter, 0x3d))
}

/// The value of a parameter as written: everything after its first `=`.
pub open spec fn raw_value_of(parameter: Seq<u8>) -> Seq<u8> {
    if index_of(parameter, 0x3d) < parameter.len() {
        parameter.skip(index_of(parameter, 0x3d) + 1)
    } else {
        Seq::empty()
    }
}

/// The values, as written, of the parameters of `q` that are named `name`, in their order.
pub open spec fn values_of(q: Seq<u8>, name: Seq<u8>) -> Seq<Seq<u8>>
    decreases q.len(),
    via values_of_decreases
{
    if q.len() == 0 {
        Seq::empty()
    } else if name_of(head(q)) == name {
        seq![raw_value_of(head(q))] + values_of(tail(q), name)
    } else {
        values_of(tail(q), name)
    }
}

#[via_fn]
proof fn values_of_decreases(q: Seq<u8>, name: Seq<u8>) {
    lemma_index_of(q, 0x26);
}

/// The value of a hexadecimal digit, in either case.
pub open spec fn hex_value(c: u8) -> Option<u8> {
    if 0x30 <= c <= 0x39 {
        Some((c - 0x30) as u8)
    } else if 0x41 <= c <= 0x46 {
        Some((c - 0x41 + 10) as u8)
    } else if 0x61 <= c <= 0x66 {
        Some((c - 0x61 + 10) as u8)
    } else {
        None
    }
}

fn hex_digit(c: u8) -> (r: Option<u8>)
    ensures
        r == hex_value(c),
{
    if 0x30 <= c && c <= 0x39 {
        Some(c - 0x30)
    } else if 0x41 <= c && c <= 0x46 {
        Some(c - 0x41 + 10)
    } else if 0x61 <= c && c <= 0x66 {
        Some(c - 0x61 + 10)
    } else {
        None
    }
}

/// Whether `s` starts with a percent sign and two hexadecimal digits.
pub open spec fn starts_with_escape(s: Seq<u8>) -> bool {
    s.len() >= 3 && s[0] == 0x25 && hex_value(s[1]) is Some && hex_value(s[2]) is Some
}

/// The bytes that `s` stands for: each `%XY` is the byte with the hexadecimal
/// value `XY`, every other byte is itself. None where a percent sign is not
/// followed by two hexadecimal digits.
pub open spec fn percent_decoded(s: Seq<u8>) -> Option<Seq<u8>>
    decreases s.len(),
{
    if s.len() == 0 {
        Some(Seq::empty())
    } else if s[0] == 0x25 {
        if starts_with_escape(s) {
            match percent_decoded(s.skip(3)) {
                Some(rest) => Some(seq![(hex_value(s[1])->0 * 16 + hex_value(s[2])->0) as u8] + rest),
                None => None,
            }
        } else {
            None
        }
    } else {
        match percent_decoded(s.skip(1)) {
            Some(rest) => Some(seq![s[0]] + rest),
            None => None,
        }
    }
}

/// What stands ahead of the decoded `rest` when `done` has been decoded before it.
pub open spec fn prepended(done: Seq<u8>, rest: Option<Seq<u8>>) -> Option<Seq<u8>> {
    match rest {
        Some(r) => Some(done + r),
        None => None,
    }
}

/// Percent-decodes the bytes of `b` from `from` up to `to`.
pub fn percent_decode(b: &[u8], from: usize, to: usize) -> (r: Option<Vec<u8>>)
    requires
        from <= to <= b@.len(),
    ensures
        match r {
            Some(v) => percent_decoded(b@.subrange(from as int, to as int)) == Some(v@),
            None => percent_decoded(b@.subrange(from as int, to as int)) is None,
        },
{
    let ghost s = b@.subrange(from as int, to as int);
    let mut out: Vec<u8> = Vec::new();
    let mut i: usize = from;
    proof {
        assert(s.skip(0) =~= s);
        assert(Seq::<u8>::empty() + percent_decoded(s).unwrap_or(Seq::empty()) =~= percent_decoded(s).unwrap_or(
            Seq::empty(),
        ));
    }
    while i < to
        invariant
            from <= i <= to <= b@.len(),
            s == b@.subrange(from as int, to as int),
            percent_decoded(s) == prepended(out@, percent_decoded(s.skip(i - from))),
        decreases to - i,
    {
        let ghost t = s.skip(i - from);
        let ghost before = out@;
        proof {
            assert(t.len() == to - i);
            assert(t[0] == b@[i as int]);
        }
        let c = b[i];
        if c == 0x25 {
            if to - i < 3 {
                return None;
            }
            proof {
                assert(t[1] == b@[i + 1] && t[2] == b@[i + 2]);
            }
            let hi = hex_digit(b[i + 1]);
            let lo = hex_digit(b[i + 2]);
            match (hi, lo) {
                (Some(h), Some(l)) => {
                    out.push(h * 16 + l);
                    proof {
                        assert(t.skip(3) =~= s.skip(i + 3 - from));
                        let rest = percent_decoded(t.skip(3));
                        if rest is Some {
                            assert(before + (seq![(h * 16 + l) as u8] + rest->0) =~= out@ + rest->0);
                        }
                    }
                    i += 3;
                },
                _ => {
                    return None;
                },
            }
        } else {
            out.push(c);
            proof {
                assert(t.skip(1) =~= s.skip(i + 1 - from));
                let rest = percent_decoded(t.skip(1));
                if rest is Some {
                    assert(before + (seq![c] + rest->0) =~= out@ + rest->0);
                }
            }
            i += 1;
        }
    }
    proof {
        assert(s.skip(to - from).len() == 0);
        assert(out@ + Seq::<u8>::empty() =~= out@);
    }
    Some(out)
}

pub open spec fn is_digit(c: u8) -> bool {
    0x30 <= c <= 0x39
}

pub open spec fn all_digits(s: Seq<u8>) -> bool {
    forall|i: int| 0 <= i < s.len() ==> is_digit(#[trigger] s[i])
}

/// The number that the decimal digits of `s` spell.
pub open spec fn decimal_value(s: Seq<u8>) -> nat
    decreases s.len(),
{
    if s.len() == 0 {
        0
    } else {
        decimal_value(s.drop_last()) * 10 + (s.last() - 0x30) as nat
    }
}

/// The number that `s` spells in decimal, if it is one or more digits and the
/// number is at most `max`.
pub open spec fn decimal_number(s: Seq<u8>, max: u64) -> Option<u64> {
    if s.len() > 0 && all_digits(s) && decimal_value(s) <= max {
        Some(decimal_value(s) as u64)
    } else {
        None
    }
}

/// More digits never spell a smaller number.
pub proof fn lemma_decimal_value_grows(s: Seq<u8>, k: int)
    requires
        0 <= k <= s.len(),
        all_digits(s),
    ensures
        decimal_value(s.take(k)) <= decimal_value(s),
    decreases s.len() - k,
{
    if k == s.len() {
        assert(s.take(k) =~= s);
    } else {
        let d = s.drop_last();
        assert(all_digits(d)) by {
            assert forall|i: int| 0 <= i < d.len() implies is_digit(#[trigger] d[i]) by {
                assert(d[i] == s[i]);
            }
        }
        lemma_decimal_value_grows(d, k);
        assert(d.take(k) =~= s.take(k));
        assert(is_digit(s[s.len() - 1]));
        assert(decimal_value(d) <= decimal_value(d) * 10) by (nonlinear_arith);
    }
}

/// Reads the decimal number in the bytes of `b` from `from` up to `to`.
pub fn parse_decimal(b: &[u8], from: usize, to: usize, max: u64) -> (r: Option<u64>)
    requires
        from <= to <= b@.len(),
    ensures
        r == decimal_number(b@.subrange(from as int, to as int), max),
{
    let ghost s = b@.subrange(from as int, to as int);
    if from == to {
        return None;
    }
    let mut acc: u64 = 0;
    let mut i: usize = from;
    assert(s.take(0) =~= Seq::<u8>::empty());
    while i < to
        invariant
            from <= i <= to <= b@.len(),
            s == b@.subrange(from as int, to as int),
            all_digits(s.take(i - from)),
            acc == decimal_value(s.take(i - from)),
            acc <= max,
        decreases to - i,
    {
        let c = b[i];
        let ghost p = s.take(i - from);
        let ghost p2 = s.take(i + 1 - from);
        proof {
            assert(s[i - from] == c);
            assert(p2.drop_last() =~= p);
            assert(p2.last() == c);
        }
        if !(0x30 <= c && c <= 0x39) {
            proof {
                assert(!is_digit(s[i - from]));
            }
            return None;
        }
        let d = (c - 0x30) as u64;
        if d > max {
            proof {
                assert(decimal_value(p2) == acc * 10 + d);
                if all_digits(s) {
                    lemma_decimal_value_grows(s, i + 1 - from);
                }
            }
            return None;
        }
        if acc > (max - d) / 10 {
            proof {
                assert(decimal_value(p2) == acc * 10 + d);
                assert(acc * 10 + d > max) by (nonlinear_arith)
                    requires
                        acc > (max - d) / 10,
                        d <= max,
                        d < 10,
                ;
                if all_digits(s) {
                    lemma_decimal_value_grows(s, i + 1 - from);
                }
            }
            return None;
        }
        proof {
            assert(acc * 10 + d <= max) by (nonlinear_arith)
                requires
                    acc <= (max - d) / 10,
                    d <= max,
            ;
            assert forall|k: int| 0 <= k < p2.len() implies is_digit(#[trigger] p2[k]) by {
                if k < p.len() {
                    assert(p2[k] == p[k]);
                }
            }
        }
        acc = acc * 10 + d;
        i += 1;
    }
    assert(s.take(to - from) =~= s);
    Some(acc)
}

/// Whether the bytes of `b` from `from` up to `to` are exactly `word`.
pub fn range_is(b: &[u8], from: usize, to: usize, word: &[u8]) -> (r: bool)
    requires
        from <= to <= b@.len(),
    ensures
        r == (b@.subrange(from as int, to as int) == word@),
{
    if to - from != word.len() {
        return false;
    }
    let mut i: usize = 0;
    while i < word.len()
        invariant
            i <= word@.len(),
            from <= to <= b@.len(),
            to - from == word@.len(),
            forall|j: int| 0 <= j < i ==> b@[from + j] == word@[j],
        decreases word@.len() - i,
    {
        if b[from + i] != word[i] {
            assert(b@.subrange(from as int, to as int)[i as int] != word@[i as int]);
            return false;
        }
        i += 1;
    }
    assert(b@.subrange(from as int, to as int) =~= word@);
    true
}

/// Where the values of the parameters named `name` stand in `query`, each as
/// the range from its first byte up to the byte behind its last.
pub fn find_values(query: &[u8], name: &[u8]) -> (r: Vec<(usize, usize)>)
    ensures
        r@.len() == values_of(query@, name@).len(),
        forall|k: int|
            0 <= k < r@.len() ==> (#[trigger] r@[k]).0 <= r@[k].1 <= query@.len() && query@.subrange(
                r@[k].0 as int,
                r@[k].1 as int,
            ) == values_of(query@, name@)[k],
{
    let len = query.len();
    let mut out: Vec<(usize, usize)> = Vec::new();
    let mut pos: usize = 0;
    let ghost q = query@;
    let ghost mut got: Seq<Seq<u8>> = Seq::empty();
    proof {
        assert(q.skip(0) =~= q);
        assert(got + values_of(q, name@) =~= values_of(q, name@));
    }
    while pos < len
        invariant
            pos <= len == q.len(),
            q == query@,
            values_of(q, name@) == got + values_of(q.skip(pos as int), name@),
            got.len() == out@.len(),
            forall|k: int|
                0 <= k < out@.len() ==> (#[trigger] out@[k]).0 <= out@[k].1 <= q.len() && q.subrange(
                    out@[k].0 as int,
                    out@[k].1 as int,
                ) == got[k],
        decreases len - pos,
    {
        let ghost rest = q.skip(pos as int);
        let ghost found = out@;
        let ghost had = got;
        let end = find_byte(query, pos, 0x26);
        let eq = find_byte(query, pos, 0x3d);
        let name_end = if eq < end {
            eq
        } else {
            end
        };
        proof {
            lemma_index_of(rest, 0x26);
            lemma_index_of(rest, 0x3d);
            let h = head(rest);
            assert(h =~= q.subrange(pos as int, end as int));
            lemma_index_of(h, 0x3d);
            lemma_index_in_prefix(rest, end - pos, 0x3d);
            assert(name_of(h) =~= q.subrange(pos as int, name_end as int));
            if eq < end {
                assert(raw_value_of(h) =~= q.subrange(eq + 1, end as int));
            } else {
                assert(raw_value_of(h) =~= Seq::<u8>::empty());
            }
            if end < len {
                assert(tail(rest) =~= q.skip(end + 1));
            } else {
                assert(tail(rest) =~= q.skip(len as int));
            }
        }
        if range_is(query, pos, name_end, name) {
            let value = if eq < end {
                (eq + 1, end)
            } else {
                (end, end)
            };
            proof {
                assert(q.subrange(end as int, end as int) =~= Seq::<u8>::empty());
            }
            out.push(value);
            proof {
                let next = values_of(tail(rest), name@);
                got = had.push(raw_value_of(head(rest)));
                assert(values_of(rest, name@) =~= seq![raw_value_of(head(rest))] + next);
                assert(had + (seq![raw_value_of(head(rest))] + next) =~= got + next);
                assert forall|k: int| 0 <= k < out@.len() implies (#[trigger] out@[k]).0 <= out@[k].1 <= q.len()
                    && q.subrange(out@[k].0 as int, out@[k].1 as int) == got[k] by {
                    if k < found.len() {
                        assert(out@[k] == found[k]);
                        assert(got[k] == had[k]);
                    }
                }
            }
        }
        pos = if end < len {
            end + 1
        } else {
            len
        };
    }
    proof {
        assert(q.skip(len as int).len() == 0);
        assert(got + values_of(q.skip(len as int), name@) =~= got);
    }
    out
}

/// A byte that comes first in a prefix comes first in the whole.
pub proof fn lemma_index_in_prefix(s: Seq<u8>, n: int, c: u8)
    requires
        0 <= n <= s.len(),
    ensures
        index_of(s.take(n), c) == if index_of(s, c) < n {
            index_of(s, c)
        } else {
            n
        },
    decreases n,
{
    let p = s.take(n);
    lemma_index_of(s, c);
    if n > 0 {
        assert(p.len() == n);
        assert(p[0] == s[0]);
        if s[0] != c {
            lemma_index_in_prefix(s.skip(1), n - 1, c);
            assert(p.skip(1) =~= s.skip(1).take(n - 1));
            assert(index_of(p, c) == 1 + index_of(p.skip(1), c));
            assert(index_of(s, c) == 1 + index_of(s.skip(1), c));
        }
    }
}

} // verus!
