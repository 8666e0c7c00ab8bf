//! Peers in compact form: the address and the port of each, back to back.

use vstd::prelude::*;
use crate::bytes::{
    be_bytes, lemma_be_bytes_len, lemma_be_round_trip, lemma_pow256_values, push_all, push_u16, read_u16,
};

verus! {

/// IPv4 peers in compact form: for each, four bytes of address and two of port.
pub open spec fn compact_v4(peers: Seq<([u8; 4], u16)>) -> Seq<u8>
    decreases peers.len(),
{
    if peers.len() == 0 {
        Seq::empty()
    } else {
        compact_v4(peers.drop_last()) + peers.last().0@ + be_bytes(peers.last().1 as nat, 2)
    }
}

/// IPv6 peers in compact form: for each, sixteen bytes of address and two of port.
pub open spec fn compact_v6(peers: Seq<([u8; 16], u16)>) -> Seq<u8>
    decreases peers.len(),
{
    if peers.len() == 0 {
        Seq::empty()
    } else {
        compact_v6(peers.drop_last()) + peers.last().0@ + be_bytes(peers.last().1 as nat, 2)
    }
}

pub proof fn lemma_compact_v4_len(peers: Seq<([u8; 4], u16)>)
    ensures
        compact_v4(peers).len() == 6 * peers.len(),
    decreases peers.len(),
{
    if peers.len() > 0 {
        lemma_compact_v4_len(peers.drop_last());
        lemma_be_bytes_len(peers.last().1 as nat, 2);
    }
}

pub proof fn lemma_compact_v6_len(peers: Seq<([u8; 16], u16)>)
    ensures
        compact_v6(peers).len() == 18 * peers.len(),
    decreases peers.len(),
{
    if peers.len() > 0 {
        lemma_compact_v6_len(peers.drop_last());
        lemma_be_bytes_len(peers.last().1 as nat, 2);
    }
}

/// Where each peer stands in the compact form: the `i`-th takes the six bytes
/// from `6 * i` on, four of address and two of port.
pub proof fn lemma_compact_v4_record(peers: Seq<([u8; 4], u16)>, i: int)
    requires
        0 <= i < peers.len(),
    ensures
        compact_v4(peers).len() == 6 * peers.len(),
        compact_v4(peers).subrange(6 * i, 6 * i + 4) == peers[i].0@,
        compact_v4(peers).subrange(6 * i + 4, 6 * i + 6) == be_bytes(peers[i].1 as nat, 2),
    decreases peers.len(),
{
    let d = peers.drop_last();
    let all = compact_v4(peers);
    lemma_compact_v4_len(peers);
    lemma_compact_v4_len(d);
    lemma_be_bytes_len(peers.last().1 as nat, 2);
    if i == peers.len() - 1 {
        assert(all.subrange(6 * i, 6 * i + 4) =~= peers[i].0@);
        assert(all.subrange(6 * i + 4, 6 * i + 6) =~= be_bytes(peers[i].1 as nat, 2));
    } else {
        lemma_compact_v4_record(d, i);
        assert(d[i] == peers[i]);
        assert(all.subrange(6 * i, 6 * i + 4) =~= compact_v4(d).subrange(6 * i, 6 * i + 4));
        assert(all.subrange(6 * i + 4, 6 * i + 6) =~= compact_v4(d).subrange(6 * i + 4, 6 * i + 6));
    }
}

/// Where each peer stands in the compact form: the `i`-th takes the eighteen
/// bytes from `18 * i` on, sixteen of address and two of port.
pub proof fn lemma_compact_v6_record(peers: Seq<([u8; 16], u16)>, i: int)
    requires
        0 <= i < peers.len(),
    ensures
        compact_v6(peers).len() == 18 * peers.len(),
        compact_v6(peers).subrange(18 * i, 18 * i + 16) == peers[i].0@,
        compact_v6(peers).subrange(18 * i + 16, 18 * i + 18) == be_bytes(peers[i].1 as nat, 2),
    decreases peers.len(),
{
    let d = peers.drop_last();
    let all = compact_v6(peers);
    lemma_compact_v6_len(peers);
    lemma_compact_v6_len(d);
    lemma_be_bytes_len(peers.last().1 as nat, 2);
    if i == peers.len() - 1 {
        assert(all.subrange(18 * i, 18 * i + 16) =~= peers[i].0@);
        assert(all.subrange(18 * i + 16, 18 * i + 18) =~= be_bytes(peers[i].1 as nat, 2));
    } else {
        lemma_compact_v6_record(d, i);
        assert(d[i] == peers[i]);
        assert(all.subrange(18 * i, 18 * i + 16) =~= compact_v6(d).subrange(18 * i, 18 * i + 16));
        assert(all.subrange(18 * i + 16, 18 * i + 18) =~= compact_v6(d).subrange(18 * i + 16, 18 * i + 18));
    }
}

/// The compact form tells the peers apart: two lists with the same compact
/// form are the same list. So reading a compact form gives back exactly the
/// addresses and ports that were written, in their order.
pub proof fn lemma_compact_v4_round_trip(written: Seq<([u8; 4], u16)>, read: Seq<([u8; 4], u16)>)
    requires
        compact_v4(read) == compact_v4(written),
    ensures
        read == written,
    decreases written.len(),
{
    lemma_compact_v4_len(written);
    lemma_compact_v4_len(read);
    if written.len() > 0 {
        let w = written.last();
        let r = read.last();
        let wd = compact_v4(written.drop_last());
        let rd = compact_v4(read.drop_last());
        lemma_compact_v4_len(written.drop_last());
        lemma_compact_v4_len(read.drop_last());
        lemma_be_bytes_len(w.1 as nat, 2);
        lemma_be_bytes_len(r.1 as nat, 2);
        let all = compact_v4(written);
        let n = wd.len() as int;
        assert(all.subrange(0, n) =~= wd);
        assert(all.subrange(0, n) =~= rd);
        assert(all.subrange(n, n + 4) =~= w.0@);
        assert(all.subrange(n, n + 4) =~= r.0@);
        assert(w.0 =~= r.0);
        assert(all.subrange(n + 4, n + 6) =~= be_bytes(w.1 as nat, 2));
        assert(all.subrange(n + 4, n + 6) =~= be_bytes(r.1 as nat, 2));
        lemma_pow256_values();
        lemma_be_round_trip(w.1 as nat, 2);
        lemma_be_round_trip(r.1 as nat, 2);
        lemma_compact_v4_round_trip(written.drop_last(), read.drop_last());
        assert(read =~= read.drop_last().push(r));
        assert(written =~= written.drop_last().push(w));
    } else {
        assert(read =~= written);
    }
}

/// As for IPv4: reading a compact form gives back what was written.
pub proof fn lemma_compact_v6_round_trip(written: Seq<([u8; 16], u16)>, read: Seq<([u8; 16], u16)>)
    requires
        compact_v6(read) == compact_v6(written),
    ensures
        read == written,
    decreases written.len(),
{
    lemma_compact_v6_len(written);
    lemma_compact_v6_len(read);
    if written.len() > 0 {
        let w = written.last();
        let r = read.last();
        let wd = compact_v6(written.drop_last());
        let rd = compact_v6(read.drop_last());
        lemma_compact_v6_len(written.drop_last());
        lemma_compact_v6_len(read.drop_last());
        lemma_be_bytes_len(w.1 as nat, 2);
        lemma_be_bytes_len(r.1 as nat, 2);
        let all = compact_v6(written);
        let n = wd.len() as int;
        assert(all.subrange(0, n) =~= wd);
        assert(all.subrange(0, n) =~= rd);
        assert(all.subrange(n, n + 16) =~= w.0@);
        assert(all.subrange(n, n + 16) =~= r.0@);
        assert(w.0 =~= r.0);
        assert(all.subrange(n + 16, n + 18) =~= be_bytes(w.1 as nat, 2));
        assert(all.subrange(n + 16, n + 18) =~= be_bytes(r.1 as nat, 2));
        lemma_pow256_values();
        lemma_be_round_trip(w.1 as nat, 2);
        lemma_be_round_trip(r.1 as nat, 2);
        lemma_compact_v6_round_trip(written.drop_last(), read.drop_last());
        assert(read =~= read.drop_last().push(r));
        assert(written =~= written.drop_last().push(w));
    } else {
        assert(read =~= written);
    }
}

/// Writes IPv4 peers in compact form.
pub fn encode_compact_v4(peers: &Vec<([u8; 4], u16)>) -> (r: Vec<u8>)
    ensures
        r@ == compact_v4(peers@),
{
    let mut out: Vec<u8> = Vec::new();
    let mut i: usize = 0;
    assert(peers@.subrange(0, 0) =~= Seq::<([u8; 4], u16)>::empty());
    while i < peers.len()
        invariant
            i <= peers@.len(),
            out@ == compact_v4(peers@.subrange(0, i as int)),
        decreases peers@.len() - i,
    {
        proof {
            let s = peers@;
            assert(s.subrange(0, i + 1).drop_last() =~= s.subrange(0, i as int));
            assert(s.subrange(0, i + 1).last() == s[i as int]);
        }
        let p = &peers[i];
        push_all(&mut out, vstd::array::array_as_slice(&p.0));
        push_u16(&mut out, p.1);
        i += 1;
    }
    assert(peers@.subrange(0, i as int) =~= peers@);
    out
}

/// Writes IPv6 peers in compact form.
pub fn encode_compact_v6(peers: &Vec<([u8; 16], u16)>) -> (r: Vec<u8>)
    ensures
        r@ == compact_v6(peers@),
{
    let mut out: Vec<u8> = Vec::new();
    let mut i: usize = 0;
    assert(peers@.subrange(0, 0) =~= Seq::<([u8; 16], u16)>::empty());
    while i < peers.len()
        invariant
            i <= peers@.len(),
            out@ == compact_v6(peers@.subrange(0, i as int)),
        decreases peers@.len() - i,
    {
        proof {
            let s = peers@;
            assert(s.subrange(0, i + 1).drop_last() =~= s.subrange(0, i as int));
            assert(s.subrange(0, i + 1).last() == s[i as int]);
        }
        let p = &peers[i];
        push_all(&mut out, vstd::array::array_as_slice(&p.0));
        push_u16(&mut out, p.1);
        i += 1;
    }
    assert(peers@.subrange(0, i as int) =~= peers@);
    out
}

/// Reads IPv4 peers from their compact form: the peers whose compact form
/// `bytes` is, if its length is a multiple of six. Whatever peers were
/// written into `bytes`, these are the ones that come back, in their order.
pub fn decode_compact_v4(bytes: &[u8]) -> (r: Option<Vec<([u8; 4], u16)>>)
    ensures
        r.is_some() == (bytes@.len() % 6 == 0),
        r.is_some() ==> compact_v4(r.unwrap()@) == bytes@,
        forall|written: Seq<([u8; 4], u16)>|
            #[trigger] compact_v4(written) == bytes@ ==> r.is_some() && r.unwrap()@ == written,
{
    let len = bytes.len();
    if len % 6 != 0 {
        assert forall|written: Seq<([u8; 4], u16)>| #[trigger] compact_v4(written) == bytes@ implies false by {
            lemma_compact_v4_len(written);
        }
        return None;
    }
    let count = len / 6;
    let mut out: Vec<([u8; 4], u16)> = Vec::new();
    let mut i: usize = 0;
    assert(bytes@.subrange(0, 0) =~= Seq::<u8>::empty());
    while i < count
        invariant
            i <= count,
            len == bytes@.len(),
            len == 6 * count,
            out@.len() == i,
            compact_v4(out@) == bytes@.subrange(0, 6 * i),
        decreases count - i,
    {
        let at = 6 * i;
        let ip = [bytes[at], bytes[at + 1], bytes[at + 2], bytes[at + 3]];
        let port = read_u16(bytes, at + 4);
        let ghost before = out@;
        out.push((ip, port));
        proof {
            assert(out@.drop_last() =~= before);
            assert(ip@ =~= bytes@.subrange(at as int, at + 4));
            crate::bytes::lemma_be_bytes_of_value(bytes@.subrange(at + 4, at + 6));
            assert(be_bytes(port as nat, 2) == bytes@.subrange(at + 4, at + 6));
            assert(bytes@.subrange(0, 6 * (i + 1)) =~= bytes@.subrange(0, 6 * i) + bytes@.subrange(
                at as int,
                at + 4,
            ) + bytes@.subrange(at + 4, at + 6));
        }
        i += 1;
    }
    assert(bytes@.subrange(0, 6 * i) =~= bytes@);
    assert forall|written: Seq<([u8; 4], u16)>| #[trigger] compact_v4(written) == bytes@ implies out@
        == written by {
        lemma_compact_v4_round_trip(written, out@);
    }
    Some(out)
}

/// Reads IPv6 peers from their compact form: the peers whose compact form
/// `bytes` is, if its length is a multiple of eighteen. Whatever peers were
/// written into `bytes`, these are the ones that come back, in their order.
pub fn decode_compact_v6(bytes: &[u8]) -> (r: Option<Vec<([u8; 16], u16)>>)
    ensures
        r.is_some() == (bytes@.len() % 18 == 0),
        r.is_some() ==> compact_v6(r.unwrap()@) == bytes@,
        forall|written: Seq<([u8; 16], u16)>|
            #[trigger] compact_v6(written) == bytes@ ==> r.is_some() && r.unwrap()@ == written,
{
    let len = bytes.len();
    if len % 18 != 0 {
        assert forall|written: Seq<([u8; 16], u16)>| #[trigger] compact_v6(written) == bytes@ implies false by {
            lemma_compact_v6_len(written);
        }
        return None;
    }
    let count = len / 18;
    let mut out: Vec<([u8; 16], u16)> = Vec::new();
    let mut i: usize = 0;
    assert(bytes@.subrange(0, 0) =~= Seq::<u8>::empty());
    while i < count
        invariant
            i <= count,
            len == bytes@.len(),
            len == 18 * count,
            out@.len() == i,
            compact_v6(out@) == bytes@.subrange(0, 18 * i),
        decreases count - i,
    {
        let at = 18 * i;
        let mut ip = [0u8; 16];
        let mut k: usize = 0;
        while k < 16
            invariant
                k <= 16,
                at + 18 <= len == bytes@.len(),
                forall|j: int| 0 <= j < k ==> ip[j] == bytes@[at + j],
            decreases 16 - k,
        {
            ip[k] = bytes[at + k];
            k += 1;
        }
        let port = read_u16(bytes, at + 16);
        let ghost before = out@;
        out.push((ip, port));
        proof {
            assert(out@.drop_last() =~= before);
            assert(ip@ =~= bytes@.subrange(at as int, at + 16));
            crate::bytes::lemma_be_bytes_of_value(bytes@.subrange(at + 16, at + 18));
            assert(be_bytes(port as nat, 2) == bytes@.subrange(at + 16, at + 18));
            assert(bytes@.subrange(0, 18 * (i + 1)) =~= bytes@.subrange(0, 18 * i) + bytes@.subrange(
                at as int,
                at + 16,
            ) + bytes@.subrange(at + 16, at + 18));
        }
        i += 1;
    }
    assert(bytes@.subrange(0, 18 * i) =~= bytes@);
    assert forall|written: Seq<([u8; 16], u16)>| #[trigger] compact_v6(written) == bytes@ implies out@
        == written by {
        lemma_compact_v6_round_trip(written, out@);
    }
    Some(out)
}

} // verus!
