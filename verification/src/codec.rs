//! Wire codec for the storage-proof request kind: ordered,
//! length-delimited binary structures with fixed field order.
//!
//! A complete request is the fixed triple `[block_hash, address_hash,
//! key_hash]`, 32 bytes each. A response is a count-prefixed list of
//! length-prefixed opaque byte strings (the proof path) followed by the
//! fixed-size 32-byte storage value; every count and length is an 8-byte
//! big-endian integer.

use vstd::prelude::*;
use crate::field::Hash256;
use crate::storage::CompleteRequest;
use crate::storage::CompleteRequestV;
use crate::storage::Response;
use crate::storage::ResponseV;

verus! {

/// The 8 big-endian bytes of a 64-bit integer.
pub open spec fn enc_u64_spec(n: u64) -> Seq<u8> {
    seq![
        (n >> 56) as u8,
        (n >> 48) as u8,
        (n >> 40) as u8,
        (n >> 32) as u8,
        (n >> 24) as u8,
        (n >> 16) as u8,
        (n >> 8) as u8,
        n as u8,
    ]
}

/// The 64-bit integer read from 8 big-endian bytes.
pub open spec fn dec_u64_spec(b: Seq<u8>) -> u64
    recommends
        b.len() == 8,
{
    ((b[0] as u64) << 56) | ((b[1] as u64) << 48) | ((b[2] as u64) << 40) | ((b[3] as u64) << 32)
        | ((b[4] as u64) << 24) | ((b[5] as u64) << 16) | ((b[6] as u64) << 8) | (b[7] as u64)
}

/// Reading back the 8 big-endian bytes of an integer yields the integer.
pub proof fn lemma_u64_round_trip(n: u64)
    ensures
        dec_u64_spec(enc_u64_spec(n)) == n,
{
    let b = enc_u64_spec(n);
    assert(b[0] == (n >> 56) as u8);
    assert(b[1] == (n >> 48) as u8);
    assert(b[2] == (n >> 40) as u8);
    assert(b[3] == (n >> 32) as u8);
    assert(b[4] == (n >> 24) as u8);
    assert(b[5] == (n >> 16) as u8);
    assert(b[6] == (n >> 8) as u8);
    assert(b[7] == n as u8);
    assert((((n >> 56) as u8 as u64) << 56) | (((n >> 48) as u8 as u64) << 48) | (((n >> 40)
        as u8 as u64) << 40) | (((n >> 32) as u8 as u64) << 32) | (((n >> 24) as u8 as u64) << 24)
        | (((n >> 16) as u8 as u64) << 16) | (((n >> 8) as u8 as u64) << 8) | (n as u8 as u64)
        == n) by (bit_vector);
}

/// Writes the 8 big-endian bytes of `n`.
fn enc_u64(n: u64) -> (r: Vec<u8>)
    ensures
        r@ == enc_u64_spec(n),
{
    let mut out: Vec<u8> = Vec::new();
    out.push(#[verifier::truncate] ((n >> 56) as u8));
    out.push(#[verifier::truncate] ((n >> 48) as u8));
    out.push(#[verifier::truncate] ((n >> 40) as u8));
    out.push(#[verifier::truncate] ((n >> 32) as u8));
    out.push(#[verifier::truncate] ((n >> 24) as u8));
    out.push(#[verifier::truncate] ((n >> 16) as u8));
    out.push(#[verifier::truncate] ((n >> 8) as u8));
    out.push(#[verifier::truncate] (n as u8));
    proof {
        assert(out@ =~= enc_u64_spec(n));
    }
    out
}

/// Reads the 8 big-endian bytes at `pos`.
fn dec_u64_at(b: &Vec<u8>, pos: usize) -> (r: u64)
    requires
        pos + 8 <= b@.len(),
    ensures
        r == dec_u64_spec(b@.subrange(pos as int, pos as int + 8)),
{
    let total = b.len();
    proof {
        assert(pos + 8 <= total);
    }
    let r = ((b[pos] as u64) << 56) | ((b[pos + 1] as u64) << 48) | ((b[pos + 2] as u64) << 40) | (
    (b[pos + 3] as u64) << 32) | ((b[pos + 4] as u64) << 24) | ((b[pos + 5] as u64) << 16) | ((b[pos
        + 6] as u64) << 8) | (b[pos + 7] as u64);
    proof {
        let s = b@.subrange(pos as int, pos as int + 8);
        assert(s[0] == b@[pos as int]);
        assert(s[1] == b@[pos as int + 1]);
        assert(s[2] == b@[pos as int + 2]);
        assert(s[3] == b@[pos as int + 3]);
        assert(s[4] == b@[pos as int + 4]);
        assert(s[5] == b@[pos as int + 5]);
        assert(s[6] == b@[pos as int + 6]);
        assert(s[7] == b@[pos as int + 7]);
    }
    r
}

/// Appends all of `src` to `out`.
fn push_all(out: &mut Vec<u8>, src: &Vec<u8>)
    ensures
        final(out)@ == old(out)@ + src@,
{
    let mut i: usize = 0;
    while i < src.len()
        invariant
            i <= src@.len(),
            out@ == old(out)@ + src@.take(i as int),
        decreases src@.len() - i,
    {
        out.push(src[i]);
        proof {
            assert(out@ =~= old(out)@ + src@.take(i + 1));
        }
        i = i + 1;
    }
    proof {
        assert(out@ =~= old(out)@ + src@);
    }
}

/// Copies `b[start..end]` into a fresh vector.
fn copy_range(b: &Vec<u8>, start: usize, end: usize) -> (r: Vec<u8>)
    requires
        start <= end <= b@.len(),
    ensures
        r@ == b@.subrange(start as int, end as int),
{
    let mut out: Vec<u8> = Vec::new();
    let mut i: usize = start;
    while i < end
        invariant
            start <= i <= end <= b@.len(),
            out@ == b@.subrange(start as int, i as int),
        decreases end - i,
    {
        out.push(b[i]);
        proof {
            assert(out@ =~= b@.subrange(start as int, i as int + 1));
        }
        i = i + 1;
    }
    out
}

/// The wire form of a complete request: the fixed triple
/// `[block_hash, address_hash, key_hash]`.
pub open spec fn encode_request_spec(r: CompleteRequestV) -> Seq<u8> {
    r.block_hash + r.address_hash + r.key_hash
}

/// Whether a complete request carries 32-byte hashes, as the wire form
/// demands.
pub open spec fn request_wf(r: CompleteRequestV) -> bool {
    &&& r.block_hash.len() == 32
    &&& r.address_hash.len() == 32
    &&& r.key_hash.len() == 32
}

/// The request read back from its wire form: defined exactly on the
/// 96-byte structures.
pub open spec fn decode_request_spec(b: Seq<u8>) -> Option<CompleteRequestV> {
    if b.len() == 96 {
        Some(
            CompleteRequestV {
                block_hash: b.subrange(0, 32),
                address_hash: b.subrange(32, 64),
                key_hash: b.subrange(64, 96),
            },
        )
    } else {
        None
    }
}

/// Serializes a complete request onto the wire.
pub fn encode_request(r: &CompleteRequest) -> (out: Vec<u8>)
    ensures
        out@ == encode_request_spec(r@),
{
    let mut out: Vec<u8> = Vec::new();
    push_all(&mut out, &r.block_hash.bytes);
    push_all(&mut out, &r.address_hash.bytes);
    push_all(&mut out, &r.key_hash.bytes);
    proof {
        assert(out@ =~= encode_request_spec(r@));
    }
    out
}

/// Deserializes a complete request, or fails on malformed wire data.
pub fn decode_request(b: &Vec<u8>) -> (r: Option<CompleteRequest>)
    ensures
        r is Some <==> decode_request_spec(b@) is Some,
        r matches Some(c) ==> decode_request_spec(b@) == Some(c@) && request_wf(c@),
{
    if b.len() != 96 {
        return None;
    }
    let block_hash = copy_range(b, 0, 32);
    let address_hash = copy_range(b, 32, 64);
    let key_hash = copy_range(b, 64, 96);
    let c = CompleteRequest {
        block_hash: Hash256::new(block_hash),
        address_hash: Hash256::new(address_hash),
        key_hash: Hash256::new(key_hash),
    };
    proof {
        assert(decode_request_spec(b@)->Some_0 =~= c@);
    }
    Some(c)
}

/// Encoding a well-formed request and reading it back yields the request.
pub proof fn lemma_request_round_trip(r: CompleteRequestV)
    requires
        request_wf(r),
    ensures
        decode_request_spec(encode_request_spec(r)) == Some(r),
{
    let b = encode_request_spec(r);
    assert(b.subrange(0, 32) =~= r.block_hash);
    assert(b.subrange(32, 64) =~= r.address_hash);
    assert(b.subrange(64, 96) =~= r.key_hash);
    assert(decode_request_spec(b)->Some_0 =~= r);
}

/// The wire form of the proof path: each byte string in order, each behind
/// its 8-byte big-endian length.
pub open spec fn enc_items_spec(items: Seq<Seq<u8>>) -> Seq<u8>
    decreases items.len(),
{
    if items.len() == 0 {
        Seq::empty()
    } else {
        enc_u64_spec(items[0].len() as u64) + items[0] + enc_items_spec(items.drop_first())
    }
}

/// Whether every proof-path entry's length fits its 8-byte prefix.
pub open spec fn items_encodable(items: Seq<Seq<u8>>) -> bool {
    forall|j: int| 0 <= j < items.len() ==> #[trigger] items[j].len() <= u64::MAX
}

/// Whether a response fits the wire form: a bounded proof path and a
/// 32-byte value.
pub open spec fn response_encodable(r: ResponseV) -> bool {
    &&& r.proof_nodes.len() <= u64::MAX
    &&& items_encodable(r.proof_nodes)
    &&& r.value.len() == 32
}

/// The wire form of a response: the count-prefixed proof path, then the
/// fixed-size storage value.
pub open spec fn encode_response_spec(r: ResponseV) -> Seq<u8> {
    enc_u64_spec(r.proof_nodes.len() as u64) + enc_items_spec(r.proof_nodes) + r.value
}

/// `n` length-prefixed byte strings read from `b` starting at `pos`,
/// together with the position just past them; `None` on malformed data.
pub open spec fn dec_items_spec(b: Seq<u8>, pos: int, n: nat) -> Option<(Seq<Seq<u8>>, int)>
    decreases n,
{
    if n == 0 {
        Some((Seq::empty(), pos))
    } else if pos + 8 > b.len() {
        None
    } else {
        let l = dec_u64_spec(b.subrange(pos, pos + 8)) as int;
        if pos + 8 + l > b.len() {
            None
        } else {
            match dec_items_spec(b, pos + 8 + l, (n - 1) as nat) {
                Some((items, end)) => Some((seq![b.subrange(pos + 8, pos + 8 + l)] + items, end)),
                None => None,
            }
        }
    }
}

/// The response read back from its wire form: defined exactly on the
/// structures where the count, every length and the trailing 32-byte value
/// line up.
pub open spec fn decode_response_spec(b: Seq<u8>) -> Option<ResponseV> {
    if b.len() < 8 {
        None
    } else {
        match dec_items_spec(b, 8, dec_u64_spec(b.subrange(0, 8)) as nat) {
            Some((items, end)) => if b.len() - end == 32 {
                Some(ResponseV { proof_nodes: items, value: b.subrange(end, b.len() as int) })
            } else {
                None
            },
            None => None,
        }
    }
}

/// The wire form of a path one entry longer is the shorter path's wire
/// form, then the new entry behind its length.
proof fn lemma_enc_items_push(items: Seq<Seq<u8>>, x: Seq<u8>)
    ensures
        enc_items_spec(items.push(x)) == enc_items_spec(items) + enc_u64_spec(x.len() as u64) + x,
    decreases items.len(),
{
    let s = items.push(x);
    if items.len() == 0 {
        assert(s[0] == x);
        assert(s.drop_first().len() == 0);
        assert(enc_items_spec(s.drop_first()) == Seq::<u8>::empty());
        assert(enc_items_spec(s) == enc_u64_spec(x.len() as u64) + x + enc_items_spec(
            s.drop_first(),
        ));
        assert(enc_items_spec(s) =~= enc_items_spec(items) + enc_u64_spec(x.len() as u64) + x);
    } else {
        let t = items.drop_first();
        lemma_enc_items_push(t, x);
        assert(s.drop_first() =~= t.push(x));
        assert(s[0] == items[0]);
        assert(enc_items_spec(s) == enc_u64_spec(items[0].len() as u64) + items[0]
            + enc_items_spec(t.push(x)));
        assert(enc_items_spec(items) == enc_u64_spec(items[0].len() as u64) + items[0]
            + enc_items_spec(t));
        assert(enc_items_spec(s) =~= enc_items_spec(items) + enc_u64_spec(x.len() as u64) + x);
    }
}

/// Serializes a response onto the wire.
pub fn encode_response(r: &Response) -> (out: Vec<u8>)
    ensures
        out@ == encode_response_spec(r@),
{
    let count: u64 = r.proof_nodes.len() as u64;
    let mut out = enc_u64(count);
    let mut k: usize = 0;
    while k < r.proof_nodes.len()
        invariant
            k <= r.proof_nodes@.len(),
            count == r.proof_nodes@.len() as u64,
            out@ == enc_u64_spec(count) + enc_items_spec(r@.proof_nodes.take(k as int)),
        decreases r.proof_nodes@.len() - k,
    {
        let node = &r.proof_nodes[k];
        let len_bytes = enc_u64(node.len() as u64);
        push_all(&mut out, &len_bytes);
        push_all(&mut out, node);
        proof {
            lemma_enc_items_push(r@.proof_nodes.take(k as int), r@.proof_nodes[k as int]);
            assert(r@.proof_nodes.take(k + 1) =~= r@.proof_nodes.take(k as int).push(
                r@.proof_nodes[k as int],
            ));
            assert(out@ =~= enc_u64_spec(count) + enc_items_spec(r@.proof_nodes.take(k + 1)));
        }
        k = k + 1;
    }
    proof {
        assert(r@.proof_nodes.take(r.proof_nodes@.len() as int) =~= r@.proof_nodes);
    }
    push_all(&mut out, &r.value.bytes);
    proof {
        assert(out@ =~= encode_response_spec(r@));
    }
    out
}

/// Reads `n` length-prefixed byte strings from `b` starting at `pos`.
fn decode_items(b: &Vec<u8>, pos: usize, n: u64) -> (r: Option<(Vec<Vec<u8>>, usize)>)
    requires
        pos <= b@.len(),
    ensures
        r is Some <==> dec_items_spec(b@, pos as int, n as nat) is Some,
        r matches Some(p) ==> dec_items_spec(b@, pos as int, n as nat) == Some(
            (p.0@.map_values(|node: Vec<u8>| node@), p.1 as int),
        ) && pos <= p.1 <= b@.len() && p.0@.len() == n as nat && items_encodable(
            p.0@.map_values(|node: Vec<u8>| node@),
        ),
    decreases n,
{
    if n == 0 {
        let items: Vec<Vec<u8>> = Vec::new();
        proof {
            assert(items@.map_values(|node: Vec<u8>| node@) =~= Seq::<Seq<u8>>::empty());
        }
        return Some((items, pos));
    }
    if b.len() - pos < 8 {
        return None;
    }
    let l64 = dec_u64_at(b, pos);
    let rem = b.len() - pos - 8;
    if l64 > rem as u64 {
        return None;
    }
    let l = l64 as usize;
    let item = copy_range(b, pos + 8, pos + 8 + l);
    match decode_items(b, pos + 8 + l, n - 1) {
        None => None,
        Some((mut items, end)) => {
            let ghost rest = items@;
            items.insert(0, item);
            proof {
                assert(items@.map_values(|node: Vec<u8>| node@) =~= seq![
                    b@.subrange(pos as int + 8, pos as int + 8 + l as int),
                ] + rest.map_values(|node: Vec<u8>| node@));
                let mapped = items@.map_values(|node: Vec<u8>| node@);
                assert forall|j: int| 0 <= j < mapped.len() implies #[trigger] mapped[j].len()
                    <= u64::MAX by {
                    if j == 0 {
                        assert(mapped[j] == item@);
                    } else {
                        assert(mapped[j] == rest.map_values(|node: Vec<u8>| node@)[j - 1]);
                    }
                }
            }
            Some((items, end))
        },
    }
}

/// Deserializes a response, or fails on malformed wire data.
pub fn decode_response(b: &Vec<u8>) -> (r: Option<Response>)
    ensures
        r is Some <==> decode_response_spec(b@) is Some,
        r matches Some(resp) ==> decode_response_spec(b@) == Some(resp@) && response_encodable(
            resp@,
        ),
{
    if b.len() < 8 {
        return None;
    }
    let count = dec_u64_at(b, 0);
    match decode_items(b, 8, count) {
        None => None,
        Some((items, end)) => {
            if b.len() - end == 32 {
                let value_bytes = copy_range(b, end, b.len());
                let resp = Response { proof_nodes: items, value: Hash256::new(value_bytes) };
                proof {
                    assert(decode_response_spec(b@)->Some_0 =~= resp@);
                }
                Some(resp)
            } else {
                None
            }
        },
    }
}

/// Reading back an encoded proof path yields the path and ends just past
/// its wire form.
proof fn lemma_dec_items_of_enc(b: Seq<u8>, pos: int, items: Seq<Seq<u8>>)
    requires
        0 <= pos,
        pos + enc_items_spec(items).len() <= b.len(),
        b.subrange(pos, pos + enc_items_spec(items).len()) == enc_items_spec(items),
        items_encodable(items),
    ensures
        dec_items_spec(b, pos, items.len()) == Some((items, pos + enc_items_spec(items).len())),
    decreases items.len(),
{
    let e = enc_items_spec(items);
    if items.len() == 0 {
        assert(Seq::<Seq<u8>>::empty() =~= items);
    } else {
        let l0 = items[0].len() as int;
        let h = enc_u64_spec(items[0].len() as u64);
        let rest = items.drop_first();
        let re = enc_items_spec(rest);
        assert(e == h + items[0] + re);
        let big = b.subrange(pos, pos + e.len());
        assert(big == h + items[0] + re);
        // the 8-byte length prefix
        assert(b.subrange(pos, pos + 8) =~= big.subrange(0, 8));
        assert((h + items[0] + re).subrange(0, 8) =~= h);
        assert(b.subrange(pos, pos + 8) == h);
        lemma_u64_round_trip(items[0].len() as u64);
        assert(dec_u64_spec(b.subrange(pos, pos + 8)) as int == l0);
        let pos2 = pos + 8 + l0;
        // the first path entry
        assert(b.subrange(pos + 8, pos2) =~= big.subrange(8, 8 + l0));
        assert((h + items[0] + re).subrange(8, 8 + l0) =~= items[0]);
        assert(b.subrange(pos + 8, pos2) == items[0]);
        // the encoded remainder of the path
        assert(b.subrange(pos2, pos2 + re.len()) =~= big.subrange(8 + l0, e.len() as int));
        assert((h + items[0] + re).subrange(8 + l0, e.len() as int) =~= re);
        assert(b.subrange(pos2, pos2 + re.len()) == re);
        assert forall|j: int| 0 <= j < rest.len() implies #[trigger] rest[j].len()
            <= u64::MAX by {
            assert(rest[j] == items[j + 1]);
            assert(items[j + 1].len() <= u64::MAX);
        }
        lemma_dec_items_of_enc(b, pos2, rest);
        assert(dec_items_spec(b, pos2, rest.len()) == Some((rest, pos2 + re.len())));
        assert(seq![b.subrange(pos + 8, pos2)] + rest =~= items);
        assert(dec_items_spec(b, pos, items.len()) == Some((items, pos + e.len())));
    }
}

/// Encoding an encodable response and reading it back yields the response.
pub proof fn lemma_response_round_trip(r: ResponseV)
    requires
        response_encodable(r),
    ensures
        decode_response_spec(encode_response_spec(r)) == Some(r),
{
    let c = enc_u64_spec(r.proof_nodes.len() as u64);
    let e = enc_items_spec(r.proof_nodes);
    let b = encode_response_spec(r);
    assert(b == c + e + r.value);
    // the 8-byte count prefix
    assert(b.subrange(0, 8) =~= (c + e + r.value).subrange(0, 8));
    assert((c + e + r.value).subrange(0, 8) =~= c);
    lemma_u64_round_trip(r.proof_nodes.len() as u64);
    assert(dec_u64_spec(b.subrange(0, 8)) == r.proof_nodes.len() as u64);
    // the encoded proof path
    assert(b.subrange(8, 8 + e.len() as int) =~= (c + e + r.value).subrange(8, 8 + e.len() as int));
    assert((c + e + r.value).subrange(8, 8 + e.len() as int) =~= e);
    lemma_dec_items_of_enc(b, 8, r.proof_nodes);
    assert(dec_items_spec(b, 8, r.proof_nodes.len()) == Some((r.proof_nodes, 8 + e.len() as int)));
    // the trailing 32-byte value
    assert(b.subrange(8 + e.len() as int, b.len() as int) =~= (c + e + r.value).subrange(
        8 + e.len() as int,
        b.len() as int,
    ));
    assert((c + e + r.value).subrange(8 + e.len() as int, b.len() as int) =~= r.value);
    assert(decode_response_spec(b)->Some_0 =~= r);
}

} // verus!
