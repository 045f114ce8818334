use vstd::prelude::*;
use vstd::arithmetic::div_mod::lemma_fundamental_div_mod;
use crate::bytes::push_range;
use crate::codec::{
    WireMessage, WireRecord, CHUNK_HEADER_LEN, MAX_FRAME_PAYLOAD, SEALED_PAYLOAD_TAG,
};
use crate::error::TransportError;

verus! {

/// Most chunks one split payload may have.
pub const MAX_SEGMENTS: u32 = 65535;

/// How many chunks of at most `c` bytes hold `len` bytes.
pub open spec fn chunk_count(len: nat, c: nat) -> nat {
    if len == 0 || c == 0 {
        0
    } else {
        ((len - 1) as nat / c + 1) as nat
    }
}

/// The `i`-th chunk of `p` cut into pieces of `c` bytes.
pub open spec fn chunk_of(p: Seq<u8>, c: nat, i: nat) -> Seq<u8> {
    let lo = i * c;
    let hi = (i + 1) * c;
    p.subrange(lo as int, if hi < p.len() { hi as int } else { p.len() as int })
}

/// The records that carry `p` split into chunks of `c` bytes: a header,
/// then the chunks in index order.
pub open spec fn split_records(p: Seq<u8>, c: nat, id: u32) -> Seq<WireRecord> {
    let n = chunk_count(p.len(), c);
    Seq::new(
        n + 1,
        |k: int|
            if k == 0 {
                WireRecord::SegmentStart { total_segments: n as u32, segment_id: id }
            } else {
                WireRecord::SegmentChunk {
                    segment_id: id,
                    index: (k - 1) as u32,
                    bytes: chunk_of(p, c, (k - 1) as nat),
                }
            },
    )
}

/// What segmenting `p` with chunk size `c` gives: one record when it fits,
/// the split records otherwise, nothing when it needs too many chunks.
pub open spec fn segmented(p: Seq<u8>, c: nat, id: u32) -> Option<Seq<WireRecord>> {
    if p.len() <= c {
        Some(seq![WireRecord::NegotiationPayload { type_tag: SEALED_PAYLOAD_TAG, bytes: p }])
    } else if chunk_count(p.len(), c) > MAX_SEGMENTS {
        None
    } else {
        Some(split_records(p, c, id))
    }
}

pub proof fn lemma_chunk_count(len: nat, c: nat)
    requires
        c > 0,
        len > 0,
    ensures
        (chunk_count(len, c) - 1) * c < len,
        len <= chunk_count(len, c) * c,
        chunk_count(len, c) <= len,
        chunk_count(len, c) >= 1,
{
    let q = (len - 1) / (c as int);
    let r = (len - 1) % (c as int);
    lemma_fundamental_div_mod(len - 1, c as int);
    assert(0 <= r < c);
    assert(q * c <= len - 1) by (nonlinear_arith)
        requires
            len - 1 == c * q + r,
            r >= 0,
    ;
    assert(len <= (q + 1) * c) by (nonlinear_arith)
        requires
            len - 1 == c * q + r,
            r < c,
    ;
    assert(q >= 0) by (nonlinear_arith)
        requires
            len - 1 >= 0,
            c > 0,
            q == (len - 1) / (c as int),
    ;
    assert(q <= len - 1) by (nonlinear_arith)
        requires
            q * c <= len - 1,
            c >= 1,
            q >= 0,
    ;
}

/// Splits `ciphertext` for transport in records of at most `max_chunk_size`
/// bytes of data each, under the split id `segment_id`.
pub fn segment(ciphertext: &Vec<u8>, max_chunk_size: usize, segment_id: u32) -> (r: Result<
    Vec<WireMessage>,
    TransportError,
>)
    requires
        max_chunk_size > 0,
        ciphertext.len() + CHUNK_HEADER_LEN <= MAX_FRAME_PAYLOAD,
    ensures
        match r {
            Ok(v) => segmented(ciphertext@, max_chunk_size as nat, segment_id) == Some(
                v@.map_values(|m: WireMessage| m@),
            ),
            Err(e) => segmented(ciphertext@, max_chunk_size as nat, segment_id) is None && e
                == TransportError::MalformedPayload,
        },
{
    let len = ciphertext.len();
    let c = max_chunk_size;
    if len <= c {
        let mut bytes: Vec<u8> = Vec::new();
        push_range(&mut bytes, ciphertext, 0, len);
        assert(ciphertext@.subrange(0, len as int) =~= ciphertext@);
        let mut v: Vec<WireMessage> = Vec::new();
        v.push(WireMessage::NegotiationPayload { type_tag: SEALED_PAYLOAD_TAG, bytes });
        assert(v@.map_values(|m: WireMessage| m@) =~= seq![
            WireRecord::NegotiationPayload { type_tag: SEALED_PAYLOAD_TAG, bytes: ciphertext@ },
        ]);
        return Ok(v);
    }
    let n: usize = (len - 1) / c + 1;
    proof {
        lemma_chunk_count(len as nat, c as nat);
    }
    if n > MAX_SEGMENTS as usize {
        return Err(TransportError::MalformedPayload);
    }
    let ghost recs = split_records(ciphertext@, c as nat, segment_id);
    let mut v: Vec<WireMessage> = Vec::new();
    v.push(WireMessage::SegmentStart { total_segments: n as u32, segment_id });
    let mut i: usize = 0;
    let mut lo: usize = 0;
    while i < n
        invariant
            n == chunk_count(len as nat, c as nat),
            recs == split_records(ciphertext@, c as nat, segment_id),
            (n - 1) * c < len,
            len <= n * c,
            len == ciphertext.len(),
            c == max_chunk_size,
            c < len,
            n <= MAX_SEGMENTS,
            i <= n,
            i < n ==> lo == i * c,
            i < n ==> lo < len,
            v@.len() == i + 1,
            forall|k: int| 0 <= k < v@.len() ==> #[trigger] v@[k]@ == recs[k],
        decreases n - i,
    {
        let hi: usize = if len - lo > c {
            lo + c
        } else {
            len
        };
        let mut bytes: Vec<u8> = Vec::new();
        push_range(&mut bytes, ciphertext, lo, hi);
        assert((i + 1) * c == i * c + c) by (nonlinear_arith);
        assert(bytes@ == chunk_of(ciphertext@, c as nat, i as nat));
        v.push(WireMessage::SegmentChunk { segment_id, index: i as u32, bytes });
        i += 1;
        lo = hi;
        proof {
            if i < n {
                assert(i <= n - 1);
                assert(i * c <= (n - 1) * c) by (nonlinear_arith)
                    requires
                        i <= n - 1,
                        c > 0,
                ;
                assert(lo == i * c);
            }
        }
    }
    assert(v@.map_values(|m: WireMessage| m@) =~= recs);
    Ok(v)
}

} // verus!
