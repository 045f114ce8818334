use vstd::prelude::*;
use crate::bytes::{
    be16, be16_value, be32, be32_value, lemma_be16_round_trip, lemma_be32_round_trip, push_be16,
    push_be32, push_range, read_be16, read_be32,
};
use crate::error::TransportError;

verus! {

/// Record tag of a segmentation header.
pub const SEGMENT_START_TAG: u16 = 42899;

/// Record tag of one segment of a split payload.
pub const SEGMENT_CHUNK_TAG: u16 = 42901;

/// Record tag of an encrypted negotiation message sent in one piece.
pub const SEALED_PAYLOAD_TAG: u16 = 42897;

/// Bytes before the payload of a frame: a 2-byte tag and a 4-byte length.
pub const HEADER_LEN: usize = 6;

/// Bytes before the data of a segment chunk body: segment id and index.
pub const CHUNK_HEADER_LEN: usize = 8;

/// Largest payload a frame can declare.
pub const MAX_FRAME_PAYLOAD: usize = 4294967295;

/// A record frame: the tag, the payload's length, then the payload, all
/// big-endian. Envelope contents are made of these.
pub open spec fn frame(tag: u16, payload: Seq<u8>) -> Seq<u8> {
    be16(tag) + be32(payload.len() as u32) + payload
}

/// What decoding a frame gives: its tag and payload, or why it is not one.
pub open spec fn unframe(b: Seq<u8>) -> Result<(u16, Seq<u8>), TransportError> {
    if b.len() < HEADER_LEN {
        Err(TransportError::TruncatedMessage)
    } else {
        let n = be32_value(b.subrange(2, 6)) as int;
        if n > b.len() - HEADER_LEN {
            Err(TransportError::TruncatedMessage)
        } else if n < b.len() - HEADER_LEN {
            Err(TransportError::MalformedPayload)
        } else {
            Ok((be16_value(b.subrange(0, 2)), b.subrange(HEADER_LEN as int, b.len() as int)))
        }
    }
}

/// Frames `payload` under the record tag `tag`, with its length.
pub fn encode_frame(tag: u16, payload: &Vec<u8>) -> (r: Vec<u8>)
    requires
        payload.len() <= MAX_FRAME_PAYLOAD,
    ensures
        r@ == frame(tag, payload@),
{
    let mut out: Vec<u8> = Vec::new();
    push_be16(&mut out, tag);
    push_be32(&mut out, payload.len() as u32);
    push_range(&mut out, payload, 0, payload.len());
    assert(payload@.subrange(0, payload.len() as int) =~= payload@);
    out
}

/// Splits a frame into its record tag and payload.
pub fn decode_frame(bytes: &Vec<u8>) -> (r: Result<(u16, Vec<u8>), TransportError>)
    ensures
        match r {
            Ok((tag, payload)) => unframe(bytes@) == Ok::<(u16, Seq<u8>), TransportError>(
                (tag, payload@),
            ),
            Err(e) => unframe(bytes@) == Err::<(u16, Seq<u8>), TransportError>(e),
        },
{
    if bytes.len() < HEADER_LEN {
        return Err(TransportError::TruncatedMessage);
    }
    let n = read_be32(bytes, 2) as usize;
    if n > bytes.len() - HEADER_LEN {
        return Err(TransportError::TruncatedMessage);
    }
    if n < bytes.len() - HEADER_LEN {
        return Err(TransportError::MalformedPayload);
    }
    let tag = read_be16(bytes, 0);
    let mut payload: Vec<u8> = Vec::new();
    push_range(&mut payload, bytes, HEADER_LEN, bytes.len());
    assert(payload@ =~= bytes@.subrange(HEADER_LEN as int, bytes.len() as int));
    Ok((tag, payload))
}

/// Decoding a frame gives back its tag and payload, and a frame cut short by
/// one byte is reported as truncated.
pub proof fn lemma_frame_round_trip(tag: u16, payload: Seq<u8>)
    requires
        payload.len() <= MAX_FRAME_PAYLOAD,
    ensures
        unframe(frame(tag, payload)) == Ok::<(u16, Seq<u8>), TransportError>((tag, payload)),
        unframe(frame(tag, payload).drop_last()) == Err::<(u16, Seq<u8>), TransportError>(
            TransportError::TruncatedMessage,
        ),
{
    let b = frame(tag, payload);
    let n = payload.len() as u32;
    lemma_be16_round_trip(tag);
    lemma_be32_round_trip(n);
    assert(b.subrange(0, 2) =~= be16(tag));
    assert(b.subrange(2, 6) =~= be32(n));
    assert(b.subrange(6, b.len() as int) =~= payload);
    let t = b.drop_last();
    if payload.len() > 0 {
        assert(t.subrange(2, 6) =~= be32(n));
    }
}

/// A negotiation message on the wire: its 2-byte big-endian type tag, then
/// its serialized body.
pub open spec fn tagged(tag: u16, body: Seq<u8>) -> Seq<u8> {
    be16(tag) + body
}

/// What decoding a negotiation message gives: its type tag and body, or
/// `TruncatedMessage` when the tag itself is cut short.
pub open spec fn untag(b: Seq<u8>) -> Result<(u16, Seq<u8>), TransportError> {
    if b.len() < 2 {
        Err(TransportError::TruncatedMessage)
    } else {
        Ok((be16_value(b.subrange(0, 2)), b.subrange(2, b.len() as int)))
    }
}

/// Writes a negotiation message: the type tag `tag`, then `body`.
pub fn encode(tag: u16, body: &Vec<u8>) -> (r: Vec<u8>)
    ensures
        r@ == tagged(tag, body@),
{
    let mut out: Vec<u8> = Vec::new();
    push_be16(&mut out, tag);
    push_range(&mut out, body, 0, body.len());
    assert(body@.subrange(0, body.len() as int) =~= body@);
    out
}

/// Splits a negotiation message into its type tag and body.
pub fn decode(bytes: &Vec<u8>) -> (r: Result<(u16, Vec<u8>), TransportError>)
    ensures
        match r {
            Ok((tag, body)) => untag(bytes@) == Ok::<(u16, Seq<u8>), TransportError>((tag, body@)),
            Err(e) => untag(bytes@) == Err::<(u16, Seq<u8>), TransportError>(e),
        },
{
    if bytes.len() < 2 {
        return Err(TransportError::TruncatedMessage);
    }
    let tag = read_be16(bytes, 0);
    let mut body: Vec<u8> = Vec::new();
    push_range(&mut body, bytes, 2, bytes.len());
    Ok((tag, body))
}

/// Decoding a written negotiation message gives back its tag and body, for
/// every body, the empty one included; cutting off a byte of the tag is
/// reported as truncated.
pub proof fn lemma_tagged_round_trip(tag: u16, body: Seq<u8>)
    ensures
        untag(tagged(tag, body)) == Ok::<(u16, Seq<u8>), TransportError>((tag, body)),
        forall|k: int|
            0 <= k < 2 ==> untag(#[trigger] tagged(tag, body).subrange(0, k)) == Err::<
                (u16, Seq<u8>),
                TransportError,
            >(TransportError::TruncatedMessage),
{
    let b = tagged(tag, body);
    lemma_be16_round_trip(tag);
    assert(b.subrange(0, 2) =~= be16(tag));
    assert(b.subrange(2, b.len() as int) =~= body);
}

/// A record carried in the content of a negotiation envelope.
#[derive(Debug)]
pub enum WireMessage {
    /// A message sent whole, under its type tag.
    NegotiationPayload { type_tag: u16, bytes: Vec<u8> },
    /// Announces a split payload of `total_segments` chunks.
    SegmentStart { total_segments: u32, segment_id: u32 },
    /// The chunk at `index` of the split payload `segment_id`.
    SegmentChunk { segment_id: u32, index: u32, bytes: Vec<u8> },
}

/// The mathematical value of a [`WireMessage`].
pub ghost enum WireRecord {
    NegotiationPayload { type_tag: u16, bytes: Seq<u8> },
    SegmentStart { total_segments: u32, segment_id: u32 },
    SegmentChunk { segment_id: u32, index: u32, bytes: Seq<u8> },
}

impl View for WireMessage {
    type V = WireRecord;

    open spec fn view(&self) -> WireRecord {
        match self {
            WireMessage::NegotiationPayload { type_tag, bytes } => WireRecord::NegotiationPayload {
                type_tag: *type_tag,
                bytes: bytes@,
            },
            WireMessage::SegmentStart { total_segments, segment_id } => WireRecord::SegmentStart {
                total_segments: *total_segments,
                segment_id: *segment_id,
            },
            WireMessage::SegmentChunk { segment_id, index, bytes } => WireRecord::SegmentChunk {
                segment_id: *segment_id,
                index: *index,
                bytes: bytes@,
            },
        }
    }
}

/// A record that can be written: a payload tag outside the reserved ones,
/// and a body whose length fits a frame.
pub open spec fn record_encodable(m: WireRecord) -> bool {
    match m {
        WireRecord::NegotiationPayload { type_tag, bytes } => type_tag != SEGMENT_START_TAG
            && type_tag != SEGMENT_CHUNK_TAG && bytes.len() <= MAX_FRAME_PAYLOAD,
        WireRecord::SegmentStart { .. } => true,
        WireRecord::SegmentChunk { bytes, .. } => bytes.len() + CHUNK_HEADER_LEN
            <= MAX_FRAME_PAYLOAD,
    }
}

/// The bytes of a record.
pub open spec fn record_bytes(m: WireRecord) -> Seq<u8> {
    match m {
        WireRecord::NegotiationPayload { type_tag, bytes } => frame(type_tag, bytes),
        WireRecord::SegmentStart { total_segments, segment_id } => frame(
            SEGMENT_START_TAG,
            be32(total_segments) + be32(segment_id),
        ),
        WireRecord::SegmentChunk { segment_id, index, bytes } => frame(
            SEGMENT_CHUNK_TAG,
            be32(segment_id) + be32(index) + bytes,
        ),
    }
}

/// What decoding a record gives: the record, or why the bytes are not one.
pub open spec fn parse_record(b: Seq<u8>) -> Result<WireRecord, TransportError> {
    match unframe(b) {
        Err(e) => Err(e),
        Ok((tag, body)) => if tag == SEGMENT_START_TAG {
            if body.len() < 8 {
                Err(TransportError::TruncatedMessage)
            } else if body.len() > 8 {
                Err(TransportError::MalformedPayload)
            } else {
                Ok(
                    WireRecord::SegmentStart {
                        total_segments: be32_value(body),
                        segment_id: be32_value(body.subrange(4, 8)),
                    },
                )
            }
        } else if tag == SEGMENT_CHUNK_TAG {
            if body.len() < CHUNK_HEADER_LEN {
                Err(TransportError::TruncatedMessage)
            } else {
                Ok(
                    WireRecord::SegmentChunk {
                        segment_id: be32_value(body),
                        index: be32_value(body.subrange(4, 8)),
                        bytes: body.subrange(8, body.len() as int),
                    },
                )
            }
        } else {
            Ok(WireRecord::NegotiationPayload { type_tag: tag, bytes: body })
        },
    }
}

/// Writes a record as the bytes of an envelope's content.
pub fn encode_record(m: &WireMessage) -> (r: Vec<u8>)
    requires
        record_encodable(m@),
    ensures
        r@ == record_bytes(m@),
{
    match m {
        WireMessage::NegotiationPayload { type_tag, bytes } => encode_frame(*type_tag, bytes),
        WireMessage::SegmentStart { total_segments, segment_id } => {
            let mut body: Vec<u8> = Vec::new();
            push_be32(&mut body, *total_segments);
            push_be32(&mut body, *segment_id);
            encode_frame(SEGMENT_START_TAG, &body)
        },
        WireMessage::SegmentChunk { segment_id, index, bytes } => {
            let mut body: Vec<u8> = Vec::new();
            push_be32(&mut body, *segment_id);
            push_be32(&mut body, *index);
            push_range(&mut body, bytes, 0, bytes.len());
            assert(bytes@.subrange(0, bytes.len() as int) =~= bytes@);
            encode_frame(SEGMENT_CHUNK_TAG, &body)
        },
    }
}

/// Reads a record from the bytes of an envelope's content.
pub fn decode_record(b: &Vec<u8>) -> (r: Result<WireMessage, TransportError>)
    ensures
        match r {
            Ok(m) => parse_record(b@) == Ok::<WireRecord, TransportError>(m@),
            Err(e) => parse_record(b@) == Err::<WireRecord, TransportError>(e),
        },
{
    match decode_frame(b) {
        Err(e) => Err(e),
        Ok((tag, body)) => {
            if tag == SEGMENT_START_TAG {
                if body.len() < 8 {
                    Err(TransportError::TruncatedMessage)
                } else if body.len() > 8 {
                    Err(TransportError::MalformedPayload)
                } else {
                    let total_segments = read_be32(&body, 0);
                    let segment_id = read_be32(&body, 4);
                    proof {
                        lemma_be32_prefix(body@);
                    }
                    Ok(WireMessage::SegmentStart { total_segments, segment_id })
                }
            } else if tag == SEGMENT_CHUNK_TAG {
                if body.len() < CHUNK_HEADER_LEN {
                    Err(TransportError::TruncatedMessage)
                } else {
                    let segment_id = read_be32(&body, 0);
                    let index = read_be32(&body, 4);
                    let mut bytes: Vec<u8> = Vec::new();
                    push_range(&mut bytes, &body, CHUNK_HEADER_LEN, body.len());
                    proof {
                        lemma_be32_prefix(body@);
                    }
                    assert(bytes@ =~= body@.subrange(8, body.len() as int));
                    Ok(WireMessage::SegmentChunk { segment_id, index, bytes })
                }
            } else {
                Ok(WireMessage::NegotiationPayload { type_tag: tag, bytes: body })
            }
        },
    }
}

/// The value read from the first four bytes does not depend on what follows.
proof fn lemma_be32_prefix(b: Seq<u8>)
    requires
        b.len() >= 4,
    ensures
        be32_value(b.subrange(0, 4)) == be32_value(b),
{
}

/// Every encodable record decodes back to itself, and its bytes cut short by
/// one are reported as truncated.
pub proof fn lemma_record_round_trip(m: WireRecord)
    requires
        record_encodable(m),
    ensures
        parse_record(record_bytes(m)) == Ok::<WireRecord, TransportError>(m),
        parse_record(record_bytes(m).drop_last()) == Err::<WireRecord, TransportError>(
            TransportError::TruncatedMessage,
        ),
{
    match m {
        WireRecord::NegotiationPayload { type_tag, bytes } => {
            lemma_frame_round_trip(type_tag, bytes);
        },
        WireRecord::SegmentStart { total_segments, segment_id } => {
            let body = be32(total_segments) + be32(segment_id);
            lemma_frame_round_trip(SEGMENT_START_TAG, body);
            lemma_be32_round_trip(total_segments);
            lemma_be32_round_trip(segment_id);
            assert(body.subrange(0, 4) =~= be32(total_segments));
            assert(body.subrange(4, 8) =~= be32(segment_id));
            assert(body.subrange(4, 8).subrange(0, 4) =~= body.subrange(4, 8));
        },
        WireRecord::SegmentChunk { segment_id, index, bytes } => {
            let body = be32(segment_id) + be32(index) + bytes;
            lemma_frame_round_trip(SEGMENT_CHUNK_TAG, body);
            lemma_be32_round_trip(segment_id);
            lemma_be32_round_trip(index);
            assert(body.subrange(0, 4) =~= be32(segment_id));
            assert(body.subrange(4, 8) =~= be32(index));
            assert(body.subrange(8, body.len() as int) =~= bytes);
        },
    }
}

} // verus!
