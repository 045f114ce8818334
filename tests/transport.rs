use base64::Engine;
use ernest_transport::codec::{
    decode, decode_frame, decode_record, encode, encode_frame, encode_record, WireMessage,
    SEALED_PAYLOAD_TAG,
    SEGMENT_CHUNK_TAG, SEGMENT_START_TAG,
};
use ernest_transport::crypto::Identity;
use ernest_transport::error::TransportError;
use ernest_transport::reassembly::ReassemblyBuffer;
use ernest_transport::relay::{
    dlc_message_filter, oracle_message_filter, publish_outcome, EnvelopeKind, SubscriptionCursor,
    DLC_MESSAGE_KIND, ORACLE_ANNOUNCEMENT_KIND, ORACLE_ATTESTATION_KIND,
};
use ernest_transport::router::{DlcHandler, Envelope, RouteAction, STALE_SEGMENT_TIMEOUT};
use ernest_transport::segment::segment;

fn b64(bytes: &[u8]) -> String {
    base64::engine::general_purpose::STANDARD.encode(bytes)
}

fn key(last: u8) -> Vec<u8> {
    let mut k = vec![0u8; 32];
    k[31] = last;
    k
}

fn identity(last: u8) -> Identity {
    Identity::from_secret(&key(last)).unwrap()
}

fn envelope(kind: u16, author: &[u8], content: String, at: u64) -> Envelope {
    Envelope {
        id: vec![7u8; 32],
        kind,
        author: author.to_vec(),
        recipient: None,
        content,
        created_at: at,
    }
}

fn payload_of(n: usize) -> Vec<u8> {
    (0..n).map(|i| (i % 251) as u8).collect()
}

const REJECT_TYPE: u16 = 43024;

fn reject_body(n: usize) -> Vec<u8> {
    payload_of(n.max(32))
}

#[test]
fn encode_writes_tag_then_body() {
    assert_eq!(encode(0x0102, &vec![0xAA, 0xBB]), vec![0x01, 0x02, 0xAA, 0xBB]);
}

#[test]
fn decode_round_trip_with_empty_payload() {
    let r = encode(42, &Vec::new());
    assert_eq!(r, vec![0, 42]);
    assert_eq!(decode(&r), Ok((42, Vec::new())));
}

#[test]
fn decode_round_trip() {
    let p = payload_of(300);
    assert_eq!(decode(&encode(0xA71C, &p)), Ok((0xA71C, p)));
}

#[test]
fn decode_too_short() {
    assert_eq!(decode(&vec![]), Err(TransportError::TruncatedMessage));
    assert_eq!(decode(&vec![1]), Err(TransportError::TruncatedMessage));
    let mut b = encode(9, &vec![]);
    b.pop();
    assert_eq!(decode(&b), Err(TransportError::TruncatedMessage));
}

#[test]
fn frame_writes_tag_length_payload() {
    let r = encode_frame(0x0102, &vec![0xAA, 0xBB]);
    assert_eq!(r, vec![0x01, 0x02, 0, 0, 0, 2, 0xAA, 0xBB]);
    assert_eq!(decode_frame(&r), Ok((0x0102, vec![0xAA, 0xBB])));
    assert_eq!(decode_frame(&encode_frame(3, &vec![])), Ok((3, vec![])));
}

#[test]
fn frame_truncated_by_one_byte() {
    for n in [0usize, 1, 5, 300] {
        let mut b = encode_frame(9, &payload_of(n));
        b.pop();
        assert_eq!(decode_frame(&b), Err(TransportError::TruncatedMessage));
    }
    assert_eq!(decode_frame(&vec![0, 1, 0, 0, 0]), Err(TransportError::TruncatedMessage));
}

#[test]
fn frame_length_claims_too_much() {
    assert_eq!(decode_frame(&vec![0, 1, 0, 0, 0, 9, 1, 2]), Err(TransportError::TruncatedMessage));
}

#[test]
fn frame_trailing_bytes_malformed() {
    assert_eq!(decode_frame(&vec![0, 1, 0, 0, 0, 1, 1, 2]), Err(TransportError::MalformedPayload));
}

#[test]
fn record_round_trip() {
    let start = WireMessage::SegmentStart { total_segments: 5, segment_id: 77 };
    let bytes = encode_record(&start);
    assert_eq!(&bytes[0..2], &SEGMENT_START_TAG.to_be_bytes());
    assert!(matches!(
        decode_record(&bytes),
        Ok(WireMessage::SegmentStart { total_segments: 5, segment_id: 77 })
    ));
    let chunk = WireMessage::SegmentChunk { segment_id: 77, index: 3, bytes: vec![1, 2, 3] };
    let bytes = encode_record(&chunk);
    assert_eq!(&bytes[0..2], &SEGMENT_CHUNK_TAG.to_be_bytes());
    match decode_record(&bytes) {
        Ok(WireMessage::SegmentChunk { segment_id, index, bytes }) => {
            assert_eq!((segment_id, index, bytes), (77, 3, vec![1, 2, 3]));
        }
        other => panic!("unexpected {:?}", other),
    }
    let mut cut = encode_record(&chunk);
    cut.pop();
    assert_eq!(decode_record(&cut).err(), Some(TransportError::TruncatedMessage));
}

#[test]
fn small_payload_is_one_record() {
    let p = payload_of(100);
    let recs = segment(&p, 100, 1).unwrap();
    assert_eq!(recs.len(), 1);
    match &recs[0] {
        WireMessage::NegotiationPayload { type_tag, bytes } => {
            assert_eq!(*type_tag, SEALED_PAYLOAD_TAG);
            assert_eq!(bytes, &p);
        }
        other => panic!("unexpected {:?}", other),
    }
}

#[test]
fn ten_kilobytes_in_two_kilobyte_chunks() {
    let p = payload_of(10 * 1024);
    let recs = segment(&p, 2 * 1024, 5).unwrap();
    assert_eq!(recs.len(), 6);
    assert!(matches!(recs[0], WireMessage::SegmentStart { total_segments: 5, segment_id: 5 }));
    for (i, r) in recs[1..].iter().enumerate() {
        match r {
            WireMessage::SegmentChunk { segment_id, index, bytes } => {
                assert_eq!(*segment_id, 5);
                assert_eq!(*index as usize, i);
                assert_eq!(bytes, &p[i * 2048..(i + 1) * 2048].to_vec());
            }
            other => panic!("unexpected {:?}", other),
        }
    }
}

#[test]
fn uneven_last_chunk() {
    let p = payload_of(10);
    let recs = segment(&p, 4, 9).unwrap();
    assert_eq!(recs.len(), 4);
    match &recs[3] {
        WireMessage::SegmentChunk { index, bytes, .. } => {
            assert_eq!(*index, 2);
            assert_eq!(bytes, &vec![8u8, 9]);
        }
        other => panic!("unexpected {:?}", other),
    }
}

#[test]
fn too_many_segments_rejected() {
    let p = payload_of(70000);
    assert!(matches!(segment(&p, 1, 1), Err(TransportError::MalformedPayload)));
}

fn reassemble_in(order: &[usize], recs: &[WireMessage]) -> Vec<Vec<u8>> {
    let mut buf = ReassemblyBuffer::new(5, 0);
    let mut out = Vec::new();
    for &k in order {
        if let Some(p) = buf.accept(&recs[k]) {
            out.push(p);
        }
    }
    out
}

#[test]
fn reassembly_in_any_order() {
    let p = payload_of(10 * 1024);
    let recs = segment(&p, 2048, 5).unwrap();
    for order in [
        vec![0, 1, 2, 3, 4, 5],
        vec![5, 4, 3, 2, 1, 0],
        vec![2, 0, 5, 1, 4, 3],
        vec![1, 2, 3, 4, 5, 0],
    ] {
        let out = reassemble_in(&order, &recs);
        assert_eq!(out, vec![p.clone()]);
    }
}

#[test]
fn duplicate_chunk_is_not_counted_twice() {
    let p = payload_of(10 * 1024);
    let recs = segment(&p, 2048, 5).unwrap();
    let mut buf = ReassemblyBuffer::new(5, 0);
    for k in [0, 1, 1, 2, 3, 3, 4] {
        assert!(buf.accept(&recs[k]).is_none());
    }
    assert_eq!(buf.accept(&recs[5]), Some(p));
}

#[test]
fn reassembly_ignores_other_splits() {
    let p = payload_of(10);
    let recs = segment(&p, 4, 9).unwrap();
    let mut buf = ReassemblyBuffer::new(8, 0);
    for r in &recs {
        assert!(buf.accept(r).is_none());
    }
}

#[test]
fn buffer_staleness() {
    let buf = ReassemblyBuffer::new(1, 100);
    assert!(!buf.is_stale(100 + STALE_SEGMENT_TIMEOUT, STALE_SEGMENT_TIMEOUT));
    assert!(buf.is_stale(101 + STALE_SEGMENT_TIMEOUT, STALE_SEGMENT_TIMEOUT));
    assert!(!buf.is_stale(50, STALE_SEGMENT_TIMEOUT));
}

#[test]
fn kinds_from_codes() {
    assert_eq!(EnvelopeKind::from_code(8888), EnvelopeKind::NegotiationMessage);
    assert_eq!(EnvelopeKind::from_code(88), EnvelopeKind::OracleAnnouncement);
    assert_eq!(EnvelopeKind::from_code(89), EnvelopeKind::OracleAttestation);
    assert_eq!(EnvelopeKind::from_code(1), EnvelopeKind::Unknown(1));
    assert_eq!(EnvelopeKind::Unknown(1).code(), 1);
    assert_eq!(EnvelopeKind::OracleAttestation.code(), ORACLE_ATTESTATION_KIND);
}

#[test]
fn filters_and_cursor() {
    let me = key(3);
    let f = dlc_message_filter(&me, 10);
    assert_eq!(f.kinds, vec![DLC_MESSAGE_KIND]);
    assert_eq!(f.since, 10);
    assert_eq!(f.recipient, Some(me.clone()));
    let o = oracle_message_filter(10);
    assert_eq!(o.kinds, vec![ORACLE_ANNOUNCEMENT_KIND, ORACLE_ATTESTATION_KIND]);
    assert_eq!(o.recipient, None);
}

#[test]
fn reconnect_keeps_original_since() {
    let me = key(3);
    let cursor = SubscriptionCursor::start(1000);
    let first = cursor.filters(&me);
    // reconnecting later gives the filters of the session start
    let again = cursor.filters(&me);
    assert_eq!(again.len(), 2);
    assert!(again.iter().all(|f| f.since == 1000));
    assert_eq!(first[0].since, again[0].since);
}

#[test]
fn publish_needs_one_relay() {
    assert_eq!(publish_outcome(1, 3), Ok(()));
    assert_eq!(publish_outcome(0, 3), Err(TransportError::PublishFailed));
}

#[test]
fn known_public_key() {
    let id = identity(1);
    let expected: Vec<u8> = (0..32)
        .map(|i| {
            u8::from_str_radix(
                &"79be667ef9dcbbac55a06295ce870b07029bfcdb2dce28d959f2815b16f81798"[2 * i..2 * i + 2],
                16,
            )
            .unwrap()
        })
        .collect();
    assert_eq!(id.public, expected);
    assert_eq!(id.secret, key(1));
}

#[test]
fn corrupt_key_material() {
    assert!(matches!(Identity::from_secret(&vec![0u8; 32]), Err(TransportError::CorruptKeyMaterial)));
    assert!(matches!(Identity::from_secret(&vec![1u8; 5]), Err(TransportError::CorruptKeyMaterial)));
    let k = key(2);
    match Identity::load_or_create(Some(&k)) {
        Ok((id, created)) => {
            assert!(!created);
            assert_eq!(id.secret, k);
        }
        Err(e) => panic!("unexpected {:?}", e),
    }
    let (fresh, created) = Identity::load_or_create(None).unwrap();
    assert!(created);
    assert_eq!(fresh.secret.len(), 32);
}

#[test]
fn encrypt_decrypt_round_trip() {
    let a = identity(11);
    let b = identity(12);
    let p = payload_of(1000);
    let c = a.encrypt_for(&b.public, &p, [3u8; 16]).unwrap();
    assert_eq!(a.encrypt_for(&b.public, &p, [3u8; 16]).unwrap(), c);
    let c2 = a.encrypt_for(&b.public, &p, [4u8; 16]).unwrap();
    assert_ne!(c2, c);
    assert_eq!(b.decrypt_from(&a.public, &c2), Ok(p.clone()));
    assert_ne!(c, p);
    assert_eq!(b.decrypt_from(&a.public, &c), Ok(p));
    let eve = identity(13);
    assert!(eve.decrypt_from(&a.public, &c) != Ok(payload_of(1000)));
}

#[test]
fn decrypt_garbage_fails() {
    let b = identity(12);
    let a = identity(11);
    assert_eq!(b.decrypt_from(&a.public, &b"not a ciphertext".to_vec()), Err(TransportError::DecryptionFailed));
}

#[test]
fn oracle_announcement_skips_decryption() {
    let mut h = DlcHandler::new(identity(5));
    let data = vec![1u8, 2, 3, 4];
    let env = envelope(ORACLE_ANNOUNCEMENT_KIND, &key(9), b64(&data), 1);
    match h.receive_event(&env, 1) {
        RouteAction::CacheAnnouncement(d) => assert_eq!(d, data),
        other => panic!("unexpected {:?}", other),
    }
    let env = envelope(ORACLE_ATTESTATION_KIND, &key(9), b64(&data), 1);
    assert!(matches!(h.receive_event(&env, 1), RouteAction::CacheAttestation(ref d) if *d == data));
    let env = envelope(ORACLE_ATTESTATION_KIND, &key(9), "%%".to_string(), 1);
    assert!(matches!(h.receive_event(&env, 1), RouteAction::Drop(TransportError::MalformedPayload)));
}

#[test]
fn unknown_kind_ignored() {
    let mut h = DlcHandler::new(identity(5));
    let env = envelope(1, &key(9), String::new(), 1);
    assert!(matches!(h.receive_event(&env, 1), RouteAction::Ignore));
}

#[test]
fn plaintext_decoding() {
    let sender = key(4);
    let id = vec![1u8; 32];
    let body = reject_body(32);
    match DlcHandler::deliver_plaintext(&sender, &id, &encode(REJECT_TYPE, &body)) {
        RouteAction::Deliver { sender: s, envelope_id, type_tag, payload } => {
            assert_eq!((s, envelope_id, type_tag, payload), (sender.clone(), id.clone(), REJECT_TYPE, body));
        }
        other => panic!("unexpected {:?}", other),
    }
    assert!(matches!(
        DlcHandler::deliver_plaintext(&sender, &id, &encode(1, &reject_body(32))),
        RouteAction::Drop(TransportError::MalformedPayload)
    ));
    assert!(matches!(
        DlcHandler::deliver_plaintext(&sender, &id, &encode(REJECT_TYPE, &vec![1, 2])),
        RouteAction::Drop(TransportError::MalformedPayload)
    ));
    assert!(matches!(
        DlcHandler::deliver_plaintext(&sender, &id, &vec![1]),
        RouteAction::Drop(TransportError::MalformedPayload)
    ));
}

#[test]
fn envelope_contents_armor_records() {
    let ct = payload_of(10);
    let v = DlcHandler::envelope_contents(&ct, 4, 3).unwrap();
    assert_eq!(v.len(), 4);
    let first = base64::engine::general_purpose::STANDARD.decode(&v[0]).unwrap();
    assert_eq!(first, encode_record(&WireMessage::SegmentStart { total_segments: 3, segment_id: 3 }));
    let one = DlcHandler::envelope_contents(&ct, 10, 3).unwrap();
    assert_eq!(one, vec![b64(&encode_frame(SEALED_PAYLOAD_TAG, &ct))]);
}

#[test]
fn end_to_end_split_message_delivered_once() {
    let a = identity(21);
    let mut hb = DlcHandler::new(identity(22));
    let ha = DlcHandler::new(identity(21));
    let payload = payload_of(10 * 1024);
    let contents = ha.prepare_message(&hb.identity.public, REJECT_TYPE, &payload, 2048, 99, [1u8; 16]).unwrap();
    assert!(contents.len() > 2);
    let mut delivered = Vec::new();
    for c in contents.iter().rev() {
        let env = envelope(DLC_MESSAGE_KIND, &a.public, c.clone(), 5);
        match hb.receive_event(&env, 5) {
            RouteAction::Wait => {}
            RouteAction::Deliver { sender, type_tag, payload, .. } => {
                delivered.push((sender, type_tag, payload))
            }
            other => panic!("unexpected {:?}", other),
        }
    }
    assert_eq!(delivered, vec![(a.public.clone(), REJECT_TYPE, payload)]);
    assert!(hb.buffers.is_empty());
}

#[test]
fn end_to_end_small_message() {
    let a = identity(31);
    let ha = DlcHandler::new(identity(31));
    let mut hb = DlcHandler::new(identity(32));
    let body = reject_body(40);
    let contents = ha.prepare_message(&hb.identity.public, REJECT_TYPE, &body, 60000, 1, [2u8; 16]).unwrap();
    assert_eq!(contents.len(), 1);
    let env = envelope(DLC_MESSAGE_KIND, &a.public, contents[0].clone(), 5);
    match hb.receive_event(&env, 5) {
        RouteAction::Deliver { type_tag, payload, envelope_id, .. } => {
            assert_eq!((type_tag, payload), (REJECT_TYPE, body.clone()));
            assert_eq!(envelope_id, vec![7u8; 32]);
        }
        other => panic!("unexpected {:?}", other),
    }
    // a third party cannot read it
    let mut hc = DlcHandler::new(identity(33));
    assert!(matches!(hc.receive_event(&env, 5), RouteAction::Drop(TransportError::DecryptionFailed)));
}

#[test]
fn stale_split_discarded() {
    let a = identity(41);
    let ha = DlcHandler::new(identity(41));
    let mut hb = DlcHandler::new(identity(42));
    let contents = ha.prepare_message(&hb.identity.public, REJECT_TYPE, &payload_of(5000), 1024, 8, [5u8; 16]).unwrap();
    let env = envelope(DLC_MESSAGE_KIND, &a.public, contents[0].clone(), 5);
    assert!(matches!(hb.receive_event(&env, 100), RouteAction::Wait));
    assert_eq!(hb.buffers.len(), 1);
    assert_eq!(hb.discard_stale(100 + STALE_SEGMENT_TIMEOUT), 0);
    assert_eq!(hb.discard_stale(101 + STALE_SEGMENT_TIMEOUT), 1);
    assert!(hb.buffers.is_empty());
}

#[test]
fn bad_record_tag_dropped() {
    let mut h = DlcHandler::new(identity(5));
    let env = envelope(DLC_MESSAGE_KIND, &key(9), b64(&encode_frame(1, &vec![1])), 1);
    assert!(matches!(h.receive_event(&env, 1), RouteAction::Drop(TransportError::MalformedPayload)));
    let env = envelope(DLC_MESSAGE_KIND, &key(9), b64(&[0, 1, 0]), 1);
    assert!(matches!(h.receive_event(&env, 1), RouteAction::Drop(TransportError::TruncatedMessage)));
}

#[test]
fn stale_buffer_reports_error() {
    let buf = ReassemblyBuffer::new(1, 10);
    assert_eq!(buf.check_fresh(20, 10), Ok(()));
    assert_eq!(buf.check_fresh(21, 10), Err(TransportError::StaleReassembly));
}

#[test]
fn unknown_message_type_dropped_after_decryption() {
    let a = identity(51);
    let ha = DlcHandler::new(identity(51));
    let mut hb = DlcHandler::new(identity(52));
    let contents = ha.prepare_message(&hb.identity.public, 1, &reject_body(32), 4096, 1, [6u8; 16]).unwrap();
    let env = envelope(DLC_MESSAGE_KIND, &a.public, contents[0].clone(), 5);
    assert!(matches!(hb.receive_event(&env, 5), RouteAction::Drop(TransportError::MalformedPayload)));
}

#[test]
fn sealing_for_invalid_recipient_fails() {
    let ha = DlcHandler::new(identity(51));
    let r = ha.prepare_message(&vec![1u8; 5], REJECT_TYPE, &reject_body(32), 4096, 1, [6u8; 16]);
    assert_eq!(r, Err(TransportError::MalformedPayload));
}
