use ernest_transport::chain::transaction_confirmations;
use base64::Engine;
use ernest_transport::crypto::Identity;
use ernest_transport::error::TransportError;
use ernest_transport::nostr_manager::NostrDlcHandler;
use ernest_transport::oracle::{
    oracle_announcement_from_bytes, oracle_announcement_from_str, oracle_attestation_from_bytes,
    oracle_attestation_from_str,
};
use ernest_transport::relay::{DLC_MESSAGE_KIND, ORACLE_ANNOUNCEMENT_KIND, ORACLE_ATTESTATION_KIND};
use ernest_transport::router::{Envelope, RouteAction};

const REJECT_TYPE: u16 = 43024;

fn body() -> Vec<u8> {
    (0..40).map(|i| i as u8).collect()
}

fn party(last: u8) -> NostrDlcHandler {
    let mut k = vec![0u8; 32];
    k[31] = last;
    NostrDlcHandler::new(Identity::from_secret(&k).unwrap(), "wss://relay.example".to_string()).unwrap()
}

fn envelope(kind: u16, author: &[u8], content: String) -> Envelope {
    Envelope {
        id: vec![3u8; 32],
        kind,
        author: author.to_vec(),
        recipient: None,
        content,
        created_at: 1,
    }
}

#[test]
fn handler_filters() {
    let h = party(7);
    assert_eq!(h.public_key(), h.router.identity.public);
    let f = h.create_dlc_message_filter(55);
    assert_eq!(f.kinds, vec![DLC_MESSAGE_KIND]);
    assert_eq!(f.since, 55);
    assert_eq!(f.recipient, Some(h.public_key()));
    let o = h.create_oracle_message_filter(55);
    assert_eq!(o.kinds, vec![ORACLE_ANNOUNCEMENT_KIND, ORACLE_ATTESTATION_KIND]);
    assert_eq!(o.since, 55);
    assert!(o.recipient.is_none());
    assert_eq!(h.relay_url, "wss://relay.example");
}

#[test]
fn message_event_round_trip() {
    let a = party(1);
    let b = party(2);
    let out = a
        .create_dlc_msg_event(&b.public_key(), Some(vec![9u8; 32]), REJECT_TYPE, &body(), 4096, 1, [7u8; 16])
        .unwrap();
    assert_eq!(out.recipient, b.public_key());
    assert_eq!(out.reply_to, Some(vec![9u8; 32]));
    assert_eq!(out.contents.len(), 1);
    let env = envelope(DLC_MESSAGE_KIND, &a.public_key(), out.contents[0].clone());
    assert_eq!(b.parse_dlc_msg_event(&env), Ok((REJECT_TYPE, body())));
    let c = party(3);
    assert_eq!(c.parse_dlc_msg_event(&env), Err(TransportError::DecryptionFailed));
}

#[test]
fn split_event_refused_by_parse_but_routed() {
    let a = party(1);
    let mut b = party(2);
    let msg: Vec<u8> = (0..3000).map(|i| (i % 7) as u8).collect();
    let out = a.create_dlc_msg_event(&b.public_key(), None, REJECT_TYPE, &msg, 512, 4, [8u8; 16]).unwrap();
    assert!(out.contents.len() > 2);
    let first = envelope(DLC_MESSAGE_KIND, &a.public_key(), out.contents[0].clone());
    assert_eq!(b.parse_dlc_msg_event(&first), Err(TransportError::MalformedPayload));
    let mut got = Vec::new();
    for c in &out.contents {
        let env = envelope(DLC_MESSAGE_KIND, &a.public_key(), c.clone());
        if let RouteAction::Deliver { type_tag, payload, .. } = b.handle_dlc_msg_event(&env, 1) {
            got.push((type_tag, payload));
        }
    }
    assert_eq!(got, vec![(REJECT_TYPE, msg)]);
}

#[test]
fn oracle_content_that_does_not_parse() {
    assert_eq!(oracle_announcement_from_str("%%%").err(), Some(TransportError::MalformedPayload));
    let junk = base64::engine::general_purpose::STANDARD.encode([1u8, 2, 3]);
    assert_eq!(oracle_announcement_from_str(&junk).err(), Some(TransportError::MalformedPayload));
    assert_eq!(oracle_attestation_from_str(&junk).err(), Some(TransportError::MalformedPayload));
    assert_eq!(oracle_announcement_from_bytes(&vec![]).err(), Some(TransportError::MalformedPayload));
    assert_eq!(oracle_attestation_from_bytes(&vec![0u8; 3]).err(), Some(TransportError::MalformedPayload));
}

#[test]
fn confirmations_from_heights() {
    assert_eq!(transaction_confirmations(true, Some(100), 106), 6);
    assert_eq!(transaction_confirmations(true, Some(100), 100), 0);
    assert_eq!(transaction_confirmations(true, Some(110), 106), 0);
    assert_eq!(transaction_confirmations(true, None, 106), 0);
    assert_eq!(transaction_confirmations(false, Some(100), 106), 0);
}

#[test]
fn bad_relay_url_rejected() {
    let mut k = vec![0u8; 32];
    k[31] = 9;
    let id = Identity::from_secret(&k).unwrap();
    assert!(matches!(
        NostrDlcHandler::new(id, "not a url".to_string()),
        Err(TransportError::InvalidRelayUrl)
    ));
}

#[test]
fn reply_goes_back_to_sender() {
    let a = party(1);
    let mut b = party(2);
    let out = a.create_dlc_msg_event(&b.public_key(), None, REJECT_TYPE, &body(), 4096, 1, [1u8; 16]).unwrap();
    let env = envelope(DLC_MESSAGE_KIND, &a.public_key(), out.contents[0].clone());
    let delivered = b.handle_dlc_msg_event(&env, 1);
    assert!(matches!(delivered, RouteAction::Deliver { .. }));
    let reply = b.create_reply(&delivered, REJECT_TYPE, &body(), 4096, 2, [2u8; 16]).unwrap();
    assert_eq!(reply.recipient, a.public_key());
    assert_eq!(reply.reply_to, Some(vec![3u8; 32]));
    let back = envelope(DLC_MESSAGE_KIND, &b.public_key(), reply.contents[0].clone());
    assert_eq!(a.parse_dlc_msg_event(&back), Ok((REJECT_TYPE, body())));
}
