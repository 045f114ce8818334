use vstd::prelude::*;
use crate::bytes::copy_bytes;
use crate::codec::{parse_record, tagged, WireMessage, WireRecord, SEALED_PAYLOAD_TAG};
use crate::crypto::{derived_public_key, nip04_opened, nip04_sealed};
use crate::crypto::Identity;
use crate::error::TransportError;
use crate::relay::{
    dlc_message_filter, oracle_message_filter, SubscriptionFilter, DLC_MESSAGE_KIND,
    ORACLE_ANNOUNCEMENT_KIND, ORACLE_ATTESTATION_KIND,
};
use crate::router::{
    armored_records, buffer_state, send_records, event_outcome, event_state, sealed_outcome, unarmored,
    DlcHandler, Envelope, RouteAction, RouteOutcome,
};
use crate::segment::segmented;

verus! {

/// The envelopes to publish for one outgoing negotiation message.
#[derive(Debug)]
pub struct OutboundMessage {
    /// Public key of the recipient.
    pub recipient: Vec<u8>,
    /// Id of the envelope this one answers, if any.
    pub reply_to: Option<Vec<u8>>,
    /// The envelope texts, in the order to publish them.
    pub contents: Vec<String>,
}

/// What reading a single-envelope negotiation message gives, for the
/// private key `secret`.
pub open spec fn parsed_message(secret: Seq<u8>, env: Envelope) -> Result<(u16, Seq<u8>), TransportError> {
    match unarmored(env.content@) {
        None => Err(TransportError::MalformedPayload),
        Some(b) => match parse_record(b) {
            Err(e) => Err(e),
            Ok(WireRecord::NegotiationPayload { type_tag, bytes }) => if type_tag
                == SEALED_PAYLOAD_TAG {
                match sealed_outcome(secret, env.author@, env.id@, bytes) {
                    RouteOutcome::Deliver { type_tag, payload, .. } => Ok((type_tag, payload)),
                    RouteOutcome::Drop(e) => Err(e),
                    _ => Err(TransportError::MalformedPayload),
                }
            } else {
                Err(TransportError::MalformedPayload)
            },
            Ok(_) => Err(TransportError::MalformedPayload),
        },
    }
}

/// The transport of one party: its identity, its relay, and the router of
/// what comes in.
pub struct NostrDlcHandler {
    /// Router of incoming envelopes, holding this party's keypair.
    pub router: DlcHandler,
    /// Address of the relay to publish to and subscribe at.
    pub relay_url: String,
}

/// Whether `s` parses as a URL.
pub uninterp spec fn relay_url_parses(s: Seq<char>) -> bool;

/// Relies on the `url` crate's `Url::parse`, as nostr re-exports it: whether
/// the text is a valid absolute URL; it depends on the text alone.
#[verifier::external_body]
fn is_relay_url(s: &str) -> (r: bool)
    ensures
        r == relay_url_parses(s@),
{
    nostr::types::url::Url::parse(s).is_ok()
}

impl NostrDlcHandler {
    pub open spec fn wf(&self) -> bool {
        self.router.wf()
    }

    /// A transport for `identity` at the relay `relay_url`; fails with
    /// `InvalidRelayUrl` when the address does not parse as a URL.
    pub fn new(identity: Identity, relay_url: String) -> (r: Result<NostrDlcHandler, TransportError>)
        requires
            identity.wf(),
        ensures
            match r {
                Ok(h) => relay_url_parses(relay_url@) && h.wf() && h.router.identity == identity
                    && h.router.buffers@.len() == 0 && h.relay_url == relay_url,
                Err(e) => !relay_url_parses(relay_url@) && e == TransportError::InvalidRelayUrl,
            },
    {
        if !is_relay_url(relay_url.as_str()) {
            return Err(TransportError::InvalidRelayUrl);
        }
        Ok(NostrDlcHandler { router: DlcHandler::new(identity), relay_url })
    }

    /// This party's public key, its address on the network.
    pub fn public_key(&self) -> (r: Vec<u8>)
        ensures
            r@ == self.router.identity.public@,
    {
        copy_bytes(&self.router.identity.public)
    }

    /// The subscription for negotiation messages addressed to this party.
    pub fn create_dlc_message_filter(&self, since: u64) -> (r: SubscriptionFilter)
        ensures
            r.kinds@ == seq![DLC_MESSAGE_KIND],
            r.since == since,
            r.recipient matches Some(p) && p@ == self.router.identity.public@,
    {
        dlc_message_filter(&self.router.identity.public, since)
    }

    /// The subscription for oracle announcements and attestations.
    pub fn create_oracle_message_filter(&self, since: u64) -> (r: SubscriptionFilter)
        ensures
            r.kinds@ == seq![ORACLE_ANNOUNCEMENT_KIND, ORACLE_ATTESTATION_KIND],
            r.since == since,
            r.recipient is None,
    {
        oracle_message_filter(since)
    }

    /// The envelopes that carry the negotiation message `msg` of type
    /// `type_tag` to `to`, answering `event_id` when given: encrypted under
    /// the fresh IV `iv`, and split under `segment_id` when larger than
    /// `max_chunk_size`.
    pub fn create_dlc_msg_event(
        &self,
        to: &Vec<u8>,
        event_id: Option<Vec<u8>>,
        type_tag: u16,
        msg: &Vec<u8>,
        max_chunk_size: usize,
        segment_id: u32,
        iv: [u8; 16],
    ) -> (r: Result<OutboundMessage, TransportError>)
        requires
            self.wf(),
            max_chunk_size > 0,
        ensures
            match r {
                Ok(m) => m.recipient@ == to@ && m.reply_to == event_id && (send_records(
                    self.router.identity.secret@,
                    to@,
                    tagged(type_tag, msg@),
                    max_chunk_size as nat,
                    segment_id,
                    iv@,
                ) matches Some(recs) && armored_records(recs, m.contents@)),
                Err(e) => e == TransportError::MalformedPayload && send_records(
                    self.router.identity.secret@,
                    to@,
                    tagged(type_tag, msg@),
                    max_chunk_size as nat,
                    segment_id,
                    iv@,
                ) is None,
            },
            r is Ok || derived_public_key(self.router.identity.secret@) is None || (forall|
                sk: Seq<u8>,
            | #[trigger] derived_public_key(sk) != Some(to@)) || nip04_sealed(
                self.router.identity.secret@,
                to@,
                tagged(type_tag, msg@),
                iv@,
            ) is Some,
            r is Ok ==> forall|sk: Seq<u8>|
                #[trigger] derived_public_key(sk) == Some(to@) ==> nip04_opened(
                    sk,
                    self.router.identity.public@,
                    nip04_sealed(self.router.identity.secret@, to@, tagged(type_tag, msg@), iv@)->Some_0,
                ) == Some(tagged(type_tag, msg@)),
    {
        let contents = self.router.prepare_message(to, type_tag, msg, max_chunk_size, segment_id, iv)?;
        Ok(OutboundMessage { recipient: copy_bytes(to), reply_to: event_id, contents })
    }

    /// The envelopes of the engine's reply `reply` of type `type_tag` to a
    /// delivered message: addressed to its sender and answering its envelope.
    pub fn create_reply(
        &self,
        delivered: &RouteAction,
        type_tag: u16,
        reply: &Vec<u8>,
        max_chunk_size: usize,
        segment_id: u32,
        iv: [u8; 16],
    ) -> (r: Result<OutboundMessage, TransportError>)
        requires
            self.wf(),
            max_chunk_size > 0,
            delivered is Deliver,
        ensures
            match r {
                Ok(m) => m.recipient@ == delivered->Deliver_sender@ && (m.reply_to matches Some(
                    id,
                ) && id@ == delivered->Deliver_envelope_id@) && (send_records(
                    self.router.identity.secret@,
                    delivered->Deliver_sender@,
                    tagged(type_tag, reply@),
                    max_chunk_size as nat,
                    segment_id,
                    iv@,
                ) matches Some(recs) && armored_records(recs, m.contents@)),
                Err(e) => e == TransportError::MalformedPayload && send_records(
                    self.router.identity.secret@,
                    delivered->Deliver_sender@,
                    tagged(type_tag, reply@),
                    max_chunk_size as nat,
                    segment_id,
                    iv@,
                ) is None,
            },
    {
        match delivered {
            RouteAction::Deliver { sender, envelope_id, .. } => self.create_dlc_msg_event(
                sender,
                Some(copy_bytes(envelope_id)),
                type_tag,
                reply,
                max_chunk_size,
                segment_id,
                iv,
            ),
            _ => Err(TransportError::MalformedPayload),
        }
    }

    /// Reads a negotiation message sent whole in one envelope; a split one
    /// is refused here (see [`NostrDlcHandler::handle_dlc_msg_event`]).
    pub fn parse_dlc_msg_event(&self, event: &Envelope) -> (r: Result<(u16, Vec<u8>), TransportError>)
        ensures
            match r {
                Ok((t, p)) => parsed_message(self.router.identity.secret@, *event) == Ok::<
                    (u16, Seq<u8>),
                    TransportError,
                >((t, p@)),
                Err(e) => parsed_message(self.router.identity.secret@, *event) == Err::<
                    (u16, Seq<u8>),
                    TransportError,
                >(e),
            },
    {
        let bytes = match crate::armor::from_base64(event.content.as_str()) {
            Ok(b) => b,
            Err(e) => {
                return Err(e);
            },
        };
        assert(unarmored(event.content@) == Some(bytes@));
        match crate::codec::decode_record(&bytes)? {
            WireMessage::NegotiationPayload { type_tag, bytes: ciphertext } => {
                if type_tag != SEALED_PAYLOAD_TAG {
                    return Err(TransportError::MalformedPayload);
                }
                match self.router.open_sealed(&event.author, &event.id, &ciphertext) {
                    RouteAction::Deliver { type_tag, payload, .. } => Ok((type_tag, payload)),
                    RouteAction::Drop(e) => Err(e),
                    _ => Err(TransportError::MalformedPayload),
                }
            },
            _ => Err(TransportError::MalformedPayload),
        }
    }

    /// Routes one incoming envelope received at `now`.
    pub fn handle_dlc_msg_event(&mut self, event: &Envelope, now: u64) -> (r: RouteAction)
        requires
            old(self).wf(),
        ensures
            final(self).wf(),
            final(self).router.identity == old(self).router.identity,
            final(self).relay_url == old(self).relay_url,
            r@ == event_outcome(old(self).router.identity.secret@, old(self).router.buffers@, *event),
            forall|j: u32| #[trigger]
                buffer_state(final(self).router.buffers@, j) == event_state(
                    old(self).router.buffers@,
                    *event,
                    j,
                ),
    {
        self.router.receive_event(event, now)
    }
}

} // verus!
