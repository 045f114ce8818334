use vstd::prelude::*;
use crate::armor::{base64_text, from_base64, to_base64};
use crate::bytes::copy_bytes;
use crate::codec::{
    decode, decode_record, encode, encode_record, parse_record, record_bytes, record_encodable,
    tagged, untag, WireMessage, WireRecord, CHUNK_HEADER_LEN, MAX_FRAME_PAYLOAD, SEALED_PAYLOAD_TAG,
};
use crate::crypto::{derived_public_key, nip04_opened, nip04_sealed, Identity};
use crate::message::{dlc_message_parses, is_dlc_message};
use crate::error::TransportError;
use crate::reassembly::{apply, apply_all, assembled, empty_state, is_complete, ReassemblyBuffer, ReassemblyState};
use crate::relay::EnvelopeKind;
use crate::segment::segmented;

verus! {

/// Seconds after which an incomplete split payload is given up.
pub const STALE_SEGMENT_TIMEOUT: u64 = 300;

/// A signed, timestamped unit of data received from a relay.
#[derive(Debug)]
pub struct Envelope {
    /// Content-derived id.
    pub id: Vec<u8>,
    /// Numeric kind.
    pub kind: u16,
    /// Public key of the author.
    pub author: Vec<u8>,
    /// Public key of the recipient, absent on broadcasts.
    pub recipient: Option<Vec<u8>>,
    /// The content text.
    pub content: String,
    /// Creation time, in seconds.
    pub created_at: u64,
}

/// What the transport does with one incoming envelope.
#[derive(Debug)]
pub enum RouteAction {
    /// Hand an oracle announcement to the contract engine's cache.
    CacheAnnouncement(Vec<u8>),
    /// Hand an oracle attestation to the contract engine's cache.
    CacheAttestation(Vec<u8>),
    /// Hand a negotiation message to the contract engine; a reply goes back
    /// to `sender`, referring to the envelope `envelope_id`.
    Deliver { sender: Vec<u8>, envelope_id: Vec<u8>, type_tag: u16, payload: Vec<u8> },
    /// A chunk was stored; more are needed.
    Wait,
    /// An envelope of a kind this transport does not handle.
    Ignore,
    /// The envelope is dropped for the reason given.
    Drop(TransportError),
}

/// The mathematical value of a [`RouteAction`].
pub ghost enum RouteOutcome {
    CacheAnnouncement(Seq<u8>),
    CacheAttestation(Seq<u8>),
    Deliver { sender: Seq<u8>, envelope_id: Seq<u8>, type_tag: u16, payload: Seq<u8> },
    Wait,
    Ignore,
    Drop(TransportError),
}

impl View for RouteAction {
    type V = RouteOutcome;

    open spec fn view(&self) -> RouteOutcome {
        match self {
            RouteAction::CacheAnnouncement(b) => RouteOutcome::CacheAnnouncement(b@),
            RouteAction::CacheAttestation(b) => RouteOutcome::CacheAttestation(b@),
            RouteAction::Deliver { sender, envelope_id, type_tag, payload } => RouteOutcome::Deliver {
                sender: sender@,
                envelope_id: envelope_id@,
                type_tag: *type_tag,
                payload: payload@,
            },
            RouteAction::Wait => RouteOutcome::Wait,
            RouteAction::Ignore => RouteOutcome::Ignore,
            RouteAction::Drop(e) => RouteOutcome::Drop(*e),
        }
    }
}

/// The bytes whose base64 text is `s`, if there are any.
pub open spec fn unarmored(s: Seq<char>) -> Option<Seq<u8>> {
    if exists|d: Seq<u8>| base64_text(d) == s {
        Some(choose|d: Seq<u8>| base64_text(d) == s)
    } else {
        None
    }
}

/// What a decrypted negotiation plaintext from `sender` leads to.
pub open spec fn plaintext_outcome(sender: Seq<u8>, envelope_id: Seq<u8>, plaintext: Seq<u8>) -> RouteOutcome {
    match untag(plaintext) {
        Ok((type_tag, payload)) => if dlc_message_parses(type_tag, payload) {
            RouteOutcome::Deliver { sender, envelope_id, type_tag, payload }
        } else {
            RouteOutcome::Drop(TransportError::MalformedPayload)
        },
        Err(_) => RouteOutcome::Drop(TransportError::MalformedPayload),
    }
}

/// What a sealed negotiation payload from `sender` leads to, for the
/// private key `secret`.
pub open spec fn sealed_outcome(
    secret: Seq<u8>,
    sender: Seq<u8>,
    envelope_id: Seq<u8>,
    ciphertext: Seq<u8>,
) -> RouteOutcome {
    match nip04_opened(secret, sender, ciphertext) {
        Some(plaintext) => plaintext_outcome(sender, envelope_id, plaintext),
        None => RouteOutcome::Drop(TransportError::DecryptionFailed),
    }
}

/// What an oracle envelope's content leads to: its bytes go to the cache
/// as they are, with no decryption.
pub open spec fn oracle_outcome(announcement: bool, content: Seq<char>) -> RouteOutcome {
    match unarmored(content) {
        Some(d) => if announcement {
            RouteOutcome::CacheAnnouncement(d)
        } else {
            RouteOutcome::CacheAttestation(d)
        },
        None => RouteOutcome::Drop(TransportError::MalformedPayload),
    }
}

/// The reassembly state of split `id` among `bufs`.
pub open spec fn buffer_state(bufs: Seq<ReassemblyBuffer>, id: u32) -> ReassemblyState {
    if exists|i: int| 0 <= i < bufs.len() && bufs[i].segment_id == id {
        bufs[choose|i: int| 0 <= i < bufs.len() && bufs[i].segment_id == id]@
    } else {
        empty_state()
    }
}

/// No two buffers collect the same split, and each is well formed.
pub open spec fn buffers_wf(bufs: Seq<ReassemblyBuffer>) -> bool {
    &&& forall|i: int| 0 <= i < bufs.len() ==> #[trigger] bufs[i].wf()
    &&& forall|i: int, j: int|
        0 <= i < bufs.len() && 0 <= j < bufs.len() && i != j ==> bufs[i].segment_id
            != bufs[j].segment_id
}

proof fn lemma_buffer_state_at(bufs: Seq<ReassemblyBuffer>, i: int)
    requires
        buffers_wf(bufs),
        0 <= i < bufs.len(),
    ensures
        buffer_state(bufs, bufs[i].segment_id) == bufs[i]@,
{
    let id = bufs[i].segment_id;
    let j = choose|j: int| 0 <= j < bufs.len() && bufs[j].segment_id == id;
    assert(j == i);
}

/// Routes incoming envelopes and keeps the buffers of split payloads.
pub struct DlcHandler {
    /// This party's keypair.
    pub identity: Identity,
    /// Buffers of split payloads still being received.
    pub buffers: Vec<ReassemblyBuffer>,
}

impl DlcHandler {
    pub open spec fn wf(&self) -> bool {
        &&& self.identity.wf()
        &&& buffers_wf(self.buffers@)
    }

    /// A router for `identity`, with no split payload in progress.
    pub fn new(identity: Identity) -> (r: DlcHandler)
        requires
            identity.wf(),
        ensures
            r.wf(),
            r.identity == identity,
            r.buffers@.len() == 0,
    {
        DlcHandler { identity, buffers: Vec::new() }
    }

    /// Decodes a decrypted negotiation plaintext from `sender`.
    pub fn deliver_plaintext(sender: &Vec<u8>, envelope_id: &Vec<u8>, plaintext: &Vec<u8>) -> (r: RouteAction)
        ensures
            r@ == plaintext_outcome(sender@, envelope_id@, plaintext@),
    {
        match decode(plaintext) {
            Ok((type_tag, payload)) => if is_dlc_message(type_tag, &payload) {
                RouteAction::Deliver {
                    sender: copy_bytes(sender),
                    envelope_id: copy_bytes(envelope_id),
                    type_tag,
                    payload,
                }
            } else {
                RouteAction::Drop(TransportError::MalformedPayload)
            },
            Err(_) => RouteAction::Drop(TransportError::MalformedPayload),
        }
    }

    /// Decrypts a sealed negotiation payload from `sender` and decodes it.
    pub fn open_sealed(&self, sender: &Vec<u8>, envelope_id: &Vec<u8>, ciphertext: &Vec<u8>) -> (r: RouteAction)
        ensures
            r@ == sealed_outcome(self.identity.secret@, sender@, envelope_id@, ciphertext@),
    {
        match self.identity.decrypt_from(sender, ciphertext) {
            Ok(plaintext) => DlcHandler::deliver_plaintext(sender, envelope_id, &plaintext),
            Err(e) => RouteAction::Drop(e),
        }
    }

    /// Reads an oracle envelope's content and hands it on as it is.
    pub fn read_oracle_content(announcement: bool, content: &String) -> (r: RouteAction)
        ensures
            r@ == oracle_outcome(announcement, content@),
    {
        match from_base64(content.as_str()) {
            Ok(d) => {
                assert(unarmored(content@) == Some(d@));
                if announcement {
                    RouteAction::CacheAnnouncement(d)
                } else {
                    RouteAction::CacheAttestation(d)
                }
            },
            Err(_) => RouteAction::Drop(TransportError::MalformedPayload),
        }
    }
}


/// The split that a segmentation record belongs to.
pub open spec fn record_segment_id(rec: WireRecord) -> Option<u32> {
    match rec {
        WireRecord::SegmentStart { segment_id, .. } => Some(segment_id),
        WireRecord::SegmentChunk { segment_id, .. } => Some(segment_id),
        WireRecord::NegotiationPayload { .. } => None,
    }
}

/// The state of split `id` once `rec` has been taken in; a split that
/// completes is handed on and its buffer is let go.
pub open spec fn state_after(bufs: Seq<ReassemblyBuffer>, rec: WireRecord, id: u32) -> ReassemblyState {
    if record_segment_id(rec) == Some(id) {
        let s = apply(buffer_state(bufs, id), id, rec);
        if is_complete(s) {
            empty_state()
        } else {
            s
        }
    } else {
        buffer_state(bufs, id)
    }
}

/// What a negotiation record from `sender` leads to, given the buffers.
pub open spec fn record_outcome(
    secret: Seq<u8>,
    sender: Seq<u8>,
    envelope_id: Seq<u8>,
    rec: WireRecord,
    bufs: Seq<ReassemblyBuffer>,
) -> RouteOutcome {
    match rec {
        WireRecord::NegotiationPayload { type_tag, bytes } => if type_tag == SEALED_PAYLOAD_TAG {
            sealed_outcome(secret, sender, envelope_id, bytes)
        } else {
            RouteOutcome::Drop(TransportError::MalformedPayload)
        },
        _ => {
            let id = record_segment_id(rec)->Some_0;
            let s = apply(buffer_state(bufs, id), id, rec);
            if is_complete(s) {
                sealed_outcome(secret, sender, envelope_id, assembled(s))
            } else {
                RouteOutcome::Wait
            }
        },
    }
}

proof fn lemma_remove_buffer(bufs: Seq<ReassemblyBuffer>, i: int)
    requires
        buffers_wf(bufs),
        0 <= i < bufs.len(),
    ensures
        buffers_wf(bufs.remove(i)),
        buffer_state(bufs.remove(i), bufs[i].segment_id) == empty_state(),
        forall|j: u32| j != bufs[i].segment_id ==> #[trigger] buffer_state(bufs.remove(i), j)
            == buffer_state(bufs, j),
{
    let r = bufs.remove(i);
    assert forall|k: int| 0 <= k < r.len() implies #[trigger] r[k].wf() by {
        if k < i {
            assert(r[k] == bufs[k]);
        } else {
            assert(r[k] == bufs[k + 1]);
        }
    }
    assert forall|a: int, b: int|
        0 <= a < r.len() && 0 <= b < r.len() && a != b implies r[a].segment_id
        != r[b].segment_id by {
        let a1 = if a < i { a } else { a + 1 };
        let b1 = if b < i { b } else { b + 1 };
        assert(r[a] == bufs[a1] && r[b] == bufs[b1]);
    }
    assert forall|k: int| 0 <= k < r.len() implies r[k].segment_id != bufs[i].segment_id by {
        let k1 = if k < i { k } else { k + 1 };
        assert(r[k] == bufs[k1]);
    }
    assert forall|j: u32| j != bufs[i].segment_id implies #[trigger] buffer_state(r, j)
        == buffer_state(bufs, j) by {
        if exists|k: int| 0 <= k < bufs.len() && bufs[k].segment_id == j {
            let k = choose|k: int| 0 <= k < bufs.len() && bufs[k].segment_id == j;
            lemma_buffer_state_at(bufs, k);
            let k2 = if k < i { k } else { k - 1 };
            assert(r[k2] == bufs[k]);
            lemma_buffer_state_at(r, k2);
        } else {
            assert forall|k: int| 0 <= k < r.len() implies r[k].segment_id != j by {
                let k1 = if k < i { k } else { k + 1 };
                assert(r[k] == bufs[k1]);
            }
        }
    }
}

proof fn lemma_push_buffer(bufs: Seq<ReassemblyBuffer>, b: ReassemblyBuffer)
    requires
        buffers_wf(bufs),
        b.wf(),
        forall|k: int| 0 <= k < bufs.len() ==> bufs[k].segment_id != b.segment_id,
    ensures
        buffers_wf(bufs.push(b)),
        buffer_state(bufs.push(b), b.segment_id) == b@,
        forall|j: u32| j != b.segment_id ==> #[trigger] buffer_state(bufs.push(b), j)
            == buffer_state(bufs, j),
{
    let p = bufs.push(b);
    assert(p[bufs.len() as int] == b);
    assert forall|k: int| 0 <= k < p.len() implies #[trigger] p[k].wf() by {
        if k < bufs.len() {
            assert(p[k] == bufs[k]);
        }
    }
    assert forall|x: int, y: int|
        0 <= x < p.len() && 0 <= y < p.len() && x != y implies p[x].segment_id
        != p[y].segment_id by {
        if x < bufs.len() {
            assert(p[x] == bufs[x]);
        }
        if y < bufs.len() {
            assert(p[y] == bufs[y]);
        }
    }
    lemma_buffer_state_at(p, bufs.len() as int);
    assert forall|j: u32| j != b.segment_id implies #[trigger] buffer_state(p, j) == buffer_state(
        bufs,
        j,
    ) by {
        if exists|k: int| 0 <= k < bufs.len() && bufs[k].segment_id == j {
            let k = choose|k: int| 0 <= k < bufs.len() && bufs[k].segment_id == j;
            lemma_buffer_state_at(bufs, k);
            assert(p[k] == bufs[k]);
            lemma_buffer_state_at(p, k);
        } else {
            assert forall|k: int| 0 <= k < p.len() implies p[k].segment_id != j by {
                if k < bufs.len() {
                    assert(p[k] == bufs[k]);
                }
            }
        }
    }
}

/// The record that a negotiation envelope's content holds.
pub open spec fn negotiation_record(content: Seq<char>) -> Result<WireRecord, TransportError> {
    match unarmored(content) {
        None => Err(TransportError::MalformedPayload),
        Some(b) => parse_record(b),
    }
}

/// What an incoming envelope leads to, for the private key `secret` and
/// the buffers `bufs`.
pub open spec fn event_outcome(secret: Seq<u8>, bufs: Seq<ReassemblyBuffer>, env: Envelope) -> RouteOutcome {
    match EnvelopeKind::of_code(env.kind) {
        EnvelopeKind::OracleAnnouncement => oracle_outcome(true, env.content@),
        EnvelopeKind::OracleAttestation => oracle_outcome(false, env.content@),
        EnvelopeKind::Unknown(_) => RouteOutcome::Ignore,
        EnvelopeKind::NegotiationMessage => match negotiation_record(env.content@) {
            Err(e) => RouteOutcome::Drop(e),
            Ok(rec) => record_outcome(secret, env.author@, env.id@, rec, bufs),
        },
    }
}

/// The state of split `id` once the envelope `env` has been taken in.
pub open spec fn event_state(bufs: Seq<ReassemblyBuffer>, env: Envelope, id: u32) -> ReassemblyState {
    if EnvelopeKind::of_code(env.kind) == EnvelopeKind::NegotiationMessage {
        match negotiation_record(env.content@) {
            Ok(rec) => state_after(bufs, rec, id),
            Err(_) => buffer_state(bufs, id),
        }
    } else {
        buffer_state(bufs, id)
    }
}

impl DlcHandler {
    fn find_buffer(&self, id: u32) -> (r: Option<usize>)
        ensures
            match r {
                Some(i) => i < self.buffers@.len() && self.buffers@[i as int].segment_id == id,
                None => forall|k: int|
                    0 <= k < self.buffers@.len() ==> self.buffers@[k].segment_id != id,
            },
    {
        let mut i: usize = 0;
        while i < self.buffers.len()
            invariant
                i <= self.buffers@.len(),
                forall|k: int| 0 <= k < i ==> self.buffers@[k].segment_id != id,
            decreases self.buffers@.len() - i,
        {
            if self.buffers[i].segment_id == id {
                return Some(i);
            }
            i += 1;
        }
        None
    }

    /// Takes a segmentation record of split `id` into its buffer, opening one
    /// at `now` when there is none.
    fn collect(&mut self, id: u32, rec: &WireMessage, now: u64, sender: &Vec<u8>, envelope_id: &Vec<u8>) -> (r: RouteAction)
        requires
            old(self).wf(),
            record_segment_id(rec@) == Some(id),
        ensures
            final(self).wf(),
            final(self).identity == old(self).identity,
            r@ == record_outcome(
                old(self).identity.secret@,
                sender@,
                envelope_id@,
                rec@,
                old(self).buffers@,
            ),
            forall|j: u32| #[trigger] buffer_state(final(self).buffers@, j) == state_after(
                old(self).buffers@,
                rec@,
                j,
            ),
    {
        let ghost before = self.buffers@;
        let found = self.find_buffer(id);
        let mut buf = match found {
            Some(i) => {
                proof {
                    lemma_buffer_state_at(before, i as int);
                    lemma_remove_buffer(before, i as int);
                }
                self.buffers.remove(i)
            },
            None => ReassemblyBuffer::new(id, now),
        };
        let ghost middle = self.buffers@;
        assert(buf@ == buffer_state(before, id));
        assert(forall|j: u32| j != id ==> #[trigger] buffer_state(middle, j) == buffer_state(before, j));
        assert(forall|k: int| 0 <= k < middle.len() ==> middle[k].segment_id != id);
        match buf.accept(rec) {
            Some(ciphertext) => {
                assert(buffer_state(middle, id) == empty_state());
                self.open_sealed(sender, envelope_id, &ciphertext)
            },
            None => {
                proof {
                    lemma_push_buffer(middle, buf);
                }
                self.buffers.push(buf);
                RouteAction::Wait
            },
        }
    }

    /// Routes one incoming envelope received at `now`: oracle kinds go to the
    /// cache undecrypted, negotiation records are reassembled when split,
    /// decrypted and decoded, and anything that fails is dropped.
    pub fn receive_event(&mut self, env: &Envelope, now: u64) -> (r: RouteAction)
        requires
            old(self).wf(),
        ensures
            final(self).wf(),
            final(self).identity == old(self).identity,
            r@ == event_outcome(old(self).identity.secret@, old(self).buffers@, *env),
            forall|j: u32| #[trigger]
                buffer_state(final(self).buffers@, j) == event_state(old(self).buffers@, *env, j),
    {
        match EnvelopeKind::from_code(env.kind) {
            EnvelopeKind::OracleAnnouncement => {
                return DlcHandler::read_oracle_content(true, &env.content);
            },
            EnvelopeKind::OracleAttestation => {
                return DlcHandler::read_oracle_content(false, &env.content);
            },
            EnvelopeKind::Unknown(_) => {
                return RouteAction::Ignore;
            },
            EnvelopeKind::NegotiationMessage => {},
        }
        let bytes = match from_base64(env.content.as_str()) {
            Ok(b) => b,
            Err(_) => {
                return RouteAction::Drop(TransportError::MalformedPayload);
            },
        };
        assert(unarmored(env.content@) == Some(bytes@));
        let rec = match decode_record(&bytes) {
            Ok(m) => m,
            Err(e) => {
                return RouteAction::Drop(e);
            },
        };
        match &rec {
            WireMessage::NegotiationPayload { type_tag, bytes: ciphertext } => {
                assert forall|j: u32| #[trigger] buffer_state(self.buffers@, j) == state_after(
                    self.buffers@,
                    rec@,
                    j,
                ) by {}
                if *type_tag == SEALED_PAYLOAD_TAG {
                    self.open_sealed(&env.author, &env.id, ciphertext)
                } else {
                    RouteAction::Drop(TransportError::MalformedPayload)
                }
            },
            WireMessage::SegmentStart { segment_id, .. } => {
                let id = *segment_id;
                self.collect(id, &rec, now, &env.author, &env.id)
            },
            WireMessage::SegmentChunk { segment_id, .. } => {
                let id = *segment_id;
                self.collect(id, &rec, now, &env.author, &env.id)
            },
        }
    }
}

/// `contents` are the envelope texts of the records `recs`, in order.
pub open spec fn armored_records(recs: Seq<WireRecord>, contents: Seq<String>) -> bool {
    &&& contents.len() == recs.len()
    &&& forall|k: int| 0 <= k < recs.len() ==> #[trigger] contents[k]@ == base64_text(
        record_bytes(recs[k]),
    )
}

proof fn lemma_segmented_encodable(p: Seq<u8>, c: nat, id: u32)
    requires
        c > 0,
        p.len() + CHUNK_HEADER_LEN <= MAX_FRAME_PAYLOAD,
        segmented(p, c, id) is Some,
    ensures
        forall|k: int|
            0 <= k < segmented(p, c, id)->Some_0.len() ==> record_encodable(
                #[trigger] segmented(p, c, id)->Some_0[k],
            ),
{
    let recs = segmented(p, c, id)->Some_0;
    if p.len() > c {
        let n = crate::segment::chunk_count(p.len(), c);
        crate::segment::lemma_chunk_count(p.len(), c);
        assert forall|k: int| 0 <= k < recs.len() implies record_encodable(#[trigger] recs[k]) by {
            if k > 0 {
                let i = (k - 1) as nat;
                assert(i * c <= (n - 1) * c) by (nonlinear_arith)
                    requires
                        i <= n - 1,
                        c > 0,
                ;
                assert((i + 1) * c == i * c + c) by (nonlinear_arith);
                assert(crate::segment::chunk_of(p, c, i).len() <= p.len());
            }
        }
    }
}

/// The records that carry `plaintext` sealed from `secret` to `recipient`
/// under `iv`, or `None` when sealing fails or the ciphertext does not fit.
pub open spec fn send_records(
    secret: Seq<u8>,
    recipient: Seq<u8>,
    plaintext: Seq<u8>,
    c: nat,
    id: u32,
    iv: Seq<u8>,
) -> Option<Seq<WireRecord>> {
    match nip04_sealed(secret, recipient, plaintext, iv) {
        None => None,
        Some(ct) => if ct.len() + CHUNK_HEADER_LEN > MAX_FRAME_PAYLOAD {
            None
        } else {
            segmented(ct, c, id)
        },
    }
}

impl DlcHandler {
    /// The envelope texts that carry `ciphertext`: one record when it fits in
    /// `max_chunk_size` bytes, else a split under `segment_id`.
    pub fn envelope_contents(ciphertext: &Vec<u8>, max_chunk_size: usize, segment_id: u32) -> (r: Result<Vec<String>, TransportError>)
        requires
            max_chunk_size > 0,
        ensures
            match r {
                Ok(v) => ciphertext@.len() + CHUNK_HEADER_LEN <= MAX_FRAME_PAYLOAD && (segmented(
                    ciphertext@,
                    max_chunk_size as nat,
                    segment_id,
                ) matches Some(recs) && armored_records(recs, v@)),
                Err(e) => e == TransportError::MalformedPayload && (ciphertext@.len()
                    + CHUNK_HEADER_LEN > MAX_FRAME_PAYLOAD || segmented(
                    ciphertext@,
                    max_chunk_size as nat,
                    segment_id,
                ) is None),
            },
    {
        if ciphertext.len() > MAX_FRAME_PAYLOAD - CHUNK_HEADER_LEN {
            return Err(TransportError::MalformedPayload);
        }
        let records = crate::segment::segment(ciphertext, max_chunk_size, segment_id)?;
        let ghost recs = segmented(ciphertext@, max_chunk_size as nat, segment_id)->Some_0;
        proof {
            lemma_segmented_encodable(ciphertext@, max_chunk_size as nat, segment_id);
            assert(records@.map_values(|m: WireMessage| m@) == recs);
        }
        let mut out: Vec<String> = Vec::new();
        let mut k: usize = 0;
        while k < records.len()
            invariant
                recs == records@.map_values(|m: WireMessage| m@),
                forall|q: int| 0 <= q < recs.len() ==> record_encodable(#[trigger] recs[q]),
                k <= records@.len(),
                out@.len() == k,
                forall|q: int| 0 <= q < k ==> #[trigger] out@[q]@ == base64_text(record_bytes(recs[q])),
            decreases records@.len() - k,
        {
            assert(recs[k as int] == records@[k as int]@);
            let bytes = encode_record(&records[k]);
            out.push(to_base64(&bytes));
            k += 1;
        }
        Ok(out)
    }

    /// Encodes, encrypts for `recipient` under the fresh IV `iv` and splits
    /// a negotiation message, and gives the envelope texts to publish.
    pub fn prepare_message(
        &self,
        recipient: &Vec<u8>,
        type_tag: u16,
        payload: &Vec<u8>,
        max_chunk_size: usize,
        segment_id: u32,
        iv: [u8; 16],
    ) -> (r: Result<Vec<String>, TransportError>)
        requires
            max_chunk_size > 0,
        ensures
            match r {
                Ok(v) => send_records(
                    self.identity.secret@,
                    recipient@,
                    tagged(type_tag, payload@),
                    max_chunk_size as nat,
                    segment_id,
                    iv@,
                ) matches Some(recs) && armored_records(recs, v@),
                Err(e) => e == TransportError::MalformedPayload && send_records(
                    self.identity.secret@,
                    recipient@,
                    tagged(type_tag, payload@),
                    max_chunk_size as nat,
                    segment_id,
                    iv@,
                ) is None,
            },
            r is Ok || derived_public_key(self.identity.secret@) is None || (forall|sk: Seq<u8>|
                #[trigger] derived_public_key(sk) != Some(recipient@)) || nip04_sealed(
                self.identity.secret@,
                recipient@,
                tagged(type_tag, payload@),
                iv@,
            ) is Some,
            r is Ok ==> forall|sk: Seq<u8>|
                #[trigger] derived_public_key(sk) == Some(recipient@) ==> (derived_public_key(
                    self.identity.secret@,
                ) matches Some(pk) ==> nip04_opened(
                    sk,
                    pk,
                    nip04_sealed(
                        self.identity.secret@,
                        recipient@,
                        tagged(type_tag, payload@),
                        iv@,
                    )->Some_0,
                ) == Some(tagged(type_tag, payload@))),
    {
        let plaintext = encode(type_tag, payload);
        let ciphertext = self.identity.encrypt_for(recipient, &plaintext, iv)?;
        DlcHandler::envelope_contents(&ciphertext, max_chunk_size, segment_id)
    }

    /// Lets go of every split payload that has waited longer than the stale
    /// timeout at `now`; the others are kept as they are.
    pub fn discard_stale(&mut self, now: u64) -> (r: usize)
        requires
            old(self).wf(),
        ensures
            final(self).wf(),
            final(self).identity == old(self).identity,
            forall|j: int|
                0 <= j < final(self).buffers@.len() ==> !(now as int
                    - #[trigger] final(self).buffers@[j].created_at as int
                    > STALE_SEGMENT_TIMEOUT as int),
            forall|j: int|
                0 <= j < old(self).buffers@.len() && !(now as int
                    - #[trigger] old(self).buffers@[j].created_at as int
                    > STALE_SEGMENT_TIMEOUT as int)
                    ==> final(self).buffers@.contains(old(self).buffers@[j]),
            forall|j: int|
                0 <= j < final(self).buffers@.len() ==> old(self).buffers@.contains(
                    #[trigger] final(self).buffers@[j],
                ),
            r == old(self).buffers@.len() - final(self).buffers@.len(),
    {
        let ghost start = self.buffers@;
        let total: usize = self.buffers.len();
        let mut i: usize = 0;
        let mut dropped: usize = 0;
        while i < self.buffers.len()
            invariant
                buffers_wf(self.buffers@),
                self.identity == old(self).identity,
                start == old(self).buffers@,
                i <= self.buffers@.len(),
                dropped + self.buffers@.len() == start.len(),
                start.len() == total,
                forall|j: int| 0 <= j < i ==> !(now as int - #[trigger] self.buffers@[j].created_at as int
                    > STALE_SEGMENT_TIMEOUT as int),
                forall|j: int| 0 <= j < self.buffers@.len() ==> start.contains(#[trigger] self.buffers@[j]),
                forall|j: int|
                    0 <= j < start.len() && !(now as int - #[trigger] start[j].created_at as int
                        > STALE_SEGMENT_TIMEOUT as int) ==> self.buffers@.contains(start[j]),
            decreases self.buffers@.len() - i,
        {
            if self.buffers[i].check_fresh(now, STALE_SEGMENT_TIMEOUT).is_err() {
                let ghost before = self.buffers@;
                proof {
                    lemma_remove_buffer(before, i as int);
                }
                let _gone = self.buffers.remove(i);
                dropped += 1;
                assert forall|j: int| 0 <= j < self.buffers@.len() implies start.contains(
                    #[trigger] self.buffers@[j],
                ) by {
                    let j1 = if j < i { j } else { j + 1 };
                    assert(self.buffers@[j] == before[j1]);
                }
                assert forall|j: int|
                    0 <= j < start.len() && !(now as int - #[trigger] start[j].created_at as int
                        > STALE_SEGMENT_TIMEOUT as int) implies self.buffers@.contains(start[j]) by {
                    let k = choose|k: int| 0 <= k < before.len() && before[k] == start[j];
                    assert(k != i);
                    let k2 = if k < i { k } else { k - 1 };
                    assert(self.buffers@[k2] == before[k]);
                }
            } else {
                i += 1;
            }
        }
        dropped
    }
}

/// Oracle envelopes bypass decryption: what they lead to does not depend on
/// the private key nor on the split payloads in progress, and they leave
/// those untouched.
pub proof fn lemma_oracle_isolation(
    secret1: Seq<u8>,
    secret2: Seq<u8>,
    bufs1: Seq<ReassemblyBuffer>,
    bufs2: Seq<ReassemblyBuffer>,
    env: Envelope,
    id: u32,
)
    requires
        EnvelopeKind::of_code(env.kind) is OracleAnnouncement || EnvelopeKind::of_code(env.kind) is OracleAttestation,
    ensures
        event_outcome(secret1, bufs1, env) == event_outcome(secret2, bufs2, env),
        event_outcome(secret1, bufs1, env) == oracle_outcome(
            EnvelopeKind::of_code(env.kind) is OracleAnnouncement,
            env.content@,
        ),
        event_state(bufs1, env, id) == buffer_state(bufs1, id),
{
}

/// A negotiation message sealed for this party arrives as it was sent: when
/// the ciphertext opens to the tagged message and the message parses, the
/// whole record delivers it, and so does the last record of a split one,
/// whatever order and repetitions the records come in.
pub proof fn lemma_delivers_sent_message(
    secret: Seq<u8>,
    sender: Seq<u8>,
    envelope_id: Seq<u8>,
    ciphertext: Seq<u8>,
    type_tag: u16,
    payload: Seq<u8>,
    c: nat,
    id: u32,
    arrivals: Seq<WireRecord>,
)
    requires
        nip04_opened(secret, sender, ciphertext) == Some(tagged(type_tag, payload)),
        dlc_message_parses(type_tag, payload),
        c > 0,
        segmented(ciphertext, c, id) is Some,
        forall|k: int|
            0 <= k < segmented(ciphertext, c, id)->Some_0.len() ==> arrivals.contains(
                #[trigger] segmented(ciphertext, c, id)->Some_0[k],
            ),
        forall|j: int|
            0 <= j < arrivals.len() ==> segmented(ciphertext, c, id)->Some_0.contains(
                #[trigger] arrivals[j],
            ),
    ensures
        ciphertext.len() <= c ==> record_outcome(
            secret,
            sender,
            envelope_id,
            segmented(ciphertext, c, id)->Some_0[0],
            Seq::empty(),
        ) == (RouteOutcome::Deliver { sender, envelope_id, type_tag, payload }),
        ciphertext.len() > c ==> sealed_outcome(
            secret,
            sender,
            envelope_id,
            assembled(apply_all(empty_state(), id, arrivals)),
        ) == (RouteOutcome::Deliver { sender, envelope_id, type_tag, payload }),
{
    crate::codec::lemma_tagged_round_trip(type_tag, payload);
    crate::reassembly::lemma_segment_then_reassemble(ciphertext, c, id, arrivals);
}

} // verus!
