use vstd::prelude::*;

verus! {

/// Event kind of an encrypted negotiation message.
pub const DLC_MESSAGE_KIND: u16 = 8888;

/// Event kind of an oracle announcement.
pub const ORACLE_ANNOUNCEMENT_KIND: u16 = 88;

/// Event kind of an oracle attestation.
pub const ORACLE_ATTESTATION_KIND: u16 = 89;

/// What an envelope carries, read from its numeric kind.
#[derive(Debug, Clone, Copy, PartialEq, Eq, Structural)]
pub enum EnvelopeKind {
    NegotiationMessage,
    OracleAnnouncement,
    OracleAttestation,
    Unknown(u16),
}

impl EnvelopeKind {
    /// The kind that the numeric code `code` stands for.
    pub open spec fn of_code(code: u16) -> EnvelopeKind {
        if code == DLC_MESSAGE_KIND {
            EnvelopeKind::NegotiationMessage
        } else if code == ORACLE_ANNOUNCEMENT_KIND {
            EnvelopeKind::OracleAnnouncement
        } else if code == ORACLE_ATTESTATION_KIND {
            EnvelopeKind::OracleAttestation
        } else {
            EnvelopeKind::Unknown(code)
        }
    }

    /// The numeric code of a kind.
    pub open spec fn code_of(self) -> u16 {
        match self {
            EnvelopeKind::NegotiationMessage => DLC_MESSAGE_KIND,
            EnvelopeKind::OracleAnnouncement => ORACLE_ANNOUNCEMENT_KIND,
            EnvelopeKind::OracleAttestation => ORACLE_ATTESTATION_KIND,
            EnvelopeKind::Unknown(c) => c,
        }
    }

    /// Classifies a numeric envelope kind.
    pub fn from_code(code: u16) -> (r: EnvelopeKind)
        ensures
            r == EnvelopeKind::of_code(code),
    {
        if code == DLC_MESSAGE_KIND {
            EnvelopeKind::NegotiationMessage
        } else if code == ORACLE_ANNOUNCEMENT_KIND {
            EnvelopeKind::OracleAnnouncement
        } else if code == ORACLE_ATTESTATION_KIND {
            EnvelopeKind::OracleAttestation
        } else {
            EnvelopeKind::Unknown(code)
        }
    }

    /// The numeric code of this kind.
    pub fn code(&self) -> (r: u16)
        ensures
            r == self.code_of(),
    {
        match self {
            EnvelopeKind::NegotiationMessage => DLC_MESSAGE_KIND,
            EnvelopeKind::OracleAnnouncement => ORACLE_ANNOUNCEMENT_KIND,
            EnvelopeKind::OracleAttestation => ORACLE_ATTESTATION_KIND,
            EnvelopeKind::Unknown(c) => *c,
        }
    }
}

/// A code read as a kind and written back is the same code.
pub proof fn lemma_kind_code_round_trip(code: u16)
    ensures
        EnvelopeKind::of_code(code).code_of() == code,
{
}

/// What a relay subscription asks for: envelopes of the given kinds, created
/// at or after `since`, and addressed to `recipient` when one is given.
pub struct SubscriptionFilter {
    pub kinds: Vec<u16>,
    pub since: u64,
    pub recipient: Option<Vec<u8>>,
}

/// Whether an envelope of kind `kind`, created at `created_at` and tagged
/// with the recipients `tagged`, passes the filter `f`.
pub open spec fn filter_admits(
    f: SubscriptionFilter,
    kind: u16,
    created_at: u64,
    tagged: Seq<Seq<u8>>,
) -> bool {
    &&& f.kinds@.contains(kind)
    &&& created_at >= f.since
    &&& f.recipient matches Some(p) ==> tagged.contains(p@)
}

/// The filter for negotiation messages addressed to `own_key`.
pub fn dlc_message_filter(own_key: &Vec<u8>, since: u64) -> (r: SubscriptionFilter)
    ensures
        r.kinds@ == seq![DLC_MESSAGE_KIND],
        r.since == since,
        r.recipient matches Some(p) && p@ == own_key@,
{
    let mut kinds: Vec<u16> = Vec::new();
    kinds.push(DLC_MESSAGE_KIND);
    assert(kinds@ =~= seq![DLC_MESSAGE_KIND]);
    let mut key: Vec<u8> = Vec::new();
    crate::bytes::push_range(&mut key, own_key, 0, own_key.len());
    assert(own_key@.subrange(0, own_key.len() as int) =~= own_key@);
    SubscriptionFilter { kinds, since, recipient: Some(key) }
}

/// The filter for oracle announcements and attestations from anyone.
pub fn oracle_message_filter(since: u64) -> (r: SubscriptionFilter)
    ensures
        r.kinds@ == seq![ORACLE_ANNOUNCEMENT_KIND, ORACLE_ATTESTATION_KIND],
        r.since == since,
        r.recipient is None,
{
    let mut kinds: Vec<u16> = Vec::new();
    kinds.push(ORACLE_ANNOUNCEMENT_KIND);
    kinds.push(ORACLE_ATTESTATION_KIND);
    assert(kinds@ =~= seq![ORACLE_ANNOUNCEMENT_KIND, ORACLE_ATTESTATION_KIND]);
    SubscriptionFilter { kinds, since, recipient: None }
}

/// The "since" timestamp of a session's subscriptions. It is set once, when
/// the session starts, and reconnecting never moves it.
pub struct SubscriptionCursor {
    pub since: u64,
}

impl SubscriptionCursor {
    /// A cursor for a session starting at `now`: history before it is not replayed.
    pub fn start(now: u64) -> (r: SubscriptionCursor)
        ensures
            r.since == now,
    {
        SubscriptionCursor { since: now }
    }

    /// The two filters of the session for the party `own_key`, as they are
    /// sent on the first connection and on every reconnection, whatever the
    /// time of reconnection.
    pub fn filters(&self, own_key: &Vec<u8>) -> (r: Vec<SubscriptionFilter>)
        ensures
            r@.len() == 2,
            r@[0].kinds@ == seq![DLC_MESSAGE_KIND],
            r@[0].recipient matches Some(p) && p@ == own_key@,
            r@[1].kinds@ == seq![ORACLE_ANNOUNCEMENT_KIND, ORACLE_ATTESTATION_KIND],
            r@[1].recipient is None,
            forall|i: int| 0 <= i < r@.len() ==> #[trigger] r@[i].since == self.since,
    {
        let mut r: Vec<SubscriptionFilter> = Vec::new();
        r.push(dlc_message_filter(own_key, self.since));
        r.push(oracle_message_filter(self.since));
        r
    }
}

/// After a reconnection at any later time, the session's filters still admit
/// every envelope created since the session started, so what was published
/// while the connection was down is delivered (perhaps again).
pub proof fn lemma_reconnect_replays_gap(
    f: SubscriptionFilter,
    t1: u64,
    t2: u64,
    kind: u16,
    created_at: u64,
    tagged: Seq<Seq<u8>>,
)
    requires
        f.since == t1,
        t1 < t2,
        t1 <= created_at < t2,
        f.kinds@.contains(kind),
        f.recipient matches Some(p) ==> tagged.contains(p@),
    ensures
        filter_admits(f, kind, created_at, tagged),
{
}

/// The outcome of publishing to `total` relays of which `reached` accepted
/// the envelope: failing some relays is fine, failing all of them is not.
pub fn publish_outcome(reached: u32, total: u32) -> (r: Result<(), crate::error::TransportError>)
    ensures
        r is Ok <==> reached > 0,
        r matches Err(e) ==> e == crate::error::TransportError::PublishFailed,
{
    if reached > 0 {
        Ok(())
    } else {
        Err(crate::error::TransportError::PublishFailed)
    }
}

} // verus!
