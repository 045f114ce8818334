use vstd::prelude::*;
use crate::bytes::push_range;
use crate::error::TransportError;
use crate::codec::{WireMessage, WireRecord, SEALED_PAYLOAD_TAG};
use crate::segment::{
    chunk_count, chunk_of, lemma_chunk_count, segmented, split_records, MAX_SEGMENTS,
};

verus! {

/// What a reassembly buffer knows: the chunk count its header declared,
/// and the chunks received so far, by index.
pub ghost struct ReassemblyState {
    pub expected: Option<u32>,
    pub received: Map<u32, Seq<u8>>,
}

/// A buffer that has received nothing.
pub open spec fn empty_state() -> ReassemblyState {
    ReassemblyState { expected: None, received: Map::empty() }
}

/// The effect of one record on the buffer of split `id`. Records of other
/// splits, and counts or indices beyond the segment limit, change nothing; a
/// chunk received again at the same index replaces the earlier one.
pub open spec fn apply(s: ReassemblyState, id: u32, rec: WireRecord) -> ReassemblyState {
    match rec {
        WireRecord::SegmentStart { total_segments, segment_id } => if segment_id == id
            && total_segments <= MAX_SEGMENTS {
            ReassemblyState { expected: Some(total_segments), received: s.received }
        } else {
            s
        },
        WireRecord::SegmentChunk { segment_id, index, bytes } => if segment_id == id && index
            < MAX_SEGMENTS {
            ReassemblyState { expected: s.expected, received: s.received.insert(index, bytes) }
        } else {
            s
        },
        WireRecord::NegotiationPayload { .. } => s,
    }
}

/// The effect of records received in the order given.
pub open spec fn apply_all(s: ReassemblyState, id: u32, recs: Seq<WireRecord>) -> ReassemblyState
    decreases recs.len(),
{
    if recs.len() == 0 {
        s
    } else {
        apply(apply_all(s, id, recs.drop_last()), id, recs.last())
    }
}

/// Every index below the declared count has been received.
pub open spec fn is_complete(s: ReassemblyState) -> bool {
    &&& s.expected is Some
    &&& forall|i: u32| i < s.expected->Some_0 ==> #[trigger] s.received.contains_key(i)
}

/// The chunks at indices `0..k`, joined in index order.
pub open spec fn joined(received: Map<u32, Seq<u8>>, k: nat) -> Seq<u8>
    decreases k,
{
    if k == 0 {
        Seq::empty()
    } else {
        joined(received, (k - 1) as nat) + received[(k - 1) as u32]
    }
}

/// The payload a complete buffer hands on.
pub open spec fn assembled(s: ReassemblyState) -> Seq<u8> {
    joined(s.received, s.expected->Some_0 as nat)
}

/// The chunks held in `slots`, by index.
pub open spec fn slot_map(slots: Seq<Option<Vec<u8>>>) -> Map<u32, Seq<u8>> {
    Map::new(
        |i: u32| (i as int) < slots.len() && slots[i as int] is Some,
        |i: u32| slots[i as int]->Some_0@,
    )
}

/// Collects the chunks of one split payload until all of them are in.
pub struct ReassemblyBuffer {
    /// The split this buffer collects.
    pub segment_id: u32,
    /// When the buffer was opened, in seconds.
    pub created_at: u64,
    /// The chunk count that the header declared, once it has come.
    pub expected: Option<u32>,
    /// The chunks received so far, at their index.
    pub slots: Vec<Option<Vec<u8>>>,
}

impl View for ReassemblyBuffer {
    type V = ReassemblyState;

    open spec fn view(&self) -> ReassemblyState {
        ReassemblyState { expected: self.expected, received: slot_map(self.slots@) }
    }
}

impl ReassemblyBuffer {
    pub open spec fn wf(&self) -> bool {
        self.slots@.len() <= MAX_SEGMENTS
    }

    /// An empty buffer for split `segment_id`, opened at `created_at`.
    pub fn new(segment_id: u32, created_at: u64) -> (r: ReassemblyBuffer)
        ensures
            r.wf(),
            r@ == empty_state(),
            r.segment_id == segment_id,
            r.created_at == created_at,
    {
        let r = ReassemblyBuffer { segment_id, created_at, expected: None, slots: Vec::new() };
        assert(r@.received =~= Map::<u32, Seq<u8>>::empty());
        r
    }

    /// Whether the buffer has waited longer than `timeout` seconds at `now`.
    pub fn is_stale(&self, now: u64, timeout: u64) -> (r: bool)
        ensures
            r == (now as int - self.created_at as int > timeout as int),
    {
        now > self.created_at && now - self.created_at > timeout
    }

    /// Fails with `StaleReassembly` once the buffer has waited longer than
    /// `timeout` seconds at `now`.
    pub fn check_fresh(&self, now: u64, timeout: u64) -> (r: Result<(), TransportError>)
        ensures
            r is Err <==> now as int - self.created_at as int > timeout as int,
            r matches Err(e) ==> e == TransportError::StaleReassembly,
    {
        if self.is_stale(now, timeout) {
            Err(TransportError::StaleReassembly)
        } else {
            Ok(())
        }
    }

    /// Takes in one record; hands back the whole payload once every chunk is in.
    pub fn accept(&mut self, m: &WireMessage) -> (r: Option<Vec<u8>>)
        requires
            old(self).wf(),
        ensures
            final(self).wf(),
            final(self)@ == apply(old(self)@, old(self).segment_id, m@),
            final(self).segment_id == old(self).segment_id,
            final(self).created_at == old(self).created_at,
            match r {
                Some(p) => is_complete(final(self)@) && p@ == assembled(final(self)@),
                None => !is_complete(final(self)@),
            },
    {
        match m {
            WireMessage::SegmentStart { total_segments, segment_id } => {
                if *segment_id == self.segment_id && *total_segments <= MAX_SEGMENTS {
                    self.expected = Some(*total_segments);
                }
            },
            WireMessage::SegmentChunk { segment_id, index, bytes } => {
                if *segment_id == self.segment_id && *index < MAX_SEGMENTS {
                    let at = *index as usize;
                    while self.slots.len() <= at
                        invariant
                            at < MAX_SEGMENTS,
                            self.slots@.len() <= MAX_SEGMENTS,
                            self.expected == old(self).expected,
                            self.segment_id == old(self).segment_id,
                            self.created_at == old(self).created_at,
                            slot_map(self.slots@) == slot_map(old(self).slots@),
                        decreases at + 1 - self.slots.len(),
                    {
                        let ghost before = self.slots@;
                        self.slots.push(None);
                        assert(slot_map(self.slots@) =~= slot_map(before));
                    }
                    let mut copy: Vec<u8> = Vec::new();
                    push_range(&mut copy, bytes, 0, bytes.len());
                    assert(bytes@.subrange(0, bytes.len() as int) =~= bytes@);
                    let ghost before = self.slots@;
                    self.slots.set(at, Some(copy));
                    assert(slot_map(self.slots@) =~= slot_map(before).insert(*index, bytes@));
                }
            },
            WireMessage::NegotiationPayload { .. } => {},
        }
        self.take_complete()
    }

    /// The joined payload, if every chunk is in.
    fn take_complete(&self) -> (r: Option<Vec<u8>>)
        ensures
            match r {
                Some(p) => is_complete(self@) && p@ == assembled(self@),
                None => !is_complete(self@),
            },
    {
        let n = match self.expected {
            None => return None,
            Some(n) => n,
        };
        let mut i: u32 = 0;
        while i < n
            invariant
                self.expected == Some(n),
                i <= n,
                forall|j: u32| j < i ==> #[trigger] self@.received.contains_key(j),
            decreases n - i,
        {
            if i as usize >= self.slots.len() || self.slots[i as usize].is_none() {
                assert(!self@.received.contains_key(i));
                return None;
            }
            i += 1;
        }
        let mut out: Vec<u8> = Vec::new();
        let mut k: u32 = 0;
        while k < n
            invariant
                is_complete(self@),
                self.expected == Some(n),
                k <= n,
                out@ == joined(self@.received, k as nat),
            decreases n - k,
        {
            assert(self@.received.contains_key(k));
            match &self.slots[k as usize] {
                Some(chunk) => {
                    push_range(&mut out, chunk, 0, chunk.len());
                    assert(chunk@.subrange(0, chunk.len() as int) =~= chunk@);
                },
                None => {},
            }
            k += 1;
        }
        Some(out)
    }
}

/// Folding records that all belong to one split: the header sets the count,
/// and each index holds that chunk's bytes.
proof fn lemma_fold_split(p: Seq<u8>, c: nat, id: u32, a: Seq<WireRecord>)
    requires
        c > 0,
        p.len() > c,
        chunk_count(p.len(), c) <= MAX_SEGMENTS,
        forall|j: int| 0 <= j < a.len() ==> split_records(p, c, id).contains(#[trigger] a[j]),
    ensures
        ({
            let s = apply_all(empty_state(), id, a);
            let n = chunk_count(p.len(), c);
            &&& (exists|j: int| 0 <= j < a.len() && #[trigger] a[j] is SegmentStart)
                ==> s.expected == Some(n as u32)
            &&& forall|i: u32| #[trigger]
                s.received.contains_key(i) ==> i < n && s.received[i] == chunk_of(p, c, i as nat)
            &&& forall|j: int|
                0 <= j < a.len() && #[trigger] a[j] is SegmentChunk ==> s.received.contains_key(
                    a[j]->SegmentChunk_index,
                )
            &&& s.expected is Some ==> exists|j: int| 0 <= j < a.len() && #[trigger] a[j] is SegmentStart
            &&& forall|i: u32| #[trigger]
                s.received.contains_key(i) ==> exists|j: int|
                    0 <= j < a.len() && #[trigger] a[j] is SegmentChunk && a[j]->SegmentChunk_index
                        == i
        }),
    decreases a.len(),
{
    let recs = split_records(p, c, id);
    let n = chunk_count(p.len(), c);
    if a.len() > 0 {
        let prefix = a.drop_last();
        assert forall|j: int| 0 <= j < prefix.len() implies recs.contains(#[trigger] prefix[j]) by {
            assert(prefix[j] == a[j]);
        }
        lemma_fold_split(p, c, id, prefix);
        let last = a.last();
        assert(recs.contains(a[a.len() - 1]));
        let k = choose|k: int| 0 <= k < recs.len() && recs[k] == last;
        if exists|j: int| 0 <= j < a.len() && #[trigger] a[j] is SegmentStart {
            let j = choose|j: int| 0 <= j < a.len() && #[trigger] a[j] is SegmentStart;
            if j < a.len() - 1 {
                assert(prefix[j] is SegmentStart);
            }
        }
        assert forall|j: int| 0 <= j < a.len() && #[trigger] a[j] is SegmentChunk implies apply_all(
            empty_state(),
            id,
            a,
        ).received.contains_key(a[j]->SegmentChunk_index) by {
            if j < a.len() - 1 {
                assert(prefix[j] == a[j]);
            }
        }
        let s0 = apply_all(empty_state(), id, prefix);
        let s = apply_all(empty_state(), id, a);
        if s.expected is Some {
            if !(last is SegmentStart) {
                assert(s0.expected is Some);
                let j = choose|j: int| 0 <= j < prefix.len() && #[trigger] prefix[j] is SegmentStart;
                assert(a[j] == prefix[j]);
            } else {
                assert(a[a.len() - 1] is SegmentStart);
            }
        }
        assert forall|i: u32| #[trigger] s.received.contains_key(i) implies exists|j: int|
            0 <= j < a.len() && #[trigger] a[j] is SegmentChunk && a[j]->SegmentChunk_index == i by {
            if last is SegmentChunk && last->SegmentChunk_index == i {
                assert(a[a.len() - 1] == last);
            } else {
                assert(s0.received.contains_key(i));
                let j = choose|j: int|
                    0 <= j < prefix.len() && #[trigger] prefix[j] is SegmentChunk
                        && prefix[j]->SegmentChunk_index == i;
                assert(a[j] == prefix[j]);
            }
        }
    }
}

/// The chunks at indices below `k` joined give the first `k` chunks' worth
/// of the payload.
proof fn lemma_joined_chunks(p: Seq<u8>, c: nat, m: Map<u32, Seq<u8>>, k: nat)
    requires
        c > 0,
        p.len() > 0,
        k <= chunk_count(p.len(), c),
        chunk_count(p.len(), c) <= MAX_SEGMENTS,
        forall|i: u32| i < k ==> #[trigger] m.contains_key(i) && m[i] == chunk_of(p, c, i as nat),
    ensures
        joined(m, k) == p.subrange(0, if k * c < p.len() { (k * c) as int } else { p.len() as int }),
    decreases k,
{
    lemma_chunk_count(p.len(), c);
    if k > 0 {
        let j = (k - 1) as nat;
        lemma_joined_chunks(p, c, m, j);
        assert(m.contains_key(j as u32));
        assert(j * c <= (chunk_count(p.len(), c) - 1) * c) by (nonlinear_arith)
            requires
                j <= chunk_count(p.len(), c) - 1,
                c > 0,
        ;
        assert(k * c == j * c + c) by (nonlinear_arith)
            requires
                k == j + 1,
        ;
        assert(joined(m, k) =~= p.subrange(
            0,
            if k * c < p.len() {
                (k * c) as int
            } else {
                p.len() as int
            },
        ));
    } else {
        assert(joined(m, k) =~= p.subrange(0, 0));
    }
}

/// Receiving every record of a split payload, in any order and with any
/// repetitions, completes the buffer and gives back exactly that payload.
pub proof fn lemma_reassembly_any_order(p: Seq<u8>, c: nat, id: u32, arrivals: Seq<WireRecord>)
    requires
        c > 0,
        p.len() > c,
        chunk_count(p.len(), c) <= MAX_SEGMENTS,
        forall|k: int|
            0 <= k < split_records(p, c, id).len() ==> arrivals.contains(
                #[trigger] split_records(p, c, id)[k],
            ),
        forall|j: int| 0 <= j < arrivals.len() ==> split_records(p, c, id).contains(#[trigger] arrivals[j]),
    ensures
        is_complete(apply_all(empty_state(), id, arrivals)),
        assembled(apply_all(empty_state(), id, arrivals)) == p,
{
    let recs = split_records(p, c, id);
    let n = chunk_count(p.len(), c);
    let s = apply_all(empty_state(), id, arrivals);
    lemma_chunk_count(p.len(), c);
    lemma_fold_split(p, c, id, arrivals);
    assert(arrivals.contains(recs[0]));
    let j0 = choose|j: int| 0 <= j < arrivals.len() && arrivals[j] == recs[0];
    assert(arrivals[j0] is SegmentStart);
    assert(s.expected == Some(n as u32));
    assert forall|i: u32| i < n implies #[trigger] s.received.contains_key(i) by {
        assert(arrivals.contains(recs[i + 1]));
        let j = choose|j: int| 0 <= j < arrivals.len() && arrivals[j] == recs[i + 1];
        assert(arrivals[j] is SegmentChunk);
    }
    lemma_joined_chunks(p, c, s.received, n);
    assert(n * c >= p.len());
    assert(p.subrange(0, p.len() as int) =~= p);
}

/// Taking in the same record a second time changes nothing.
pub proof fn lemma_accept_idempotent(s: ReassemblyState, id: u32, rec: WireRecord)
    ensures
        apply(apply(s, id, rec), id, rec) == apply(s, id, rec),
{
    if let WireRecord::SegmentChunk { segment_id, index, bytes } = rec {
        if segment_id == id && index < MAX_SEGMENTS {
            assert(s.received.insert(index, bytes).insert(index, bytes) =~= s.received.insert(
                index,
                bytes,
            ));
        }
    }
}

/// Whatever segmenting gives back is restored by the receiver: a payload
/// that fits travels as itself, and a split one is rebuilt exactly from its
/// records received in any order, with repeats.
pub proof fn lemma_segment_then_reassemble(p: Seq<u8>, c: nat, id: u32, arrivals: Seq<WireRecord>)
    requires
        c > 0,
        segmented(p, c, id) is Some,
        forall|k: int|
            0 <= k < segmented(p, c, id)->Some_0.len() ==> arrivals.contains(
                #[trigger] segmented(p, c, id)->Some_0[k],
            ),
        forall|j: int|
            0 <= j < arrivals.len() ==> segmented(p, c, id)->Some_0.contains(#[trigger] arrivals[j]),
    ensures
        p.len() <= c ==> segmented(p, c, id)->Some_0 == seq![
            WireRecord::NegotiationPayload { type_tag: SEALED_PAYLOAD_TAG, bytes: p },
        ],
        p.len() > c ==> is_complete(apply_all(empty_state(), id, arrivals)) && assembled(
            apply_all(empty_state(), id, arrivals),
        ) == p,
{
    if p.len() > c {
        lemma_reassembly_any_order(p, c, id, arrivals);
    }
}

/// Receiving each record of a split payload exactly once, in any order, the
/// buffer completes on the last record and on no earlier one.
pub proof fn lemma_completes_at_last_arrival(p: Seq<u8>, c: nat, id: u32, arrivals: Seq<WireRecord>)
    requires
        c > 0,
        p.len() > c,
        chunk_count(p.len(), c) <= MAX_SEGMENTS,
        arrivals.no_duplicates(),
        forall|k: int|
            0 <= k < split_records(p, c, id).len() ==> arrivals.contains(
                #[trigger] split_records(p, c, id)[k],
            ),
        forall|j: int| 0 <= j < arrivals.len() ==> split_records(p, c, id).contains(#[trigger] arrivals[j]),
    ensures
        forall|m: int|
            0 <= m < arrivals.len() ==> !is_complete(
                #[trigger] apply_all(empty_state(), id, arrivals.subrange(0, m)),
            ),
        is_complete(apply_all(empty_state(), id, arrivals)),
        assembled(apply_all(empty_state(), id, arrivals)) == p,
{
    let recs = split_records(p, c, id);
    let n = chunk_count(p.len(), c);
    lemma_chunk_count(p.len(), c);
    lemma_reassembly_any_order(p, c, id, arrivals);
    assert(recs.no_duplicates()) by {
        assert forall|x: int, y: int| 0 <= x < recs.len() && 0 <= y < recs.len() && x != y implies recs[x]
            != recs[y] by {
            if x > 0 && y > 0 {
                assert(recs[x]->SegmentChunk_index == (x - 1) as u32);
                assert(recs[y]->SegmentChunk_index == (y - 1) as u32);
            }
        }
    }
    recs.unique_seq_to_set();
    arrivals.unique_seq_to_set();
    assert(arrivals.to_set().subset_of(recs.to_set()));
    vstd::set_lib::lemma_len_subset(arrivals.to_set(), recs.to_set());
    assert forall|m: int| 0 <= m < arrivals.len() implies !is_complete(
        #[trigger] apply_all(empty_state(), id, arrivals.subrange(0, m)),
    ) by {
        let a = arrivals.subrange(0, m);
        let s = apply_all(empty_state(), id, a);
        assert forall|j: int| 0 <= j < a.len() implies recs.contains(#[trigger] a[j]) by {
            assert(a[j] == arrivals[j]);
        }
        lemma_fold_split(p, c, id, a);
        if is_complete(s) {
            assert forall|k: int| 0 <= k < recs.len() implies a.contains(#[trigger] recs[k]) by {
                if k == 0 {
                    let j = choose|j: int| 0 <= j < a.len() && #[trigger] a[j] is SegmentStart;
                    let q = choose|q: int| 0 <= q < recs.len() && recs[q] == a[j];
                    assert(q == 0);
                } else {
                    let i = (k - 1) as u32;
                    assert(s.received.contains_key(i));
                    let j = choose|j: int|
                        0 <= j < a.len() && #[trigger] a[j] is SegmentChunk && a[j]->SegmentChunk_index
                            == i;
                    let q = choose|q: int| 0 <= q < recs.len() && recs[q] == a[j];
                    assert(q == k);
                }
            }
            assert(recs.to_set().subset_of(a.to_set()));
            a.lemma_cardinality_of_set();
            vstd::set_lib::lemma_len_subset(recs.to_set(), a.to_set());
        }
    }
}

} // verus!
