//! The storage facade the consensus runtime drives: the log, the metadata
//! slots, the state-machine adapter and the snapshot flows, with every
//! operation's effect pinned down over `StoreView`.
use vstd::prelude::*;
use crate::types::{
    ClientRequest, ClientResponse, ClientResponseV, HardState, IndexOutcome, IndexOutcomeV,
    InitialState, LogEntry, LogEntryV, MembershipConfig, MembershipConfigV, Message, MessageV,
    NodeId, NodeState, RaftSnapshot, RaftSnapshotV, StoreError, initial_membership_view,
    membership_wf, snapshot_pointer_view, EntryPayload, EntryPayloadV,
};
use crate::log_store::{LogStore, DeleteBound, delete_span_spec, entries_view};
use crate::ext::{
    doc_batch_ok, format_snapshot_id, format_snapshot_path, parse_document_batch,
    snapshot_id_view, snapshot_path_view,
};

verus! {

/// Everything the store holds, as one mathematical value.
#[verifier::ext_equal]
pub struct StoreView {
    pub id: NodeId,
    pub log: Map<u64, LogEntryV>,
    pub hard_state: Option<HardState>,
    pub last_applied: Option<u64>,
    pub membership: Option<MembershipConfigV>,
    pub snapshot: Option<RaftSnapshotV>,
    pub next_serial: u64,
    pub snapshot_dir: Seq<char>,
}

/// The membership to report when none was ever persisted: this node alone.
pub open spec fn membership_or_initial(v: StoreView) -> MembershipConfigV {
    match v.membership {
        Some(m) => m,
        None => initial_membership_view(v.id),
    }
}

/// The last-applied watermark, defaulting to zero when never written.
pub open spec fn last_applied_or_zero(v: StoreView) -> u64 {
    match v.last_applied {
        Some(x) => x,
        None => 0,
    }
}

/// The snapshot serial counter after issuing one identifier.
pub open spec fn serial_inc(n: u64) -> u64 {
    if n == u64::MAX { 0 } else { (n + 1) as u64 }
}

/// Writing one entry: it lands at its own index, and a configuration change
/// additionally becomes the active membership, in the same step.
pub open spec fn store_put_log(v: StoreView, e: LogEntryV) -> StoreView {
    let v1 = match e.payload {
        EntryPayloadV::ConfigChange { membership } => StoreView { membership: Some(membership), ..v },
        _ => v,
    };
    StoreView { log: v1.log.insert(e.index, e), ..v1 }
}

/// Writing a batch of entries in order.
pub open spec fn store_replicate(v: StoreView, es: Seq<LogEntryV>) -> StoreView
    decreases es.len(),
{
    if es.len() == 0 {
        v
    } else {
        store_replicate(store_put_log(v, es[0]), es.drop_first())
    }
}

/// An append conflicts when the log already holds an entry with a different
/// term at the same index: entries are never mutated in place, so only
/// truncation from that index may clear the way for the new entry.
pub open spec fn append_conflict(v: StoreView, e: LogEntryV) -> bool {
    v.log.dom().contains(e.index) && v.log[e.index].term != e.term
}

/// The entry a batch leaves at index `k`: the last one in the batch that
/// carries that index, if any.
pub open spec fn last_write(es: Seq<LogEntryV>, k: u64) -> Option<LogEntryV>
    decreases es.len(),
{
    if es.len() == 0 {
        None
    } else {
        match last_write(es.drop_first(), k) {
            Some(e) => Some(e),
            None => if es[0].index == k {
                Some(es[0])
            } else {
                None
            },
        }
    }
}

/// A batch's last write grows at its end.
pub proof fn lemma_last_write_snoc(es: Seq<LogEntryV>, e: LogEntryV, k: u64)
    ensures
        last_write(es.push(e), k) == (if e.index == k { Some(e) } else { last_write(es, k) }),
    decreases es.len(),
{
    if es.len() == 0 {
        assert(es.push(e).drop_first() =~= Seq::<LogEntryV>::empty());
        assert(es.push(e)[0] == e);
    } else {
        assert(es.push(e).drop_first() =~= es.drop_first().push(e));
        assert(es.push(e)[0] == es[0]);
        lemma_last_write_snoc(es.drop_first(), e, k);
    }
}

/// What the append at position `i` of a batch finds at its index: the batch's
/// own last earlier write there, else the log's entry.
pub open spec fn batch_prior(v: StoreView, es: Seq<LogEntryV>, i: int) -> Option<LogEntryV> {
    match last_write(es.take(i), es[i].index) {
        Some(e) => Some(e),
        None => if v.log.dom().contains(es[i].index) {
            Some(v.log[es[i].index])
        } else {
            None
        },
    }
}

/// Whether the append at position `i` of a batch hits a different-term entry.
pub open spec fn batch_conflict_at(v: StoreView, es: Seq<LogEntryV>, i: int) -> bool {
    match batch_prior(v, es, i) {
        Some(p) => p.term != es[i].term,
        None => false,
    }
}

/// Whether a whole batch appends without conflict, each entry judged against
/// the log as the entries before it left it.
pub open spec fn batch_conflict_free(v: StoreView, es: Seq<LogEntryV>) -> bool {
    forall|i: int| 0 <= i < es.len() ==> !batch_conflict_at(v, es, i)
}

/// The serial a log entry carries, zero for entries without a command.
pub open spec fn entry_serial(e: LogEntryV) -> u64 {
    match e.payload {
        EntryPayloadV::Normal { request } => request.serial,
        _ => 0,
    }
}

/// The largest serial any entry of the batch carries.
pub open spec fn max_serial(es: Seq<LogEntryV>) -> u64
    decreases es.len(),
{
    if es.len() == 0 {
        0
    } else {
        max_u64(max_serial(es.drop_last()), entry_serial(es.last()))
    }
}

/// The larger of two counters.
pub open spec fn max_u64(a: u64, b: u64) -> u64 {
    if a > b { a } else { b }
}

/// The log after compaction through `through`: the pointer sits at `through`
/// and everything below it is gone; everything above is untouched.
pub open spec fn compact_log_spec(m: Map<u64, LogEntryV>, through: u64, ptr: LogEntryV) -> Map<u64, LogEntryV> {
    Map::new(
        |k: u64| k == through || (m.dom().contains(k) && k > through),
        |k: u64| if k == through { ptr } else { m[k] },
    )
}

/// The log after installing a snapshot at `index`: entries below
/// `delete_through` are gone (all of them when it is absent), and the pointer
/// sits at `index`.
pub open spec fn install_log_spec(m: Map<u64, LogEntryV>, delete_through: Option<u64>, index: u64, ptr: LogEntryV) -> Map<u64, LogEntryV> {
    Map::new(
        |k: u64| k == index || (match delete_through {
            Some(d) => m.dom().contains(k) && k >= d,
            None => false,
        }),
        |k: u64| if k == index { ptr } else { m[k] },
    )
}

/// Whether `idx` and `term` describe the final entry of `m` (zero for an
/// empty log).
pub open spec fn last_entry_info(m: Map<u64, LogEntryV>, idx: u64, term: u64) -> bool {
    if m.dom() =~= Set::<u64>::empty() {
        idx == 0 && term == 0
    } else {
        &&& m.dom().contains(idx)
        &&& m[idx].term == term
        &&& forall|k: u64| m.dom().contains(k) ==> k <= idx
    }
}

/// Whether a command can be applied at all: a document batch must parse;
/// every other command always applies (possibly to an error response).
pub open spec fn message_parses(m: MessageV) -> bool {
    match m {
        MessageV::DocumentAddition { documents, .. } => doc_batch_ok(documents),
        _ => true,
    }
}

/// Whether the database outcome has the shape the command family produces.
pub open spec fn outcome_fits(m: MessageV, o: IndexOutcomeV) -> bool {
    match m {
        MessageV::CreateIndex { .. } => o is Meta || o is Error,
        MessageV::UpdateIndex { .. } => o is Meta || o is Error,
        MessageV::DeleteIndex { .. } => o is Unit || o is Error,
        _ => o is TaskId || o is Error,
    }
}

/// The deterministic response for a command and its database outcome: the
/// failure side is a value, so every replica answers alike.
pub open spec fn response_spec(m: MessageV, o: IndexOutcomeV) -> ClientResponseV {
    match m {
        MessageV::CreateIndex { .. } => ClientResponseV::IndexUpdate(meta_result_spec(o)),
        MessageV::UpdateIndex { .. } => ClientResponseV::IndexUpdate(meta_result_spec(o)),
        MessageV::DeleteIndex { .. } => ClientResponseV::DeleteIndex(unit_result_spec(o)),
        _ => ClientResponseV::UpdateResponse(task_result_spec(o)),
    }
}

/// The metadata result carried by an index create or update response.
pub open spec fn meta_result_spec(o: IndexOutcomeV) -> Result<Seq<char>, Seq<char>> {
    match o {
        IndexOutcomeV::Meta(s) => Ok(s),
        IndexOutcomeV::Error(e) => Err(e),
        _ => Ok(Seq::empty()),
    }
}

/// The unit result carried by an index deletion response.
pub open spec fn unit_result_spec(o: IndexOutcomeV) -> Result<(), Seq<char>> {
    match o {
        IndexOutcomeV::Error(e) => Err(e),
        _ => Ok(()),
    }
}

/// The task identifier carried by an update-family response.
pub open spec fn task_result_spec(o: IndexOutcomeV) -> Result<u64, Seq<char>> {
    match o {
        IndexOutcomeV::TaskId(t) => Ok(t),
        IndexOutcomeV::Error(e) => Err(e),
        _ => Ok(0),
    }
}

/// Writing a batch touches only the log and the membership slot: every other
/// part of the store keeps its value.
pub proof fn lemma_replicate_frame(v: StoreView, es: Seq<LogEntryV>)
    ensures
        store_replicate(v, es).id == v.id,
        store_replicate(v, es).hard_state == v.hard_state,
        store_replicate(v, es).last_applied == v.last_applied,
        store_replicate(v, es).snapshot == v.snapshot,
        store_replicate(v, es).next_serial == v.next_serial,
        store_replicate(v, es).snapshot_dir == v.snapshot_dir,
    decreases es.len(),
{
    if es.len() > 0 {
        lemma_replicate_frame(store_put_log(v, es[0]), es.drop_first());
    }
}

/// A store that was never written to.
pub open spec fn initial_store_view(id: NodeId, dir: Seq<char>) -> StoreView {
    StoreView {
        id,
        log: Map::empty(),
        hard_state: None,
        last_applied: None,
        membership: None,
        snapshot: None,
        next_serial: 0,
        snapshot_dir: dir,
    }
}

/// The storage facade.
pub struct RaftStore {
    pub id: NodeId,
    log: LogStore,
    hard_state: Option<HardState>,
    last_applied: Option<u64>,
    membership: Option<MembershipConfig>,
    snapshot: Option<RaftSnapshot>,
    next_serial: u64,
    snapshot_dir: String,
}

impl View for RaftStore {
    type V = StoreView;

    closed spec fn view(&self) -> StoreView {
        StoreView {
            id: self.id,
            log: self.log@,
            hard_state: self.hard_state,
            last_applied: self.last_applied,
            membership: match self.membership {
                Some(ref m) => Some(m@),
                None => None,
            },
            snapshot: match self.snapshot {
                Some(ref s) => Some(s@),
                None => None,
            },
            next_serial: self.next_serial,
            snapshot_dir: self.snapshot_dir@,
        }
    }
}

impl RaftStore {
    /// The store's representation invariant.
    pub closed spec fn wf(self) -> bool {
        self.log.wf()
    }

    /// Open a fresh, empty store rooted at the given snapshot directory.
    pub fn new(id: NodeId, snapshot_dir: String) -> (r: Result<RaftStore, StoreError>)
        ensures
            r matches Ok(s) && s.wf() && s@ == initial_store_view(id, snapshot_dir@),
    {
        let r = RaftStore {
            id,
            log: LogStore::new(),
            hard_state: None,
            last_applied: None,
            membership: None,
            snapshot: None,
            next_serial: 0,
            snapshot_dir,
        };
        proof {
            assert(r@ =~= initial_store_view(id, r.snapshot_dir@));
        }
        Ok(r)
    }

    /// Rebuild a store from values read back from stable storage, as a
    /// restart does: the log is replayed entry by entry, the slots are taken
    /// as persisted, and the snapshot counter restarts no lower than the
    /// persisted counter and every serial the replayed log carries, so a
    /// snapshot name is never issued twice. A persisted watermark points into
    /// the replayed log.
    pub fn from_parts(
        id: NodeId,
        snapshot_dir: String,
        entries: Vec<LogEntry>,
        hard_state: Option<HardState>,
        last_applied: Option<u64>,
        membership: Option<MembershipConfig>,
        snapshot: Option<RaftSnapshot>,
        next_serial: u64,
    ) -> (r: RaftStore)
        requires
            last_applied matches Some(la) ==> la == 0 || exists|j: int|
                0 <= j < entries@.len() && (#[trigger] entries@[j])@.index >= la,
        ensures
            r.wf(),
            r@ == (StoreView {
                id,
                log: store_replicate(initial_store_view(id, snapshot_dir@), entries_view(entries@)).log,
                hard_state,
                last_applied,
                membership: match membership {
                    Some(m) => Some(m@),
                    None => None,
                },
                snapshot: match snapshot {
                    Some(s) => Some(s@),
                    None => None,
                },
                next_serial: max_u64(next_serial, max_serial(entries_view(entries@))),
                snapshot_dir: snapshot_dir@,
            }),
    {
        let mut r = match RaftStore::new(id, snapshot_dir) {
            Ok(r) => r,
            Err(_) => unreached(),
        };
        r.replay_entries(&entries);
        r.hard_state = hard_state;
        r.last_applied = last_applied;
        r.membership = membership;
        r.snapshot = snapshot;
        let ghost vs = entries_view(entries@);
        let mut serial: u64 = next_serial;
        proof {
            assert(vs.take(0) =~= Seq::<LogEntryV>::empty());
        }
        let mut i: usize = 0;
        while i < entries.len()
            invariant
                i <= entries@.len(),
                vs == entries_view(entries@),
                vs.len() == entries@.len(),
                serial == max_u64(next_serial, max_serial(vs.take(i as int))),
            decreases entries@.len() - i,
        {
            let s = match &entries[i].payload {
                EntryPayload::Normal { request } => request.serial,
                _ => 0,
            };
            proof {
                assert(vs[i as int] == entries@[i as int]@);
                assert(entry_serial(vs[i as int]) == s);
                assert(vs.take(i + 1).drop_last() =~= vs.take(i as int));
                assert(vs.take(i + 1).last() == vs[i as int]);
            }
            if s > serial {
                serial = s;
            }
            i = i + 1;
        }
        proof {
            assert(vs.take(vs.len() as int) =~= vs);
        }
        r.next_serial = serial;
        proof {
            lemma_replicate_frame(initial_store_view(id, snapshot_dir@), entries_view(entries@));
        }
        r
    }

    /// Write a batch back into the log unconditionally, as recovery replay
    /// does: what stable storage holds is not re-judged for conflicts.
    fn replay_entries(&mut self, entries: &Vec<LogEntry>)
        requires
            old(self).wf(),
        ensures
            final(self).wf(),
            final(self)@ == store_replicate(old(self)@, entries_view(entries@)),
    {
        let ghost vs = entries_view(entries@);
        proof {
            assert(vs.skip(0) =~= vs);
        }
        let mut i: usize = 0;
        while i < entries.len()
            invariant
                self.wf(),
                i <= entries@.len(),
                vs == entries_view(entries@),
                vs.len() == entries@.len(),
                store_replicate(old(self)@, vs) == store_replicate(self@, vs.skip(i as int)),
            decreases entries@.len() - i,
        {
            let ghost pre = self@;
            let e = &entries[i];
            self.write_entry(e.index, e.clone());
            proof {
                assert(vs.skip(i as int)[0] == e@);
                assert(vs.skip(i as int).drop_first() =~= vs.skip(i + 1));
                assert(store_replicate(pre, vs.skip(i as int)) == store_replicate(self@, vs.skip(i + 1)));
            }
            i = i + 1;
        }
        proof {
            assert(vs.skip(vs.len() as int) =~= Seq::<LogEntryV>::empty());
        }
    }

    /// Write one entry at `index` unconditionally; a configuration change
    /// also updates the membership slot in the same step. Recovery replay and
    /// the snapshot-pointer writes of compaction and install use this
    /// directly: those slots were just cleared, or are replaced by design.
    fn write_entry(&mut self, index: u64, entry: LogEntry)
        requires
            old(self).wf(),
            entry.index == index,
        ensures
            final(self).wf(),
            final(self)@ == store_put_log(old(self)@, entry@),
    {
        match &entry.payload {
            EntryPayload::ConfigChange { membership } => {
                self.membership = Some(membership.clone());
            },
            _ => {},
        }
        self.log.put(entry);
        proof {
            assert(self@ =~= store_put_log(old(self)@, entry@));
        }
    }

    /// Append one entry at `index`: an entry with a different term already at
    /// that index is a conflict, and the append fails with the store
    /// unchanged; re-appending the same-term entry is accepted.
    fn put_log(&mut self, index: u64, entry: LogEntry) -> (r: Result<(), StoreError>)
        requires
            old(self).wf(),
            entry.index == index,
        ensures
            final(self).wf(),
            r is Ok <==> !append_conflict(old(self)@, entry@),
            r is Ok ==> final(self)@ == store_put_log(old(self)@, entry@),
            r matches Err(e) ==> e == StoreError::Conflict && final(self)@ == old(self)@,
    {
        match self.log.get(index) {
            Some(existing) => {
                if existing.term != entry.term {
                    return Err(StoreError::Conflict);
                }
            },
            None => {},
        }
        self.write_entry(index, entry);
        Ok(())
    }

    /// Issue the next snapshot name and advance the serial counter.
    fn generate_snapshot_id(&mut self) -> (r: String)
        requires
            old(self).wf(),
        ensures
            final(self).wf(),
            r@ == snapshot_id_view(old(self)@.next_serial),
            final(self)@ == (StoreView { next_serial: serial_inc(old(self)@.next_serial), ..old(self)@ }),
    {
        let id = format_snapshot_id(self.next_serial);
        self.next_serial = if self.next_serial == u64::MAX { 0 } else { self.next_serial + 1 };
        proof {
            assert(self@ =~= (StoreView { next_serial: serial_inc(old(self)@.next_serial), ..old(self)@ }));
        }
        id
    }

    /// Where the snapshot named `id` lives on disk.
    pub fn snapshot_path_from_id(&self, id: &str) -> (r: String)
        ensures
            r@ == snapshot_path_view(self@.snapshot_dir, id@),
    {
        format_snapshot_path(self.snapshot_dir.as_str(), id)
    }

    /// Apply one committed command to the database outcome the caller
    /// obtained for it, producing the deterministic response. A document
    /// batch that does not parse is a protocol break, not an application
    /// error.
    pub fn apply_message(&self, message: &Message, outcome: IndexOutcome) -> (r: Result<ClientResponse, StoreError>)
        requires
            outcome_fits(message@, outcome@),
        ensures
            r is Ok <==> message_parses(message@),
            r matches Ok(resp) ==> resp@ == response_spec(message@, outcome@),
            r matches Err(e) ==> e == StoreError::DeserializationError,
    {
        match message {
            Message::DocumentAddition { documents, .. } => {
                if !parse_document_batch(documents.as_str()) {
                    return Err(StoreError::DeserializationError);
                }
            },
            _ => {},
        }
        let resp = match message {
            Message::CreateIndex { .. } => ClientResponse::IndexUpdate(meta_result(outcome)),
            Message::UpdateIndex { .. } => ClientResponse::IndexUpdate(meta_result(outcome)),
            Message::DeleteIndex { .. } => ClientResponse::DeleteIndex(unit_result(outcome)),
            _ => ClientResponse::UpdateResponse(task_result(outcome)),
        };
        Ok(resp)
    }
}

/// The metadata result for an index create or update.
fn meta_result(o: IndexOutcome) -> (r: Result<String, String>)
    requires
        o@ is Meta || o@ is Error,
    ensures
        (match r {
            Ok(s) => meta_result_spec(o@) matches Ok(v) && s@ == v,
            Err(e) => meta_result_spec(o@) matches Err(v) && e@ == v,
        }),
{
    match o {
        IndexOutcome::Meta(s) => Ok(s),
        IndexOutcome::Error(e) => Err(e),
        _ => unreached(),
    }
}

/// The unit result for an index deletion.
fn unit_result(o: IndexOutcome) -> (r: Result<(), String>)
    requires
        o@ is Unit || o@ is Error,
    ensures
        (match r {
            Ok(u) => unit_result_spec(o@) == Ok::<(), Seq<char>>(u),
            Err(e) => unit_result_spec(o@) matches Err(v) && e@ == v,
        }),
{
    match o {
        IndexOutcome::Unit => Ok(()),
        IndexOutcome::Error(e) => Err(e),
        _ => unreached(),
    }
}

/// The task identifier for a document or settings update.
fn task_result(o: IndexOutcome) -> (r: Result<u64, String>)
    requires
        o@ is TaskId || o@ is Error,
    ensures
        (match r {
            Ok(t) => task_result_spec(o@) == Ok::<u64, Seq<char>>(t),
            Err(e) => task_result_spec(o@) matches Err(v) && e@ == v,
        }),
{
    match o {
        IndexOutcome::TaskId(t) => Ok(t),
        IndexOutcome::Error(e) => Err(e),
        _ => unreached(),
    }
}

/// An executable test of `outcome_fits`, for unverified callers that must
/// validate a host-supplied outcome before handing it to the adapter.
pub fn outcome_fits_check(message: &Message, outcome: &IndexOutcome) -> (r: bool)
    ensures
        r == outcome_fits(message@, outcome@),
{
    match message {
        Message::CreateIndex { .. } => match outcome {
            IndexOutcome::Meta(_) => true,
            IndexOutcome::Error(_) => true,
            _ => false,
        },
        Message::UpdateIndex { .. } => match outcome {
            IndexOutcome::Meta(_) => true,
            IndexOutcome::Error(_) => true,
            _ => false,
        },
        Message::DeleteIndex { .. } => match outcome {
            IndexOutcome::Unit => true,
            IndexOutcome::Error(_) => true,
            _ => false,
        },
        _ => match outcome {
            IndexOutcome::TaskId(_) => true,
            IndexOutcome::Error(_) => true,
            _ => false,
        },
    }
}

impl RaftStore {
    /// Whether this node still runs alone or already joined a cluster. The
    /// member vector stands for a set, so the length only counts voters when
    /// the members are distinct.
    pub fn state(&self) -> (r: Result<NodeState, StoreError>)
        requires
            membership_wf(membership_or_initial(self@)),
        ensures
            r matches Ok(ns) && ((ns == NodeState::Uninitialized) <==> membership_or_initial(self@).members.len() <= 1),
    {
        let n = match &self.membership {
            Some(m) => m.members.len(),
            None => 1,
        };
        if n <= 1 {
            Ok(NodeState::Uninitialized)
        } else {
            Ok(NodeState::Initialized)
        }
    }

    /// The active membership, or the initial single-node one if none is set.
    pub fn get_membership_config(&self) -> (r: Result<MembershipConfig, StoreError>)
        ensures
            r matches Ok(m) && m@ == membership_or_initial(self@),
    {
        match &self.membership {
            Some(m) => Ok(m.clone()),
            None => Ok(MembershipConfig::new_initial(self.id)),
        }
    }

    /// One-shot bootstrap read. When no hard state was ever persisted, a
    /// fresh initial state is synthesized, persisted and returned; otherwise
    /// the answer is derived from the log's final entry and the slots.
    pub fn get_initial_state(&mut self) -> (r: Result<InitialState, StoreError>)
        requires
            old(self).wf(),
        ensures
            final(self).wf(),
            old(self)@.hard_state matches Some(hs) ==> {
                &&& final(self)@ == old(self)@
                &&& r matches Ok(st)
                &&& (r matches Ok(st) ==> {
                    &&& st@.hard_state == hs
                    &&& st@.membership == membership_or_initial(old(self)@)
                    &&& st@.last_applied_log == last_applied_or_zero(old(self)@)
                    &&& last_entry_info(old(self)@.log, st@.last_log_index, st@.last_log_term)
                })
            },
            old(self)@.hard_state is None ==> {
                &&& final(self)@ == (StoreView {
                    hard_state: Some(HardState { current_term: 0, voted_for: None }),
                    ..old(self)@
                })
                &&& r matches Ok(st)
                &&& (r matches Ok(st) ==> {
                    &&& st@.last_log_index == 0
                    &&& st@.last_log_term == 0
                    &&& st@.last_applied_log == 0
                    &&& st@.hard_state == (HardState { current_term: 0, voted_for: None })
                    &&& st@.membership == initial_membership_view(old(self)@.id)
                })
            },
    {
        match self.hard_state {
            Some(hs) => {
                let membership = match &self.membership {
                    Some(m) => m.clone(),
                    None => MembershipConfig::new_initial(self.id),
                };
                let (last_log_index, last_log_term) = match self.log.last() {
                    Some(e) => (e.index, e.term),
                    None => (0, 0),
                };
                let last_applied_log = match self.last_applied {
                    Some(x) => x,
                    None => 0,
                };
                Ok(InitialState { last_log_index, last_log_term, last_applied_log, hard_state: hs, membership })
            },
            None => {
                let hs = HardState::new_initial();
                self.hard_state = Some(hs);
                proof {
                    assert(self@ =~= (StoreView {
                        hard_state: Some(HardState { current_term: 0, voted_for: None }),
                        ..old(self)@
                    }));
                }
                Ok(InitialState {
                    last_log_index: 0,
                    last_log_term: 0,
                    last_applied_log: 0,
                    hard_state: hs,
                    membership: MembershipConfig::new_initial(self.id),
                })
            },
        }
    }

    /// Overwrite the hard-state slot.
    pub fn save_hard_state(&mut self, hs: &HardState) -> (r: Result<(), StoreError>)
        requires
            old(self).wf(),
        ensures
            final(self).wf(),
            r is Ok,
            final(self)@ == (StoreView { hard_state: Some(*hs), ..old(self)@ }),
    {
        self.hard_state = Some(*hs);
        proof {
            assert(self@ =~= (StoreView { hard_state: Some(*hs), ..old(self)@ }));
        }
        Ok(())
    }

    /// Every entry with index in `[start, stop]`, in index order; a single
    /// index reads its entry or nothing.
    pub fn get_log_entries(&self, start: u64, stop: u64) -> (r: Result<Vec<LogEntry>, StoreError>)
        requires
            self.wf(),
        ensures
            r matches Ok(es) && {
                &&& forall|j: int| 0 <= j < es@.len() ==> {
                    &&& start <= (#[trigger] es@[j])@.index <= stop
                    &&& self@.log.dom().contains(es@[j]@.index)
                    &&& es@[j]@ == self@.log[es@[j]@.index]
                }
                &&& forall|a: int, b: int| 0 <= a < b < es@.len() ==> es@[a]@.index < es@[b]@.index
                &&& forall|k: u64| start <= k <= stop && self@.log.dom().contains(k)
                    ==> exists|j: int| 0 <= j < es@.len() && (#[trigger] es@[j])@.index == k
            },
    {
        Ok(self.log.range(start, stop))
    }

    /// Conflict truncation: delete `[start, stop)` when `stop` is given, else
    /// everything from `start` on.
    pub fn delete_logs_from(&mut self, start: u64, stop: Option<u64>) -> (r: Result<(), StoreError>)
        requires
            old(self).wf(),
        ensures
            final(self).wf(),
            r is Ok,
            final(self)@ == (StoreView {
                log: delete_span_spec(old(self)@.log, start, delete_bound_of(stop)),
                ..old(self)@
            }),
    {
        let bound = match stop {
            Some(h) => DeleteBound::Excl(h),
            None => DeleteBound::Unbounded,
        };
        self.log.delete_span(start, bound);
        proof {
            assert(self@ =~= (StoreView {
                log: delete_span_spec(old(self)@.log, start, delete_bound_of(stop)),
                ..old(self)@
            }));
        }
        Ok(())
    }

    /// Append one entry; a configuration change also becomes the active
    /// membership in the same step. An entry with a different term already at
    /// that index is a conflict: the append fails and the log is unchanged,
    /// unless the caller first truncated from that index.
    pub fn append_entry_to_log(&mut self, entry: &LogEntry) -> (r: Result<(), StoreError>)
        requires
            old(self).wf(),
        ensures
            final(self).wf(),
            r is Ok <==> !append_conflict(old(self)@, entry@),
            r is Ok ==> final(self)@ == store_put_log(old(self)@, entry@),
            r matches Err(e) ==> e == StoreError::Conflict && final(self)@ == old(self)@,
    {
        self.put_log(entry.index, entry.clone())
    }

    /// Append a batch of entries in order, with the same configuration-change
    /// side effect and the same conflict rule per entry, each judged against
    /// the log as the entries before it left it. A batch with a conflicting
    /// entry fails whole: nothing of it reaches the store.
    pub fn replicate_to_log(&mut self, entries: &Vec<LogEntry>) -> (r: Result<(), StoreError>)
        requires
            old(self).wf(),
        ensures
            final(self).wf(),
            r is Ok <==> batch_conflict_free(old(self)@, entries_view(entries@)),
            r is Ok ==> final(self)@ == store_replicate(old(self)@, entries_view(entries@)),
            r matches Err(e) ==> e == StoreError::Conflict && final(self)@ == old(self)@,
    {
        let ghost vs = entries_view(entries@);
        let ghost v0 = self@;
        let n = entries.len();
        let mut i: usize = 0;
        while i < n
            invariant
                self.wf(),
                self@ == v0,
                v0 == old(self)@,
                n == entries@.len(),
                vs == entries_view(entries@),
                vs.len() == n,
                i <= n,
                forall|i0: int| 0 <= i0 < i ==> !batch_conflict_at(v0, vs, i0),
            decreases n - i,
        {
            let k = entries[i].index;
            proof {
                assert(vs[i as int] == entries@[i as int]@);
                assert(vs.take(0) =~= Seq::<LogEntryV>::empty());
            }
            let mut prior: Option<u64> = None;
            let mut j: usize = 0;
            while j < i
                invariant
                    j <= i < n,
                    n == entries@.len(),
                    vs == entries_view(entries@),
                    vs.len() == n,
                    k == vs[i as int].index,
                    prior == (match last_write(vs.take(j as int), k) {
                        Some(e) => Some(e.term),
                        None => None::<u64>,
                    }),
                decreases i - j,
            {
                proof {
                    assert(vs[j as int] == entries@[j as int]@);
                    lemma_last_write_snoc(vs.take(j as int), vs[j as int], k);
                    assert(vs.take(j + 1) =~= vs.take(j as int).push(vs[j as int]));
                }
                if entries[j].index == k {
                    prior = Some(entries[j].term);
                }
                j = j + 1;
            }
            let effective: Option<u64> = match prior {
                Some(t) => Some(t),
                None => match self.log.get(k) {
                    Some(e) => Some(e.term),
                    None => None,
                },
            };
            let conflict = match effective {
                Some(t) => t != entries[i].term,
                None => false,
            };
            proof {
                assert(conflict == batch_conflict_at(v0, vs, i as int));
            }
            if conflict {
                proof {
                    assert(batch_conflict_at(v0, vs, i as int));
                }
                return Err(StoreError::Conflict);
            }
            i = i + 1;
        }
        self.replay_entries(entries);
        Ok(())
    }

    /// Apply one committed entry: record its serial, compute the response,
    /// and advance last-applied, which is durable when the call returns. The
    /// runtime applies only committed entries, so the index is in the log,
    /// and the watermark therefore never passes the last log index; and it
    /// never re-applies an entry at or below the recorded watermark.
    pub fn apply_entry_to_state_machine(&mut self, index: u64, data: &ClientRequest, outcome: IndexOutcome) -> (r: Result<ClientResponse, StoreError>)
        requires
            old(self).wf(),
            old(self)@.log.dom().contains(index),
            index > last_applied_or_zero(old(self)@),
            outcome_fits(data@.message, outcome@),
        ensures
            final(self).wf(),
            final(self)@.log.dom().contains(index),
            r is Ok <==> message_parses(data@.message),
            r matches Ok(resp) ==> {
                &&& resp@ == response_spec(data@.message, outcome@)
                &&& final(self)@ == (StoreView {
                    next_serial: data.serial,
                    last_applied: Some(index),
                    ..old(self)@
                })
            },
            r matches Err(e) ==> {
                &&& e == StoreError::DeserializationError
                &&& final(self)@ == (StoreView { next_serial: data.serial, ..old(self)@ })
            },
    {
        self.next_serial = data.serial;
        match self.apply_message(&data.message, outcome) {
            Ok(resp) => {
                self.last_applied = Some(index);
                proof {
                    assert(self@ =~= (StoreView {
                        next_serial: data.serial,
                        last_applied: Some(index),
                        ..old(self)@
                    }));
                }
                Ok(resp)
            },
            Err(e) => {
                proof {
                    assert(self@ =~= (StoreView { next_serial: data.serial, ..old(self)@ }));
                }
                Err(e)
            },
        }
    }

    /// Bulk apply: validate every command, then advance last-applied to the
    /// final index of the batch in one step. A batch with a command that does
    /// not parse changes nothing.
    pub fn replicate_to_state_machine(&mut self, entries: &Vec<(u64, ClientRequest)>) -> (r: Result<(), StoreError>)
        requires
            old(self).wf(),
            forall|i: int| 0 <= i < entries@.len()
                ==> old(self)@.log.dom().contains((#[trigger] entries@[i]).0),
            forall|i: int| 0 <= i < entries@.len()
                ==> (#[trigger] entries@[i]).0 > last_applied_or_zero(old(self)@),
        ensures
            final(self).wf(),
            r is Ok <==> (forall|i: int| 0 <= i < entries@.len() ==> message_parses((#[trigger] entries@[i]).1@.message)),
            r is Ok ==> final(self)@ == (StoreView {
                last_applied: Some(if entries@.len() > 0 {
                    entries@.last().0
                } else {
                    last_applied_or_zero(old(self)@)
                }),
                ..old(self)@
            }),
            r matches Err(e) ==> e == StoreError::DeserializationError && final(self)@ == old(self)@,
    {
        let mut i: usize = 0;
        while i < entries.len()
            invariant
                self.wf(),
                self@ == old(self)@,
                i <= entries@.len(),
                forall|j: int| 0 <= j < i ==> message_parses((#[trigger] entries@[j]).1@.message),
            decreases entries@.len() - i,
        {
            match &entries[i].1.message {
                Message::DocumentAddition { documents, .. } => {
                    if !parse_document_batch(documents.as_str()) {
                        return Err(StoreError::DeserializationError);
                    }
                },
                _ => {},
            }
            i = i + 1;
        }
        let last_applied = if entries.len() > 0 {
            entries[entries.len() - 1].0
        } else {
            match self.last_applied {
                Some(x) => x,
                None => 0,
            }
        };
        self.last_applied = Some(last_applied);
        proof {
            assert(self@ =~= (StoreView {
                last_applied: Some(if entries@.len() > 0 {
                    entries@.last().0
                } else {
                    last_applied_or_zero(old(self)@)
                }),
                ..old(self)@
            }));
        }
        Ok(())
    }

    /// The compaction flow: read the term at `through` (which the runtime
    /// promised exists), issue a snapshot name, replace everything up to and
    /// including `through` by one pointer entry, and record the descriptor.
    pub fn create_snapshot_and_compact(&mut self, through: u64) -> (r: Result<RaftSnapshot, StoreError>)
        requires
            old(self).wf(),
        ensures
            final(self).wf(),
            r is Ok <==> old(self)@.log.dom().contains(through),
            r matches Err(e) ==> e == StoreError::InconsistentLog && final(self)@ == old(self)@,
            r matches Ok(snap) ==> compaction_post(old(self)@, through, snap@, final(self)@),
    {
        let term = match self.log.get(through) {
            Some(e) => e.term,
            None => {
                return Err(StoreError::InconsistentLog);
            },
        };
        let snapshot_id = self.generate_snapshot_id();
        let membership_config = match &self.membership {
            Some(m) => m.clone(),
            None => MembershipConfig::new_initial(self.id),
        };
        let snapshot_path = self.snapshot_path_from_id(snapshot_id.as_str());
        let entry = LogEntry::new_snapshot_pointer(through, term, snapshot_id.clone(), membership_config.clone());
        self.log.delete_span(0, DeleteBound::Incl(through));
        self.write_entry(through, entry);
        let raft_snapshot = RaftSnapshot {
            path: snapshot_path,
            id: snapshot_id,
            index: through,
            term,
            membership: membership_config,
        };
        self.snapshot = Some(raft_snapshot.clone());
        proof {
            let v = old(self)@;
            let ptr = snapshot_pointer_view(through, term, snapshot_id_view(v.next_serial), membership_or_initial(v));
            assert(self@.log =~= compact_log_spec(v.log, through, ptr));
            assert(self@ =~= (StoreView {
                log: compact_log_spec(v.log, through, ptr),
                snapshot: Some(raft_snapshot@),
                next_serial: serial_inc(v.next_serial),
                ..v
            }));
        }
        Ok(raft_snapshot)
    }

    /// Compact the log through `through` and return the descriptor of the
    /// snapshot that now stands for the removed prefix.
    pub fn do_log_compaction(&mut self, through: u64) -> (r: Result<RaftSnapshot, StoreError>)
        requires
            old(self).wf(),
        ensures
            final(self).wf(),
            r is Ok <==> old(self)@.log.dom().contains(through),
            r matches Err(e) ==> e == StoreError::InconsistentLog && final(self)@ == old(self)@,
            r matches Ok(snap) ==> compaction_post(old(self)@, through, snap@, final(self)@),
    {
        self.create_snapshot_and_compact(through)
    }

    /// Reserve a snapshot name and the path an incoming stream will fill.
    pub fn create_snapshot(&mut self) -> (r: Result<(String, String), StoreError>)
        requires
            old(self).wf(),
        ensures
            final(self).wf(),
            r matches Ok(p) && {
                &&& p.0@ == snapshot_id_view(old(self)@.next_serial)
                &&& p.1@ == snapshot_path_view(old(self)@.snapshot_dir, p.0@)
                &&& final(self)@ == (StoreView { next_serial: serial_inc(old(self)@.next_serial), ..old(self)@ })
            },
    {
        let id = self.generate_snapshot_id();
        let path = self.snapshot_path_from_id(id.as_str());
        Ok((id, path))
    }

    /// The install flow: truncate the log (wholly, or below `delete_through`),
    /// plant the pointer entry at `index`, and record the descriptor. The
    /// caller swaps the unpacked application database around this call.
    pub fn finalize_snapshot_installation(&mut self, index: u64, term: u64, delete_through: Option<u64>, id: String) -> (r: Result<(), StoreError>)
        requires
            old(self).wf(),
        ensures
            final(self).wf(),
            r is Ok,
            install_post(old(self)@, index, term, delete_through, id@, final(self)@),
    {
        let ghost v0 = self@;
        let ghost idv = id@;
        match delete_through {
            Some(d) => self.log.delete_span(0, DeleteBound::Excl(d)),
            None => self.log.clear(),
        }
        let membership_config = match &self.membership {
            Some(m) => m.clone(),
            None => MembershipConfig::new_initial(self.id),
        };
        let entry = LogEntry::new_snapshot_pointer(index, term, id.clone(), membership_config.clone());
        self.write_entry(index, entry);
        let path = self.snapshot_path_from_id(id.as_str());
        let raft_snapshot = RaftSnapshot {
            index,
            term,
            membership: membership_config,
            path,
            id,
        };
        self.snapshot = Some(raft_snapshot);
        proof {
            let cfg = membership_or_initial(v0);
            let ptr = snapshot_pointer_view(index, term, idv, cfg);
            assert(self@.log =~= install_log_spec(v0.log, delete_through, index, ptr));
            assert(self@ =~= (StoreView {
                log: install_log_spec(v0.log, delete_through, index, ptr),
                snapshot: Some(raft_snapshot@),
                ..v0
            }));
        }
        Ok(())
    }

    /// The greatest index already applied to the state machine, if any.
    pub fn last_applied(&self) -> (r: Option<u64>)
        ensures
            r == self@.last_applied,
    {
        self.last_applied
    }

    /// The serial the next snapshot name will be drawn from.
    pub fn snapshot_serial(&self) -> (r: u64)
        ensures
            r == self@.next_serial,
    {
        self.next_serial
    }

    /// The descriptor of the snapshot currently on stable storage, if any.
    pub fn get_current_snapshot(&self) -> (r: Result<Option<RaftSnapshot>, StoreError>)
        ensures
            r matches Ok(o) && (match (o, self@.snapshot) {
                (Some(s), Some(vs)) => s@ == vs,
                (None, None) => true,
                _ => false,
            }),
    {
        match &self.snapshot {
            Some(s) => Ok(Some(s.clone())),
            None => Ok(None),
        }
    }
}

/// The exact effect of a successful compaction through `through`.
pub open spec fn compaction_post(v: StoreView, through: u64, snap: RaftSnapshotV, v2: StoreView) -> bool {
    let term = v.log[through].term;
    let cfg = membership_or_initial(v);
    let id = snapshot_id_view(v.next_serial);
    let ptr = snapshot_pointer_view(through, term, id, cfg);
    &&& snap == (RaftSnapshotV {
        id,
        path: snapshot_path_view(v.snapshot_dir, id),
        index: through,
        term,
        membership: cfg,
    })
    &&& v2 == (StoreView {
        log: compact_log_spec(v.log, through, ptr),
        snapshot: Some(snap),
        next_serial: serial_inc(v.next_serial),
        ..v
    })
}

/// The exact effect of installing a snapshot `(index, term, id)`.
pub open spec fn install_post(v: StoreView, index: u64, term: u64, delete_through: Option<u64>, id: Seq<char>, v2: StoreView) -> bool {
    let cfg = membership_or_initial(v);
    let ptr = snapshot_pointer_view(index, term, id, cfg);
    let snap = RaftSnapshotV {
        id,
        path: snapshot_path_view(v.snapshot_dir, id),
        index,
        term,
        membership: cfg,
    };
    v2 == (StoreView {
        log: install_log_spec(v.log, delete_through, index, ptr),
        snapshot: Some(snap),
        ..v
    })
}

/// The deletion span that conflict truncation uses.
pub open spec fn delete_bound_of(stop: Option<u64>) -> DeleteBound {
    match stop {
        Some(h) => DeleteBound::Excl(h),
        None => DeleteBound::Unbounded,
    }
}

} // verus!
