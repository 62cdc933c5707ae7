//! Plain data model of the replicated log: entries, consensus metadata,
//! command messages and their responses. Each type with owned text carries a
//! spec-level view (`...V`) over `Seq<char>`, and contracts elsewhere speak of
//! those views.
use vstd::prelude::*;

verus! {

/// Identifier of a cluster member.
pub type NodeId = u64;

/// Durable consensus metadata: the current term and the vote cast in it.
#[derive(Clone, Copy, Debug, PartialEq, Eq)]
pub struct HardState {
    pub current_term: u64,
    pub voted_for: Option<NodeId>,
}

impl HardState {
    /// The hard state a node starts from before any election.
    pub fn new_initial() -> (r: HardState)
        ensures
            r.current_term == 0,
            r.voted_for is None,
    {
        HardState { current_term: 0, voted_for: None }
    }
}

/// The active voter set, possibly joint during a configuration change. Each
/// vector stands for a set: its members are distinct (`membership_wf`).
#[derive(Debug, PartialEq, Eq)]
pub struct MembershipConfig {
    pub members: Vec<NodeId>,
    pub members_after_consensus: Option<Vec<NodeId>>,
}

/// Spec view of a membership configuration.
pub struct MembershipConfigV {
    pub members: Seq<NodeId>,
    pub members_after_consensus: Option<Seq<NodeId>>,
}

impl View for MembershipConfig {
    type V = MembershipConfigV;

    open spec fn view(&self) -> MembershipConfigV {
        MembershipConfigV {
            members: self.members@,
            members_after_consensus: match self.members_after_consensus {
                Some(ref v) => Some(v@),
                None => None,
            },
        }
    }
}

/// A membership carries each voter once: the vectors stand for sets.
pub open spec fn membership_wf(m: MembershipConfigV) -> bool {
    &&& (forall|i: int, j: int| 0 <= i < j < m.members.len() ==> m.members[i] != m.members[j])
    &&& (match m.members_after_consensus {
        Some(a) => forall|i: int, j: int| 0 <= i < j < a.len() ==> a[i] != a[j],
        None => true,
    })
}

/// The view of the single-node configuration a fresh cluster member assumes.
pub open spec fn initial_membership_view(id: NodeId) -> MembershipConfigV {
    MembershipConfigV { members: seq![id], members_after_consensus: None }
}

impl MembershipConfig {
    /// The configuration a lone node starts from: itself as the only voter.
    pub fn new_initial(id: NodeId) -> (r: MembershipConfig)
        ensures
            r@ == initial_membership_view(id),
            membership_wf(r@),
    {
        let mut members: Vec<NodeId> = Vec::new();
        members.push(id);
        let r = MembershipConfig { members, members_after_consensus: None };
        proof {
            assert(r@.members =~= seq![id]);
            assert(r@ =~= initial_membership_view(id));
        }
        r
    }
}

impl Clone for MembershipConfig {
    fn clone(&self) -> (r: Self)
        ensures
            r@ == self@,
    {
        let members = clone_ids(&self.members);
        let members_after_consensus = match self.members_after_consensus {
            Some(ref v) => Some(clone_ids(v)),
            None => None,
        };
        let r = MembershipConfig { members, members_after_consensus };
        proof {
            assert(r@ =~= self@);
        }
        r
    }
}

/// Copy a vector of node identifiers element by element.
fn clone_ids(v: &Vec<NodeId>) -> (r: Vec<NodeId>)
    ensures
        r@ == v@,
{
    let mut r: Vec<NodeId> = Vec::new();
    let mut i: usize = 0;
    while i < v.len()
        invariant
            i <= v.len(),
            r@ == v@.subrange(0, i as int),
        decreases v.len() - i,
    {
        r.push(v[i]);
        i = i + 1;
        proof {
            assert(r@ =~= v@.subrange(0, i as int));
        }
    }
    proof {
        assert(r@ =~= v@);
    }
    r
}

/// Copy a vector of strings element by element, preserving every view.
pub fn clone_strings(v: &Vec<String>) -> (r: Vec<String>)
    ensures
        strs_view(r) == strs_view(*v),
{
    let mut r: Vec<String> = Vec::new();
    let mut i: usize = 0;
    while i < v.len()
        invariant
            i <= v.len(),
            r@.len() == i,
            forall|j: int| 0 <= j < i ==> r@[j]@ == v@[j]@,
        decreases v.len() - i,
    {
        r.push(v[i].clone());
        i = i + 1;
    }
    proof {
        assert forall|j: int| 0 <= j < v@.len() implies strs_view(r)[j] == strs_view(*v)[j] by {
            assert(r@[j]@ == v@[j]@);
        }
        assert(strs_view(r) =~= strs_view(*v));
    }
    r
}

/// View of a vector of strings as a sequence of character sequences.
pub open spec fn strs_view(v: Vec<String>) -> Seq<Seq<char>> {
    v@.map_values(|s: String| s@)
}

/// View of an optional string.
pub open spec fn opt_str_view(o: Option<String>) -> Option<Seq<char>> {
    match o {
        Some(s) => Some(s@),
        None => None,
    }
}

/// One mutation command accepted by the application.
#[derive(Debug, PartialEq, Eq)]
pub enum Message {
    /// Create a new index with the given configuration.
    CreateIndex { uid: Option<String>, primary_key: Option<String> },
    /// Apply a configuration update to an existing index.
    UpdateIndex { index_uid: String, update: String },
    /// Remove an index and its data.
    DeleteIndex { index_uid: String },
    /// Enqueue a batch of documents for addition; `partial` merges fields.
    DocumentAddition { update_query: String, index_uid: String, documents: String, partial: bool },
    /// Delete the listed documents.
    DocumentsDeletion { index_uid: String, ids: Vec<String> },
    /// Remove every document in the index.
    ClearAllDocuments { index_uid: String },
    /// Mutate index settings.
    SettingsUpdate { index_uid: String, update: String },
}

/// Spec view of a command message.
pub enum MessageV {
    CreateIndex { uid: Option<Seq<char>>, primary_key: Option<Seq<char>> },
    UpdateIndex { index_uid: Seq<char>, update: Seq<char> },
    DeleteIndex { index_uid: Seq<char> },
    DocumentAddition { update_query: Seq<char>, index_uid: Seq<char>, documents: Seq<char>, partial: bool },
    DocumentsDeletion { index_uid: Seq<char>, ids: Seq<Seq<char>> },
    ClearAllDocuments { index_uid: Seq<char> },
    SettingsUpdate { index_uid: Seq<char>, update: Seq<char> },
}

impl View for Message {
    type V = MessageV;

    open spec fn view(&self) -> MessageV {
        match self {
            Message::CreateIndex { uid, primary_key } => MessageV::CreateIndex {
                uid: opt_str_view(*uid),
                primary_key: opt_str_view(*primary_key),
            },
            Message::UpdateIndex { index_uid, update } => MessageV::UpdateIndex {
                index_uid: index_uid@,
                update: update@,
            },
            Message::DeleteIndex { index_uid } => MessageV::DeleteIndex { index_uid: index_uid@ },
            Message::DocumentAddition { update_query, index_uid, documents, partial } => {
                MessageV::DocumentAddition {
                    update_query: update_query@,
                    index_uid: index_uid@,
                    documents: documents@,
                    partial: *partial,
                }
            },
            Message::DocumentsDeletion { index_uid, ids } => MessageV::DocumentsDeletion {
                index_uid: index_uid@,
                ids: strs_view(*ids),
            },
            Message::ClearAllDocuments { index_uid } => MessageV::ClearAllDocuments {
                index_uid: index_uid@,
            },
            Message::SettingsUpdate { index_uid, update } => MessageV::SettingsUpdate {
                index_uid: index_uid@,
                update: update@,
            },
        }
    }
}

/// Copy an optional string, preserving the view.
fn clone_opt_string(o: &Option<String>) -> (r: Option<String>)
    ensures
        opt_str_view(r) == opt_str_view(*o),
{
    match o {
        Some(s) => Some(s.clone()),
        None => None,
    }
}

impl Clone for Message {
    fn clone(&self) -> (r: Self)
        ensures
            r@ == self@,
    {
        match self {
            Message::CreateIndex { uid, primary_key } => Message::CreateIndex {
                uid: clone_opt_string(uid),
                primary_key: clone_opt_string(primary_key),
            },
            Message::UpdateIndex { index_uid, update } => Message::UpdateIndex {
                index_uid: index_uid.clone(),
                update: update.clone(),
            },
            Message::DeleteIndex { index_uid } => Message::DeleteIndex {
                index_uid: index_uid.clone(),
            },
            Message::DocumentAddition { update_query, index_uid, documents, partial } => {
                Message::DocumentAddition {
                    update_query: update_query.clone(),
                    index_uid: index_uid.clone(),
                    documents: documents.clone(),
                    partial: *partial,
                }
            },
            Message::DocumentsDeletion { index_uid, ids } => Message::DocumentsDeletion {
                index_uid: index_uid.clone(),
                ids: clone_strings(ids),
            },
            Message::ClearAllDocuments { index_uid } => Message::ClearAllDocuments {
                index_uid: index_uid.clone(),
            },
            Message::SettingsUpdate { index_uid, update } => Message::SettingsUpdate {
                index_uid: index_uid.clone(),
                update: update.clone(),
            },
        }
    }
}

/// A client command together with its application-assigned serial number.
#[derive(Debug, PartialEq, Eq)]
pub struct ClientRequest {
    pub serial: u64,
    pub message: Message,
}

/// Spec view of a client request.
pub struct ClientRequestV {
    pub serial: u64,
    pub message: MessageV,
}

impl View for ClientRequest {
    type V = ClientRequestV;

    open spec fn view(&self) -> ClientRequestV {
        ClientRequestV { serial: self.serial, message: self.message@ }
    }
}

impl Clone for ClientRequest {
    fn clone(&self) -> (r: Self)
        ensures
            r@ == self@,
    {
        ClientRequest { serial: self.serial, message: self.message.clone() }
    }
}

/// Deterministic result of applying one command; errors are values so that
/// every replica observes the same response for the same committed entry.
#[derive(Debug, PartialEq, Eq)]
pub enum ClientResponse {
    /// Result of creating or updating an index: its serialized metadata.
    IndexUpdate(Result<String, String>),
    /// Result of a document or settings update: the queued task identifier.
    UpdateResponse(Result<u64, String>),
    /// Result of deleting an index.
    DeleteIndex(Result<(), String>),
}

/// Spec view of a client response.
pub enum ClientResponseV {
    IndexUpdate(Result<Seq<char>, Seq<char>>),
    UpdateResponse(Result<u64, Seq<char>>),
    DeleteIndex(Result<(), Seq<char>>),
}

impl View for ClientResponse {
    type V = ClientResponseV;

    open spec fn view(&self) -> ClientResponseV {
        match self {
            ClientResponse::IndexUpdate(Ok(m)) => ClientResponseV::IndexUpdate(Ok(m@)),
            ClientResponse::IndexUpdate(Err(e)) => ClientResponseV::IndexUpdate(Err(e@)),
            ClientResponse::UpdateResponse(Ok(t)) => ClientResponseV::UpdateResponse(Ok(*t)),
            ClientResponse::UpdateResponse(Err(e)) => ClientResponseV::UpdateResponse(Err(e@)),
            ClientResponse::DeleteIndex(Ok(u)) => ClientResponseV::DeleteIndex(Ok(*u)),
            ClientResponse::DeleteIndex(Err(e)) => ClientResponseV::DeleteIndex(Err(e@)),
        }
    }
}

/// What the embedded search database returned for one command, as the caller
/// that performed the call hands it back to the adapter.
#[derive(Debug, PartialEq, Eq)]
pub enum IndexOutcome {
    /// Serialized index metadata, from creating or updating an index.
    Meta(String),
    /// Queued task identifier, from a document or settings update.
    TaskId(u64),
    /// Bare success, from deleting an index.
    Unit,
    /// An application-level rejection, already stringified.
    Error(String),
}

/// Spec view of an index outcome.
pub enum IndexOutcomeV {
    Meta(Seq<char>),
    TaskId(u64),
    Unit,
    Error(Seq<char>),
}

impl View for IndexOutcome {
    type V = IndexOutcomeV;

    open spec fn view(&self) -> IndexOutcomeV {
        match self {
            IndexOutcome::Meta(m) => IndexOutcomeV::Meta(m@),
            IndexOutcome::TaskId(t) => IndexOutcomeV::TaskId(*t),
            IndexOutcome::Unit => IndexOutcomeV::Unit,
            IndexOutcome::Error(e) => IndexOutcomeV::Error(e@),
        }
    }
}

/// Payload of one log entry.
#[derive(Debug, PartialEq, Eq)]
pub enum EntryPayload {
    /// An empty entry, appended by a new leader to assert its term.
    Blank,
    /// An application command.
    Normal { request: ClientRequest },
    /// A membership change.
    ConfigChange { membership: MembershipConfig },
    /// A synthetic entry standing for everything compacted away below it.
    SnapshotPointer { id: String, membership: MembershipConfig },
}

/// Spec view of an entry payload.
pub enum EntryPayloadV {
    Blank,
    Normal { request: ClientRequestV },
    ConfigChange { membership: MembershipConfigV },
    SnapshotPointer { id: Seq<char>, membership: MembershipConfigV },
}

impl View for EntryPayload {
    type V = EntryPayloadV;

    open spec fn view(&self) -> EntryPayloadV {
        match self {
            EntryPayload::Blank => EntryPayloadV::Blank,
            EntryPayload::Normal { request } => EntryPayloadV::Normal { request: request@ },
            EntryPayload::ConfigChange { membership } => EntryPayloadV::ConfigChange {
                membership: membership@,
            },
            EntryPayload::SnapshotPointer { id, membership } => EntryPayloadV::SnapshotPointer {
                id: id@,
                membership: membership@,
            },
        }
    }
}

impl Clone for EntryPayload {
    fn clone(&self) -> (r: Self)
        ensures
            r@ == self@,
    {
        match self {
            EntryPayload::Blank => EntryPayload::Blank,
            EntryPayload::Normal { request } => EntryPayload::Normal { request: request.clone() },
            EntryPayload::ConfigChange { membership } => EntryPayload::ConfigChange {
                membership: membership.clone(),
            },
            EntryPayload::SnapshotPointer { id, membership } => EntryPayload::SnapshotPointer {
                id: id.clone(),
                membership: membership.clone(),
            },
        }
    }
}

/// One record of the replicated log.
#[derive(Debug, PartialEq, Eq)]
pub struct LogEntry {
    pub index: u64,
    pub term: u64,
    pub payload: EntryPayload,
}

/// Spec view of a log entry.
pub struct LogEntryV {
    pub index: u64,
    pub term: u64,
    pub payload: EntryPayloadV,
}

impl View for LogEntry {
    type V = LogEntryV;

    open spec fn view(&self) -> LogEntryV {
        LogEntryV { index: self.index, term: self.term, payload: self.payload@ }
    }
}

impl Clone for LogEntry {
    fn clone(&self) -> (r: Self)
        ensures
            r@ == self@,
    {
        LogEntry { index: self.index, term: self.term, payload: self.payload.clone() }
    }
}

impl LogEntry {
    /// The synthetic entry that replaces everything compacted up to `index`.
    pub fn new_snapshot_pointer(index: u64, term: u64, id: String, membership: MembershipConfig) -> (r: LogEntry)
        ensures
            r@ == snapshot_pointer_view(index, term, id@, membership@),
    {
        LogEntry { index, term, payload: EntryPayload::SnapshotPointer { id, membership } }
    }
}

/// The view of a snapshot-pointer entry.
pub open spec fn snapshot_pointer_view(index: u64, term: u64, id: Seq<char>, membership: MembershipConfigV) -> LogEntryV {
    LogEntryV {
        index,
        term,
        payload: EntryPayloadV::SnapshotPointer { id, membership },
    }
}

/// Descriptor of the snapshot currently held on stable storage.
#[derive(Debug, PartialEq, Eq)]
pub struct RaftSnapshot {
    pub id: String,
    pub path: String,
    pub index: u64,
    pub term: u64,
    pub membership: MembershipConfig,
}

/// Spec view of a snapshot descriptor.
pub struct RaftSnapshotV {
    pub id: Seq<char>,
    pub path: Seq<char>,
    pub index: u64,
    pub term: u64,
    pub membership: MembershipConfigV,
}

impl View for RaftSnapshot {
    type V = RaftSnapshotV;

    open spec fn view(&self) -> RaftSnapshotV {
        RaftSnapshotV {
            id: self.id@,
            path: self.path@,
            index: self.index,
            term: self.term,
            membership: self.membership@,
        }
    }
}

impl Clone for RaftSnapshot {
    fn clone(&self) -> (r: Self)
        ensures
            r@ == self@,
    {
        RaftSnapshot {
            id: self.id.clone(),
            path: self.path.clone(),
            index: self.index,
            term: self.term,
            membership: self.membership.clone(),
        }
    }
}

/// The one-shot bootstrap view handed to the consensus runtime on startup.
#[derive(Debug, PartialEq, Eq)]
pub struct InitialState {
    pub last_log_index: u64,
    pub last_log_term: u64,
    pub last_applied_log: u64,
    pub hard_state: HardState,
    pub membership: MembershipConfig,
}

/// Spec view of the bootstrap state.
pub struct InitialStateV {
    pub last_log_index: u64,
    pub last_log_term: u64,
    pub last_applied_log: u64,
    pub hard_state: HardState,
    pub membership: MembershipConfigV,
}

impl View for InitialState {
    type V = InitialStateV;

    open spec fn view(&self) -> InitialStateV {
        InitialStateV {
            last_log_index: self.last_log_index,
            last_log_term: self.last_log_term,
            last_applied_log: self.last_applied_log,
            hard_state: self.hard_state,
            membership: self.membership@,
        }
    }
}

/// Whether this node still runs alone or already belongs to a cluster.
#[derive(Clone, Copy, Debug, PartialEq, Eq)]
pub enum NodeState {
    Uninitialized,
    Initialized,
}

/// A storage-level failure, fatal to the consensus runtime.
#[derive(Clone, Copy, Debug, PartialEq, Eq)]
pub enum StoreError {
    /// A log entry that the runtime promised to exist is missing.
    InconsistentLog,
    /// An append found an entry with a different term already at its index,
    /// and the caller did not truncate from that index first.
    Conflict,
    /// The underlying key-value store rejected a read or commit.
    TransactionFailure,
    /// A filesystem error on a snapshot artifact.
    Io,
    /// A command payload failed to parse: a cluster-wide protocol break.
    DeserializationError,
}

} // verus!
