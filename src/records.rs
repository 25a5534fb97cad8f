//! The record types, their mathematical models, default values and the
//! `take_*` operations that move a payload out of a record.
use vstd::prelude::*;

verus! {

/// What an entry's `data` holds.
#[derive(Debug, Clone, Copy, PartialEq, Eq, Hash, Structural)]
pub enum EntryType {
    /// Data that the application applies.
    EntryNormal,
    /// An encoded `ConfChange`.
    EntryConfChange,
}

impl Default for EntryType {
    fn default() -> (r: EntryType)
        ensures
            r == EntryType::EntryNormal,
    {
        EntryType::EntryNormal
    }
}

/// One record of the replicated log.
///
/// For normal entries `data` holds the change that the application applies and
/// `context` anything that may help it. For configuration changes `data` holds
/// an encoded `ConfChange`, and `context` is the user's to set.
#[derive(Debug, Clone, Eq, Hash)]
pub struct Entry {
    pub entry_type: EntryType,
    pub term: u64,
    pub index: u64,
    pub data: Vec<u8>,
    pub context: Vec<u8>,
}

/// The model of an `Entry`: its fields, with byte vectors as sequences.
pub struct EntryModel {
    pub entry_type: EntryType,
    pub term: u64,
    pub index: u64,
    pub data: Seq<u8>,
    pub context: Seq<u8>,
}

impl View for Entry {
    type V = EntryModel;

    open spec fn view(&self) -> EntryModel {
        EntryModel {
            entry_type: self.entry_type,
            term: self.term,
            index: self.index,
            data: self.data@,
            context: self.context@,
        }
    }
}

/// The empty entry: a normal entry at term and index 0 with no bytes.
pub open spec fn empty_entry() -> EntryModel {
    EntryModel {
        entry_type: EntryType::EntryNormal,
        term: 0,
        index: 0,
        data: Seq::empty(),
        context: Seq::empty(),
    }
}

/// The entry with its data taken out.
pub open spec fn without_data(e: EntryModel) -> EntryModel {
    EntryModel { data: Seq::empty(), ..e }
}

/// Taking an entry's data leaves it empty, so a second take gives nothing and
/// changes nothing; taking from the empty entry leaves the empty entry.
pub proof fn lemma_take_data_twice(e: EntryModel)
    ensures
        without_data(e).data == Seq::<u8>::empty(),
        without_data(without_data(e)) == without_data(e),
        without_data(empty_entry()) == empty_entry(),
{
}

impl Entry {
    pub fn new() -> (r: Entry)
        ensures
            r@ == empty_entry(),
    {
        Entry {
            entry_type: EntryType::EntryNormal,
            term: 0,
            index: 0,
            data: Vec::new(),
            context: Vec::new(),
        }
    }

    /// Moves the data out, leaving it empty and every other field as it was.
    pub fn take_data(&mut self) -> (r: Vec<u8>)
        ensures
            r@ == old(self).data@,
            final(self)@ == without_data(old(self)@),
    {
        let mut r: Vec<u8> = Vec::new();
        std::mem::swap(&mut self.data, &mut r);
        r
    }
}

impl Default for Entry {
    fn default() -> (r: Entry)
        ensures
            r@ == empty_entry(),
    {
        Entry::new()
    }
}

impl PartialEq for Entry {
    fn eq(&self, o: &Entry) -> (r: bool) {
        let r = self.entry_type == o.entry_type && self.term == o.term && self.index == o.index
            && self.data == o.data && self.context == o.context;
        proof {
            if r {
                assert(self.data@ =~= o.data@);
                assert(self.context@ =~= o.context@);
            }
        }
        r
    }
}

impl vstd::std_specs::cmp::PartialEqSpecImpl for Entry {
    open spec fn obeys_eq_spec() -> bool {
        true
    }

    open spec fn eq_spec(&self, o: &Entry) -> bool {
        self@ == o@
    }
}

/// The membership of the cluster: voting members and learners.
///
/// A member id should stand in at most one of the two lists. The fields are
/// public, so that is the caller's to keep; `ConfState::from_members` checks it.
#[derive(Debug, Clone, Eq, Hash)]
pub struct ConfState {
    pub nodes: Vec<u64>,
    pub learners: Vec<u64>,
}

pub struct ConfStateModel {
    pub nodes: Seq<u64>,
    pub learners: Seq<u64>,
}

impl View for ConfState {
    type V = ConfStateModel;

    open spec fn view(&self) -> ConfStateModel {
        ConfStateModel { nodes: self.nodes@, learners: self.learners@ }
    }
}

pub open spec fn empty_conf_state() -> ConfStateModel {
    ConfStateModel { nodes: Seq::empty(), learners: Seq::empty() }
}

/// No id is both a voting member and a learner.
pub open spec fn members_disjoint(nodes: Seq<u64>, learners: Seq<u64>) -> bool {
    forall|i: int, j: int|
        0 <= i < nodes.len() && 0 <= j < learners.len() ==> nodes[i] != learners[j]
}

/// Why a membership was refused.
#[derive(Debug, Clone, Copy, PartialEq, Eq, Hash, Structural)]
pub enum ConfStateError {
    /// This id is listed both as a voting member and as a learner.
    Overlap(u64),
}

impl ConfState {
    pub fn new() -> (r: ConfState)
        ensures
            r@ == empty_conf_state(),
    {
        ConfState { nodes: Vec::new(), learners: Vec::new() }
    }

    /// Builds a membership from its two lists, refusing one in which an id is
    /// both a voting member and a learner; the lists are kept as given.
    pub fn from_members(nodes: Vec<u64>, learners: Vec<u64>) -> (r: Result<ConfState, ConfStateError>)
        ensures
            r is Ok <==> members_disjoint(nodes@, learners@),
            r matches Ok(c) ==> c.nodes@ == nodes@ && c.learners@ == learners@,
            r matches Err(ConfStateError::Overlap(id)) ==> nodes@.contains(id) && learners@.contains(id),
    {
        let mut i: usize = 0;
        while i < nodes.len()
            invariant
                0 <= i <= nodes@.len(),
                forall|a: int, b: int|
                    0 <= a < i && 0 <= b < learners@.len() ==> nodes@[a] != learners@[b],
            decreases nodes@.len() - i,
        {
            let mut j: usize = 0;
            while j < learners.len()
                invariant
                    0 <= i < nodes@.len(),
                    0 <= j <= learners@.len(),
                    forall|b: int| 0 <= b < j ==> nodes@[i as int] != learners@[b],
                decreases learners@.len() - j,
            {
                if nodes[i] == learners[j] {
                    let id = nodes[i];
                    proof {
                        assert(nodes@[i as int] == id);
                        assert(learners@[j as int] == id);
                    }
                    return Err(ConfStateError::Overlap(id));
                }
                j = j + 1;
            }
            i = i + 1;
        }
        Ok(ConfState { nodes, learners })
    }
}

impl Default for ConfState {
    fn default() -> (r: ConfState)
        ensures
            r@ == empty_conf_state(),
    {
        ConfState::new()
    }
}

impl PartialEq for ConfState {
    fn eq(&self, o: &ConfState) -> (r: bool) {
        let r = self.nodes == o.nodes && self.learners == o.learners;
        proof {
            if r {
                assert(self.nodes@ =~= o.nodes@);
                assert(self.learners@ =~= o.learners@);
            }
        }
        r
    }
}

impl vstd::std_specs::cmp::PartialEqSpecImpl for ConfState {
    open spec fn obeys_eq_spec() -> bool {
        true
    }

    open spec fn eq_spec(&self, o: &ConfState) -> bool {
        self@ == o@
    }
}

/// Where a snapshot cuts the log: the membership at that point and the index
/// and term of the last entry that it covers.
#[derive(Debug, Clone, Eq, Hash)]
pub struct SnapshotMetadata {
    pub conf_state: ConfState,
    pub index: u64,
    pub term: u64,
}

pub struct SnapshotMetadataModel {
    pub conf_state: ConfStateModel,
    pub index: u64,
    pub term: u64,
}

impl View for SnapshotMetadata {
    type V = SnapshotMetadataModel;

    open spec fn view(&self) -> SnapshotMetadataModel {
        SnapshotMetadataModel { conf_state: self.conf_state@, index: self.index, term: self.term }
    }
}

pub open spec fn empty_snapshot_metadata() -> SnapshotMetadataModel {
    SnapshotMetadataModel { conf_state: empty_conf_state(), index: 0, term: 0 }
}

impl SnapshotMetadata {
    pub fn new() -> (r: SnapshotMetadata)
        ensures
            r@ == empty_snapshot_metadata(),
    {
        SnapshotMetadata { conf_state: ConfState::new(), index: 0, term: 0 }
    }
}

impl Default for SnapshotMetadata {
    fn default() -> (r: SnapshotMetadata)
        ensures
            r@ == empty_snapshot_metadata(),
    {
        SnapshotMetadata::new()
    }
}

impl PartialEq for SnapshotMetadata {
    fn eq(&self, o: &SnapshotMetadata) -> (r: bool) {
        self.conf_state == o.conf_state && self.index == o.index && self.term == o.term
    }
}

impl vstd::std_specs::cmp::PartialEqSpecImpl for SnapshotMetadata {
    open spec fn obeys_eq_spec() -> bool {
        true
    }

    open spec fn eq_spec(&self, o: &SnapshotMetadata) -> bool {
        self@ == o@
    }
}

/// The application's state as of some committed entry.
///
/// The empty snapshot, whose metadata index is 0, stands for "no snapshot".
#[derive(Debug, Clone, Eq, Hash)]
pub struct Snapshot {
    pub data: Vec<u8>,
    pub metadata: SnapshotMetadata,
}

pub struct SnapshotModel {
    pub data: Seq<u8>,
    pub metadata: SnapshotMetadataModel,
}

impl View for Snapshot {
    type V = SnapshotModel;

    open spec fn view(&self) -> SnapshotModel {
        SnapshotModel { data: self.data@, metadata: self.metadata@ }
    }
}

pub open spec fn empty_snapshot() -> SnapshotModel {
    SnapshotModel { data: Seq::empty(), metadata: empty_snapshot_metadata() }
}

/// A snapshot counts as absent when its metadata index is 0.
pub open spec fn snapshot_absent(s: SnapshotModel) -> bool {
    s.metadata.index == 0
}

impl Snapshot {
    pub fn new() -> (r: Snapshot)
        ensures
            r@ == empty_snapshot(),
            snapshot_absent(r@),
    {
        Snapshot { data: Vec::new(), metadata: SnapshotMetadata::new() }
    }
}

impl Default for Snapshot {
    fn default() -> (r: Snapshot)
        ensures
            r@ == empty_snapshot(),
    {
        Snapshot::new()
    }
}

impl PartialEq for Snapshot {
    fn eq(&self, o: &Snapshot) -> (r: bool) {
        let r = self.data == o.data && self.metadata == o.metadata;
        proof {
            if r {
                assert(self.data@ =~= o.data@);
            }
        }
        r
    }
}

impl vstd::std_specs::cmp::PartialEqSpecImpl for Snapshot {
    open spec fn obeys_eq_spec() -> bool {
        true
    }

    open spec fn eq_spec(&self, o: &Snapshot) -> bool {
        self@ == o@
    }
}

/// The kind of a message.
#[derive(Debug, Clone, Copy, PartialEq, Eq, Hash, Structural)]
pub enum MessageType {
    MsgHup,
    MsgBeat,
    MsgPropose,
    MsgAppend,
    MsgAppendResponse,
    MsgRequestVote,
    MsgRequestVoteResponse,
    MsgSnapshot,
    MsgHeartbeat,
    MsgHeartbeatResponse,
    MsgUnreachable,
    MsgSnapStatus,
    MsgCheckQuorum,
    MsgTransferLeader,
    MsgTimeoutNow,
    MsgReadIndex,
    MsgReadIndexResp,
    MsgRequestPreVote,
    MsgRequestPreVoteResponse,
}

impl Default for MessageType {
    fn default() -> (r: MessageType)
        ensures
            r == MessageType::MsgHup,
    {
        MessageType::MsgHup
    }
}

/// The envelope of every message between members. Fields that a kind of
/// message does not use hold their empty value.
#[derive(Debug, Clone, Eq, Hash)]
pub struct Message {
    pub msg_type: MessageType,
    pub to: u64,
    pub from: u64,
    pub term: u64,
    pub log_term: u64,
    pub index: u64,
    pub entries: Vec<Entry>,
    pub commit: u64,
    pub snapshot: Snapshot,
    pub reject: bool,
    pub reject_hint: u64,
    pub context: Vec<u8>,
}

pub struct MessageModel {
    pub msg_type: MessageType,
    pub to: u64,
    pub from: u64,
    pub term: u64,
    pub log_term: u64,
    pub index: u64,
    pub entries: Seq<EntryModel>,
    pub commit: u64,
    pub snapshot: SnapshotModel,
    pub reject: bool,
    pub reject_hint: u64,
    pub context: Seq<u8>,
}

/// The models of a sequence of entries, in order.
pub open spec fn entries_view(es: Seq<Entry>) -> Seq<EntryModel> {
    es.map_values(|e: Entry| e@)
}

/// Two lists of entries are equal only with the same entries in the same
/// order: exchanging two different entries gives a different list.
pub proof fn lemma_entries_order_matters(es: Seq<Entry>, i: int, j: int)
    requires
        0 <= i < es.len(),
        0 <= j < es.len(),
        es[i]@ != es[j]@,
    ensures
        entries_view(es.update(i, es[j]).update(j, es[i])) != entries_view(es),
{
    let swapped = es.update(i, es[j]).update(j, es[i]);
    assert(entries_view(swapped)[j] == es[i]@);
    assert(entries_view(es)[j] == es[j]@);
}

impl View for Message {
    type V = MessageModel;

    open spec fn view(&self) -> MessageModel {
        MessageModel {
            msg_type: self.msg_type,
            to: self.to,
            from: self.from,
            term: self.term,
            log_term: self.log_term,
            index: self.index,
            entries: entries_view(self.entries@),
            commit: self.commit,
            snapshot: self.snapshot@,
            reject: self.reject,
            reject_hint: self.reject_hint,
            context: self.context@,
        }
    }
}

pub open spec fn empty_message() -> MessageModel {
    MessageModel {
        msg_type: MessageType::MsgHup,
        to: 0,
        from: 0,
        term: 0,
        log_term: 0,
        index: 0,
        entries: Seq::empty(),
        commit: 0,
        snapshot: empty_snapshot(),
        reject: false,
        reject_hint: 0,
        context: Seq::empty(),
    }
}

impl Message {
    pub fn new() -> (r: Message)
        ensures
            r@ == empty_message(),
    {
        let r = Message {
            msg_type: MessageType::MsgHup,
            to: 0,
            from: 0,
            term: 0,
            log_term: 0,
            index: 0,
            entries: Vec::new(),
            commit: 0,
            snapshot: Snapshot::new(),
            reject: false,
            reject_hint: 0,
            context: Vec::new(),
        };
        proof {
            assert(r@.entries =~= Seq::<EntryModel>::empty());
        }
        r
    }

    /// Moves the entries out, in order, leaving none behind.
    pub fn take_entries(&mut self) -> (r: Vec<Entry>)
        ensures
            r@ == old(self).entries@,
            final(self)@ == (MessageModel { entries: Seq::empty(), ..old(self)@ }),
    {
        let mut r: Vec<Entry> = Vec::new();
        std::mem::swap(&mut self.entries, &mut r);
        proof {
            assert(self@.entries =~= Seq::<EntryModel>::empty());
        }
        r
    }

    /// Moves the context out, leaving it empty.
    pub fn take_context(&mut self) -> (r: Vec<u8>)
        ensures
            r@ == old(self).context@,
            final(self)@ == (MessageModel { context: Seq::empty(), ..old(self)@ }),
    {
        let mut r: Vec<u8> = Vec::new();
        std::mem::swap(&mut self.context, &mut r);
        r
    }

    /// Moves the snapshot out, leaving the empty snapshot in its place.
    pub fn take_snapshot(&mut self) -> (r: Snapshot)
        ensures
            r@ == old(self).snapshot@,
            final(self)@ == (MessageModel { snapshot: empty_snapshot(), ..old(self)@ }),
    {
        let mut r = Snapshot::new();
        std::mem::swap(&mut self.snapshot, &mut r);
        r
    }
}

impl Default for Message {
    fn default() -> (r: Message)
        ensures
            r@ == empty_message(),
    {
        Message::new()
    }
}

impl PartialEq for Message {
    fn eq(&self, o: &Message) -> (r: bool) {
        let r = self.msg_type == o.msg_type && self.to == o.to && self.from == o.from
            && self.term == o.term && self.log_term == o.log_term && self.index == o.index
            && self.entries == o.entries && self.commit == o.commit && self.snapshot == o.snapshot
            && self.reject == o.reject && self.reject_hint == o.reject_hint
            && self.context == o.context;
        proof {
            if r {
                assert(self.context@ =~= o.context@);
                assert(entries_view(self.entries@) =~= entries_view(o.entries@));
            }
            if self@ == o@ {
                assert(self.context@ =~= o.context@);
                assert forall|i: int| 0 <= i < self.entries@.len() implies
                    self.entries@[i]@ == o.entries@[i]@ by {
                    assert(entries_view(self.entries@)[i] == entries_view(o.entries@)[i]);
                }
            }
        }
        r
    }
}

impl vstd::std_specs::cmp::PartialEqSpecImpl for Message {
    open spec fn obeys_eq_spec() -> bool {
        true
    }

    open spec fn eq_spec(&self, o: &Message) -> bool {
        self@ == o@
    }
}

/// What a member must keep on stable storage before it acts: its term, the
/// member it voted for (0 for none), and the highest committed index it knows.
#[derive(Debug, Clone, Copy, PartialEq, Eq, Hash, Structural)]
pub struct HardState {
    pub term: u64,
    pub vote: u64,
    pub commit: u64,
}

impl HardState {
    pub fn new() -> (r: HardState)
        ensures
            r == (HardState { term: 0, vote: 0, commit: 0 }),
    {
        HardState { term: 0, vote: 0, commit: 0 }
    }
}

impl Default for HardState {
    fn default() -> (r: HardState)
        ensures
            r == (HardState { term: 0, vote: 0, commit: 0 }),
    {
        HardState::new()
    }
}

/// What a membership change does.
#[derive(Debug, Clone, Copy, PartialEq, Eq, Hash, Structural)]
pub enum ConfChangeType {
    AddNode,
    RemoveNode,
    AddLearnerNode,
}

impl Default for ConfChangeType {
    fn default() -> (r: ConfChangeType)
        ensures
            r == ConfChangeType::AddNode,
    {
        ConfChangeType::AddNode
    }
}

/// A proposed change of membership, carried encoded in an entry's data.
#[derive(Debug, Clone, Eq, Hash)]
pub struct ConfChange {
    pub id: u64,
    pub change_type: ConfChangeType,
    pub node_id: u64,
    pub context: Vec<u8>,
}

pub struct ConfChangeModel {
    pub id: u64,
    pub change_type: ConfChangeType,
    pub node_id: u64,
    pub context: Seq<u8>,
}

impl View for ConfChange {
    type V = ConfChangeModel;

    open spec fn view(&self) -> ConfChangeModel {
        ConfChangeModel {
            id: self.id,
            change_type: self.change_type,
            node_id: self.node_id,
            context: self.context@,
        }
    }
}

pub open spec fn empty_conf_change() -> ConfChangeModel {
    ConfChangeModel { id: 0, change_type: ConfChangeType::AddNode, node_id: 0, context: Seq::empty() }
}

impl ConfChange {
    pub fn new() -> (r: ConfChange)
        ensures
            r@ == empty_conf_change(),
    {
        ConfChange { id: 0, change_type: ConfChangeType::AddNode, node_id: 0, context: Vec::new() }
    }
}

impl Default for ConfChange {
    fn default() -> (r: ConfChange)
        ensures
            r@ == empty_conf_change(),
    {
        ConfChange::new()
    }
}

impl PartialEq for ConfChange {
    fn eq(&self, o: &ConfChange) -> (r: bool) {
        let r = self.id == o.id && self.change_type == o.change_type && self.node_id == o.node_id
            && self.context == o.context;
        proof {
            if r {
                assert(self.context@ =~= o.context@);
            }
        }
        r
    }
}

impl vstd::std_specs::cmp::PartialEqSpecImpl for ConfChange {
    open spec fn obeys_eq_spec() -> bool {
        true
    }

    open spec fn eq_spec(&self, o: &ConfChange) -> bool {
        self@ == o@
    }
}

} // verus!
