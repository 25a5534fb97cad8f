use raft_records::records::{
    ConfChange, ConfChangeType, ConfState, ConfStateError, Entry, EntryType, HardState, Message,
    MessageType, Snapshot, SnapshotMetadata,
};

fn entry(term: u64, index: u64, data: &[u8]) -> Entry {
    let mut e = Entry::new();
    e.term = term;
    e.index = index;
    e.data = data.to_vec();
    e
}

#[test]
fn default_entry_take_data_twice_is_empty() {
    let mut e = Entry::default();
    assert!(e.take_data().is_empty());
    assert!(e.data.is_empty());
    assert!(e.take_data().is_empty());
    assert!(e.data.is_empty());
    assert_eq!(e, Entry::new());
}

#[test]
fn take_data_moves_bytes_and_keeps_other_fields() {
    let mut e = entry(3, 7, b"payload");
    e.entry_type = EntryType::EntryConfChange;
    e.context = vec![9];
    assert_eq!(e.take_data(), b"payload".to_vec());
    assert!(e.data.is_empty());
    assert_eq!(e.term, 3);
    assert_eq!(e.index, 7);
    assert_eq!(e.entry_type, EntryType::EntryConfChange);
    assert_eq!(e.context, vec![9]);
    assert!(e.take_data().is_empty());
}

#[test]
fn default_message_fields() {
    let m = Message::new();
    assert_eq!(m.msg_type, MessageType::MsgHup);
    assert_eq!(m.to, 0);
    assert_eq!(m.from, 0);
    assert_eq!(m.term, 0);
    assert_eq!(m.log_term, 0);
    assert_eq!(m.index, 0);
    assert!(m.entries.is_empty());
    assert_eq!(m.commit, 0);
    assert_eq!(m.snapshot, Snapshot::new());
    assert_eq!(m.snapshot.metadata.index, 0);
    assert!(!m.reject);
    assert_eq!(m.reject_hint, 0);
    assert!(m.context.is_empty());
    assert_eq!(m, Message::default());
}

#[test]
fn default_tags() {
    assert_eq!(EntryType::default(), EntryType::EntryNormal);
    assert_eq!(MessageType::default(), MessageType::MsgHup);
    assert_eq!(ConfChangeType::default(), ConfChangeType::AddNode);
}

#[test]
fn default_construction_is_idempotent() {
    assert_eq!(Entry::new(), Entry::new());
    assert_eq!(Snapshot::new(), Snapshot::default());
    assert_eq!(SnapshotMetadata::new(), SnapshotMetadata::default());
    assert_eq!(HardState::new(), HardState::default());
    assert_eq!(HardState::new(), HardState { term: 0, vote: 0, commit: 0 });
    assert_eq!(ConfState::new(), ConfState::default());
    assert_eq!(ConfChange::new(), ConfChange::default());
    let c = ConfChange::new();
    assert_eq!(c.id, 0);
    assert_eq!(c.change_type, ConfChangeType::AddNode);
    assert_eq!(c.node_id, 0);
    assert!(c.context.is_empty());
}

#[test]
fn overlapping_membership_is_rejected() {
    let r = ConfState::from_members(vec![1, 2, 3], vec![4, 2]);
    assert_eq!(r, Err(ConfStateError::Overlap(2)));
}

#[test]
fn disjoint_membership_is_kept_as_given() {
    let c = ConfState::from_members(vec![3, 1, 2], vec![5, 4]).unwrap();
    assert_eq!(c.nodes, vec![3, 1, 2]);
    assert_eq!(c.learners, vec![5, 4]);
    let empty = ConfState::from_members(vec![], vec![]).unwrap();
    assert_eq!(empty, ConfState::new());
}

#[test]
fn take_entries_moves_three_in_order() {
    let mut m = Message::new();
    m.msg_type = MessageType::MsgAppend;
    m.entries = vec![entry(1, 1, b"a"), entry(1, 2, b"b"), entry(2, 3, b"c")];
    let taken = m.take_entries();
    assert_eq!(m.entries.len(), 0);
    assert_eq!(taken.len(), 3);
    assert_eq!(taken, vec![entry(1, 1, b"a"), entry(1, 2, b"b"), entry(2, 3, b"c")]);
    assert_eq!(m.msg_type, MessageType::MsgAppend);
}

#[test]
fn take_context_leaves_it_empty() {
    let mut m = Message::new();
    m.context = b"token".to_vec();
    m.to = 4;
    assert_eq!(m.take_context(), b"token".to_vec());
    assert!(m.context.is_empty());
    assert_eq!(m.to, 4);
}

#[test]
fn take_snapshot_leaves_empty_snapshot() {
    let mut m = Message::new();
    let mut s = Snapshot::new();
    s.data = vec![1, 2, 3];
    s.metadata.index = 10;
    s.metadata.term = 2;
    s.metadata.conf_state.nodes = vec![1, 2];
    m.snapshot = s.clone();
    let taken = m.take_snapshot();
    assert_eq!(taken, s);
    assert_eq!(m.snapshot, Snapshot::new());
    assert_eq!(m.snapshot.metadata.index, 0);
}

#[test]
fn entry_sequences_equal_only_in_same_order() {
    let a = vec![entry(1, 1, b"x"), entry(1, 2, b"y")];
    let b = vec![entry(1, 2, b"y"), entry(1, 1, b"x")];
    assert_ne!(a, b);
    let mut m1 = Message::new();
    m1.entries = a.clone();
    let mut m2 = Message::new();
    m2.entries = b;
    assert_ne!(m1, m2);
    m2.entries = a;
    assert_eq!(m1, m2);
}

#[test]
fn equality_is_by_every_field() {
    let mut a = entry(1, 1, b"x");
    let b = a.clone();
    assert_eq!(a, b);
    a.context = vec![0];
    assert_ne!(a, b);
    let mut c1 = ConfChange::new();
    let c2 = ConfChange::new();
    c1.change_type = ConfChangeType::RemoveNode;
    assert_ne!(c1, c2);
    let mut m = Message::new();
    m.reject = true;
    assert_ne!(m, Message::new());
}

#[test]
fn default_snapshot_is_absent() {
    let s = Snapshot::default();
    assert!(s.metadata.index == 0);
    assert!(s.data.is_empty());
    assert_eq!(s.metadata.conf_state, ConfState::new());
}
