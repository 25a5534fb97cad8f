//! Records shared by the members of a Raft cluster: log entries, snapshots,
//! membership state and the message envelope, with a byte encoding for each.
pub mod records;
pub mod codec;
pub mod wire;
