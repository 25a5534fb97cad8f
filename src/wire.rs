//! The encoding of each record, built from the primitives of `codec`.
use vstd::prelude::*;
use crate::codec::{
    DecodeError, Field, Parsed, enc_u64, enc_bytes, enc_bool, enc_u64_list, parse_u64,
    parse_bytes, parse_bool, parse_byte, parse_u64_list, whole, decoded_as, read_agrees,
    read_agrees_plain, lemma_split, lemma_u64_round_trip, lemma_bytes_round_trip,
    lemma_bool_round_trip, lemma_u64_list_round_trip, write_u64, read_u64, write_bytes,
    read_bytes, write_bool, read_bool, write_u64_list, read_u64_list, read_byte,
};
use crate::records::{
    EntryType, Entry, EntryModel, ConfState, ConfStateModel, SnapshotMetadata,
    SnapshotMetadataModel, Snapshot, SnapshotModel, HardState, ConfChangeType, ConfChange,
    ConfChangeModel, MessageType, Message, MessageModel, entries_view,
};

verus! {

impl EntryType {
    /// The byte that stands for this kind in the encoding.
    pub open spec fn spec_code(self) -> u8 {
        match self {
            EntryType::EntryNormal => 0,
            EntryType::EntryConfChange => 1,
        }
    }

    pub open spec fn spec_from_code(b: u8) -> Option<EntryType> {
        if b == 0 {
            Some(EntryType::EntryNormal)
        } else if b == 1 {
            Some(EntryType::EntryConfChange)
        } else {
            None
        }
    }

    pub fn code(self) -> (r: u8)
        ensures
            r == self.spec_code(),
    {
        match self {
            EntryType::EntryNormal => 0,
            EntryType::EntryConfChange => 1,
        }
    }

    pub fn from_code(b: u8) -> (r: Option<EntryType>)
        ensures
            r == EntryType::spec_from_code(b),
    {
        if b == 0 {
            Some(EntryType::EntryNormal)
        } else if b == 1 {
            Some(EntryType::EntryConfChange)
        } else {
            None
        }
    }
}

impl ConfChangeType {
    /// The byte that stands for this kind in the encoding.
    pub open spec fn spec_code(self) -> u8 {
        match self {
            ConfChangeType::AddNode => 0,
            ConfChangeType::RemoveNode => 1,
            ConfChangeType::AddLearnerNode => 2,
        }
    }

    pub open spec fn spec_from_code(b: u8) -> Option<ConfChangeType> {
        if b == 0 {
            Some(ConfChangeType::AddNode)
        } else if b == 1 {
            Some(ConfChangeType::RemoveNode)
        } else if b == 2 {
            Some(ConfChangeType::AddLearnerNode)
        } else {
            None
        }
    }

    pub fn code(self) -> (r: u8)
        ensures
            r == self.spec_code(),
    {
        match self {
            ConfChangeType::AddNode => 0,
            ConfChangeType::RemoveNode => 1,
            ConfChangeType::AddLearnerNode => 2,
        }
    }

    pub fn from_code(b: u8) -> (r: Option<ConfChangeType>)
        ensures
            r == ConfChangeType::spec_from_code(b),
    {
        if b == 0 {
            Some(ConfChangeType::AddNode)
        } else if b == 1 {
            Some(ConfChangeType::RemoveNode)
        } else if b == 2 {
            Some(ConfChangeType::AddLearnerNode)
        } else {
            None
        }
    }
}

pub open spec fn parse_entry_type(s: Seq<u8>) -> Parsed<EntryType> {
    match parse_byte(s, Field::EntryType) {
        Err(e) => Err(e),
        Ok((b, r)) => match EntryType::spec_from_code(b) {
            Some(t) => Ok((t, r)),
            None => Err(DecodeError::UnknownTag(Field::EntryType, b)),
        },
    }
}

pub open spec fn parse_conf_change_type(s: Seq<u8>) -> Parsed<ConfChangeType> {
    match parse_byte(s, Field::ChangeType) {
        Err(e) => Err(e),
        Ok((b, r)) => match ConfChangeType::spec_from_code(b) {
            Some(t) => Ok((t, r)),
            None => Err(DecodeError::UnknownTag(Field::ChangeType, b)),
        },
    }
}

fn read_entry_type(buf: &[u8], pos: usize) -> (r: Result<(EntryType, usize), DecodeError>)
    requires
        pos <= buf@.len(),
    ensures
        read_agrees_plain(buf@, pos as int, r, parse_entry_type(buf@.skip(pos as int))),
{
    let (b, p) = match read_byte(buf, pos, Field::EntryType) {
        Ok(x) => x,
        Err(e) => return Err(e),
    };
    match EntryType::from_code(b) {
        Some(t) => Ok((t, p)),
        None => Err(DecodeError::UnknownTag(Field::EntryType, b)),
    }
}

fn read_conf_change_type(buf: &[u8], pos: usize) -> (r: Result<(ConfChangeType, usize), DecodeError>)
    requires
        pos <= buf@.len(),
    ensures
        read_agrees_plain(buf@, pos as int, r, parse_conf_change_type(buf@.skip(pos as int))),
{
    let (b, p) = match read_byte(buf, pos, Field::ChangeType) {
        Ok(x) => x,
        Err(e) => return Err(e),
    };
    match ConfChangeType::from_code(b) {
        Some(t) => Ok((t, p)),
        None => Err(DecodeError::UnknownTag(Field::ChangeType, b)),
    }
}

/// Every byte string of the entry has a length that its 8-byte prefix can hold.
pub open spec fn entry_fits(e: EntryModel) -> bool {
    e.data.len() <= u64::MAX && e.context.len() <= u64::MAX
}

pub open spec fn enc_entry(e: EntryModel) -> Seq<u8> {
    seq![e.entry_type.spec_code()] + enc_u64(e.term) + enc_u64(e.index) + enc_bytes(e.data)
        + enc_bytes(e.context)
}

pub open spec fn parse_entry(s: Seq<u8>) -> Parsed<EntryModel> {
    match parse_entry_type(s) {
        Err(e) => Err(e),
        Ok((entry_type, s)) => match parse_u64(s, Field::Term) {
            Err(e) => Err(e),
            Ok((term, s)) => match parse_u64(s, Field::Index) {
                Err(e) => Err(e),
                Ok((index, s)) => match parse_bytes(s, Field::Data) {
                    Err(e) => Err(e),
                    Ok((data, s)) => match parse_bytes(s, Field::Context) {
                        Err(e) => Err(e),
                        Ok((context, s)) => Ok(
                            (EntryModel { entry_type, term, index, data, context }, s),
                        ),
                    },
                },
            },
        },
    }
}

pub proof fn lemma_entry_parse(e: EntryModel, rest: Seq<u8>)
    requires
        entry_fits(e),
    ensures
        parse_entry(enc_entry(e) + rest) == Ok::<(EntryModel, Seq<u8>), DecodeError>((e, rest)),
{
    let s5 = enc_bytes(e.context) + rest;
    let s4 = enc_bytes(e.data) + s5;
    let s3 = enc_u64(e.index) + s4;
    let s2 = enc_u64(e.term) + s3;
    let tag = seq![e.entry_type.spec_code()];
    assert(enc_entry(e) + rest =~= tag + s2);
    lemma_split(tag, s2);
    lemma_u64_round_trip(e.term, s3, Field::Term);
    lemma_u64_round_trip(e.index, s4, Field::Index);
    lemma_bytes_round_trip(e.data, s5, Field::Data);
    lemma_bytes_round_trip(e.context, rest, Field::Context);
}

pub(crate) fn write_entry(out: &mut Vec<u8>, e: &Entry)
    ensures
        final(out)@ == old(out)@ + enc_entry(e@),
        entry_fits(e@),
{
    out.push(e.entry_type.code());
    write_u64(out, e.term);
    write_u64(out, e.index);
    write_bytes(out, &e.data);
    write_bytes(out, &e.context);
    proof {
        assert(out@ =~= old(out)@ + enc_entry(e@));
    }
}

pub(crate) fn read_entry(buf: &[u8], pos: usize) -> (r: Result<(Entry, usize), DecodeError>)
    requires
        pos <= buf@.len(),
    ensures
        read_agrees(buf@, pos as int, r, parse_entry(buf@.skip(pos as int))),
{
    let (entry_type, p) = match read_entry_type(buf, pos) {
        Ok(x) => x,
        Err(e) => return Err(e),
    };
    let (term, p) = match read_u64(buf, p, Field::Term) {
        Ok(x) => x,
        Err(e) => return Err(e),
    };
    let (index, p) = match read_u64(buf, p, Field::Index) {
        Ok(x) => x,
        Err(e) => return Err(e),
    };
    let (data, p) = match read_bytes(buf, p, Field::Data) {
        Ok(x) => x,
        Err(e) => return Err(e),
    };
    let (context, p) = match read_bytes(buf, p, Field::Context) {
        Ok(x) => x,
        Err(e) => return Err(e),
    };
    Ok((Entry { entry_type, term, index, data, context }, p))
}

pub open spec fn decode_entry(s: Seq<u8>) -> Result<EntryModel, DecodeError> {
    whole(parse_entry(s))
}

/// Decoding an entry's encoding gives the entry back.
pub proof fn lemma_entry_round_trip(e: EntryModel)
    requires
        entry_fits(e),
    ensures
        decode_entry(enc_entry(e)) == Ok::<EntryModel, DecodeError>(e),
{
    lemma_entry_parse(e, Seq::empty());
    assert(enc_entry(e) + Seq::<u8>::empty() =~= enc_entry(e));
}

impl Entry {
    /// The entry's encoding.
    pub fn serialize(&self) -> (r: Vec<u8>)
        ensures
            r@ == enc_entry(self@),
            entry_fits(self@),
    {
        let mut out: Vec<u8> = Vec::new();
        write_entry(&mut out, self);
        proof {
            assert(out@ =~= enc_entry(self@));
        }
        out
    }

    /// The entry that `bytes` encode, or why they encode none.
    pub fn deserialize(bytes: &[u8]) -> (r: Result<Entry, DecodeError>)
        ensures
            decoded_as(r, decode_entry(bytes@)),
    {
        proof {
            assert(bytes@.skip(0) =~= bytes@);
        }
        let (e, p) = match read_entry(bytes, 0) {
            Ok(x) => x,
            Err(e) => return Err(e),
        };
        if p < bytes.len() {
            Err(DecodeError::TrailingBytes)
        } else {
            Ok(e)
        }
    }
}

pub open spec fn conf_state_fits(c: ConfStateModel) -> bool {
    c.nodes.len() <= u64::MAX && c.learners.len() <= u64::MAX
}

pub open spec fn enc_conf_state(c: ConfStateModel) -> Seq<u8> {
    enc_u64_list(c.nodes) + enc_u64_list(c.learners)
}

pub open spec fn parse_conf_state(s: Seq<u8>) -> Parsed<ConfStateModel> {
    match parse_u64_list(s, Field::Nodes) {
        Err(e) => Err(e),
        Ok((nodes, s)) => match parse_u64_list(s, Field::Learners) {
            Err(e) => Err(e),
            Ok((learners, s)) => Ok((ConfStateModel { nodes, learners }, s)),
        },
    }
}

pub proof fn lemma_conf_state_parse(c: ConfStateModel, rest: Seq<u8>)
    requires
        conf_state_fits(c),
    ensures
        parse_conf_state(enc_conf_state(c) + rest) == Ok::<(ConfStateModel, Seq<u8>), DecodeError>((c, rest)),
{
    let s2 = enc_u64_list(c.learners) + rest;
    assert(enc_conf_state(c) + rest =~= enc_u64_list(c.nodes) + s2);
    lemma_u64_list_round_trip(c.nodes, s2, Field::Nodes);
    lemma_u64_list_round_trip(c.learners, rest, Field::Learners);
}

pub(crate) fn write_conf_state(out: &mut Vec<u8>, c: &ConfState)
    ensures
        final(out)@ == old(out)@ + enc_conf_state(c@),
        conf_state_fits(c@),
{
    write_u64_list(out, &c.nodes);
    write_u64_list(out, &c.learners);
    proof {
        assert(out@ =~= old(out)@ + enc_conf_state(c@));
    }
}

pub(crate) fn read_conf_state(buf: &[u8], pos: usize) -> (r: Result<(ConfState, usize), DecodeError>)
    requires
        pos <= buf@.len(),
    ensures
        read_agrees(buf@, pos as int, r, parse_conf_state(buf@.skip(pos as int))),
{
    let (nodes, p) = match read_u64_list(buf, pos, Field::Nodes) {
        Ok(x) => x,
        Err(e) => return Err(e),
    };
    let (learners, p) = match read_u64_list(buf, p, Field::Learners) {
        Ok(x) => x,
        Err(e) => return Err(e),
    };
    Ok((ConfState { nodes, learners }, p))
}

pub open spec fn enc_snapshot_metadata(m: SnapshotMetadataModel) -> Seq<u8> {
    enc_conf_state(m.conf_state) + enc_u64(m.index) + enc_u64(m.term)
}

pub open spec fn parse_snapshot_metadata(s: Seq<u8>) -> Parsed<SnapshotMetadataModel> {
    match parse_conf_state(s) {
        Err(e) => Err(e),
        Ok((conf_state, s)) => match parse_u64(s, Field::Index) {
            Err(e) => Err(e),
            Ok((index, s)) => match parse_u64(s, Field::Term) {
                Err(e) => Err(e),
                Ok((term, s)) => Ok((SnapshotMetadataModel { conf_state, index, term }, s)),
            },
        },
    }
}

pub proof fn lemma_snapshot_metadata_parse(m: SnapshotMetadataModel, rest: Seq<u8>)
    requires
        conf_state_fits(m.conf_state),
    ensures
        parse_snapshot_metadata(enc_snapshot_metadata(m) + rest)
            == Ok::<(SnapshotMetadataModel, Seq<u8>), DecodeError>((m, rest)),
{
    let s3 = enc_u64(m.term) + rest;
    let s2 = enc_u64(m.index) + s3;
    assert(enc_snapshot_metadata(m) + rest =~= enc_conf_state(m.conf_state) + s2);
    lemma_conf_state_parse(m.conf_state, s2);
    lemma_u64_round_trip(m.index, s3, Field::Index);
    lemma_u64_round_trip(m.term, rest, Field::Term);
}

pub(crate) fn write_snapshot_metadata(out: &mut Vec<u8>, m: &SnapshotMetadata)
    ensures
        final(out)@ == old(out)@ + enc_snapshot_metadata(m@),
        conf_state_fits(m@.conf_state),
{
    write_conf_state(out, &m.conf_state);
    write_u64(out, m.index);
    write_u64(out, m.term);
    proof {
        assert(out@ =~= old(out)@ + enc_snapshot_metadata(m@));
    }
}

pub(crate) fn read_snapshot_metadata(buf: &[u8], pos: usize) -> (r: Result<(SnapshotMetadata, usize), DecodeError>)
    requires
        pos <= buf@.len(),
    ensures
        read_agrees(buf@, pos as int, r, parse_snapshot_metadata(buf@.skip(pos as int))),
{
    let (conf_state, p) = match read_conf_state(buf, pos) {
        Ok(x) => x,
        Err(e) => return Err(e),
    };
    let (index, p) = match read_u64(buf, p, Field::Index) {
        Ok(x) => x,
        Err(e) => return Err(e),
    };
    let (term, p) = match read_u64(buf, p, Field::Term) {
        Ok(x) => x,
        Err(e) => return Err(e),
    };
    Ok((SnapshotMetadata { conf_state, index, term }, p))
}

pub open spec fn snapshot_fits(s: SnapshotModel) -> bool {
    s.data.len() <= u64::MAX && conf_state_fits(s.metadata.conf_state)
}

pub open spec fn enc_snapshot(s: SnapshotModel) -> Seq<u8> {
    enc_bytes(s.data) + enc_snapshot_metadata(s.metadata)
}

pub open spec fn parse_snapshot(s: Seq<u8>) -> Parsed<SnapshotModel> {
    match parse_bytes(s, Field::Data) {
        Err(e) => Err(e),
        Ok((data, s)) => match parse_snapshot_metadata(s) {
            Err(e) => Err(e),
            Ok((metadata, s)) => Ok((SnapshotModel { data, metadata }, s)),
        },
    }
}

pub proof fn lemma_snapshot_parse(x: SnapshotModel, rest: Seq<u8>)
    requires
        snapshot_fits(x),
    ensures
        parse_snapshot(enc_snapshot(x) + rest) == Ok::<(SnapshotModel, Seq<u8>), DecodeError>((x, rest)),
{
    let s2 = enc_snapshot_metadata(x.metadata) + rest;
    assert(enc_snapshot(x) + rest =~= enc_bytes(x.data) + s2);
    lemma_bytes_round_trip(x.data, s2, Field::Data);
    lemma_snapshot_metadata_parse(x.metadata, rest);
}

pub(crate) fn write_snapshot(out: &mut Vec<u8>, x: &Snapshot)
    ensures
        final(out)@ == old(out)@ + enc_snapshot(x@),
        snapshot_fits(x@),
{
    write_bytes(out, &x.data);
    write_snapshot_metadata(out, &x.metadata);
    proof {
        assert(out@ =~= old(out)@ + enc_snapshot(x@));
    }
}

pub(crate) fn read_snapshot(buf: &[u8], pos: usize) -> (r: Result<(Snapshot, usize), DecodeError>)
    requires
        pos <= buf@.len(),
    ensures
        read_agrees(buf@, pos as int, r, parse_snapshot(buf@.skip(pos as int))),
{
    let (data, p) = match read_bytes(buf, pos, Field::Data) {
        Ok(x) => x,
        Err(e) => return Err(e),
    };
    let (metadata, p) = match read_snapshot_metadata(buf, p) {
        Ok(x) => x,
        Err(e) => return Err(e),
    };
    Ok((Snapshot { data, metadata }, p))
}

pub open spec fn enc_hard_state(h: HardState) -> Seq<u8> {
    enc_u64(h.term) + enc_u64(h.vote) + enc_u64(h.commit)
}

pub open spec fn parse_hard_state(s: Seq<u8>) -> Parsed<HardState> {
    match parse_u64(s, Field::Term) {
        Err(e) => Err(e),
        Ok((term, s)) => match parse_u64(s, Field::Vote) {
            Err(e) => Err(e),
            Ok((vote, s)) => match parse_u64(s, Field::Commit) {
                Err(e) => Err(e),
                Ok((commit, s)) => Ok((HardState { term, vote, commit }, s)),
            },
        },
    }
}

pub open spec fn enc_conf_change(c: ConfChangeModel) -> Seq<u8> {
    enc_u64(c.id) + seq![c.change_type.spec_code()] + enc_u64(c.node_id) + enc_bytes(c.context)
}

pub open spec fn parse_conf_change(s: Seq<u8>) -> Parsed<ConfChangeModel> {
    match parse_u64(s, Field::Id) {
        Err(e) => Err(e),
        Ok((id, s)) => match parse_conf_change_type(s) {
            Err(e) => Err(e),
            Ok((change_type, s)) => match parse_u64(s, Field::NodeId) {
                Err(e) => Err(e),
                Ok((node_id, s)) => match parse_bytes(s, Field::Context) {
                    Err(e) => Err(e),
                    Ok((context, s)) => Ok((ConfChangeModel { id, change_type, node_id, context }, s)),
                },
            },
        },
    }
}

pub open spec fn decode_conf_state(s: Seq<u8>) -> Result<ConfStateModel, DecodeError> {
    whole(parse_conf_state(s))
}

pub open spec fn decode_snapshot_metadata(s: Seq<u8>) -> Result<SnapshotMetadataModel, DecodeError> {
    whole(parse_snapshot_metadata(s))
}

pub open spec fn decode_snapshot(s: Seq<u8>) -> Result<SnapshotModel, DecodeError> {
    whole(parse_snapshot(s))
}

pub open spec fn decode_hard_state(s: Seq<u8>) -> Result<HardState, DecodeError> {
    whole(parse_hard_state(s))
}

pub open spec fn decode_conf_change(s: Seq<u8>) -> Result<ConfChangeModel, DecodeError> {
    whole(parse_conf_change(s))
}

/// Decoding a membership's encoding gives it back.
pub proof fn lemma_conf_state_round_trip(c: ConfStateModel)
    requires
        conf_state_fits(c),
    ensures
        decode_conf_state(enc_conf_state(c)) == Ok::<ConfStateModel, DecodeError>(c),
{
    lemma_conf_state_parse(c, Seq::empty());
    assert(enc_conf_state(c) + Seq::<u8>::empty() =~= enc_conf_state(c));
}

/// Decoding snapshot metadata's encoding gives it back.
pub proof fn lemma_snapshot_metadata_round_trip(m: SnapshotMetadataModel)
    requires
        conf_state_fits(m.conf_state),
    ensures
        decode_snapshot_metadata(enc_snapshot_metadata(m)) == Ok::<SnapshotMetadataModel, DecodeError>(m),
{
    lemma_snapshot_metadata_parse(m, Seq::empty());
    assert(enc_snapshot_metadata(m) + Seq::<u8>::empty() =~= enc_snapshot_metadata(m));
}

/// Decoding a snapshot's encoding gives it back.
pub proof fn lemma_snapshot_round_trip(x: SnapshotModel)
    requires
        snapshot_fits(x),
    ensures
        decode_snapshot(enc_snapshot(x)) == Ok::<SnapshotModel, DecodeError>(x),
{
    lemma_snapshot_parse(x, Seq::empty());
    assert(enc_snapshot(x) + Seq::<u8>::empty() =~= enc_snapshot(x));
}

/// Decoding a hard state's encoding gives it back.
pub proof fn lemma_hard_state_round_trip(h: HardState)
    ensures
        decode_hard_state(enc_hard_state(h)) == Ok::<HardState, DecodeError>(h),
{
    let e = Seq::<u8>::empty();
    let s3 = enc_u64(h.commit) + e;
    let s2 = enc_u64(h.vote) + s3;
    assert(enc_hard_state(h) =~= enc_u64(h.term) + s2);
    lemma_u64_round_trip(h.term, s2, Field::Term);
    lemma_u64_round_trip(h.vote, s3, Field::Vote);
    lemma_u64_round_trip(h.commit, e, Field::Commit);
}

/// Decoding a membership change's encoding gives it back.
pub proof fn lemma_conf_change_round_trip(c: ConfChangeModel)
    requires
        c.context.len() <= u64::MAX,
    ensures
        decode_conf_change(enc_conf_change(c)) == Ok::<ConfChangeModel, DecodeError>(c),
{
    let e = Seq::<u8>::empty();
    let s4 = enc_bytes(c.context) + e;
    let s3 = enc_u64(c.node_id) + s4;
    let tag = seq![c.change_type.spec_code()];
    let s2 = tag + s3;
    assert(enc_conf_change(c) =~= enc_u64(c.id) + s2);
    lemma_u64_round_trip(c.id, s2, Field::Id);
    lemma_split(tag, s3);
    lemma_u64_round_trip(c.node_id, s4, Field::NodeId);
    lemma_bytes_round_trip(c.context, e, Field::Context);
}

impl ConfState {
    /// The membership's encoding.
    pub fn serialize(&self) -> (r: Vec<u8>)
        ensures
            r@ == enc_conf_state(self@),
            conf_state_fits(self@),
    {
        let mut out: Vec<u8> = Vec::new();
        write_conf_state(&mut out, self);
        proof {
            assert(out@ =~= enc_conf_state(self@));
        }
        out
    }

    /// The membership that `bytes` encode, or why they encode none. The two
    /// lists are taken as they stand, overlapping or not.
    pub fn deserialize(bytes: &[u8]) -> (r: Result<ConfState, DecodeError>)
        ensures
            decoded_as(r, decode_conf_state(bytes@)),
    {
        proof {
            assert(bytes@.skip(0) =~= bytes@);
        }
        let (x, p) = match read_conf_state(bytes, 0) {
            Ok(x) => x,
            Err(e) => return Err(e),
        };
        if p < bytes.len() {
            Err(DecodeError::TrailingBytes)
        } else {
            Ok(x)
        }
    }
}

impl SnapshotMetadata {
    /// The metadata's encoding.
    pub fn serialize(&self) -> (r: Vec<u8>)
        ensures
            r@ == enc_snapshot_metadata(self@),
            conf_state_fits(self@.conf_state),
    {
        let mut out: Vec<u8> = Vec::new();
        write_snapshot_metadata(&mut out, self);
        proof {
            assert(out@ =~= enc_snapshot_metadata(self@));
        }
        out
    }

    /// The metadata that `bytes` encode, or why they encode none.
    pub fn deserialize(bytes: &[u8]) -> (r: Result<SnapshotMetadata, DecodeError>)
        ensures
            decoded_as(r, decode_snapshot_metadata(bytes@)),
    {
        proof {
            assert(bytes@.skip(0) =~= bytes@);
        }
        let (x, p) = match read_snapshot_metadata(bytes, 0) {
            Ok(x) => x,
            Err(e) => return Err(e),
        };
        if p < bytes.len() {
            Err(DecodeError::TrailingBytes)
        } else {
            Ok(x)
        }
    }
}

impl Snapshot {
    /// The snapshot's encoding.
    pub fn serialize(&self) -> (r: Vec<u8>)
        ensures
            r@ == enc_snapshot(self@),
            snapshot_fits(self@),
    {
        let mut out: Vec<u8> = Vec::new();
        write_snapshot(&mut out, self);
        proof {
            assert(out@ =~= enc_snapshot(self@));
        }
        out
    }

    /// The snapshot that `bytes` encode, or why they encode none.
    pub fn deserialize(bytes: &[u8]) -> (r: Result<Snapshot, DecodeError>)
        ensures
            decoded_as(r, decode_snapshot(bytes@)),
    {
        proof {
            assert(bytes@.skip(0) =~= bytes@);
        }
        let (x, p) = match read_snapshot(bytes, 0) {
            Ok(x) => x,
            Err(e) => return Err(e),
        };
        if p < bytes.len() {
            Err(DecodeError::TrailingBytes)
        } else {
            Ok(x)
        }
    }
}

impl HardState {
    /// The hard state's encoding.
    pub fn serialize(&self) -> (r: Vec<u8>)
        ensures
            r@ == enc_hard_state(*self),
    {
        let mut out: Vec<u8> = Vec::new();
        write_u64(&mut out, self.term);
        write_u64(&mut out, self.vote);
        write_u64(&mut out, self.commit);
        proof {
            assert(out@ =~= enc_hard_state(*self));
        }
        out
    }

    /// The hard state that `bytes` encode, or why they encode none.
    pub fn deserialize(bytes: &[u8]) -> (r: Result<HardState, DecodeError>)
        ensures
            match r {
                Ok(h) => decode_hard_state(bytes@) == Ok::<HardState, DecodeError>(h),
                Err(e) => decode_hard_state(bytes@) == Err::<HardState, DecodeError>(e),
            },
    {
        proof {
            assert(bytes@.skip(0) =~= bytes@);
        }
        let (term, p) = match read_u64(bytes, 0, Field::Term) {
            Ok(x) => x,
            Err(e) => return Err(e),
        };
        let (vote, p) = match read_u64(bytes, p, Field::Vote) {
            Ok(x) => x,
            Err(e) => return Err(e),
        };
        let (commit, p) = match read_u64(bytes, p, Field::Commit) {
            Ok(x) => x,
            Err(e) => return Err(e),
        };
        if p < bytes.len() {
            Err(DecodeError::TrailingBytes)
        } else {
            Ok(HardState { term, vote, commit })
        }
    }
}

impl ConfChange {
    /// The change's encoding.
    pub fn serialize(&self) -> (r: Vec<u8>)
        ensures
            r@ == enc_conf_change(self@),
            self@.context.len() <= u64::MAX,
    {
        let mut out: Vec<u8> = Vec::new();
        write_u64(&mut out, self.id);
        out.push(self.change_type.code());
        write_u64(&mut out, self.node_id);
        write_bytes(&mut out, &self.context);
        proof {
            assert(out@ =~= enc_conf_change(self@));
        }
        out
    }

    /// The change that `bytes` encode, or why they encode none.
    pub fn deserialize(bytes: &[u8]) -> (r: Result<ConfChange, DecodeError>)
        ensures
            decoded_as(r, decode_conf_change(bytes@)),
    {
        proof {
            assert(bytes@.skip(0) =~= bytes@);
        }
        let (id, p) = match read_u64(bytes, 0, Field::Id) {
            Ok(x) => x,
            Err(e) => return Err(e),
        };
        let (change_type, p) = match read_conf_change_type(bytes, p) {
            Ok(x) => x,
            Err(e) => return Err(e),
        };
        let (node_id, p) = match read_u64(bytes, p, Field::NodeId) {
            Ok(x) => x,
            Err(e) => return Err(e),
        };
        let (context, p) = match read_bytes(bytes, p, Field::Context) {
            Ok(x) => x,
            Err(e) => return Err(e),
        };
        if p < bytes.len() {
            Err(DecodeError::TrailingBytes)
        } else {
            Ok(ConfChange { id, change_type, node_id, context })
        }
    }
}

impl MessageType {
    /// The byte that stands for this kind in the encoding. The codes are
    /// fixed: a new kind takes a new code.
    pub open spec fn spec_code(self) -> u8 {
        match self {
            MessageType::MsgHup => 0,
            MessageType::MsgBeat => 1,
            MessageType::MsgPropose => 2,
            MessageType::MsgAppend => 3,
            MessageType::MsgAppendResponse => 4,
            MessageType::MsgRequestVote => 5,
            MessageType::MsgRequestVoteResponse => 6,
            MessageType::MsgSnapshot => 7,
            MessageType::MsgHeartbeat => 8,
            MessageType::MsgHeartbeatResponse => 9,
            MessageType::MsgUnreachable => 10,
            MessageType::MsgSnapStatus => 11,
            MessageType::MsgCheckQuorum => 12,
            MessageType::MsgTransferLeader => 13,
            MessageType::MsgTimeoutNow => 14,
            MessageType::MsgReadIndex => 15,
            MessageType::MsgReadIndexResp => 16,
            MessageType::MsgRequestPreVote => 17,
            MessageType::MsgRequestPreVoteResponse => 18,
        }
    }

    pub open spec fn spec_from_code(b: u8) -> Option<MessageType> {
        match b {
            0 => Some(MessageType::MsgHup),
            1 => Some(MessageType::MsgBeat),
            2 => Some(MessageType::MsgPropose),
            3 => Some(MessageType::MsgAppend),
            4 => Some(MessageType::MsgAppendResponse),
            5 => Some(MessageType::MsgRequestVote),
            6 => Some(MessageType::MsgRequestVoteResponse),
            7 => Some(MessageType::MsgSnapshot),
            8 => Some(MessageType::MsgHeartbeat),
            9 => Some(MessageType::MsgHeartbeatResponse),
            10 => Some(MessageType::MsgUnreachable),
            11 => Some(MessageType::MsgSnapStatus),
            12 => Some(MessageType::MsgCheckQuorum),
            13 => Some(MessageType::MsgTransferLeader),
            14 => Some(MessageType::MsgTimeoutNow),
            15 => Some(MessageType::MsgReadIndex),
            16 => Some(MessageType::MsgReadIndexResp),
            17 => Some(MessageType::MsgRequestPreVote),
            18 => Some(MessageType::MsgRequestPreVoteResponse),
            _ => None,
        }
    }

    pub fn code(self) -> (r: u8)
        ensures
            r == self.spec_code(),
    {
        match self {
            MessageType::MsgHup => 0,
            MessageType::MsgBeat => 1,
            MessageType::MsgPropose => 2,
            MessageType::MsgAppend => 3,
            MessageType::MsgAppendResponse => 4,
            MessageType::MsgRequestVote => 5,
            MessageType::MsgRequestVoteResponse => 6,
            MessageType::MsgSnapshot => 7,
            MessageType::MsgHeartbeat => 8,
            MessageType::MsgHeartbeatResponse => 9,
            MessageType::MsgUnreachable => 10,
            MessageType::MsgSnapStatus => 11,
            MessageType::MsgCheckQuorum => 12,
            MessageType::MsgTransferLeader => 13,
            MessageType::MsgTimeoutNow => 14,
            MessageType::MsgReadIndex => 15,
            MessageType::MsgReadIndexResp => 16,
            MessageType::MsgRequestPreVote => 17,
            MessageType::MsgRequestPreVoteResponse => 18,
        }
    }

    pub fn from_code(b: u8) -> (r: Option<MessageType>)
        ensures
            r == MessageType::spec_from_code(b),
    {
        match b {
            0 => Some(MessageType::MsgHup),
            1 => Some(MessageType::MsgBeat),
            2 => Some(MessageType::MsgPropose),
            3 => Some(MessageType::MsgAppend),
            4 => Some(MessageType::MsgAppendResponse),
            5 => Some(MessageType::MsgRequestVote),
            6 => Some(MessageType::MsgRequestVoteResponse),
            7 => Some(MessageType::MsgSnapshot),
            8 => Some(MessageType::MsgHeartbeat),
            9 => Some(MessageType::MsgHeartbeatResponse),
            10 => Some(MessageType::MsgUnreachable),
            11 => Some(MessageType::MsgSnapStatus),
            12 => Some(MessageType::MsgCheckQuorum),
            13 => Some(MessageType::MsgTransferLeader),
            14 => Some(MessageType::MsgTimeoutNow),
            15 => Some(MessageType::MsgReadIndex),
            16 => Some(MessageType::MsgReadIndexResp),
            17 => Some(MessageType::MsgRequestPreVote),
            18 => Some(MessageType::MsgRequestPreVoteResponse),
            _ => None,
        }
    }
}

pub open spec fn parse_message_type(s: Seq<u8>) -> Parsed<MessageType> {
    match parse_byte(s, Field::MsgType) {
        Err(e) => Err(e),
        Ok((b, r)) => match MessageType::spec_from_code(b) {
            Some(t) => Ok((t, r)),
            None => Err(DecodeError::UnknownTag(Field::MsgType, b)),
        },
    }
}

fn read_message_type(buf: &[u8], pos: usize) -> (r: Result<(MessageType, usize), DecodeError>)
    requires
        pos <= buf@.len(),
    ensures
        read_agrees_plain(buf@, pos as int, r, parse_message_type(buf@.skip(pos as int))),
{
    let (b, p) = match read_byte(buf, pos, Field::MsgType) {
        Ok(x) => x,
        Err(e) => return Err(e),
    };
    match MessageType::from_code(b) {
        Some(t) => Ok((t, p)),
        None => Err(DecodeError::UnknownTag(Field::MsgType, b)),
    }
}

/// The items of a list of entries, without its length.
pub open spec fn enc_entry_items(es: Seq<EntryModel>) -> Seq<u8>
    decreases es.len(),
{
    if es.len() == 0 {
        Seq::empty()
    } else {
        enc_entry_items(es.drop_last()) + enc_entry(es.last())
    }
}

pub open spec fn enc_entry_list(es: Seq<EntryModel>) -> Seq<u8> {
    enc_u64(es.len() as u64) + enc_entry_items(es)
}

/// Parses `n` entries one after the other.
pub open spec fn parse_entry_items(s: Seq<u8>, n: nat) -> Parsed<Seq<EntryModel>>
    decreases n,
{
    if n == 0 {
        Ok((Seq::empty(), s))
    } else {
        match parse_entry_items(s, (n - 1) as nat) {
            Err(e) => Err(e),
            Ok((es, r)) => match parse_entry(r) {
                Err(e) => Err(e),
                Ok((x, r2)) => Ok((es.push(x), r2)),
            },
        }
    }
}

pub open spec fn parse_entry_list(s: Seq<u8>) -> Parsed<Seq<EntryModel>> {
    match parse_u64(s, Field::Entries) {
        Err(e) => Err(e),
        Ok((n, r)) => parse_entry_items(r, n as nat),
    }
}

pub open spec fn entry_list_fits(es: Seq<EntryModel>) -> bool {
    es.len() <= u64::MAX && forall|i: int| 0 <= i < es.len() ==> #[trigger] entry_fits(es[i])
}

pub proof fn lemma_entry_items_parse(es: Seq<EntryModel>, rest: Seq<u8>)
    requires
        forall|i: int| 0 <= i < es.len() ==> #[trigger] entry_fits(es[i]),
    ensures
        parse_entry_items(enc_entry_items(es) + rest, es.len())
            == Ok::<(Seq<EntryModel>, Seq<u8>), DecodeError>((es, rest)),
    decreases es.len(),
{
    if es.len() == 0 {
        assert(enc_entry_items(es) + rest =~= rest);
        assert(es =~= Seq::<EntryModel>::empty());
    } else {
        let init = es.drop_last();
        let tail = enc_entry(es.last()) + rest;
        assert(enc_entry_items(es) + rest =~= enc_entry_items(init) + tail);
        assert forall|i: int| 0 <= i < init.len() implies #[trigger] entry_fits(init[i]) by {
            assert(init[i] == es[i]);
        }
        lemma_entry_items_parse(init, tail);
        assert(entry_fits(es[es.len() - 1]));
        lemma_entry_parse(es.last(), rest);
        assert(init.push(es.last()) =~= es);
    }
}

pub proof fn lemma_entry_list_parse(es: Seq<EntryModel>, rest: Seq<u8>)
    requires
        entry_list_fits(es),
    ensures
        parse_entry_list(enc_entry_list(es) + rest) == Ok::<(Seq<EntryModel>, Seq<u8>), DecodeError>((es, rest)),
{
    let tail = enc_entry_items(es) + rest;
    assert(enc_entry_list(es) + rest =~= enc_u64(es.len() as u64) + tail);
    lemma_u64_round_trip(es.len() as u64, tail, Field::Entries);
    lemma_entry_items_parse(es, rest);
}

/// Once the `k`-th entry fails, every longer run of entries fails the same way.
proof fn lemma_entry_items_stop(s: Seq<u8>, k: nat, n: nat, e: DecodeError)
    requires
        k < n,
        parse_entry_items(s, k) is Ok,
        parse_entry(parse_entry_items(s, k)->Ok_0.1) == Err::<(EntryModel, Seq<u8>), DecodeError>(e),
    ensures
        parse_entry_items(s, n) == Err::<(Seq<EntryModel>, Seq<u8>), DecodeError>(e),
    decreases n,
{
    if n > k + 1 {
        lemma_entry_items_stop(s, k, (n - 1) as nat, e);
    }
}

fn write_entry_list(out: &mut Vec<u8>, es: &Vec<Entry>)
    ensures
        final(out)@ == old(out)@ + enc_entry_list(entries_view(es@)),
        entry_list_fits(entries_view(es@)),
{
    write_u64(out, es.len() as u64);
    let ghost start = out@;
    let ghost all = entries_view(es@);
    let mut i: usize = 0;
    while i < es.len()
        invariant
            0 <= i <= es@.len(),
            all == entries_view(es@),
            out@ == start + enc_entry_items(all.take(i as int)),
            forall|j: int| 0 <= j < i ==> #[trigger] entry_fits(all[j]),
        decreases es@.len() - i,
    {
        write_entry(out, &es[i]);
        proof {
            let t = all.take(i + 1);
            assert(t.drop_last() =~= all.take(i as int));
            assert(t.last() == all[i as int]);
            assert(out@ =~= start + enc_entry_items(t));
        }
        i = i + 1;
    }
    proof {
        assert(all.take(i as int) =~= all);
        assert(out@ =~= old(out)@ + enc_entry_list(all));
    }
}

fn read_entry_list(buf: &[u8], pos: usize) -> (r: Result<(Vec<Entry>, usize), DecodeError>)
    requires
        pos <= buf@.len(),
    ensures
        match r {
            Ok((v, q)) => pos <= q <= buf@.len() && parse_entry_list(buf@.skip(pos as int))
                == Ok::<(Seq<EntryModel>, Seq<u8>), DecodeError>((entries_view(v@), buf@.skip(q as int))),
            Err(e) => parse_entry_list(buf@.skip(pos as int)) == Err::<(Seq<EntryModel>, Seq<u8>), DecodeError>(e),
        },
{
    let (n, start) = match read_u64(buf, pos, Field::Entries) {
        Ok(x) => x,
        Err(e) => return Err(e),
    };
    proof {
        assert(entries_view(Seq::<Entry>::empty()) =~= Seq::<EntryModel>::empty());
    }
    let mut es: Vec<Entry> = Vec::new();
    let mut p: usize = start;
    let mut i: u64 = 0;
    while i < n
        invariant
            start <= p <= buf@.len(),
            i <= n,
            parse_entry_list(buf@.skip(pos as int)) == parse_entry_items(buf@.skip(start as int), n as nat),
            parse_entry_items(buf@.skip(start as int), i as nat)
                == Ok::<(Seq<EntryModel>, Seq<u8>), DecodeError>((entries_view(es@), buf@.skip(p as int))),
        decreases n - i,
    {
        let (x, q) = match read_entry(buf, p) {
            Ok(x) => x,
            Err(e) => {
                proof {
                    lemma_entry_items_stop(buf@.skip(start as int), i as nat, n as nat, e);
                }
                return Err(e);
            },
        };
        proof {
            assert(entries_view(es@.push(x)) =~= entries_view(es@).push(x@));
        }
        es.push(x);
        p = q;
        i = i + 1;
    }
    Ok((es, p))
}

pub open spec fn message_fits(m: MessageModel) -> bool {
    &&& entry_list_fits(m.entries)
    &&& snapshot_fits(m.snapshot)
    &&& m.context.len() <= u64::MAX
}

pub open spec fn enc_message(m: MessageModel) -> Seq<u8> {
    seq![m.msg_type.spec_code()] + enc_u64(m.to) + enc_u64(m.from) + enc_u64(m.term)
        + enc_u64(m.log_term) + enc_u64(m.index) + enc_entry_list(m.entries) + enc_u64(m.commit)
        + enc_snapshot(m.snapshot) + enc_bool(m.reject) + enc_u64(m.reject_hint) + enc_bytes(
        m.context,
    )
}

pub open spec fn parse_message(s: Seq<u8>) -> Parsed<MessageModel> {
    match parse_message_type(s) {
        Err(e) => Err(e),
        Ok((msg_type, s)) => match parse_u64(s, Field::To) {
            Err(e) => Err(e),
            Ok((to, s)) => match parse_u64(s, Field::From) {
                Err(e) => Err(e),
                Ok((from, s)) => match parse_u64(s, Field::Term) {
                    Err(e) => Err(e),
                    Ok((term, s)) => match parse_u64(s, Field::LogTerm) {
                        Err(e) => Err(e),
                        Ok((log_term, s)) => match parse_u64(s, Field::Index) {
                            Err(e) => Err(e),
                            Ok((index, s)) => match parse_entry_list(s) {
                                Err(e) => Err(e),
                                Ok((entries, s)) => match parse_u64(s, Field::Commit) {
                                    Err(e) => Err(e),
                                    Ok((commit, s)) => match parse_snapshot(s) {
                                        Err(e) => Err(e),
                                        Ok((snapshot, s)) => match parse_bool(s, Field::Reject) {
                                            Err(e) => Err(e),
                                            Ok((reject, s)) => match parse_u64(s, Field::RejectHint) {
                                                Err(e) => Err(e),
                                                Ok((reject_hint, s)) => match parse_bytes(s, Field::Context) {
                                                    Err(e) => Err(e),
                                                    Ok((context, s)) => Ok(
                                                        (
                                                            MessageModel {
                                                                msg_type,
                                                                to,
                                                                from,
                                                                term,
                                                                log_term,
                                                                index,
                                                                entries,
                                                                commit,
                                                                snapshot,
                                                                reject,
                                                                reject_hint,
                                                                context,
                                                            },
                                                            s,
                                                        ),
                                                    ),
                                                },
                                            },
                                        },
                                    },
                                },
                            },
                        },
                    },
                },
            },
        },
    }
}

pub open spec fn decode_message(s: Seq<u8>) -> Result<MessageModel, DecodeError> {
    whole(parse_message(s))
}

proof fn lemma_assoc(a: Seq<u8>, b: Seq<u8>, c: Seq<u8>)
    ensures
        (a + b) + c == a + (b + c),
{
    assert((a + b) + c =~= a + (b + c));
}

/// The encoding of a message, with its fields nested to the right.
proof fn lemma_message_layout(m: MessageModel)
    ensures
        enc_message(m) == seq![m.msg_type.spec_code()] + (enc_u64(m.to) + (enc_u64(m.from) + (
        enc_u64(m.term) + (enc_u64(m.log_term) + (enc_u64(m.index) + (enc_entry_list(m.entries)
            + (enc_u64(m.commit) + (enc_snapshot(m.snapshot) + (enc_bool(m.reject) + (enc_u64(
            m.reject_hint,
        ) + enc_bytes(m.context))))))))))),
{
    let e1 = enc_u64(m.to);
    let e2 = enc_u64(m.from);
    let e3 = enc_u64(m.term);
    let e4 = enc_u64(m.log_term);
    let e5 = enc_u64(m.index);
    let e6 = enc_entry_list(m.entries);
    let e7 = enc_u64(m.commit);
    let e8 = enc_snapshot(m.snapshot);
    let e9 = enc_bool(m.reject);
    let e10 = enc_u64(m.reject_hint);
    let e11 = enc_bytes(m.context);
    let l0 = seq![m.msg_type.spec_code()];
    let l1 = l0 + e1;
    let l2 = l1 + e2;
    let l3 = l2 + e3;
    let l4 = l3 + e4;
    let l5 = l4 + e5;
    let l6 = l5 + e6;
    let l7 = l6 + e7;
    let l8 = l7 + e8;
    let l9 = l8 + e9;
    let r10 = e10 + e11;
    let r9 = e9 + r10;
    let r8 = e8 + r9;
    let r7 = e7 + r8;
    let r6 = e6 + r7;
    let r5 = e5 + r6;
    let r4 = e4 + r5;
    let r3 = e3 + r4;
    let r2 = e2 + r3;
    let r1 = e1 + r2;
    lemma_assoc(l9, e10, e11);
    lemma_assoc(l8, e9, r10);
    lemma_assoc(l7, e8, r9);
    lemma_assoc(l6, e7, r8);
    lemma_assoc(l5, e6, r7);
    lemma_assoc(l4, e5, r6);
    lemma_assoc(l3, e4, r5);
    lemma_assoc(l2, e3, r4);
    lemma_assoc(l1, e2, r3);
    lemma_assoc(l0, e1, r2);
}

/// Decoding a message's encoding gives it back.
pub proof fn lemma_message_round_trip(m: MessageModel)
    requires
        message_fits(m),
    ensures
        decode_message(enc_message(m)) == Ok::<MessageModel, DecodeError>(m),
{
    let s12 = enc_bytes(m.context);
    let s11 = enc_u64(m.reject_hint) + s12;
    let s10 = enc_bool(m.reject) + s11;
    let s9 = enc_snapshot(m.snapshot) + s10;
    let s8 = enc_u64(m.commit) + s9;
    let s7 = enc_entry_list(m.entries) + s8;
    let s6 = enc_u64(m.index) + s7;
    let s5 = enc_u64(m.log_term) + s6;
    let s4 = enc_u64(m.term) + s5;
    let s3 = enc_u64(m.from) + s4;
    let s2 = enc_u64(m.to) + s3;
    let tag = seq![m.msg_type.spec_code()];
    lemma_message_layout(m);
    lemma_split(tag, s2);
    lemma_u64_round_trip(m.to, s3, Field::To);
    lemma_u64_round_trip(m.from, s4, Field::From);
    lemma_u64_round_trip(m.term, s5, Field::Term);
    lemma_u64_round_trip(m.log_term, s6, Field::LogTerm);
    lemma_u64_round_trip(m.index, s7, Field::Index);
    lemma_entry_list_parse(m.entries, s8);
    lemma_u64_round_trip(m.commit, s9, Field::Commit);
    lemma_snapshot_parse(m.snapshot, s10);
    lemma_bool_round_trip(m.reject, s11, Field::Reject);
    lemma_u64_round_trip(m.reject_hint, s12, Field::RejectHint);
    lemma_bytes_round_trip(m.context, Seq::empty(), Field::Context);
    assert(s12 + Seq::<u8>::empty() =~= s12);
    assert(parse_message(enc_message(m)) == Ok::<(MessageModel, Seq<u8>), DecodeError>((m, Seq::empty())));
}

impl Message {
    /// The message's encoding.
    pub fn serialize(&self) -> (r: Vec<u8>)
        ensures
            r@ == enc_message(self@),
            message_fits(self@),
    {
        let mut out: Vec<u8> = Vec::new();
        out.push(self.msg_type.code());
        write_u64(&mut out, self.to);
        write_u64(&mut out, self.from);
        write_u64(&mut out, self.term);
        write_u64(&mut out, self.log_term);
        write_u64(&mut out, self.index);
        write_entry_list(&mut out, &self.entries);
        write_u64(&mut out, self.commit);
        write_snapshot(&mut out, &self.snapshot);
        write_bool(&mut out, self.reject);
        write_u64(&mut out, self.reject_hint);
        write_bytes(&mut out, &self.context);
        proof {
            assert(out@ =~= enc_message(self@));
        }
        out
    }

    /// The message that `bytes` encode, or why they encode none.
    pub fn deserialize(bytes: &[u8]) -> (r: Result<Message, DecodeError>)
        ensures
            decoded_as(r, decode_message(bytes@)),
    {
        proof {
            assert(bytes@.skip(0) =~= bytes@);
        }
        let (msg_type, p) = match read_message_type(bytes, 0) {
            Ok(x) => x,
            Err(e) => return Err(e),
        };
        let (to, p) = match read_u64(bytes, p, Field::To) {
            Ok(x) => x,
            Err(e) => return Err(e),
        };
        let (from, p) = match read_u64(bytes, p, Field::From) {
            Ok(x) => x,
            Err(e) => return Err(e),
        };
        let (term, p) = match read_u64(bytes, p, Field::Term) {
            Ok(x) => x,
            Err(e) => return Err(e),
        };
        let (log_term, p) = match read_u64(bytes, p, Field::LogTerm) {
            Ok(x) => x,
            Err(e) => return Err(e),
        };
        let (index, p) = match read_u64(bytes, p, Field::Index) {
            Ok(x) => x,
            Err(e) => return Err(e),
        };
        let (entries, p) = match read_entry_list(bytes, p) {
            Ok(x) => x,
            Err(e) => return Err(e),
        };
        let (commit, p) = match read_u64(bytes, p, Field::Commit) {
            Ok(x) => x,
            Err(e) => return Err(e),
        };
        let (snapshot, p) = match read_snapshot(bytes, p) {
            Ok(x) => x,
            Err(e) => return Err(e),
        };
        let (reject, p) = match read_bool(bytes, p, Field::Reject) {
            Ok(x) => x,
            Err(e) => return Err(e),
        };
        let (reject_hint, p) = match read_u64(bytes, p, Field::RejectHint) {
            Ok(x) => x,
            Err(e) => return Err(e),
        };
        let (context, p) = match read_bytes(bytes, p, Field::Context) {
            Ok(x) => x,
            Err(e) => return Err(e),
        };
        if p < bytes.len() {
            Err(DecodeError::TrailingBytes)
        } else {
            Ok(
                Message {
                    msg_type,
                    to,
                    from,
                    term,
                    log_term,
                    index,
                    entries,
                    commit,
                    snapshot,
                    reject,
                    reject_hint,
                    context,
                },
            )
        }
    }
}

} // verus!
