//! A length-prefixed binary encoding of the records.
//!
//! Integers are eight bytes, little-endian. A byte string or a list is its
//! length as such an integer, then its items. A tag (a record kind, a `bool`)
//! is one byte with a fixed code. A record is its fields in declaration order.
//!
//! Each encoder is stated as a spec function `enc_*`, each decoder as a spec
//! parser `parse_*` from bytes to a value and the bytes left over; the exec
//! functions are proved to compute them, and `parse_*` is proved to undo
//! `enc_*`.
use vstd::prelude::*;
use vstd::bytes::{spec_u64_to_le_bytes, spec_u64_from_le_bytes, u64_from_le_bytes, u64_to_le_bytes, lemma_auto_spec_u64_to_from_le_bytes};
use vstd::slice::slice_subrange;

verus! {

/// The field at which decoding stopped.
#[derive(Debug, Clone, Copy, PartialEq, Eq, Hash, Structural)]
pub enum Field {
    EntryType,
    Term,
    Index,
    Data,
    Context,
    Nodes,
    Learners,
    MsgType,
    To,
    From,
    LogTerm,
    Entries,
    Commit,
    Reject,
    RejectHint,
    Vote,
    Id,
    ChangeType,
    NodeId,
}

/// Why bytes do not decode into a record.
#[derive(Debug, Clone, Copy, PartialEq, Eq, Hash, Structural)]
pub enum DecodeError {
    /// The input ends inside this field.
    Truncated(Field),
    /// This field's tag byte is no known code.
    UnknownTag(Field, u8),
    /// The record ends before the input does.
    TrailingBytes,
}

/// What a parser gives: a value and the bytes after it, or an error.
pub type Parsed<T> = Result<(T, Seq<u8>), DecodeError>;

pub open spec fn enc_u64(v: u64) -> Seq<u8> {
    spec_u64_to_le_bytes(v)
}

pub open spec fn parse_u64(s: Seq<u8>, f: Field) -> Parsed<u64> {
    if s.len() < 8 {
        Err(DecodeError::Truncated(f))
    } else {
        Ok((spec_u64_from_le_bytes(s.take(8)), s.skip(8)))
    }
}

pub open spec fn enc_bytes(b: Seq<u8>) -> Seq<u8> {
    enc_u64(b.len() as u64) + b
}

pub open spec fn parse_bytes(s: Seq<u8>, f: Field) -> Parsed<Seq<u8>> {
    match parse_u64(s, f) {
        Err(e) => Err(e),
        Ok((n, r)) => if r.len() < n {
            Err(DecodeError::Truncated(f))
        } else {
            Ok((r.take(n as int), r.skip(n as int)))
        },
    }
}

pub open spec fn enc_bool(b: bool) -> Seq<u8> {
    seq![if b { 1u8 } else { 0u8 }]
}

pub open spec fn parse_bool(s: Seq<u8>, f: Field) -> Parsed<bool> {
    if s.len() < 1 {
        Err(DecodeError::Truncated(f))
    } else if s[0] == 0 {
        Ok((false, s.skip(1)))
    } else if s[0] == 1 {
        Ok((true, s.skip(1)))
    } else {
        Err(DecodeError::UnknownTag(f, s[0]))
    }
}

/// The items of a list of integers, without its length.
pub open spec fn enc_u64_items(xs: Seq<u64>) -> Seq<u8>
    decreases xs.len(),
{
    if xs.len() == 0 {
        Seq::empty()
    } else {
        enc_u64_items(xs.drop_last()) + enc_u64(xs.last())
    }
}

pub open spec fn enc_u64_list(xs: Seq<u64>) -> Seq<u8> {
    enc_u64(xs.len() as u64) + enc_u64_items(xs)
}

/// Parses `n` integers one after the other.
pub open spec fn parse_u64_items(s: Seq<u8>, n: nat, f: Field) -> Parsed<Seq<u64>>
    decreases n,
{
    if n == 0 {
        Ok((Seq::empty(), s))
    } else {
        match parse_u64_items(s, (n - 1) as nat, f) {
            Err(e) => Err(e),
            Ok((xs, r)) => match parse_u64(r, f) {
                Err(e) => Err(e),
                Ok((x, r2)) => Ok((xs.push(x), r2)),
            },
        }
    }
}

pub open spec fn parse_u64_list(s: Seq<u8>, f: Field) -> Parsed<Seq<u64>> {
    match parse_u64(s, f) {
        Err(e) => Err(e),
        Ok((n, r)) => parse_u64_items(r, n as nat, f),
    }
}

/// `r` is what the exec reader returned from position `pos` of `buf`, and `p`
/// what the spec parser gives on the bytes from `pos` on: they agree.
pub open spec fn read_agrees<T: View>(
    buf: Seq<u8>,
    pos: int,
    r: Result<(T, usize), DecodeError>,
    p: Parsed<T::V>,
) -> bool {
    match r {
        Ok((v, q)) => pos <= q <= buf.len() && p == Ok::<(T::V, Seq<u8>), DecodeError>((v@, buf.skip(q as int))),
        Err(e) => p == Err::<(T::V, Seq<u8>), DecodeError>(e),
    }
}

pub proof fn lemma_split(a: Seq<u8>, b: Seq<u8>)
    ensures
        (a + b).take(a.len() as int) == a,
        (a + b).skip(a.len() as int) == b,
{
    assert((a + b).take(a.len() as int) =~= a);
    assert((a + b).skip(a.len() as int) =~= b);
}

pub proof fn lemma_u64_round_trip(v: u64, rest: Seq<u8>, f: Field)
    ensures
        enc_u64(v).len() == 8,
        parse_u64(enc_u64(v) + rest, f) == Ok::<(u64, Seq<u8>), DecodeError>((v, rest)),
{
    lemma_auto_spec_u64_to_from_le_bytes();
    lemma_split(enc_u64(v), rest);
}

pub proof fn lemma_bytes_round_trip(b: Seq<u8>, rest: Seq<u8>, f: Field)
    requires
        b.len() <= u64::MAX,
    ensures
        parse_bytes(enc_bytes(b) + rest, f) == Ok::<(Seq<u8>, Seq<u8>), DecodeError>((b, rest)),
{
    lemma_u64_round_trip(b.len() as u64, b + rest, f);
    assert(enc_bytes(b) + rest =~= enc_u64(b.len() as u64) + (b + rest));
    lemma_split(b, rest);
}

pub proof fn lemma_bool_round_trip(b: bool, rest: Seq<u8>, f: Field)
    ensures
        parse_bool(enc_bool(b) + rest, f) == Ok::<(bool, Seq<u8>), DecodeError>((b, rest)),
{
    lemma_split(enc_bool(b), rest);
}

pub proof fn lemma_u64_items_round_trip(xs: Seq<u64>, rest: Seq<u8>, f: Field)
    ensures
        parse_u64_items(enc_u64_items(xs) + rest, xs.len(), f) == Ok::<(Seq<u64>, Seq<u8>), DecodeError>((xs, rest)),
    decreases xs.len(),
{
    if xs.len() == 0 {
        assert(enc_u64_items(xs) + rest =~= rest);
        assert(xs =~= Seq::<u64>::empty());
    } else {
        let init = xs.drop_last();
        let tail = enc_u64(xs.last()) + rest;
        assert(enc_u64_items(xs) + rest =~= enc_u64_items(init) + tail);
        lemma_u64_items_round_trip(init, tail, f);
        lemma_u64_round_trip(xs.last(), rest, f);
        assert(init.push(xs.last()) =~= xs);
    }
}

pub proof fn lemma_u64_list_round_trip(xs: Seq<u64>, rest: Seq<u8>, f: Field)
    requires
        xs.len() <= u64::MAX,
    ensures
        parse_u64_list(enc_u64_list(xs) + rest, f) == Ok::<(Seq<u64>, Seq<u8>), DecodeError>((xs, rest)),
{
    let tail = enc_u64_items(xs) + rest;
    assert(enc_u64_list(xs) + rest =~= enc_u64(xs.len() as u64) + tail);
    lemma_u64_round_trip(xs.len() as u64, tail, f);
    lemma_u64_items_round_trip(xs, rest, f);
}

pub(crate) fn write_u64(out: &mut Vec<u8>, v: u64)
    ensures
        final(out)@ == old(out)@ + enc_u64(v),
{
    let mut b = u64_to_le_bytes(v);
    out.append(&mut b);
}

pub(crate) fn read_u64(buf: &[u8], pos: usize, f: Field) -> (r: Result<(u64, usize), DecodeError>)
    requires
        pos <= buf@.len(),
    ensures
        read_agrees(buf@, pos as int, r, parse_u64(buf@.skip(pos as int), f)),
{
    if buf.len() - pos < 8 {
        Err(DecodeError::Truncated(f))
    } else {
        let v = u64_from_le_bytes(slice_subrange(buf, pos, pos + 8));
        proof {
            assert(buf@.skip(pos as int).take(8) =~= buf@.subrange(pos as int, pos + 8));
            assert(buf@.skip(pos as int).skip(8) =~= buf@.skip(pos + 8));
        }
        Ok((v, pos + 8))
    }
}

pub(crate) fn write_bytes(out: &mut Vec<u8>, b: &Vec<u8>)
    ensures
        final(out)@ == old(out)@ + enc_bytes(b@),
        b@.len() <= u64::MAX,
{
    write_u64(out, b.len() as u64);
    let ghost start = out@;
    let mut i: usize = 0;
    while i < b.len()
        invariant
            0 <= i <= b@.len(),
            out@ == start + b@.take(i as int),
        decreases b@.len() - i,
    {
        out.push(b[i]);
        i = i + 1;
        proof {
            assert(out@ =~= start + b@.take(i as int));
        }
    }
    proof {
        assert(b@.take(i as int) =~= b@);
        assert(out@ =~= old(out)@ + enc_bytes(b@));
    }
}

pub(crate) fn read_bytes(buf: &[u8], pos: usize, f: Field) -> (r: Result<(Vec<u8>, usize), DecodeError>)
    requires
        pos <= buf@.len(),
    ensures
        read_agrees(buf@, pos as int, r, parse_bytes(buf@.skip(pos as int), f)),
{
    let (n, p) = match read_u64(buf, pos, f) {
        Ok(x) => x,
        Err(e) => return Err(e),
    };
    if ((buf.len() - p) as u64) < n {
        return Err(DecodeError::Truncated(f));
    }
    let end = p + n as usize;
    let mut v: Vec<u8> = Vec::new();
    let mut i: usize = p;
    while i < end
        invariant
            p <= i <= end <= buf@.len(),
            v@ == buf@.subrange(p as int, i as int),
        decreases end - i,
    {
        v.push(buf[i]);
        i = i + 1;
        proof {
            assert(v@ =~= buf@.subrange(p as int, i as int));
        }
    }
    proof {
        let r = buf@.skip(p as int);
        assert(buf@.skip(pos as int).skip(8) =~= r);
        assert(r.take(n as int) =~= v@);
        assert(r.skip(n as int) =~= buf@.skip(end as int));
    }
    Ok((v, end))
}

pub(crate) fn write_bool(out: &mut Vec<u8>, b: bool)
    ensures
        final(out)@ == old(out)@ + enc_bool(b),
{
    out.push(if b { 1u8 } else { 0u8 });
    proof {
        assert(out@ =~= old(out)@ + enc_bool(b));
    }
}

pub(crate) fn read_bool(buf: &[u8], pos: usize, f: Field) -> (r: Result<(bool, usize), DecodeError>)
    requires
        pos <= buf@.len(),
    ensures
        read_agrees(buf@, pos as int, r, parse_bool(buf@.skip(pos as int), f)),
{
    if pos == buf.len() {
        return Err(DecodeError::Truncated(f));
    }
    proof {
        assert(buf@.skip(pos as int)[0] == buf@[pos as int]);
        assert(buf@.skip(pos as int).skip(1) =~= buf@.skip(pos + 1));
    }
    let b = buf[pos];
    if b == 0 {
        Ok((false, pos + 1))
    } else if b == 1 {
        Ok((true, pos + 1))
    } else {
        Err(DecodeError::UnknownTag(f, b))
    }
}

pub(crate) fn write_u64_list(out: &mut Vec<u8>, xs: &Vec<u64>)
    ensures
        final(out)@ == old(out)@ + enc_u64_list(xs@),
        xs@.len() <= u64::MAX,
{
    write_u64(out, xs.len() as u64);
    let ghost start = out@;
    let mut i: usize = 0;
    while i < xs.len()
        invariant
            0 <= i <= xs@.len(),
            out@ == start + enc_u64_items(xs@.take(i as int)),
        decreases xs@.len() - i,
    {
        write_u64(out, xs[i]);
        proof {
            let t = xs@.take(i + 1);
            assert(t.drop_last() =~= xs@.take(i as int));
            assert(out@ =~= start + enc_u64_items(t));
        }
        i = i + 1;
    }
    proof {
        assert(xs@.take(i as int) =~= xs@);
        assert(out@ =~= old(out)@ + enc_u64_list(xs@));
    }
}

pub(crate) fn read_u64_list(buf: &[u8], pos: usize, f: Field) -> (r: Result<(Vec<u64>, usize), DecodeError>)
    requires
        pos <= buf@.len(),
    ensures
        read_agrees(buf@, pos as int, r, parse_u64_list(buf@.skip(pos as int), f)),
{
    let (n, start) = match read_u64(buf, pos, f) {
        Ok(x) => x,
        Err(e) => return Err(e),
    };
    proof {
        assert(parse_u64_list(buf@.skip(pos as int), f) == parse_u64_items(buf@.skip(start as int), n as nat, f));
    }
    let mut xs: Vec<u64> = Vec::new();
    let mut p: usize = start;
    let mut i: u64 = 0;
    while i < n
        invariant
            start <= p <= buf@.len(),
            i <= n,
            parse_u64_list(buf@.skip(pos as int), f) == parse_u64_items(buf@.skip(start as int), n as nat, f),
            parse_u64_items(buf@.skip(start as int), i as nat, f) == Ok::<(Seq<u64>, Seq<u8>), DecodeError>((xs@, buf@.skip(p as int))),
        decreases n - i,
    {
        let (x, q) = match read_u64(buf, p, f) {
            Ok(x) => x,
            Err(e) => {
                proof {
                    lemma_items_stop(buf@.skip(start as int), i as nat, n as nat, f, e);
                    assert(parse_u64_items(buf@.skip(start as int), n as nat, f) == Err::<(Seq<u64>, Seq<u8>), DecodeError>(e));
                }
                return Err(e);
            },
        };
        xs.push(x);
        p = q;
        i = i + 1;
    }
    Ok((xs, p))
}

/// Once the `k`-th item fails, every longer run of items fails the same way.
proof fn lemma_items_stop(s: Seq<u8>, k: nat, n: nat, f: Field, e: DecodeError)
    requires
        k < n,
        parse_u64_items(s, k, f) is Ok,
        parse_u64(parse_u64_items(s, k, f)->Ok_0.1, f) == Err::<(u64, Seq<u8>), DecodeError>(e),
    ensures
        parse_u64_items(s, n, f) == Err::<(Seq<u64>, Seq<u8>), DecodeError>(e),
    decreases n,
{
    if n > k + 1 {
        lemma_items_stop(s, k, (n - 1) as nat, f, e);
    }
}

/// Turns what a parser gave on a whole input into a decoded value: the
/// value, if no byte is left over.
pub open spec fn whole<T>(p: Parsed<T>) -> Result<T, DecodeError> {
    match p {
        Ok((v, r)) => if r.len() == 0 {
            Ok(v)
        } else {
            Err(DecodeError::TrailingBytes)
        },
        Err(e) => Err(e),
    }
}

/// A decoder's result `r` is the value, or the error, that `d` gives.
pub open spec fn decoded_as<T: View>(r: Result<T, DecodeError>, d: Result<T::V, DecodeError>) -> bool {
    match r {
        Ok(v) => d == Ok::<T::V, DecodeError>(v@),
        Err(e) => d == Err::<T::V, DecodeError>(e),
    }
}

pub open spec fn parse_byte(s: Seq<u8>, f: Field) -> Parsed<u8> {
    if s.len() < 1 {
        Err(DecodeError::Truncated(f))
    } else {
        Ok((s[0], s.skip(1)))
    }
}

pub(crate) fn read_byte(buf: &[u8], pos: usize, f: Field) -> (r: Result<(u8, usize), DecodeError>)
    requires
        pos <= buf@.len(),
    ensures
        read_agrees(buf@, pos as int, r, parse_byte(buf@.skip(pos as int), f)),
{
    if pos == buf.len() {
        return Err(DecodeError::Truncated(f));
    }
    proof {
        assert(buf@.skip(pos as int).skip(1) =~= buf@.skip(pos + 1));
    }
    Ok((buf[pos], pos + 1))
}

/// As `read_agrees`, for values that are their own model.
pub open spec fn read_agrees_plain<T>(
    buf: Seq<u8>,
    pos: int,
    r: Result<(T, usize), DecodeError>,
    p: Parsed<T>,
) -> bool {
    match r {
        Ok((v, q)) => pos <= q <= buf.len() && p == Ok::<(T, Seq<u8>), DecodeError>((v, buf.skip(q as int))),
        Err(e) => p == Err::<(T, Seq<u8>), DecodeError>(e),
    }
}

} // verus!
