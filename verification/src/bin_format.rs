//! The binary wire format: each record is a fixed magic marker, a body
//! length, fixed-width big-endian fields, and a length-prefixed UTF-8
//! description.
//!
//! The body-length prefix is written on encode but deliberately not checked
//! against the consumed bytes on decode; the decoder reconstructs the record
//! from the fixed-width fields and the description length alone.

use vstd::prelude::*;
use vstd::string::StrSliceExecFns;
use vstd::utf8::{encode_utf8, decode_utf8, valid_utf8, encode_utf8_valid_utf8,
    encode_utf8_decode_utf8};
use crate::{Transaction, TxType, TxStatus, TxView};
use crate::error::{ParserError, ErrKind, err_kind};
use crate::chars::string_from_utf8;

verus! {

/// The four magic bytes `YPBN` that open every record.
pub open spec fn spec_magic() -> Seq<u8> {
    seq![89u8, 80u8, 66u8, 78u8]
}

/// Big-endian bytes of a `u64`.
pub open spec fn spec_u64_be(v: u64) -> Seq<u8> {
    seq![
        (v >> 56) as u8,
        (v >> 48) as u8,
        (v >> 40) as u8,
        (v >> 32) as u8,
        (v >> 24) as u8,
        (v >> 16) as u8,
        (v >> 8) as u8,
        v as u8,
    ]
}

/// The `u64` read from eight big-endian bytes.
pub open spec fn spec_u64_from_be(s: Seq<u8>) -> u64
    recommends
        s.len() == 8,
{
    ((s[0] as u64) << 56) | ((s[1] as u64) << 48) | ((s[2] as u64) << 40) | ((s[3] as u64) << 32)
        | ((s[4] as u64) << 24) | ((s[5] as u64) << 16) | ((s[6] as u64) << 8) | (s[7] as u64)
}

/// Big-endian bytes of a `u32`.
pub open spec fn spec_u32_be(v: u32) -> Seq<u8> {
    seq![(v >> 24) as u8, (v >> 16) as u8, (v >> 8) as u8, v as u8]
}

/// The `u32` read from four big-endian bytes.
pub open spec fn spec_u32_from_be(s: Seq<u8>) -> u32
    recommends
        s.len() == 4,
{
    ((s[0] as u32) << 24) | ((s[1] as u32) << 16) | ((s[2] as u32) << 8) | (s[3] as u32)
}

/// Reading back the written big-endian bytes of a `u64` yields the value.
pub proof fn lemma_u64_be_roundtrip(v: u64)
    ensures
        spec_u64_from_be(spec_u64_be(v)) == v,
{
    assert((((v >> 56) as u8) as u64) << 56 | (((v >> 48) as u8) as u64) << 48 | (((v
        >> 40) as u8) as u64) << 40 | (((v >> 32) as u8) as u64) << 32 | (((v >> 24) as u8) as u64)
        << 24 | (((v >> 16) as u8) as u64) << 16 | (((v >> 8) as u8) as u64) << 8 | ((
    v as u8) as u64) == v) by (bit_vector);
}

/// Reading back the written big-endian bytes of a `u32` yields the value.
pub proof fn lemma_u32_be_roundtrip(v: u32)
    ensures
        spec_u32_from_be(spec_u32_be(v)) == v,
{
    assert((((v >> 24) as u8) as u32) << 24 | (((v >> 16) as u8) as u32) << 16 | (((v
        >> 8) as u8) as u32) << 8 | ((v as u8) as u32) == v) by (bit_vector);
}

/// The wire byte of a transaction type.
pub open spec fn type_byte(t: TxType) -> u8 {
    match t {
        TxType::Deposit => 0,
        TxType::Transfer => 1,
        TxType::Withdrawal => 2,
    }
}

/// The transaction type of a wire byte, if recognized.
pub open spec fn spec_type_of_byte(b: u8) -> Option<TxType> {
    if b == 0 {
        Some(TxType::Deposit)
    } else if b == 1 {
        Some(TxType::Transfer)
    } else if b == 2 {
        Some(TxType::Withdrawal)
    } else {
        None
    }
}

/// The wire byte of a transaction status.
pub open spec fn status_byte(s: TxStatus) -> u8 {
    match s {
        TxStatus::Success => 0,
        TxStatus::Failure => 1,
        TxStatus::Pending => 2,
    }
}

/// The transaction status of a wire byte, if recognized.
pub open spec fn spec_status_of_byte(b: u8) -> Option<TxStatus> {
    if b == 0 {
        Some(TxStatus::Success)
    } else if b == 1 {
        Some(TxStatus::Failure)
    } else if b == 2 {
        Some(TxStatus::Pending)
    } else {
        None
    }
}

/// The UTF-8 bytes of a record's description.
pub open spec fn spec_bin_desc(t: TxView) -> Seq<u8> {
    encode_utf8(t.description)
}

/// Whether one record's description fits the 32-bit body-length field.
pub open spec fn bin_encodable_tx(t: TxView) -> bool {
    46 + spec_bin_desc(t).len() <= u32::MAX
}

/// Whether every record of a sequence can be framed.
pub open spec fn bin_encodable(s: Seq<TxView>) -> bool {
    forall|i: int| 0 <= i < s.len() ==> bin_encodable_tx(#[trigger] s[i])
}

/// The wire bytes of one record.
#[verifier::opaque]
pub open spec fn spec_bin_encode_tx(t: TxView) -> Seq<u8> {
    let d = spec_bin_desc(t);
    spec_magic() + spec_u32_be((46 + d.len()) as u32) + spec_u64_be(t.tx_id) + seq![
        type_byte(t.tx_type),
    ] + spec_u64_be(t.from_user_id) + spec_u64_be(t.to_user_id) + spec_u64_be(t.amount as u64)
        + spec_u64_be(t.timestamp) + seq![status_byte(t.status)] + spec_u32_be(d.len() as u32) + d
}

/// The wire bytes of a sequence of records, in order, with no outer header.
pub open spec fn spec_bin_encode(s: Seq<TxView>) -> Seq<u8>
    decreases s.len(),
{
    if s.len() == 0 {
        Seq::empty()
    } else {
        spec_bin_encode_tx(s[0]) + spec_bin_encode(s.drop_first())
    }
}

/// The records denoted by a byte stream, or the kind of error that makes it
/// malformed.  End of input exactly at a record boundary is success; any
/// other truncation, a magic mismatch, and an unrecognized type or status
/// byte are format errors; a description that is not UTF-8 is an encoding
/// error.
pub open spec fn spec_bin_decode(b: Seq<u8>) -> Result<Seq<TxView>, ErrKind>
    decreases b.len(),
{
    if b.len() == 0 {
        Ok(Seq::empty())
    } else if b.len() < 4 {
        Err(ErrKind::Format)
    } else if b.subrange(0, 4) != spec_magic() {
        Err(ErrKind::Format)
    } else if b.len() < 54 {
        Err(ErrKind::Format)
    } else {
        match (spec_type_of_byte(b[16]), spec_status_of_byte(b[49])) {
            (Some(ty), Some(st)) => {
                let dl = spec_u32_from_be(b.subrange(50, 54)) as int;
                if b.len() < 54 + dl {
                    Err(ErrKind::Format)
                } else if !valid_utf8(b.subrange(54, 54 + dl)) {
                    Err(ErrKind::Utf8)
                } else {
                    let tx = TxView {
                        tx_id: spec_u64_from_be(b.subrange(8, 16)),
                        tx_type: ty,
                        from_user_id: spec_u64_from_be(b.subrange(17, 25)),
                        to_user_id: spec_u64_from_be(b.subrange(25, 33)),
                        amount: spec_u64_from_be(b.subrange(33, 41)) as i64,
                        timestamp: spec_u64_from_be(b.subrange(41, 49)),
                        status: st,
                        description: decode_utf8(b.subrange(54, 54 + dl)),
                    };
                    match spec_bin_decode(b.skip(54 + dl)) {
                        Ok(rest) => Ok(seq![tx] + rest),
                        Err(e) => Err(e),
                    }
                }
            },
            _ => Err(ErrKind::Format),
        }
    }
}

/// Prefixing already-decoded records onto a decode outcome.
pub open spec fn res_prepend(p: Seq<TxView>, r: Result<Seq<TxView>, ErrKind>) -> Result<
    Seq<TxView>,
    ErrKind,
> {
    match r {
        Ok(s) => Ok(p + s),
        Err(e) => Err(e),
    }
}

/// How an executable decode result must relate to the specified one: same
/// success or failure, the same records on success, and the same error kind
/// on failure.
pub open spec fn bin_decode_matches(b: Seq<u8>, r: Result<Vec<Transaction>, ParserError>) -> bool {
    match (spec_bin_decode(b), r) {
        (Ok(s), Ok(v)) => v.deep_view() == s,
        (Err(k), Err(e)) => err_kind(e) == k,
        _ => false,
    }
}

/// Decoding one encoded record followed by anything decodes the record and
/// continues with the rest.
#[verifier::rlimit(100)]
pub proof fn lemma_bin_decode_record(t: TxView, rest: Seq<u8>)
    requires
        bin_encodable_tx(t),
    ensures
        spec_bin_decode(spec_bin_encode_tx(t) + rest) == res_prepend(
            seq![t],
            spec_bin_decode(rest),
        ),
{
    reveal(spec_bin_encode_tx);
    let d = spec_bin_desc(t);
    let dl = d.len() as int;
    let e = spec_bin_encode_tx(t);
    let b = e + rest;
    assert(e.len() == 54 + dl);
    assert(b.subrange(0, 4) =~= spec_magic());
    assert(b.subrange(4, 8) =~= spec_u32_be((46 + dl) as u32));
    assert(b.subrange(8, 16) =~= spec_u64_be(t.tx_id));
    assert(b[16] == type_byte(t.tx_type));
    assert(b.subrange(17, 25) =~= spec_u64_be(t.from_user_id));
    assert(b.subrange(25, 33) =~= spec_u64_be(t.to_user_id));
    assert(b.subrange(33, 41) =~= spec_u64_be(t.amount as u64));
    assert(b.subrange(41, 49) =~= spec_u64_be(t.timestamp));
    assert(b[49] == status_byte(t.status));
    assert(b.subrange(50, 54) =~= spec_u32_be(dl as u32));
    assert(b.subrange(54, 54 + dl) =~= d);
    assert(b.skip(54 + dl) =~= rest);
    assert(spec_type_of_byte(type_byte(t.tx_type)) == Some(t.tx_type));
    assert(spec_status_of_byte(status_byte(t.status)) == Some(t.status));
    lemma_u32_be_roundtrip(dl as u32);
    assert(spec_u32_from_be(b.subrange(50, 54)) as int == dl);
    lemma_u64_be_roundtrip(t.tx_id);
    lemma_u64_be_roundtrip(t.from_user_id);
    lemma_u64_be_roundtrip(t.amount as u64);
    lemma_u64_be_roundtrip(t.timestamp);
    lemma_u64_be_roundtrip(t.to_user_id);
    let am = t.amount;
    assert((am as u64) as i64 == am) by (bit_vector);
    encode_utf8_valid_utf8(t.description);
    encode_utf8_decode_utf8(t.description);
    assert(valid_utf8(b.subrange(54, 54 + dl)));
    assert(decode_utf8(b.subrange(54, 54 + dl)) == t.description);
    let tx = TxView {
        tx_id: spec_u64_from_be(b.subrange(8, 16)),
        tx_type: t.tx_type,
        from_user_id: spec_u64_from_be(b.subrange(17, 25)),
        to_user_id: spec_u64_from_be(b.subrange(25, 33)),
        amount: spec_u64_from_be(b.subrange(33, 41)) as i64,
        timestamp: spec_u64_from_be(b.subrange(41, 49)),
        status: t.status,
        description: decode_utf8(b.subrange(54, 54 + dl)),
    };
    assert(tx == t);
    match spec_bin_decode(rest) {
        Ok(r) => {
            assert(spec_bin_decode(b) == Ok::<Seq<TxView>, ErrKind>(seq![t] + r));
        },
        Err(e) => {
            assert(spec_bin_decode(b) == Err::<Seq<TxView>, ErrKind>(e));
        },
    }
}

/// Round trip of the binary codec: decoding an encoded sequence yields the
/// sequence back, provided every description fits the length field.
#[verifier::rlimit(100)]
pub proof fn lemma_bin_round_trip(s: Seq<TxView>)
    requires
        bin_encodable(s),
    ensures
        spec_bin_decode(spec_bin_encode(s)) == Ok::<Seq<TxView>, ErrKind>(s),
    decreases s.len(),
{
    if s.len() == 0 {
        assert(spec_bin_encode(s) == Seq::<u8>::empty());
        assert(s =~= Seq::<TxView>::empty());
    } else {
        let rest = s.drop_first();
        assert(bin_encodable(rest)) by {
            assert(forall|i: int| 0 <= i < rest.len() ==> rest[i] == s[i + 1]);
        }
        lemma_bin_round_trip(rest);
        lemma_bin_decode_record(s[0], spec_bin_encode(rest));
        assert(seq![s[0]] + rest =~= s);
    }
}

/// A stream of at least four bytes that does not open with the magic marker
/// is rejected with a format error.
pub proof fn lemma_bin_bad_magic(b: Seq<u8>)
    requires
        b.len() >= 4,
        b.subrange(0, 4) != spec_magic(),
    ensures
        spec_bin_decode(b) == Err::<Seq<TxView>, ErrKind>(ErrKind::Format),
{
}

/// The `u64` at `pos`, read as eight big-endian bytes.
fn read_u64_be(v: &Vec<u8>, pos: usize) -> (r: u64)
    requires
        pos + 8 <= v@.len() <= usize::MAX,
    ensures
        r == spec_u64_from_be(v@.subrange(pos as int, pos as int + 8)),
{
    let r = ((v[pos] as u64) << 56) | ((v[pos + 1] as u64) << 48) | ((v[pos + 2] as u64) << 40) | ((
    v[pos + 3] as u64) << 32) | ((v[pos + 4] as u64) << 24) | ((v[pos + 5] as u64) << 16) | ((v[pos
        + 6] as u64) << 8) | (v[pos + 7] as u64);
    proof {
        let s = v@.subrange(pos as int, pos as int + 8);
        assert(s[0] == v@[pos as int]);
        assert(s[1] == v@[pos as int + 1]);
        assert(s[2] == v@[pos as int + 2]);
        assert(s[3] == v@[pos as int + 3]);
        assert(s[4] == v@[pos as int + 4]);
        assert(s[5] == v@[pos as int + 5]);
        assert(s[6] == v@[pos as int + 6]);
        assert(s[7] == v@[pos as int + 7]);
    }
    r
}

/// The `u32` at `pos`, read as four big-endian bytes.
fn read_u32_be(v: &Vec<u8>, pos: usize) -> (r: u32)
    requires
        pos + 4 <= v@.len() <= usize::MAX,
    ensures
        r == spec_u32_from_be(v@.subrange(pos as int, pos as int + 4)),
{
    let r = ((v[pos] as u32) << 24) | ((v[pos + 1] as u32) << 16) | ((v[pos + 2] as u32) << 8) | (
    v[pos + 3] as u32);
    proof {
        let s = v@.subrange(pos as int, pos as int + 4);
        assert(s[0] == v@[pos as int]);
        assert(s[1] == v@[pos as int + 1]);
        assert(s[2] == v@[pos as int + 2]);
        assert(s[3] == v@[pos as int + 3]);
    }
    r
}

/// Appends the big-endian bytes of a `u64`.
fn push_u64_be(out: &mut Vec<u8>, x: u64)
    ensures
        final(out)@ == old(out)@ + spec_u64_be(x),
{
    out.push((x >> 56) as u8);
    out.push((x >> 48) as u8);
    out.push((x >> 40) as u8);
    out.push((x >> 32) as u8);
    out.push((x >> 24) as u8);
    out.push((x >> 16) as u8);
    out.push((x >> 8) as u8);
    out.push(x as u8);
    proof {
        assert(out@ =~= old(out)@ + spec_u64_be(x));
    }
}

/// Appends the big-endian bytes of a `u32`.
fn push_u32_be(out: &mut Vec<u8>, x: u32)
    ensures
        final(out)@ == old(out)@ + spec_u32_be(x),
{
    out.push((x >> 24) as u8);
    out.push((x >> 16) as u8);
    out.push((x >> 8) as u8);
    out.push(x as u8);
    proof {
        assert(out@ =~= old(out)@ + spec_u32_be(x));
    }
}

/// The wire byte of a transaction type.
fn type_byte_of(t: &TxType) -> (r: u8)
    ensures
        r == type_byte(*t),
{
    match t {
        TxType::Deposit => 0,
        TxType::Transfer => 1,
        TxType::Withdrawal => 2,
    }
}

/// The wire byte of a transaction status.
fn status_byte_of(s: &TxStatus) -> (r: u8)
    ensures
        r == status_byte(*s),
{
    match s {
        TxStatus::Success => 0,
        TxStatus::Failure => 1,
        TxStatus::Pending => 2,
    }
}

/// Pushing a record onto a vector of records pushes its deep view.
pub proof fn lemma_deep_view_push_tx(a: Vec<Transaction>, b: Vec<Transaction>, x: Transaction)
    requires
        b@ == a@.push(x),
    ensures
        b.deep_view() == a.deep_view().push(x@),
{
    assert(b.deep_view() =~= a.deep_view().push(x@));
}

/// Appending one encoded record extends an encoded sequence.
#[verifier::rlimit(100)]
pub proof fn lemma_bin_encode_snoc(s: Seq<TxView>, t: TxView)
    ensures
        spec_bin_encode(s.push(t)) == spec_bin_encode(s) + spec_bin_encode_tx(t),
    decreases s.len(),
{
    if s.len() == 0 {
        assert(s.push(t).len() == 1);
        assert(s.push(t)[0] == t);
        assert(s.push(t).drop_first() =~= Seq::<TxView>::empty());
        assert(spec_bin_encode(s.push(t)) == spec_bin_encode_tx(t) + spec_bin_encode(
            Seq::<TxView>::empty(),
        ));
        assert(spec_bin_encode(s) == Seq::<u8>::empty());
        assert(spec_bin_encode_tx(t) + Seq::<u8>::empty() =~= Seq::<u8>::empty()
            + spec_bin_encode_tx(t));
    } else {
        assert(s.push(t)[0] == s[0]);
        assert(s.push(t).drop_first() =~= s.drop_first().push(t));
        assert(spec_bin_encode(s.push(t)) == spec_bin_encode_tx(s[0]) + spec_bin_encode(
            s.drop_first().push(t),
        ));
        lemma_bin_encode_snoc(s.drop_first(), t);
        assert(spec_bin_encode_tx(s[0]) + (spec_bin_encode(s.drop_first()) + spec_bin_encode_tx(t))
            =~= (spec_bin_encode_tx(s[0]) + spec_bin_encode(s.drop_first()))
            + spec_bin_encode_tx(t));
    }
}

/// Parses the fixed-width head of one record: the magic marker, the
/// numeric fields, the type and status bytes, and the description length,
/// checking that the description fits in the remaining input.
#[verifier::rlimit(100)]
fn read_fixed(input: &Vec<u8>, pos: usize) -> (r: Result<
    (u64, TxType, u64, u64, i64, u64, TxStatus, usize),
    ParserError,
>)
    requires
        pos < input@.len(),
    ensures
        (match r {
            Ok((tx_id, ty, from, to, am, ts, st, dl)) => {
                let tail = input@.skip(pos as int);
                &&& pos + 54 <= input@.len()
                &&& pos + 54 + dl <= input@.len()
                &&& tail.subrange(0, 4) == spec_magic()
                &&& tx_id == spec_u64_from_be(tail.subrange(8, 16))
                &&& spec_type_of_byte(tail[16]) == Some(ty)
                &&& from == spec_u64_from_be(tail.subrange(17, 25))
                &&& to == spec_u64_from_be(tail.subrange(25, 33))
                &&& am == spec_u64_from_be(tail.subrange(33, 41)) as i64
                &&& ts == spec_u64_from_be(tail.subrange(41, 49))
                &&& spec_status_of_byte(tail[49]) == Some(st)
                &&& dl == spec_u32_from_be(tail.subrange(50, 54))
                &&& input@.subrange(pos as int, pos as int + 4) == spec_magic()
            },
            Err(e) => {
                &&& (match spec_bin_decode(input@.skip(pos as int)) {
                    Ok(_) => false,
                    Err(k) => err_kind(e) == k,
                })
                &&& (input@.len() - pos >= 4 && input@.subrange(pos as int, pos as int + 4)
                    != spec_magic() ==> (e matches ParserError::Format(m) && m@
                    == "Invalid MAGIC header"@))
            },
        }),
{
    let ghost tail = input@.skip(pos as int);
    proof {
        assert(tail.len() > 0);
    }
    if input.len() - pos < 4 {
        return Err(ParserError::Format("truncated record header".to_owned()));
    }
    proof {
        assert(tail.subrange(0, 4) =~= input@.subrange(pos as int, pos as int + 4));
        assert(input@.subrange(pos as int, pos as int + 4)[0] == input@[pos as int]);
        assert(input@.subrange(pos as int, pos as int + 4)[1] == input@[pos as int + 1]);
        assert(input@.subrange(pos as int, pos as int + 4)[2] == input@[pos as int + 2]);
        assert(input@.subrange(pos as int, pos as int + 4)[3] == input@[pos as int + 3]);
    }
    if input[pos] != 89 || input[pos + 1] != 80 || input[pos + 2] != 66 || input[pos + 3] != 78 {
        proof {
            assert(tail.subrange(0, 4) != spec_magic());
        }
        return Err(ParserError::Format("Invalid MAGIC header".to_owned()));
    }
    proof {
        assert(tail.subrange(0, 4) =~= spec_magic());
    }
    if input.len() - pos < 54 {
        return Err(ParserError::Format("truncated record".to_owned()));
    }
    let tx_id = read_u64_be(input, pos + 8);
    let tb = input[pos + 16];
    proof {
        assert(tail[16] == input@[pos as int + 16]);
        assert(tail[49] == input@[pos as int + 49]);
        assert(tail.subrange(8, 16) =~= input@.subrange(pos as int + 8, pos as int + 16));
        assert(tail.subrange(17, 25) =~= input@.subrange(pos as int + 17, pos as int + 25));
        assert(tail.subrange(25, 33) =~= input@.subrange(pos as int + 25, pos as int + 33));
        assert(tail.subrange(33, 41) =~= input@.subrange(pos as int + 33, pos as int + 41));
        assert(tail.subrange(41, 49) =~= input@.subrange(pos as int + 41, pos as int + 49));
        assert(tail.subrange(50, 54) =~= input@.subrange(pos as int + 50, pos as int + 54));
    }
    let tx_type: TxType = if tb == 0 {
        TxType::Deposit
    } else if tb == 1 {
        TxType::Transfer
    } else if tb == 2 {
        TxType::Withdrawal
    } else {
        return Err(ParserError::Format("invalid type byte".to_owned()));
    };
    let from_user_id = read_u64_be(input, pos + 17);
    let to_user_id = read_u64_be(input, pos + 25);
    let amount = read_u64_be(input, pos + 33) as i64;
    let timestamp = read_u64_be(input, pos + 41);
    let sb = input[pos + 49];
    let status: TxStatus = if sb == 0 {
        TxStatus::Success
    } else if sb == 1 {
        TxStatus::Failure
    } else if sb == 2 {
        TxStatus::Pending
    } else {
        return Err(ParserError::Format("invalid status byte".to_owned()));
    };
    let dl32 = read_u32_be(input, pos + 50);
    let dl = dl32 as usize;
    if input.len() - pos - 54 < dl {
        return Err(ParserError::Format("truncated description".to_owned()));
    }
    Ok((tx_id, tx_type, from_user_id, to_user_id, amount, timestamp, status, dl))
}

/// Decodes one record starting at `pos`, returning it and the position
/// just past it.
#[verifier::rlimit(100)]
fn decode_record(input: &Vec<u8>, pos: usize) -> (r: Result<(Transaction, usize), ParserError>)
    requires
        pos < input@.len(),
    ensures
        (match r {
            Ok((tx, newpos)) => {
                &&& pos < newpos <= input@.len()
                &&& pos + 54 <= input@.len()
                &&& spec_bin_decode(input@.skip(pos as int)) == res_prepend(
                    seq![tx@],
                    spec_bin_decode(input@.skip(newpos as int)),
                )
                &&& input@.subrange(pos as int, pos as int + 4) == spec_magic()
            },
            Err(e) => {
                &&& (match spec_bin_decode(input@.skip(pos as int)) {
                    Ok(_) => false,
                    Err(k) => err_kind(e) == k,
                })
                &&& (input@.len() - pos >= 4 && input@.subrange(pos as int, pos as int + 4)
                    != spec_magic() ==> (e matches ParserError::Format(m) && m@
                    == "Invalid MAGIC header"@))
            },
        }),
{
    let ghost tail = input@.skip(pos as int);
    let head = read_fixed(input, pos);
    let (tx_id, tx_type, from_user_id, to_user_id, amount, timestamp, status, dl) = match head {
        Err(e) => {
            return Err(e);
        },
        Ok(h) => h,
    };
    // the vector's length bounds the positions the copy loop touches
    let _len_bound: usize = input.len();
    let mut desc_bytes: Vec<u8> = Vec::new();
    let mut k: usize = 0;
    while k < dl
        invariant
            k <= dl,
            pos + 54 + dl <= input@.len() <= usize::MAX,
            desc_bytes@ == input@.subrange(pos as int + 54, pos as int + 54 + k),
        decreases dl - k,
    {
        desc_bytes.push(input[pos + 54 + k]);
        k = k + 1;
        proof {
            assert(desc_bytes@ =~= input@.subrange(pos as int + 54, pos as int + 54 + k));
        }
    }
    proof {
        assert(tail.subrange(54, 54 + dl as int) =~= input@.subrange(
            pos as int + 54,
            pos as int + 54 + dl as int,
        ));
    }
    let desc = string_from_utf8(desc_bytes);
    match desc {
        None => Err(ParserError::Utf8("description is not valid UTF-8".to_owned())),
        Some(description) => {
            let tx = Transaction {
                tx_id,
                tx_type,
                from_user_id,
                to_user_id,
                amount,
                timestamp,
                status,
                description,
            };
            proof {
                let dbytes = tail.subrange(54, 54 + dl as int);
                encode_utf8_decode_utf8(tx.description@);
                assert(decode_utf8(dbytes) == tx.description@);
                assert(tail.skip(54 + dl as int) =~= input@.skip(pos as int + 54 + dl as int));
                assert(spec_bin_decode(tail) == res_prepend(
                    seq![tx@],
                    spec_bin_decode(input@.skip(pos as int + 54 + dl as int)),
                ));
            }
            Ok((tx, pos + 54 + dl))
        },
    }
}

/// Decodes binary-framed records until the input is exhausted.
///
/// The result matches [`spec_bin_decode`] on the input bytes; in particular a
/// stream whose first four bytes are not the magic marker is rejected with a
/// format error that names the magic.
pub fn from_read(input: &Vec<u8>) -> (r: Result<Vec<Transaction>, ParserError>)
    ensures
        bin_decode_matches(input@, r),
        input@.len() >= 4 && input@.subrange(0, 4) != spec_magic() ==> (r matches Err(
            ParserError::Format(m),
        ) && m@ == "Invalid MAGIC header"@),
{
    let mut acc: Vec<Transaction> = Vec::new();
    let mut pos: usize = 0;
    proof {
        assert(input@.skip(0) =~= input@);
        assert(acc.deep_view() =~= Seq::<TxView>::empty());
        if spec_bin_decode(input@) is Ok {
            assert(Seq::<TxView>::empty() + spec_bin_decode(input@)->Ok_0 =~= spec_bin_decode(
                input@,
            )->Ok_0);
        }
    }
    while pos < input.len()
        invariant
            pos <= input@.len(),
            spec_bin_decode(input@) == res_prepend(
                acc.deep_view(),
                spec_bin_decode(input@.skip(pos as int)),
            ),
            pos != 0 ==> input@.len() >= 4 && input@.subrange(0, 4) == spec_magic(),
        decreases input@.len() - pos,
    {
        let step = decode_record(input, pos);
        match step {
            Err(e) => {
                proof {
                    if pos == 0 {
                        assert(input@.skip(0) =~= input@);
                        assert(input@.subrange(0, 4) =~= input@.subrange(0 as int, 0 as int + 4));
                    }
                }
                return Err(e);
            },
            Ok((tx, np)) => {
                proof {
                    if pos == 0 {
                        assert(input@.subrange(0, 4) =~= input@.subrange(0 as int, 0 as int + 4));
                    }
                }
                let ghost acc0 = acc;
                acc.push(tx);
                proof {
                    lemma_deep_view_push_tx(acc0, acc, tx);
                    let next = spec_bin_decode(input@.skip(np as int));
                    if next is Ok {
                        assert(acc0.deep_view() + (seq![tx@] + next->Ok_0) =~= acc.deep_view()
                            + next->Ok_0);
                    }
                }
                pos = np;
            },
        }
    }
    proof {
        assert(input@.skip(pos as int) =~= Seq::<u8>::empty());
        assert(acc.deep_view() + Seq::<TxView>::empty() =~= acc.deep_view());
    }
    Ok(acc)
}

/// Encodes the records in order, one frame per record.
///
/// Succeeds exactly when every description's UTF-8 form fits the 32-bit
/// body-length field, and then returns exactly [`spec_bin_encode`] of the
/// records.
#[verifier::rlimit(100)]
pub fn write_to(transactions: &Vec<Transaction>) -> (r: Result<Vec<u8>, ParserError>)
    ensures
        r is Ok <==> bin_encodable(transactions.deep_view()),
        r matches Ok(out) ==> out@ == spec_bin_encode(transactions.deep_view()),
{
    let ghost s = transactions.deep_view();
    let mut out: Vec<u8> = Vec::new();
    let mut i: usize = 0;
    proof {
        assert(s.take(0) =~= Seq::<TxView>::empty());
    }
    while i < transactions.len()
        invariant
            i <= transactions@.len(),
            s == transactions.deep_view(),
            forall|j: int| 0 <= j < i ==> bin_encodable_tx(#[trigger] s[j]),
            out@ == spec_bin_encode(s.take(i as int)),
        decreases transactions@.len() - i,
    {
        let tx = &transactions[i];
        proof {
            assert(tx@ == s[i as int]);
        }
        let desc_b = tx.description.as_str().as_bytes_vec();
        if desc_b.len() > (u32::MAX - 46) as usize {
            proof {
                assert(!bin_encodable_tx(s[i as int]));
            }
            return Err(ParserError::Format("description too long for the length field".to_owned()));
        }
        let ghost out0 = out@;
        out.push(89);
        out.push(80);
        out.push(66);
        out.push(78);
        push_u32_be(&mut out, 46 + desc_b.len() as u32);
        push_u64_be(&mut out, tx.tx_id);
        out.push(type_byte_of(&tx.tx_type));
        push_u64_be(&mut out, tx.from_user_id);
        push_u64_be(&mut out, tx.to_user_id);
        push_u64_be(&mut out, tx.amount as u64);
        push_u64_be(&mut out, tx.timestamp);
        out.push(status_byte_of(&tx.status));
        push_u32_be(&mut out, desc_b.len() as u32);
        let mut db = desc_b;
        out.append(&mut db);
        proof {
            reveal(spec_bin_encode_tx);
            assert(out@ =~= out0 + spec_bin_encode_tx(s[i as int]));
            lemma_bin_encode_snoc(s.take(i as int), s[i as int]);
            assert(s.take(i as int).push(s[i as int]) =~= s.take(i + 1));
        }
        i = i + 1;
    }
    proof {
        assert(s.take(s.len() as int) =~= s);
    }
    Ok(out)
}

} // verus!
