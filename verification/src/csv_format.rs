//! The CSV format: a fixed header line, then one comma-separated line per
//! record, the description quoted.  Splitting honors quotes: inside a quoted
//! run a comma is a literal character, not a separator.

use vstd::prelude::*;
use crate::{
    Transaction, TxView, type_label, status_label, spec_type_of, spec_status_of, type_label_vec,
    status_label_vec, type_of_chars, status_of_chars, key_tx_id, key_tx_type, key_from_user_id,
    key_to_user_id, key_amount, key_timestamp, key_status, key_description, key_tx_id_vec,
    key_tx_type_vec, key_from_user_id_vec, key_to_user_id_vec, key_amount_vec, key_timestamp_vec,
    key_status_vec, key_description_vec, plain_char, lemma_type_label_plain,
    lemma_status_label_plain, lemma_keys_plain, lemma_type_label_of, lemma_status_label_of,
};
use crate::error::{ParserError, ErrKind, err_kind};
use crate::chars::{
    spec_trim, spec_lines, trim, lines_of, chars_of, string_of_chars, push_chars,
    lemma_trim_id, lemma_trim_first, lemma_split_lines_concat, lemma_deep_chars,
    lemma_deep_view_push, strip_cr, spec_split_lines, is_ws,
};
use crate::num::{
    spec_u64_chars, spec_i64_chars, spec_parse_u64, spec_parse_i64, parse_u64_chars,
    parse_i64_chars, push_u64_chars, push_i64_chars, lemma_u64_chars, lemma_i64_chars_shape,
    lemma_parse_u64_chars, lemma_parse_i64_chars, is_digit,
};
use crate::bin_format::lemma_deep_view_push_tx;

verus! {

/// One step of quote-aware splitting: `cur` is the field being read, `acc`
/// the fields already read, `inq` whether an odd number of quotes was seen.
pub open spec fn csv_split_rec(
    line: Seq<char>,
    i: int,
    inq: bool,
    cur: Seq<char>,
    acc: Seq<Seq<char>>,
) -> Seq<Seq<char>>
    decreases line.len() - i,
{
    if i < 0 || i >= line.len() {
        acc.push(cur)
    } else {
        let ch = line[i];
        if !inq && ch == ',' {
            csv_split_rec(line, i + 1, inq, Seq::empty(), acc.push(cur))
        } else if ch == '"' {
            csv_split_rec(line, i + 1, !inq, cur.push(ch), acc)
        } else {
            csv_split_rec(line, i + 1, inq, cur.push(ch), acc)
        }
    }
}

/// The fields of a CSV line: split on commas that stand outside quotes; the
/// quote characters stay in the field text.
pub open spec fn spec_csv_split(line: Seq<char>) -> Seq<Seq<char>> {
    csv_split_rec(line, 0, false, Seq::empty(), Seq::empty())
}

/// One layer of surrounding double quotes removed, if present.
pub open spec fn strip_quotes(s: Seq<char>) -> Seq<char> {
    if s.len() >= 2 && s[0] == '"' && s[s.len() - 1] == '"' {
        s.subrange(1, s.len() - 1)
    } else {
        s
    }
}

/// The record denoted by one CSV data line, or why it is malformed: fewer
/// than eight fields or an unknown label are format errors, a bad number is
/// a parse error.  The first seven fields are trimmed; the eighth is the
/// description with one layer of quotes stripped.
pub open spec fn spec_csv_row(l: Seq<char>) -> Result<TxView, ErrKind> {
    let fs = spec_csv_split(l);
    if fs.len() < 8 {
        Err(ErrKind::Format)
    } else {
        let f0 = spec_trim(fs[0]);
        let f1 = spec_trim(fs[1]);
        let f2 = spec_trim(fs[2]);
        let f3 = spec_trim(fs[3]);
        let f4 = spec_trim(fs[4]);
        let f5 = spec_trim(fs[5]);
        let f6 = spec_trim(fs[6]);
        if spec_parse_u64(f0) is None {
            Err(ErrKind::Parse)
        } else if spec_type_of(f1) is None {
            Err(ErrKind::Format)
        } else if spec_parse_u64(f2) is None {
            Err(ErrKind::Parse)
        } else if spec_parse_u64(f3) is None {
            Err(ErrKind::Parse)
        } else if spec_parse_i64(f4) is None {
            Err(ErrKind::Parse)
        } else if spec_parse_u64(f5) is None {
            Err(ErrKind::Parse)
        } else if spec_status_of(f6) is None {
            Err(ErrKind::Format)
        } else {
            match (
                spec_parse_u64(f0),
                spec_type_of(f1),
                spec_parse_u64(f2),
                spec_parse_u64(f3),
                spec_parse_i64(f4),
                spec_parse_u64(f5),
                spec_status_of(f6),
            ) {
                (Some(id), Some(ty), Some(fr), Some(to), Some(am), Some(ts), Some(st)) => Ok(
                    TxView {
                        tx_id: id,
                        tx_type: ty,
                        from_user_id: fr,
                        to_user_id: to,
                        amount: am,
                        timestamp: ts,
                        status: st,
                        description: strip_quotes(fs[7]),
                    },
                ),
                _ => Err(ErrKind::Format),
            }
        }
    }
}

/// The records denoted by the data lines from index `i` on, blank lines
/// skipped, already-decoded records in `acc`.
pub open spec fn csv_rows(ls: Seq<Seq<char>>, i: int, acc: Seq<TxView>) -> Result<
    Seq<TxView>,
    ErrKind,
>
    decreases ls.len() - i,
{
    if i < 0 || i >= ls.len() {
        Ok(acc)
    } else if spec_trim(ls[i]).len() == 0 {
        csv_rows(ls, i + 1, acc)
    } else {
        match spec_csv_row(ls[i]) {
            Ok(t) => csv_rows(ls, i + 1, acc.push(t)),
            Err(e) => Err(e),
        }
    }
}

/// The records denoted by a CSV document: the first line is skipped
/// unconditionally as the header, blank lines are skipped, every other line
/// is one record.
pub open spec fn spec_csv_decode(s: Seq<char>) -> Result<Seq<TxView>, ErrKind> {
    csv_rows(spec_lines(s), 1, Seq::empty())
}

/// The fixed CSV header line.
pub open spec fn csv_header() -> Seq<char> {
    key_tx_id() + seq![','] + key_tx_type() + seq![','] + key_from_user_id() + seq![',']
        + key_to_user_id() + seq![','] + key_amount() + seq![','] + key_timestamp() + seq![',']
        + key_status() + seq![','] + key_description()
}

/// One record's CSV line, without the line break: seven plain fields, then
/// the description in double quotes.
#[verifier::opaque]
pub open spec fn spec_csv_row_chars(t: TxView) -> Seq<char> {
    spec_u64_chars(t.tx_id as nat) + seq![','] + type_label(t.tx_type) + seq![','] + spec_u64_chars(
        t.from_user_id as nat,
    ) + seq![','] + spec_u64_chars(t.to_user_id as nat) + seq![','] + spec_i64_chars(t.amount as int)
        + seq![','] + spec_u64_chars(t.timestamp as nat) + seq![','] + status_label(t.status) + seq![',']
        + seq!['"'] + t.description + seq!['"']
}

/// The data lines of a CSV document, one per record, each ending in a line
/// break.
pub open spec fn spec_csv_encode_rows(s: Seq<TxView>) -> Seq<char>
    decreases s.len(),
{
    if s.len() == 0 {
        Seq::empty()
    } else {
        spec_csv_row_chars(s[0]) + seq!['\n'] + spec_csv_encode_rows(s.drop_first())
    }
}

/// The CSV document encoding a sequence of records.
pub open spec fn spec_csv_encode(s: Seq<TxView>) -> Seq<char> {
    csv_header() + seq!['\n'] + spec_csv_encode_rows(s)
}

/// A description that survives the CSV round trip: quote characters would be
/// consumed by the quote-aware splitter, and line breaks would break the
/// line-oriented format.
pub open spec fn csv_desc_ok(d: Seq<char>) -> bool {
    forall|i: int| 0 <= i < d.len() ==> #[trigger] d[i] != '"' && d[i] != '\n' && d[i] != '\r'
}

/// Every description of the sequence survives the CSV round trip.
pub open spec fn csv_clean(s: Seq<TxView>) -> bool {
    forall|i: int| 0 <= i < s.len() ==> csv_desc_ok(#[trigger] s[i].description)
}

/// How an executable CSV decode result must relate to the specified one.
pub open spec fn csv_decode_matches(s: Seq<char>, r: Result<Vec<Transaction>, ParserError>) -> bool {
    match (spec_csv_decode(s), r) {
        (Ok(txs), Ok(v)) => v.deep_view() == txs,
        (Err(k), Err(e)) => err_kind(e) == k,
        _ => false,
    }
}

/// Splitting walks over a run without quotes, and without commas when
/// outside quotes, by accumulating it into the current field.
proof fn lemma_csv_seg(line: Seq<char>, i: int, j: int, inq: bool, cur: Seq<char>, acc: Seq<Seq<char>>)
    requires
        0 <= i <= j <= line.len(),
        forall|k: int| i <= k < j ==> line[k] != '"',
        !inq ==> forall|k: int| i <= k < j ==> line[k] != ',',
    ensures
        csv_split_rec(line, i, inq, cur, acc) == csv_split_rec(
            line,
            j,
            inq,
            cur + line.subrange(i, j),
            acc,
        ),
    decreases j - i,
{
    if i == j {
        assert(cur + line.subrange(i, j) =~= cur);
    } else {
        lemma_csv_seg(line, i + 1, j, inq, cur.push(line[i]), acc);
        assert(cur.push(line[i]) + line.subrange(i + 1, j) =~= cur + line.subrange(i, j));
    }
}

/// The quote-aware split of one encoded row yields exactly its eight fields.
#[verifier::rlimit(100)]
proof fn lemma_csv_split_row(t: TxView)
    requires
        csv_desc_ok(t.description),
    ensures
        spec_csv_split(spec_csv_row_chars(t)) == seq![
            spec_u64_chars(t.tx_id as nat),
            type_label(t.tx_type),
            spec_u64_chars(t.from_user_id as nat),
            spec_u64_chars(t.to_user_id as nat),
            spec_i64_chars(t.amount as int),
            spec_u64_chars(t.timestamp as nat),
            status_label(t.status),
            seq!['"'] + t.description + seq!['"'],
        ],
{
    reveal(spec_csv_row_chars);
    let l = spec_csv_row_chars(t);
    let f0 = spec_u64_chars(t.tx_id as nat);
    let f1 = type_label(t.tx_type);
    let f2 = spec_u64_chars(t.from_user_id as nat);
    let f3 = spec_u64_chars(t.to_user_id as nat);
    let f4 = spec_i64_chars(t.amount as int);
    let f5 = spec_u64_chars(t.timestamp as nat);
    let f6 = status_label(t.status);
    let d = t.description;
    lemma_u64_chars(t.tx_id as nat);
    lemma_u64_chars(t.from_user_id as nat);
    lemma_u64_chars(t.to_user_id as nat);
    lemma_u64_chars(t.timestamp as nat);
    lemma_i64_chars_shape(t.amount as int);
    lemma_type_label_plain(t.tx_type);
    lemma_status_label_plain(t.status);
    let o0: int = 0;
    let o1 = o0 + f0.len();
    let o2 = o1 + 1 + f1.len();
    let o3 = o2 + 1 + f2.len();
    let o4 = o3 + 1 + f3.len();
    let o5 = o4 + 1 + f4.len();
    let o6 = o5 + 1 + f5.len();
    let o7 = o6 + 1 + f6.len();
    let oq = o7 + 1;
    let od = oq + 1;
    let oe = od + d.len();
    assert(l.len() == oe + 1);
    assert(forall|k: int| o0 <= k < o1 ==> l[k] == f0[k - o0]);
    assert(forall|k: int| o1 + 1 <= k < o2 ==> l[k] == f1[k - o1 - 1]);
    assert(forall|k: int| o2 + 1 <= k < o3 ==> l[k] == f2[k - o2 - 1]);
    assert(forall|k: int| o3 + 1 <= k < o4 ==> l[k] == f3[k - o3 - 1]);
    assert(forall|k: int| o4 + 1 <= k < o5 ==> l[k] == f4[k - o4 - 1]);
    assert(forall|k: int| o5 + 1 <= k < o6 ==> l[k] == f5[k - o5 - 1]);
    assert(forall|k: int| o6 + 1 <= k < o7 ==> l[k] == f6[k - o6 - 1]);
    assert(forall|k: int| od <= k < oe ==> l[k] == d[k - od]);
    assert(l[o1] == ',' && l[o2] == ',' && l[o3] == ',' && l[o4] == ',' && l[o5] == ',' && l[o6]
        == ',' && l[o7] == ',');
    assert(l[oq] == '"' && l[oe] == '"');
    assert(forall|k: int| o0 <= k < o1 ==> l[k] != '"' && l[k] != ',') by {
        assert(forall|k: int| o0 <= k < o1 ==> is_digit(#[trigger] l[k]));
    }
    lemma_csv_seg(l, o0, o1, false, Seq::empty(), Seq::empty());
    assert(Seq::empty() + l.subrange(o0, o1) =~= f0);
    let a1 = seq![f0];
    assert(csv_split_rec(l, o1, false, f0, Seq::empty()) == csv_split_rec(
        l,
        o1 + 1,
        false,
        Seq::empty(),
        a1,
    ));
    assert(forall|k: int| o1 + 1 <= k < o2 ==> l[k] != '"' && l[k] != ',') by {
        assert(forall|k: int| o1 + 1 <= k < o2 ==> plain_char(#[trigger] l[k]));
        assert(forall|c: char| plain_char(c) ==> c != '"' && c != ',') by {
            assert(forall|c: char| plain_char(c) ==> ('"' as u32 != c as u32 && ',' as u32 != c
                as u32));
        }
    }
    lemma_csv_seg(l, o1 + 1, o2, false, Seq::empty(), a1);
    assert(Seq::empty() + l.subrange(o1 + 1, o2) =~= f1);
    let a2 = a1.push(f1);
    assert(csv_split_rec(l, o2, false, f1, a1) == csv_split_rec(l, o2 + 1, false, Seq::empty(), a2));
    assert(forall|k: int| o2 + 1 <= k < o3 ==> l[k] != '"' && l[k] != ',') by {
        assert(forall|k: int| o2 + 1 <= k < o3 ==> is_digit(#[trigger] l[k]));
    }
    lemma_csv_seg(l, o2 + 1, o3, false, Seq::empty(), a2);
    assert(Seq::empty() + l.subrange(o2 + 1, o3) =~= f2);
    let a3 = a2.push(f2);
    assert(csv_split_rec(l, o3, false, f2, a2) == csv_split_rec(l, o3 + 1, false, Seq::empty(), a3));
    assert(forall|k: int| o3 + 1 <= k < o4 ==> l[k] != '"' && l[k] != ',') by {
        assert(forall|k: int| o3 + 1 <= k < o4 ==> is_digit(#[trigger] l[k]));
    }
    lemma_csv_seg(l, o3 + 1, o4, false, Seq::empty(), a3);
    assert(Seq::empty() + l.subrange(o3 + 1, o4) =~= f3);
    let a4 = a3.push(f3);
    assert(csv_split_rec(l, o4, false, f3, a3) == csv_split_rec(l, o4 + 1, false, Seq::empty(), a4));
    assert(forall|k: int| o4 + 1 <= k < o5 ==> l[k] != '"' && l[k] != ',') by {
        assert(forall|k: int| o4 + 1 <= k < o5 ==> (is_digit(#[trigger] l[k]) || l[k] == '-'));
    }
    lemma_csv_seg(l, o4 + 1, o5, false, Seq::empty(), a4);
    assert(Seq::empty() + l.subrange(o4 + 1, o5) =~= f4);
    let a5 = a4.push(f4);
    assert(csv_split_rec(l, o5, false, f4, a4) == csv_split_rec(l, o5 + 1, false, Seq::empty(), a5));
    assert(forall|k: int| o5 + 1 <= k < o6 ==> l[k] != '"' && l[k] != ',') by {
        assert(forall|k: int| o5 + 1 <= k < o6 ==> is_digit(#[trigger] l[k]));
    }
    lemma_csv_seg(l, o5 + 1, o6, false, Seq::empty(), a5);
    assert(Seq::empty() + l.subrange(o5 + 1, o6) =~= f5);
    let a6 = a5.push(f5);
    assert(csv_split_rec(l, o6, false, f5, a5) == csv_split_rec(l, o6 + 1, false, Seq::empty(), a6));
    assert(forall|k: int| o6 + 1 <= k < o7 ==> l[k] != '"' && l[k] != ',') by {
        assert(forall|k: int| o6 + 1 <= k < o7 ==> plain_char(#[trigger] l[k]));
        assert(forall|c: char| plain_char(c) ==> c != '"' && c != ',') by {
            assert(forall|c: char| plain_char(c) ==> ('"' as u32 != c as u32 && ',' as u32 != c
                as u32));
        }
    }
    lemma_csv_seg(l, o6 + 1, o7, false, Seq::empty(), a6);
    assert(Seq::empty() + l.subrange(o6 + 1, o7) =~= f6);
    let a7 = a6.push(f6);
    assert(csv_split_rec(l, o7, false, f6, a6) == csv_split_rec(l, o7 + 1, false, Seq::empty(), a7));
    // the opening quote of the description
    assert(csv_split_rec(l, oq, false, Seq::empty(), a7) == csv_split_rec(
        l,
        od,
        true,
        Seq::empty().push('"'),
        a7,
    ));
    assert(forall|k: int| od <= k < oe ==> l[k] != '"');
    lemma_csv_seg(l, od, oe, true, Seq::empty().push('"'), a7);
    assert(Seq::empty().push('"') + l.subrange(od, oe) =~= seq!['"'] + d);
    // the closing quote
    assert(csv_split_rec(l, oe, true, seq!['"'] + d, a7) == csv_split_rec(
        l,
        oe + 1,
        false,
        (seq!['"'] + d).push('"'),
        a7,
    ));
    assert(csv_split_rec(l, oe + 1, false, (seq!['"'] + d).push('"'), a7) == a7.push(
        (seq!['"'] + d).push('"'),
    ));
    assert((seq!['"'] + d).push('"') =~= seq!['"'] + d + seq!['"']);
    assert(a7.push(seq!['"'] + d + seq!['"']) =~= seq![
        f0,
        f1,
        f2,
        f3,
        f4,
        f5,
        f6,
        seq!['"'] + d + seq!['"'],
    ]);
}

/// Parsing one encoded row yields the record back.
#[verifier::rlimit(100)]
proof fn lemma_csv_row_roundtrip(t: TxView)
    requires
        csv_desc_ok(t.description),
    ensures
        spec_csv_row(spec_csv_row_chars(t)) == Ok::<TxView, ErrKind>(t),
{
    lemma_csv_split_row(t);
    let fs = spec_csv_split(spec_csv_row_chars(t));
    let f0 = spec_u64_chars(t.tx_id as nat);
    let f1 = type_label(t.tx_type);
    let f2 = spec_u64_chars(t.from_user_id as nat);
    let f3 = spec_u64_chars(t.to_user_id as nat);
    let f4 = spec_i64_chars(t.amount as int);
    let f5 = spec_u64_chars(t.timestamp as nat);
    let f6 = status_label(t.status);
    let f7 = seq!['"'] + t.description + seq!['"'];
    assert(fs.len() == 8);
    assert(fs[0] == f0 && fs[1] == f1 && fs[2] == f2 && fs[3] == f3 && fs[4] == f4 && fs[5] == f5
        && fs[6] == f6 && fs[7] == f7);
    lemma_u64_chars(t.tx_id as nat);
    lemma_u64_chars(t.from_user_id as nat);
    lemma_u64_chars(t.to_user_id as nat);
    lemma_u64_chars(t.timestamp as nat);
    lemma_i64_chars_shape(t.amount as int);
    lemma_type_label_plain(t.tx_type);
    lemma_status_label_plain(t.status);
    assert(forall|c: char| is_digit(c) ==> !is_ws(c)) by {
        assert(forall|c: char|
            is_digit(c) ==> (c as u32 != ' ' as u32 && c as u32 != '\t' as u32 && c as u32 != '\r'
                as u32 && c as u32 != '\n' as u32));
    }
    assert(!is_ws(f4[0]) && !is_ws(f4[f4.len() - 1])) by {
        assert(('-' as u32) == 45);
    }
    lemma_trim_id(f0);
    lemma_trim_id(f1);
    lemma_trim_id(f2);
    lemma_trim_id(f3);
    lemma_trim_id(f4);
    lemma_trim_id(f5);
    lemma_trim_id(f6);
    lemma_parse_u64_chars(t.tx_id);
    lemma_parse_u64_chars(t.from_user_id);
    lemma_parse_u64_chars(t.to_user_id);
    lemma_parse_u64_chars(t.timestamp);
    lemma_parse_i64_chars(t.amount);
    lemma_type_label_of(t.tx_type);
    lemma_status_label_of(t.status);
    assert(strip_quotes(f7) =~= t.description) by {
        assert(f7.len() == t.description.len() + 2);
        assert(f7[0] == '"');
        assert(f7[f7.len() - 1] == '"');
        assert(f7.subrange(1, f7.len() - 1) =~= t.description);
    }
}

/// Skipping the header line shifts the row index by one.
proof fn lemma_csv_rows_shift(h: Seq<char>, ls: Seq<Seq<char>>, i: int, acc: Seq<TxView>)
    requires
        0 <= i,
    ensures
        csv_rows(seq![h] + ls, i + 1, acc) == csv_rows(ls, i, acc),
    decreases ls.len() - i,
{
    let full = seq![h] + ls;
    if i >= ls.len() {
    } else {
        assert(full[i + 1] == ls[i]);
        if spec_trim(ls[i]).len() == 0 {
            lemma_csv_rows_shift(h, ls, i + 1, acc);
        } else {
            match spec_csv_row(ls[i]) {
                Ok(t) => {
                    lemma_csv_rows_shift(h, ls, i + 1, acc.push(t));
                },
                Err(_) => {
                },
            }
        }
    }
}

/// One encoded row is a single line without line breaks.
proof fn lemma_csv_row_chars_line(t: TxView)
    requires
        csv_desc_ok(t.description),
    ensures
        forall|k: int|
            0 <= k < spec_csv_row_chars(t).len() ==> #[trigger] spec_csv_row_chars(t)[k] != '\n'
                && spec_csv_row_chars(t)[k] != '\r',
        spec_csv_row_chars(t).len() > 0,
        spec_csv_row_chars(t)[0] != '\n',
        !is_ws(spec_csv_row_chars(t)[0]),
{
    reveal(spec_csv_row_chars);
    let l = spec_csv_row_chars(t);
    lemma_u64_chars(t.tx_id as nat);
    lemma_u64_chars(t.from_user_id as nat);
    lemma_u64_chars(t.to_user_id as nat);
    lemma_u64_chars(t.timestamp as nat);
    lemma_i64_chars_shape(t.amount as int);
    lemma_type_label_plain(t.tx_type);
    lemma_status_label_plain(t.status);
    assert(l[0] == spec_u64_chars(t.tx_id as nat)[0]);
    assert(forall|k: int| 0 <= k < l.len() ==> #[trigger] l[k] != '\n' && l[k] != '\r') by {
        assert(forall|c: char|
            (is_digit(c) || plain_char(c) || c == ',' || c == '"') ==> (c != '\n' && c != '\r'))
            by {
            assert(('\n' as u32) == 10 && ('\r' as u32) == 13 && (',' as u32) == 44 && ('"' as u32)
                == 34);
        }
    }
}

/// Decoding the encoded data lines appends exactly the encoded records.
#[verifier::rlimit(100)]
proof fn lemma_csv_rows_roundtrip(s: Seq<TxView>, acc: Seq<TxView>)
    requires
        csv_clean(s),
    ensures
        csv_rows(spec_lines(spec_csv_encode_rows(s)), 0, acc) == Ok::<Seq<TxView>, ErrKind>(
            acc + s,
        ),
    decreases s.len(),
{
    if s.len() == 0 {
        assert(spec_csv_encode_rows(s) == Seq::<char>::empty());
        assert(spec_split_lines(Seq::<char>::empty()) == seq![Seq::<char>::empty()]);
        let ls = spec_lines(Seq::<char>::empty());
        assert(ls =~~= seq![Seq::<char>::empty()]);
        assert(spec_trim(ls[0]).len() == 0);
        assert(csv_rows(ls, 0, acc) == csv_rows(ls, 1, acc));
        assert(acc + s =~= acc);
    } else {
        let t = s[0];
        let rest = s.drop_first();
        assert(csv_desc_ok(t.description));
        assert(csv_clean(rest)) by {
            assert(forall|i: int| 0 <= i < rest.len() ==> rest[i] == s[i + 1]);
        }
        let row = spec_csv_row_chars(t);
        let tail_chars = spec_csv_encode_rows(rest);
        lemma_csv_row_chars_line(t);
        lemma_split_lines_concat(row, tail_chars);
        let ls = spec_lines(spec_csv_encode_rows(s));
        assert(spec_csv_encode_rows(s) == row + seq!['\n'] + tail_chars);
        assert(ls =~= seq![row] + spec_lines(tail_chars)) by {
            assert(strip_cr(row) == row);
            assert(spec_split_lines(row + seq!['\n'] + tail_chars) == seq![row] + spec_split_lines(
                tail_chars,
            ));
        }
        assert(ls[0] == row);
        lemma_trim_first(row);
        assert(spec_trim(row).len() != 0);
        lemma_csv_row_roundtrip(t);
        assert(csv_rows(ls, 0, acc) == csv_rows(ls, 1, acc.push(t)));
        lemma_csv_rows_shift(row, spec_lines(tail_chars), 0, acc.push(t));
        lemma_csv_rows_roundtrip(rest, acc.push(t));
        assert(acc.push(t) + rest =~= acc + s);
    }
}

/// The CSV header contains no line break and is made of plain characters
/// and commas.
proof fn lemma_csv_header_line()
    ensures
        forall|k: int| 0 <= k < csv_header().len() ==> #[trigger] csv_header()[k] != '\n',
        forall|k: int| 0 <= k < csv_header().len() ==> #[trigger] csv_header()[k] != '\r',
{
    lemma_keys_plain();
    let h = csv_header();
    assert(forall|k: int| 0 <= k < h.len() ==> (plain_char(#[trigger] h[k]) || h[k] == ','));
    assert(forall|c: char| (plain_char(c) || c == ',') ==> (c != '\n' && c != '\r')) by {
        assert(('\n' as u32) == 10 && ('\r' as u32) == 13 && (',' as u32) == 44);
    }
}

/// A data line whose quote-aware split yields fewer than eight fields is
/// rejected with a format error.
pub proof fn lemma_csv_row_too_few_fields(l: Seq<char>)
    requires
        spec_csv_split(l).len() < 8,
    ensures
        spec_csv_row(l) == Err::<TxView, ErrKind>(ErrKind::Format),
{
}

/// Round trip of the CSV codec: decoding an encoded sequence yields the
/// sequence back, provided no description holds a quote or a line break.
pub proof fn lemma_csv_round_trip(s: Seq<TxView>)
    requires
        csv_clean(s),
    ensures
        spec_csv_decode(spec_csv_encode(s)) == Ok::<Seq<TxView>, ErrKind>(s),
{
    let h = csv_header();
    let rows_chars = spec_csv_encode_rows(s);
    lemma_csv_header_line();
    lemma_split_lines_concat(h, rows_chars);
    let ls = spec_lines(spec_csv_encode(s));
    assert(ls =~= seq![h] + spec_lines(rows_chars)) by {
        assert(strip_cr(h) == h);
    }
    lemma_csv_rows_shift(h, spec_lines(rows_chars), 0, Seq::empty());
    lemma_csv_rows_roundtrip(s, Seq::empty());
    assert(Seq::<TxView>::empty() + s =~= s);
}

/// Splits one CSV line into fields, honoring quotes: inside a quoted run a
/// comma is a literal character.  The quote characters stay in the fields.
pub fn parse_csv_line(line: &Vec<char>) -> (r: Vec<Vec<char>>)
    ensures
        r.deep_view() == spec_csv_split(line@),
{
    let mut fields: Vec<Vec<char>> = Vec::new();
    let mut cur: Vec<char> = Vec::new();
    let mut inq: bool = false;
    let mut i: usize = 0;
    proof {
        assert(fields.deep_view() =~= Seq::<Seq<char>>::empty());
    }
    while i < line.len()
        invariant
            i <= line@.len(),
            spec_csv_split(line@) == csv_split_rec(
                line@,
                i as int,
                inq,
                cur@,
                fields.deep_view(),
            ),
        decreases line@.len() - i,
    {
        let c = line[i];
        if !inq && c == ',' {
            let ghost fields0 = fields;
            let ghost curv = cur;
            fields.push(cur);
            cur = Vec::new();
            proof {
                lemma_deep_view_push(fields0, fields, curv);
            }
        } else if c == '"' {
            inq = !inq;
            cur.push(c);
        } else {
            cur.push(c);
        }
        i = i + 1;
    }
    let ghost fields0 = fields;
    let ghost curv = cur;
    fields.push(cur);
    proof {
        lemma_deep_view_push(fields0, fields, curv);
    }
    fields
}

/// Parses one CSV data line into a record, as [`spec_csv_row`] describes.
#[verifier::rlimit(100)]
fn csv_row(line: &Vec<char>) -> (r: Result<Transaction, ParserError>)
    ensures
        (match (spec_csv_row(line@), r) {
            (Ok(tv), Ok(tx)) => tx@ == tv,
            (Err(k), Err(e)) => err_kind(e) == k,
            _ => false,
        }),
{
    let fields = parse_csv_line(line);
    proof {
        assert(forall|j: int|
            0 <= j < fields@.len() ==> #[trigger] fields.deep_view()[j] == fields@[j]@) by {
            assert(forall|j: int|
                0 <= j < fields@.len() ==> #[trigger] fields@[j].deep_view() == fields@[j]@) by {
                assert(forall|j: int|
                    0 <= j < fields@.len() ==> #[trigger] fields@[j].deep_view() =~= fields@[j]@);
            }
        }
    }
    if fields.len() < 8 {
        let mut m = "not enough fields in CSV line: ".to_owned();
        push_chars(&mut m, line);
        return Err(ParserError::Format(m));
    }
    let f0 = trim(&fields[0]);
    let id = match parse_u64_chars(&f0) {
        Some(v) => v,
        None => {
            return Err(ParserError::Parse("bad transaction id".to_owned()));
        },
    };
    let f1 = trim(&fields[1]);
    let ty = match type_of_chars(&f1) {
        Some(v) => v,
        None => {
            let mut m = "unknown transaction type: ".to_owned();
            push_chars(&mut m, &f1);
            return Err(ParserError::Format(m));
        },
    };
    let f2 = trim(&fields[2]);
    let from_user_id = match parse_u64_chars(&f2) {
        Some(v) => v,
        None => {
            return Err(ParserError::Parse("bad source account".to_owned()));
        },
    };
    let f3 = trim(&fields[3]);
    let to_user_id = match parse_u64_chars(&f3) {
        Some(v) => v,
        None => {
            return Err(ParserError::Parse("bad destination account".to_owned()));
        },
    };
    let f4 = trim(&fields[4]);
    let amount = match parse_i64_chars(&f4) {
        Some(v) => v,
        None => {
            return Err(ParserError::Parse("bad amount".to_owned()));
        },
    };
    let f5 = trim(&fields[5]);
    let timestamp = match parse_u64_chars(&f5) {
        Some(v) => v,
        None => {
            return Err(ParserError::Parse("bad timestamp".to_owned()));
        },
    };
    let f6 = trim(&fields[6]);
    let status = match status_of_chars(&f6) {
        Some(v) => v,
        None => {
            let mut m = "unknown transaction status: ".to_owned();
            push_chars(&mut m, &f6);
            return Err(ParserError::Format(m));
        },
    };
    let f7 = &fields[7];
    let mut desc_chars: Vec<char> = Vec::new();
    let mut a: usize = 0;
    let mut b: usize = f7.len();
    if f7.len() >= 2 && f7[0] == '"' && f7[f7.len() - 1] == '"' {
        a = 1;
        b = f7.len() - 1;
    }
    let mut k: usize = a;
    while k < b
        invariant
            a <= k <= b <= f7@.len(),
            desc_chars@ == f7@.subrange(a as int, k as int),
        decreases b - k,
    {
        desc_chars.push(f7[k]);
        k = k + 1;
        proof {
            assert(desc_chars@ =~= f7@.subrange(a as int, k as int));
        }
    }
    proof {
        assert(desc_chars@ == strip_quotes(fields@[7]@)) by {
            if fields@[7]@.len() >= 2 && fields@[7]@[0] == '"' && fields@[7]@[fields@[7]@.len() - 1]
                == '"' {
            } else {
                assert(f7@.subrange(0, f7@.len() as int) =~= f7@);
            }
        }
    }
    let description = string_of_chars(&desc_chars);
    Ok(
        Transaction {
            tx_id: id,
            tx_type: ty,
            from_user_id,
            to_user_id,
            amount,
            timestamp,
            status,
            description,
        },
    )
}

/// Decodes a CSV document: the first line is skipped as the header, blank
/// lines are skipped, and each remaining line is parsed as one record.
///
/// The result matches [`spec_csv_decode`] on the input characters.
pub fn from_read(input: &str) -> (r: Result<Vec<Transaction>, ParserError>)
    ensures
        csv_decode_matches(input@, r),
{
    let v = chars_of(input);
    let ls = lines_of(&v);
    let ghost lsv = spec_lines(input@);
    let mut acc: Vec<Transaction> = Vec::new();
    let mut i: usize = 1;
    proof {
        assert(acc.deep_view() =~= Seq::<TxView>::empty());
        crate::chars::lemma_split_lines_len(input@);
    }
    while i < ls.len()
        invariant
            1 <= i <= ls@.len(),
            ls.deep_view() == lsv,
            lsv.len() == ls@.len(),
            spec_csv_decode(input@) == csv_rows(lsv, i as int, acc.deep_view()),
        decreases ls@.len() - i,
    {
        let line = &ls[i];
        proof {
            assert(ls.deep_view()[i as int] == ls@[i as int].deep_view());
            lemma_deep_chars(&ls@[i as int]);
            assert(lsv[i as int] == line@);
        }
        let tl = trim(line);
        if tl.len() == 0 {
            proof {
                assert(spec_trim(lsv[i as int]).len() == 0);
            }
        } else {
            let row = csv_row(line);
            match row {
                Ok(tx) => {
                    let ghost acc0 = acc;
                    acc.push(tx);
                    proof {
                        lemma_deep_view_push_tx(acc0, acc, tx);
                    }
                },
                Err(e) => {
                    return Err(e);
                },
            }
        }
        i = i + 1;
    }
    proof {
        assert(csv_rows(lsv, i as int, acc.deep_view()) == Ok::<Seq<TxView>, ErrKind>(
            acc.deep_view(),
        ));
    }
    Ok(acc)
}

/// Appends all characters of `v`.
fn extend_chars(out: &mut Vec<char>, v: Vec<char>)
    ensures
        final(out)@ == old(out)@ + v@,
{
    let mut vv = v;
    out.append(&mut vv);
}

/// Appends the CSV header line and its line break.
fn push_csv_header(out: &mut Vec<char>)
    ensures
        final(out)@ == old(out)@ + csv_header() + seq!['\n'],
{
    extend_chars(out, key_tx_id_vec());
    out.push(',');
    extend_chars(out, key_tx_type_vec());
    out.push(',');
    extend_chars(out, key_from_user_id_vec());
    out.push(',');
    extend_chars(out, key_to_user_id_vec());
    out.push(',');
    extend_chars(out, key_amount_vec());
    out.push(',');
    extend_chars(out, key_timestamp_vec());
    out.push(',');
    extend_chars(out, key_status_vec());
    out.push(',');
    extend_chars(out, key_description_vec());
    out.push('\n');
    proof {
        assert(out@ =~= old(out)@ + csv_header() + seq!['\n']);
    }
}

/// Appends one record's CSV line and its line break.
#[verifier::rlimit(100)]
fn push_csv_row(out: &mut Vec<char>, tx: &Transaction)
    ensures
        final(out)@ == old(out)@ + spec_csv_row_chars(tx@) + seq!['\n'],
{
    push_u64_chars(out, tx.tx_id);
    out.push(',');
    extend_chars(out, type_label_vec(&tx.tx_type));
    out.push(',');
    push_u64_chars(out, tx.from_user_id);
    out.push(',');
    push_u64_chars(out, tx.to_user_id);
    out.push(',');
    push_i64_chars(out, tx.amount);
    out.push(',');
    push_u64_chars(out, tx.timestamp);
    out.push(',');
    extend_chars(out, status_label_vec(&tx.status));
    out.push(',');
    out.push('"');
    extend_chars(out, chars_of(tx.description.as_str()));
    out.push('"');
    out.push('\n');
    proof {
        reveal(spec_csv_row_chars);
        assert(out@ =~= old(out)@ + spec_csv_row_chars(tx@) + seq!['\n']);
    }
}

/// Appending one encoded row extends the encoded data lines.
proof fn lemma_csv_rows_snoc(s: Seq<TxView>, t: TxView)
    ensures
        spec_csv_encode_rows(s.push(t)) == spec_csv_encode_rows(s) + spec_csv_row_chars(t) + seq![
            '\n',
        ],
    decreases s.len(),
{
    if s.len() == 0 {
        assert(s.push(t)[0] == t);
        assert(s.push(t).drop_first() =~= Seq::<TxView>::empty());
        assert(spec_csv_encode_rows(s.push(t)) == spec_csv_row_chars(t) + seq!['\n']
            + spec_csv_encode_rows(Seq::<TxView>::empty()));
        assert(spec_csv_row_chars(t) + seq!['\n'] + Seq::<char>::empty() =~= Seq::<char>::empty()
            + spec_csv_row_chars(t) + seq!['\n']);
    } else {
        assert(s.push(t)[0] == s[0]);
        assert(s.push(t).drop_first() =~= s.drop_first().push(t));
        assert(spec_csv_encode_rows(s.push(t)) == spec_csv_row_chars(s[0]) + seq!['\n']
            + spec_csv_encode_rows(s.drop_first().push(t)));
        lemma_csv_rows_snoc(s.drop_first(), t);
        assert(spec_csv_row_chars(s[0]) + seq!['\n'] + (spec_csv_encode_rows(s.drop_first())
            + spec_csv_row_chars(t) + seq!['\n']) =~= (spec_csv_row_chars(s[0]) + seq!['\n']
            + spec_csv_encode_rows(s.drop_first())) + spec_csv_row_chars(t) + seq!['\n']);
    }
}

/// Encodes the records as a CSV document: the fixed header line, then one
/// line per record in input order, the description quoted.
///
/// Returns exactly [`spec_csv_encode`] of the records.
pub fn write_to(transactions: &Vec<Transaction>) -> (r: String)
    ensures
        r@ == spec_csv_encode(transactions.deep_view()),
{
    let ghost s = transactions.deep_view();
    let mut out: Vec<char> = Vec::new();
    push_csv_header(&mut out);
    let mut i: usize = 0;
    proof {
        assert(s.take(0) =~= Seq::<TxView>::empty());
        assert(out@ =~= csv_header() + seq!['\n'] + spec_csv_encode_rows(s.take(0)));
    }
    while i < transactions.len()
        invariant
            i <= transactions@.len(),
            s == transactions.deep_view(),
            out@ == csv_header() + seq!['\n'] + spec_csv_encode_rows(s.take(i as int)),
        decreases transactions@.len() - i,
    {
        let tx = &transactions[i];
        proof {
            assert(tx@ == s[i as int]);
        }
        push_csv_row(&mut out, tx);
        proof {
            lemma_csv_rows_snoc(s.take(i as int), s[i as int]);
            assert(s.take(i as int).push(s[i as int]) =~= s.take(i + 1));
            assert(out@ =~= csv_header() + seq!['\n'] + spec_csv_encode_rows(s.take(i + 1)));
        }
        i = i + 1;
    }
    proof {
        assert(s.take(s.len() as int) =~= s);
    }
    string_of_chars(&out)
}

} // verus!
