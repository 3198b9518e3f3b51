//! The key/value text format: each record is a blank-line-delimited block of
//! `KEY: value` lines.  `#`-prefixed lines are comments and never contribute
//! to a block; unrecognized keys are ignored; a duplicate key lets the last
//! occurrence win; at block end every one of the eight fields must be set.

use vstd::prelude::*;
use crate::{
    Transaction, TxView, TxType, TxStatus, type_label, status_label, spec_type_of, spec_status_of,
    type_label_vec, status_label_vec, type_of_chars, status_of_chars, key_tx_id, key_tx_type,
    key_from_user_id, key_to_user_id, key_amount, key_timestamp, key_status, key_description,
    key_tx_id_vec, key_tx_type_vec, key_from_user_id_vec, key_to_user_id_vec, key_amount_vec,
    key_timestamp_vec, key_status_vec, key_description_vec, plain_char, lemma_plain_char,
    lemma_type_label_plain, lemma_status_label_plain, lemma_keys_plain, lemma_type_label_of,
    lemma_status_label_of,
};
use crate::error::{ParserError, ErrKind, err_kind};
use crate::chars::{
    spec_trim, spec_lines, trim, lines_of, chars_of, string_of_chars, push_chars, spec_find,
    find_char, sub_chars, copy_chars, chars_eq, lemma_trim_id, lemma_trim_first,
    lemma_trim_start_at, lemma_trim_end_at, lemma_find_concat, lemma_split_lines_concat,
    lemma_deep_chars, lemma_deep_view_push, strip_cr, spec_split_lines, is_ws,
};
use crate::num::{
    spec_u64_chars, spec_i64_chars, spec_parse_u64, spec_parse_i64, parse_u64_chars,
    parse_i64_chars, push_u64_chars, push_i64_chars, lemma_u64_chars, lemma_i64_chars_shape,
    lemma_parse_u64_chars, lemma_parse_i64_chars, is_digit,
};
use crate::bin_format::lemma_deep_view_push_tx;
use crate::csv_format::strip_quotes;

verus! {

/// A record being accumulated from a block's lines: each field starts unset
/// and is set by the line that names it.
pub struct DraftV {
    pub tx_id: Option<u64>,
    pub tx_type: Option<TxType>,
    pub from_user_id: Option<u64>,
    pub to_user_id: Option<u64>,
    pub amount: Option<i64>,
    pub timestamp: Option<u64>,
    pub status: Option<TxStatus>,
    pub description: Option<Seq<char>>,
}

/// The draft with every field unset.
pub open spec fn empty_draft() -> DraftV {
    DraftV {
        tx_id: None,
        tx_type: None,
        from_user_id: None,
        to_user_id: None,
        amount: None,
        timestamp: None,
        status: None,
        description: None,
    }
}

/// The effect of one block line on a draft: the line must hold a colon; the
/// key before the first colon selects the field, an unknown key is ignored,
/// and the value after the colon is parsed for that field.
pub open spec fn spec_block_line(l: Seq<char>, d: DraftV) -> Result<DraftV, ErrKind> {
    let ci = spec_find(l, ':');
    if ci < 0 {
        Err(ErrKind::Format)
    } else {
        let key = spec_trim(l.take(ci));
        let value = spec_trim(l.skip(ci + 1));
        if key == key_tx_id() {
            match spec_parse_u64(value) {
                Some(v) => Ok(DraftV { tx_id: Some(v), ..d }),
                None => Err(ErrKind::Parse),
            }
        } else if key == key_tx_type() {
            match spec_type_of(value) {
                Some(v) => Ok(DraftV { tx_type: Some(v), ..d }),
                None => Err(ErrKind::Format),
            }
        } else if key == key_from_user_id() {
            match spec_parse_u64(value) {
                Some(v) => Ok(DraftV { from_user_id: Some(v), ..d }),
                None => Err(ErrKind::Parse),
            }
        } else if key == key_to_user_id() {
            match spec_parse_u64(value) {
                Some(v) => Ok(DraftV { to_user_id: Some(v), ..d }),
                None => Err(ErrKind::Parse),
            }
        } else if key == key_amount() {
            match spec_parse_i64(value) {
                Some(v) => Ok(DraftV { amount: Some(v), ..d }),
                None => Err(ErrKind::Parse),
            }
        } else if key == key_timestamp() {
            match spec_parse_u64(value) {
                Some(v) => Ok(DraftV { timestamp: Some(v), ..d }),
                None => Err(ErrKind::Parse),
            }
        } else if key == key_status() {
            match spec_status_of(value) {
                Some(v) => Ok(DraftV { status: Some(v), ..d }),
                None => Err(ErrKind::Format),
            }
        } else if key == key_description() {
            Ok(DraftV { description: Some(strip_quotes(value)), ..d })
        } else {
            Ok(d)
        }
    }
}

/// Folds the block's lines from index `i` on into the draft.
pub open spec fn block_fold(block: Seq<Seq<char>>, i: int, d: DraftV) -> Result<DraftV, ErrKind>
    decreases block.len() - i,
{
    if i < 0 || i >= block.len() {
        Ok(d)
    } else {
        match spec_block_line(block[i], d) {
            Ok(d2) => block_fold(block, i + 1, d2),
            Err(e) => Err(e),
        }
    }
}

/// The record denoted by one block of lines: fold the lines, then require
/// every field to have been set.
pub open spec fn spec_parse_block(block: Seq<Seq<char>>) -> Result<TxView, ErrKind> {
    match block_fold(block, 0, empty_draft()) {
        Err(e) => Err(e),
        Ok(d) => match (
            d.tx_id,
            d.tx_type,
            d.from_user_id,
            d.to_user_id,
            d.amount,
            d.timestamp,
            d.status,
            d.description,
        ) {
            (
                Some(id),
                Some(ty),
                Some(fr),
                Some(to),
                Some(am),
                Some(ts),
                Some(st),
                Some(de),
            ) => Ok(
                TxView {
                    tx_id: id,
                    tx_type: ty,
                    from_user_id: fr,
                    to_user_id: to,
                    amount: am,
                    timestamp: ts,
                    status: st,
                    description: de,
                },
            ),
            _ => Err(ErrKind::Format),
        },
    }
}

/// Walks the lines from index `i` on: a blank line closes the pending block,
/// a comment line is dropped, any other line joins the block; end of input
/// closes a pending block.
pub open spec fn text_blocks(
    ls: Seq<Seq<char>>,
    i: int,
    block: Seq<Seq<char>>,
    acc: Seq<TxView>,
) -> Result<Seq<TxView>, ErrKind>
    decreases ls.len() - i,
{
    if i < 0 || i >= ls.len() {
        if block.len() == 0 {
            Ok(acc)
        } else {
            match spec_parse_block(block) {
                Ok(t) => Ok(acc.push(t)),
                Err(e) => Err(e),
            }
        }
    } else {
        let tl = spec_trim(ls[i]);
        if tl.len() == 0 {
            if block.len() == 0 {
                text_blocks(ls, i + 1, block, acc)
            } else {
                match spec_parse_block(block) {
                    Ok(t) => text_blocks(ls, i + 1, Seq::empty(), acc.push(t)),
                    Err(e) => Err(e),
                }
            }
        } else if tl[0] == '#' {
            text_blocks(ls, i + 1, block, acc)
        } else {
            text_blocks(ls, i + 1, block.push(ls[i]), acc)
        }
    }
}

/// The records denoted by a text document.
pub open spec fn spec_text_decode(s: Seq<char>) -> Result<Seq<TxView>, ErrKind> {
    text_blocks(spec_lines(s), 0, Seq::empty(), Seq::empty())
}

/// The separator between a key and its value.
pub open spec fn kv_sep() -> Seq<char> {
    seq![':', ' ']
}

/// The opening of the comment line written before each record.
pub open spec fn comment_head() -> Seq<char> {
    seq!['#', ' ', 'R', 'e', 'c', 'o', 'r', 'd', ' ']
}

/// The description value as written: wrapped in one layer of double quotes.
pub open spec fn quoted(d: Seq<char>) -> Seq<char> {
    seq!['"'] + d + seq!['"']
}

/// The eight `KEY: value` lines of one record's block, in the fixed order.
pub open spec fn tx_block_lines(t: TxView) -> Seq<Seq<char>> {
    seq![
        key_tx_id() + kv_sep() + spec_u64_chars(t.tx_id as nat),
        key_tx_type() + kv_sep() + type_label(t.tx_type),
        key_from_user_id() + kv_sep() + spec_u64_chars(t.from_user_id as nat),
        key_to_user_id() + kv_sep() + spec_u64_chars(t.to_user_id as nat),
        key_amount() + kv_sep() + spec_i64_chars(t.amount as int),
        key_timestamp() + kv_sep() + spec_u64_chars(t.timestamp as nat),
        key_status() + kv_sep() + status_label(t.status),
        key_description() + kv_sep() + quoted(t.description),
    ]
}

/// A line, its line break, and what follows.
pub open spec fn line_nl(l: Seq<char>, rest: Seq<char>) -> Seq<char> {
    l + seq!['\n'] + rest
}

/// One record's text: the numbered comment line, the eight key/value lines,
/// and the blank separator line.
#[verifier::opaque]
pub open spec fn spec_text_tx_chars(t: TxView, n: nat) -> Seq<char> {
    let b = tx_block_lines(t);
    line_nl(
        comment_head() + spec_u64_chars(n),
        line_nl(
            b[0],
            line_nl(
                b[1],
                line_nl(
                    b[2],
                    line_nl(
                        b[3],
                        line_nl(
                            b[4],
                            line_nl(
                                b[5],
                                line_nl(
                                    b[6],
                                    line_nl(b[7], line_nl(Seq::empty(), Seq::empty())),
                                ),
                            ),
                        ),
                    ),
                ),
            ),
        ),
    )
}

/// The text of the records from index `i` on, numbered from `i + 1`.
pub open spec fn spec_text_encode_rec(s: Seq<TxView>, i: int) -> Seq<char>
    decreases s.len() - i,
{
    if i < 0 || i >= s.len() {
        Seq::empty()
    } else {
        spec_text_tx_chars(s[i], (i + 1) as nat) + spec_text_encode_rec(s, i + 1)
    }
}

/// The text document encoding a sequence of records.
pub open spec fn spec_text_encode(s: Seq<TxView>) -> Seq<char> {
    spec_text_encode_rec(s, 0)
}

/// A description that survives the text round trip: line breaks would break
/// the line-oriented format.
pub open spec fn text_desc_ok(d: Seq<char>) -> bool {
    forall|i: int| 0 <= i < d.len() ==> #[trigger] d[i] != '\n' && d[i] != '\r'
}

/// Every description of the sequence survives the text round trip.
pub open spec fn text_clean(s: Seq<TxView>) -> bool {
    forall|i: int| 0 <= i < s.len() ==> text_desc_ok(#[trigger] s[i].description)
}

/// How an executable text decode result must relate to the specified one.
pub open spec fn text_decode_matches(s: Seq<char>, r: Result<Vec<Transaction>, ParserError>) -> bool {
    match (spec_text_decode(s), r) {
        (Ok(txs), Ok(v)) => v.deep_view() == txs,
        (Err(k), Err(e)) => err_kind(e) == k,
        _ => false,
    }
}

/// Splitting a `KEY: value` line at its first colon yields the trimmed key
/// and the trimmed value.
proof fn lemma_kv_split(key: Seq<char>, val: Seq<char>)
    requires
        key.len() > 0,
        forall|k: int| 0 <= k < key.len() ==> plain_char(#[trigger] key[k]),
        val.len() > 0,
        !is_ws(val[0]),
        !is_ws(val[val.len() - 1]),
    ensures
        ({
            let l = key + kv_sep() + val;
            &&& spec_find(l, ':') == key.len()
            &&& spec_trim(l.take(key.len() as int)) == key
            &&& spec_trim(l.skip(key.len() as int + 1)) == val
        }),
{
    let l = key + kv_sep() + val;
    assert(forall|k: int| 0 <= k < key.len() ==> key[k] != ':') by {
        assert(forall|c: char| plain_char(c) ==> c as u32 != 58);
    }
    assert(l =~= key + seq![':'] + (seq![' '] + val));
    lemma_find_concat(key, seq![' '] + val, ':');
    assert(l.take(key.len() as int) =~= key);
    assert(!is_ws(key[0]) && !is_ws(key[key.len() - 1])) by {
        lemma_plain_char(key[0]);
        lemma_plain_char(key[key.len() - 1]);
    }
    lemma_trim_id(key);
    let rest = l.skip(key.len() as int + 1);
    assert(rest =~= seq![' '] + val);
    assert(rest[0] == ' ');
    assert(is_ws(' '));
    assert(rest[1] == val[0]);
    lemma_trim_start_at(rest, 1);
    assert(rest.skip(1) =~= val);
    lemma_trim_end_at(val, val.len() as int);
    assert(val.take(val.len() as int) =~= val);
}

/// Folding one record's block of lines yields the record back.
#[verifier::rlimit(100)]
proof fn lemma_parse_block_roundtrip(t: TxView)
    requires
        text_desc_ok(t.description),
    ensures
        spec_parse_block(tx_block_lines(t)) == Ok::<TxView, ErrKind>(t),
{
    let b = tx_block_lines(t);
    lemma_keys_plain();
    lemma_u64_chars(t.tx_id as nat);
    lemma_u64_chars(t.from_user_id as nat);
    lemma_u64_chars(t.to_user_id as nat);
    lemma_u64_chars(t.timestamp as nat);
    lemma_i64_chars_shape(t.amount as int);
    lemma_type_label_plain(t.tx_type);
    lemma_status_label_plain(t.status);
    lemma_parse_u64_chars(t.tx_id);
    lemma_parse_u64_chars(t.from_user_id);
    lemma_parse_u64_chars(t.to_user_id);
    lemma_parse_u64_chars(t.timestamp);
    lemma_parse_i64_chars(t.amount);
    lemma_type_label_of(t.tx_type);
    lemma_status_label_of(t.status);
    assert(forall|c: char| is_digit(c) ==> !is_ws(c)) by {
        assert(forall|c: char|
            is_digit(c) ==> (c as u32 != 32 && c as u32 != 9 && c as u32 != 13 && c as u32 != 10));
    }
    assert(forall|c: char| plain_char(c) ==> !is_ws(c)) by {
        assert(forall|c: char|
            plain_char(c) ==> (c as u32 != 32 && c as u32 != 9 && c as u32 != 13 && c as u32
                != 10));
    }
    let vid = spec_u64_chars(t.tx_id as nat);
    let vty = type_label(t.tx_type);
    let vfr = spec_u64_chars(t.from_user_id as nat);
    let vto = spec_u64_chars(t.to_user_id as nat);
    let vam = spec_i64_chars(t.amount as int);
    let vts = spec_u64_chars(t.timestamp as nat);
    let vst = status_label(t.status);
    let vde = quoted(t.description);
    assert(!is_ws(vam[0]) && !is_ws(vam[vam.len() - 1])) by {
        assert(('-' as u32) == 45);
    }
    assert(vde[0] == '"' && vde[vde.len() - 1] == '"');
    assert(!is_ws('"'));
    lemma_kv_split(key_tx_id(), vid);
    lemma_kv_split(key_tx_type(), vty);
    lemma_kv_split(key_from_user_id(), vfr);
    lemma_kv_split(key_to_user_id(), vto);
    lemma_kv_split(key_amount(), vam);
    lemma_kv_split(key_timestamp(), vts);
    lemma_kv_split(key_status(), vst);
    lemma_kv_split(key_description(), vde);
    // the eight keys are pairwise distinguishable where it matters: all
    // lengths differ except AMOUNT and STATUS, which differ in their first
    // character
    assert(key_status()[0] != key_amount()[0]);
    let d0 = empty_draft();
    let d1 = DraftV { tx_id: Some(t.tx_id), ..d0 };
    let d2 = DraftV { tx_type: Some(t.tx_type), ..d1 };
    let d3 = DraftV { from_user_id: Some(t.from_user_id), ..d2 };
    let d4 = DraftV { to_user_id: Some(t.to_user_id), ..d3 };
    let d5 = DraftV { amount: Some(t.amount), ..d4 };
    let d6 = DraftV { timestamp: Some(t.timestamp), ..d5 };
    let d7 = DraftV { status: Some(t.status), ..d6 };
    let d8 = DraftV { description: Some(t.description), ..d7 };
    assert(spec_block_line(b[0], d0) == Ok::<DraftV, ErrKind>(d1));
    assert(spec_block_line(b[1], d1) == Ok::<DraftV, ErrKind>(d2));
    assert(spec_block_line(b[2], d2) == Ok::<DraftV, ErrKind>(d3));
    assert(spec_block_line(b[3], d3) == Ok::<DraftV, ErrKind>(d4));
    assert(spec_block_line(b[4], d4) == Ok::<DraftV, ErrKind>(d5));
    assert(spec_block_line(b[5], d5) == Ok::<DraftV, ErrKind>(d6));
    assert(spec_block_line(b[6], d6) == Ok::<DraftV, ErrKind>(d7));
    assert(spec_block_line(b[7], d7) == Ok::<DraftV, ErrKind>(d8)) by {
        assert(strip_quotes(vde) =~= t.description) by {
            assert(vde.len() == t.description.len() + 2);
            assert(vde.subrange(1, vde.len() - 1) =~= t.description);
        }
    }
    assert(block_fold(b, 0, d0) == block_fold(b, 1, d1));
    assert(block_fold(b, 1, d1) == block_fold(b, 2, d2));
    assert(block_fold(b, 2, d2) == block_fold(b, 3, d3));
    assert(block_fold(b, 3, d3) == block_fold(b, 4, d4));
    assert(block_fold(b, 4, d4) == block_fold(b, 5, d5));
    assert(block_fold(b, 5, d5) == block_fold(b, 6, d6));
    assert(block_fold(b, 6, d6) == block_fold(b, 7, d7));
    assert(block_fold(b, 7, d7) == block_fold(b, 8, d8));
    assert(block_fold(b, 8, d8) == Ok::<DraftV, ErrKind>(d8));
}

/// The comment line before record `n`.
pub open spec fn comment_line(n: nat) -> Seq<char> {
    comment_head() + spec_u64_chars(n)
}

/// Peels the first line off a document that opens with it.
proof fn lemma_peel_line(a: Seq<char>, b: Seq<char>, rest: Seq<char>)
    requires
        forall|k: int| 0 <= k < a.len() ==> a[k] != '\n',
    ensures
        spec_split_lines(line_nl(a, b) + rest) == seq![a] + spec_split_lines(b + rest),
{
    vstd::seq_lib::lemma_concat_associative(a + seq!['\n'], b, rest);
    lemma_split_lines_concat(a, b + rest);
}

/// Splitting one record's text yields its ten lines, then the remainder's.
#[verifier::rlimit(100)]
proof fn lemma_text_tx_split(t: TxView, n: nat, rest: Seq<char>)
    requires
        text_desc_ok(t.description),
    ensures
        spec_split_lines(spec_text_tx_chars(t, n) + rest) == seq![comment_line(n)]
            + tx_block_lines(t) + seq![Seq::<char>::empty()] + spec_split_lines(rest),
{
    reveal(spec_text_tx_chars);
    let b = tx_block_lines(t);
    lemma_keys_plain();
    lemma_u64_chars(t.tx_id as nat);
    lemma_u64_chars(t.from_user_id as nat);
    lemma_u64_chars(t.to_user_id as nat);
    lemma_u64_chars(t.timestamp as nat);
    lemma_u64_chars(n);
    lemma_i64_chars_shape(t.amount as int);
    lemma_type_label_plain(t.tx_type);
    lemma_status_label_plain(t.status);
    assert(forall|c: char|
        (is_digit(c) || plain_char(c) || c == ':' || c == ' ' || c == '#' || c == '"') ==> c
            != '\n') by {
        assert(('\n' as u32) == 10);
    }
    let c0 = comment_line(n);
    assert(forall|k: int| 0 <= k < c0.len() ==> c0[k] != '\n');
    assert(forall|k: int| 0 <= k < b[0].len() ==> b[0][k] != '\n');
    assert(forall|k: int| 0 <= k < b[1].len() ==> b[1][k] != '\n');
    assert(forall|k: int| 0 <= k < b[2].len() ==> b[2][k] != '\n');
    assert(forall|k: int| 0 <= k < b[3].len() ==> b[3][k] != '\n');
    assert(forall|k: int| 0 <= k < b[4].len() ==> b[4][k] != '\n');
    assert(forall|k: int| 0 <= k < b[5].len() ==> b[5][k] != '\n');
    assert(forall|k: int| 0 <= k < b[6].len() ==> b[6][k] != '\n');
    assert(forall|k: int| 0 <= k < b[7].len() ==> b[7][k] != '\n');
    let w9 = line_nl(Seq::empty(), Seq::empty());
    let w8 = line_nl(b[7], w9);
    let w7 = line_nl(b[6], w8);
    let w6 = line_nl(b[5], w7);
    let w5 = line_nl(b[4], w6);
    let w4 = line_nl(b[3], w5);
    let w3 = line_nl(b[2], w4);
    let w2 = line_nl(b[1], w3);
    let w1 = line_nl(b[0], w2);
    assert(spec_text_tx_chars(t, n) == line_nl(c0, w1));
    lemma_peel_line(c0, w1, rest);
    lemma_peel_line(b[0], w2, rest);
    lemma_peel_line(b[1], w3, rest);
    lemma_peel_line(b[2], w4, rest);
    lemma_peel_line(b[3], w5, rest);
    lemma_peel_line(b[4], w6, rest);
    lemma_peel_line(b[5], w7, rest);
    lemma_peel_line(b[6], w8, rest);
    lemma_peel_line(b[7], w9, rest);
    lemma_peel_line(Seq::empty(), Seq::empty(), rest);
    assert(Seq::<char>::empty() + rest =~= rest);
    assert(seq![c0] + (seq![b[0]] + (seq![b[1]] + (seq![b[2]] + (seq![b[3]] + (seq![b[4]] + (seq![
        b[5],
    ] + (seq![b[6]] + (seq![b[7]] + (seq![Seq::<char>::empty()] + spec_split_lines(rest))))))))))
        =~= seq![c0] + b + seq![Seq::<char>::empty()] + spec_split_lines(rest));
}

/// Dropping a prefix of already-consumed lines shifts the walk's index.
proof fn lemma_text_blocks_shift(
    pre: Seq<Seq<char>>,
    ls: Seq<Seq<char>>,
    i: int,
    block: Seq<Seq<char>>,
    acc: Seq<TxView>,
)
    requires
        0 <= i,
    ensures
        text_blocks(pre + ls, pre.len() + i, block, acc) == text_blocks(ls, i, block, acc),
    decreases ls.len() - i,
{
    let full = pre + ls;
    if i >= ls.len() {
    } else {
        assert(full[pre.len() + i] == ls[i]);
        let tl = spec_trim(ls[i]);
        if tl.len() == 0 {
            if block.len() == 0 {
                lemma_text_blocks_shift(pre, ls, i + 1, block, acc);
            } else {
                match spec_parse_block(block) {
                    Ok(t) => {
                        lemma_text_blocks_shift(pre, ls, i + 1, Seq::empty(), acc.push(t));
                    },
                    Err(_) => {
                    },
                }
            }
        } else if tl[0] == '#' {
            lemma_text_blocks_shift(pre, ls, i + 1, block, acc);
        } else {
            lemma_text_blocks_shift(pre, ls, i + 1, block.push(ls[i]), acc);
        }
    }
}

/// Walking the lines of one record's text consumes its block and appends the
/// record.
#[verifier::rlimit(100)]
proof fn lemma_text_decode_rec(s: Seq<TxView>, i: int, acc: Seq<TxView>)
    requires
        text_clean(s),
        0 <= i <= s.len(),
    ensures
        text_blocks(spec_lines(spec_text_encode_rec(s, i)), 0, Seq::empty(), acc) == Ok::<
            Seq<TxView>,
            ErrKind,
        >(acc + s.skip(i)),
    decreases s.len() - i,
{
    if i == s.len() {
        assert(spec_text_encode_rec(s, i) == Seq::<char>::empty());
        let ls = spec_lines(Seq::<char>::empty());
        assert(spec_split_lines(Seq::<char>::empty()) == seq![Seq::<char>::empty()]);
        assert(ls =~~= seq![Seq::<char>::empty()]);
        assert(spec_trim(ls[0]).len() == 0);
        assert(text_blocks(ls, 0, Seq::empty(), acc) == text_blocks(ls, 1, Seq::empty(), acc));
        assert(acc + s.skip(i) =~= acc);
    } else {
        let t = s[i];
        assert(text_desc_ok(t.description));
        let n = (i + 1) as nat;
        let rest_chars = spec_text_encode_rec(s, i + 1);
        assert(spec_text_encode_rec(s, i) == spec_text_tx_chars(t, n) + rest_chars);
        lemma_text_tx_split(t, n, rest_chars);
        let b = tx_block_lines(t);
        let c0 = comment_line(n);
        let raw = seq![c0] + b + seq![Seq::<char>::empty()] + spec_split_lines(rest_chars);
        let ls = spec_lines(spec_text_encode_rec(s, i));
        // none of the ten leading lines carries a carriage return, so the
        // stripped lines keep them unchanged
        lemma_keys_plain();
        lemma_u64_chars(t.tx_id as nat);
        lemma_u64_chars(t.from_user_id as nat);
        lemma_u64_chars(t.to_user_id as nat);
        lemma_u64_chars(t.timestamp as nat);
        lemma_u64_chars(n);
        lemma_i64_chars_shape(t.amount as int);
        lemma_type_label_plain(t.tx_type);
        lemma_status_label_plain(t.status);
        assert(forall|c: char|
            (is_digit(c) || plain_char(c) || c == ':' || c == ' ' || c == '#' || c == '"') ==> c
                != '\r') by {
            assert(('\r' as u32) == 13);
        }
        assert(strip_cr(c0) == c0);
        assert(forall|k: int| 0 <= k < b[0].len() ==> b[0][k] != '\r');
        assert(forall|k: int| 0 <= k < b[1].len() ==> b[1][k] != '\r');
        assert(forall|k: int| 0 <= k < b[2].len() ==> b[2][k] != '\r');
        assert(forall|k: int| 0 <= k < b[3].len() ==> b[3][k] != '\r');
        assert(forall|k: int| 0 <= k < b[4].len() ==> b[4][k] != '\r');
        assert(forall|k: int| 0 <= k < b[5].len() ==> b[5][k] != '\r');
        assert(forall|k: int| 0 <= k < b[6].len() ==> b[6][k] != '\r');
        assert(forall|k: int| 0 <= k < b[7].len() ==> b[7][k] != '\r');
        assert(ls =~= seq![c0] + b + seq![Seq::<char>::empty()] + spec_lines(rest_chars)) by {
            assert(strip_cr(b[0]) == b[0]);
            assert(strip_cr(b[1]) == b[1]);
            assert(strip_cr(b[2]) == b[2]);
            assert(strip_cr(b[3]) == b[3]);
            assert(strip_cr(b[4]) == b[4]);
            assert(strip_cr(b[5]) == b[5]);
            assert(strip_cr(b[6]) == b[6]);
            assert(strip_cr(b[7]) == b[7]);
            assert(strip_cr(Seq::<char>::empty()) == Seq::<char>::empty());
        }
        // the comment line is skipped
        assert(c0[0] == '#');
        assert(!is_ws('#'));
        lemma_trim_first(c0);
        assert(ls[0] == c0);
        assert(text_blocks(ls, 0, Seq::empty(), acc) == text_blocks(ls, 1, Seq::empty(), acc));
        // each key/value line joins the block
        assert(forall|c: char| plain_char(c) ==> (!is_ws(c) && c != '#')) by {
            assert(forall|c: char|
                plain_char(c) ==> (c as u32 != 32 && c as u32 != 9 && c as u32 != 13 && c as u32
                    != 10 && c as u32 != 35));
        }
        let e0 = Seq::<Seq<char>>::empty();
        assert(b[0][0] == key_tx_id()[0] && b[1][0] == key_tx_type()[0] && b[2][0]
            == key_from_user_id()[0] && b[3][0] == key_to_user_id()[0] && b[4][0]
            == key_amount()[0] && b[5][0] == key_timestamp()[0] && b[6][0] == key_status()[0]
            && b[7][0] == key_description()[0]);
        lemma_trim_first(b[0]);
        lemma_trim_first(b[1]);
        lemma_trim_first(b[2]);
        lemma_trim_first(b[3]);
        lemma_trim_first(b[4]);
        lemma_trim_first(b[5]);
        lemma_trim_first(b[6]);
        lemma_trim_first(b[7]);
        assert(ls[1] == b[0] && ls[2] == b[1] && ls[3] == b[2] && ls[4] == b[3] && ls[5] == b[4]
            && ls[6] == b[5] && ls[7] == b[6] && ls[8] == b[7]);
        assert(text_blocks(ls, 1, e0, acc) == text_blocks(ls, 2, e0.push(b[0]), acc));
        assert(text_blocks(ls, 2, e0.push(b[0]), acc) == text_blocks(
            ls,
            3,
            e0.push(b[0]).push(b[1]),
            acc,
        ));
        assert(text_blocks(ls, 3, e0.push(b[0]).push(b[1]), acc) == text_blocks(
            ls,
            4,
            e0.push(b[0]).push(b[1]).push(b[2]),
            acc,
        ));
        assert(text_blocks(ls, 4, e0.push(b[0]).push(b[1]).push(b[2]), acc) == text_blocks(
            ls,
            5,
            e0.push(b[0]).push(b[1]).push(b[2]).push(b[3]),
            acc,
        ));
        assert(text_blocks(ls, 5, e0.push(b[0]).push(b[1]).push(b[2]).push(b[3]), acc)
            == text_blocks(ls, 6, e0.push(b[0]).push(b[1]).push(b[2]).push(b[3]).push(b[4]), acc));
        assert(text_blocks(ls, 6, e0.push(b[0]).push(b[1]).push(b[2]).push(b[3]).push(b[4]), acc)
            == text_blocks(
            ls,
            7,
            e0.push(b[0]).push(b[1]).push(b[2]).push(b[3]).push(b[4]).push(b[5]),
            acc,
        ));
        assert(text_blocks(
            ls,
            7,
            e0.push(b[0]).push(b[1]).push(b[2]).push(b[3]).push(b[4]).push(b[5]),
            acc,
        ) == text_blocks(
            ls,
            8,
            e0.push(b[0]).push(b[1]).push(b[2]).push(b[3]).push(b[4]).push(b[5]).push(b[6]),
            acc,
        ));
        assert(text_blocks(
            ls,
            8,
            e0.push(b[0]).push(b[1]).push(b[2]).push(b[3]).push(b[4]).push(b[5]).push(b[6]),
            acc,
        ) == text_blocks(
            ls,
            9,
            e0.push(b[0]).push(b[1]).push(b[2]).push(b[3]).push(b[4]).push(b[5]).push(b[6]).push(
                b[7],
            ),
            acc,
        ));
        let full_block = e0.push(b[0]).push(b[1]).push(b[2]).push(b[3]).push(b[4]).push(b[5]).push(
            b[6],
        ).push(b[7]);
        assert(full_block =~= b);
        // the blank line closes the block
        assert(ls[9] =~= Seq::<char>::empty());
        assert(spec_trim(ls[9]).len() == 0);
        lemma_parse_block_roundtrip(t);
        assert(spec_parse_block(b) == Ok::<TxView, ErrKind>(t));
        assert(text_blocks(ls, 9, full_block, acc) == text_blocks(ls, 10, Seq::empty(), acc.push(
            t,
        )));
        // the remainder of the walk is the remainder of the document
        let pre = seq![c0] + b + seq![Seq::<char>::empty()];
        assert(pre.len() == 10);
        assert(ls =~= pre + spec_lines(rest_chars));
        lemma_text_blocks_shift(pre, spec_lines(rest_chars), 0, Seq::empty(), acc.push(t));
        lemma_text_decode_rec(s, i + 1, acc.push(t));
        assert(acc.push(t) + s.skip(i + 1) =~= acc + s.skip(i));
    }
}

/// Round trip of the text codec: decoding an encoded sequence yields the
/// sequence back, provided no description holds a line break.
pub proof fn lemma_text_round_trip(s: Seq<TxView>)
    requires
        text_clean(s),
    ensures
        spec_text_decode(spec_text_encode(s)) == Ok::<Seq<TxView>, ErrKind>(s),
{
    lemma_text_decode_rec(s, 0, Seq::empty());
    assert(s.skip(0) =~= s);
    assert(Seq::<TxView>::empty() + s =~= s);
}

/// A block whose lines leave any required field unset is rejected with a
/// format error.
pub proof fn lemma_parse_block_missing_field(block: Seq<Seq<char>>)
    requires
        (match block_fold(block, 0, empty_draft()) {
            Ok(d) => d.tx_id is None || d.tx_type is None || d.from_user_id is None
                || d.to_user_id is None || d.amount is None || d.timestamp is None
                || d.status is None || d.description is None,
            Err(_) => false,
        }),
    ensures
        spec_parse_block(block) == Err::<TxView, ErrKind>(ErrKind::Format),
{
}

/// Whether the line is a comment: its first non-whitespace character is `#`.
pub open spec fn is_comment_line(l: Seq<char>) -> bool {
    spec_trim(l).len() > 0 && spec_trim(l)[0] == '#'
}

/// The lines with every comment line removed.
pub open spec fn drop_comments(ls: Seq<Seq<char>>) -> Seq<Seq<char>>
    decreases ls.len(),
{
    if ls.len() == 0 {
        Seq::empty()
    } else if is_comment_line(ls[0]) {
        drop_comments(ls.drop_first())
    } else {
        seq![ls[0]] + drop_comments(ls.drop_first())
    }
}

/// Walking the lines from `i` on equals walking the comment-free remainder.
proof fn lemma_drop_comments_rec(
    ls: Seq<Seq<char>>,
    i: int,
    block: Seq<Seq<char>>,
    acc: Seq<TxView>,
)
    requires
        0 <= i <= ls.len(),
    ensures
        text_blocks(ls, i, block, acc) == text_blocks(drop_comments(ls.skip(i)), 0, block, acc),
    decreases ls.len() - i,
{
    if i == ls.len() {
        assert(ls.skip(i) =~= Seq::<Seq<char>>::empty());
    } else {
        let l = ls[i];
        let tail = ls.skip(i);
        assert(tail[0] == l);
        assert(tail.drop_first() =~= ls.skip(i + 1));
        let d = drop_comments(ls.skip(i + 1));
        let tl = spec_trim(l);
        if tl.len() > 0 && tl[0] == '#' {
            assert(is_comment_line(l));
            assert(drop_comments(tail) == d);
            lemma_drop_comments_rec(ls, i + 1, block, acc);
        } else {
            assert(!is_comment_line(l));
            assert(drop_comments(tail) == seq![l] + d);
            assert((seq![l] + d)[0] == l);
            if tl.len() == 0 {
                if block.len() == 0 {
                    lemma_drop_comments_rec(ls, i + 1, block, acc);
                    lemma_text_blocks_shift(seq![l], d, 0, block, acc);
                } else {
                    match spec_parse_block(block) {
                        Ok(t) => {
                            lemma_drop_comments_rec(ls, i + 1, Seq::empty(), acc.push(t));
                            lemma_text_blocks_shift(seq![l], d, 0, Seq::empty(), acc.push(t));
                        },
                        Err(_) => {
                        },
                    }
                }
            } else {
                lemma_drop_comments_rec(ls, i + 1, block.push(l), acc);
                lemma_text_blocks_shift(seq![l], d, 0, block.push(l), acc);
            }
        }
    }
}

/// Comment tolerance: a text input decodes to exactly what the same input
/// with its comment lines removed decodes to.
pub proof fn lemma_text_comment_tolerance(ls: Seq<Seq<char>>)
    ensures
        text_blocks(ls, 0, Seq::empty(), Seq::empty()) == text_blocks(
            drop_comments(ls),
            0,
            Seq::empty(),
            Seq::empty(),
        ),
{
    lemma_drop_comments_rec(ls, 0, Seq::empty(), Seq::empty());
    assert(ls.skip(0) =~= ls);
}

/// The mathematical value of an accumulated description field.
pub open spec fn view_opt_chars(o: Option<Vec<char>>) -> Option<Seq<char>> {
    match o {
        Some(v) => Some(v@),
        None => None,
    }
}

/// Turns one block of `KEY: value` lines into a record, as
/// [`spec_parse_block`] describes: unknown keys are ignored, the last
/// occurrence of a key wins, and every field must be set.
#[verifier::rlimit(100)]
pub fn parse_block(block: &Vec<Vec<char>>) -> (r: Result<Transaction, ParserError>)
    ensures
        (match (spec_parse_block(block.deep_view()), r) {
            (Ok(tv), Ok(tx)) => tx@ == tv,
            (Err(k), Err(e)) => err_kind(e) == k,
            _ => false,
        }),
{
    let ghost bv = block.deep_view();
    let mut o_id: Option<u64> = None;
    let mut o_ty: Option<TxType> = None;
    let mut o_from: Option<u64> = None;
    let mut o_to: Option<u64> = None;
    let mut o_am: Option<i64> = None;
    let mut o_ts: Option<u64> = None;
    let mut o_st: Option<TxStatus> = None;
    let mut o_desc: Option<Vec<char>> = None;
    let mut i: usize = 0;
    while i < block.len()
        invariant
            i <= block@.len(),
            bv == block.deep_view(),
            bv.len() == block@.len(),
            block_fold(bv, 0, empty_draft()) == block_fold(
                bv,
                i as int,
                (DraftV {
                    tx_id: o_id,
                    tx_type: o_ty,
                    from_user_id: o_from,
                    to_user_id: o_to,
                    amount: o_am,
                    timestamp: o_ts,
                    status: o_st,
                    description: view_opt_chars(o_desc),
                }),
            ),
        decreases block@.len() - i,
    {
        let ghost dcur = DraftV {
            tx_id: o_id,
            tx_type: o_ty,
            from_user_id: o_from,
            to_user_id: o_to,
            amount: o_am,
            timestamp: o_ts,
            status: o_st,
            description: view_opt_chars(o_desc),
        };
        let line = &block[i];
        proof {
            assert(bv[i as int] == block@[i as int].deep_view());
            lemma_deep_chars(&block@[i as int]);
            assert(bv[i as int] == line@);
        }
        let ci_opt = find_char(line, ':');
        let ci = match ci_opt {
            Some(c) => c,
            None => {
                let mut m = "line without a colon separator: ".to_owned();
                push_chars(&mut m, line);
                return Err(ParserError::Format(m));
            },
        };
        proof {
            crate::chars::lemma_find(line@, ':');
        }
        let ll = line.len();
        proof {
            assert(ci < line@.len());
        }
        let kpart = sub_chars(line, 0, ci);
        let keyv = trim(&kpart);
        let vpart = sub_chars(line, ci + 1, ll);
        let valv = trim(&vpart);
        proof {
            assert(line@.subrange(0, ci as int) =~= line@.take(ci as int));
            assert(line@.subrange(ci as int + 1, line@.len() as int) =~= line@.skip(ci as int + 1));
        }
        let k_id = key_tx_id_vec();
        let k_ty = key_tx_type_vec();
        let k_from = key_from_user_id_vec();
        let k_to = key_to_user_id_vec();
        let k_am = key_amount_vec();
        let k_ts = key_timestamp_vec();
        let k_st = key_status_vec();
        let k_de = key_description_vec();
        if chars_eq(&keyv, &k_id) {
            match parse_u64_chars(&valv) {
                Some(v) => {
                    o_id = Some(v);
                },
                None => {
                    return Err(ParserError::Parse("bad TX_ID value".to_owned()));
                },
            }
        } else if chars_eq(&keyv, &k_ty) {
            match type_of_chars(&valv) {
                Some(v) => {
                    o_ty = Some(v);
                },
                None => {
                    let mut m = "unknown transaction type: ".to_owned();
                    push_chars(&mut m, &valv);
                    return Err(ParserError::Format(m));
                },
            }
        } else if chars_eq(&keyv, &k_from) {
            match parse_u64_chars(&valv) {
                Some(v) => {
                    o_from = Some(v);
                },
                None => {
                    return Err(ParserError::Parse("bad FROM_USER_ID value".to_owned()));
                },
            }
        } else if chars_eq(&keyv, &k_to) {
            match parse_u64_chars(&valv) {
                Some(v) => {
                    o_to = Some(v);
                },
                None => {
                    return Err(ParserError::Parse("bad TO_USER_ID value".to_owned()));
                },
            }
        } else if chars_eq(&keyv, &k_am) {
            match parse_i64_chars(&valv) {
                Some(v) => {
                    o_am = Some(v);
                },
                None => {
                    return Err(ParserError::Parse("bad AMOUNT value".to_owned()));
                },
            }
        } else if chars_eq(&keyv, &k_ts) {
            match parse_u64_chars(&valv) {
                Some(v) => {
                    o_ts = Some(v);
                },
                None => {
                    return Err(ParserError::Parse("bad TIMESTAMP value".to_owned()));
                },
            }
        } else if chars_eq(&keyv, &k_st) {
            match status_of_chars(&valv) {
                Some(v) => {
                    o_st = Some(v);
                },
                None => {
                    let mut m = "unknown transaction status: ".to_owned();
                    push_chars(&mut m, &valv);
                    return Err(ParserError::Format(m));
                },
            }
        } else if chars_eq(&keyv, &k_de) {
            let mut d: Vec<char> = valv;
            if d.len() >= 2 && d[0] == '"' && d[d.len() - 1] == '"' {
                let inner = sub_chars(&d, 1, d.len() - 1);
                proof {
                    assert(strip_quotes(spec_trim(line@.skip(ci as int + 1))) == inner@);
                }
                d = inner;
            } else {
                proof {
                    assert(strip_quotes(spec_trim(line@.skip(ci as int + 1))) == d@);
                }
            }
            o_desc = Some(d);
        } else {
        }
        let ghost dnew = DraftV {
            tx_id: o_id,
            tx_type: o_ty,
            from_user_id: o_from,
            to_user_id: o_to,
            amount: o_am,
            timestamp: o_ts,
            status: o_st,
            description: view_opt_chars(o_desc),
        };
        proof {
            assert(spec_block_line(bv[i as int], dcur) == Ok::<DraftV, ErrKind>(dnew));
            assert(block_fold(bv, i as int, dcur) == block_fold(bv, i as int + 1, dnew));
        }
        i = i + 1;
    }
    let id = match o_id {
        Some(v) => v,
        None => {
            return Err(ParserError::Format("missing required field TX_ID".to_owned()));
        },
    };
    let ty = match o_ty {
        Some(v) => v,
        None => {
            return Err(ParserError::Format("missing required field TX_TYPE".to_owned()));
        },
    };
    let from_user_id = match o_from {
        Some(v) => v,
        None => {
            return Err(ParserError::Format("missing required field FROM_USER_ID".to_owned()));
        },
    };
    let to_user_id = match o_to {
        Some(v) => v,
        None => {
            return Err(ParserError::Format("missing required field TO_USER_ID".to_owned()));
        },
    };
    let amount = match o_am {
        Some(v) => v,
        None => {
            return Err(ParserError::Format("missing required field AMOUNT".to_owned()));
        },
    };
    let timestamp = match o_ts {
        Some(v) => v,
        None => {
            return Err(ParserError::Format("missing required field TIMESTAMP".to_owned()));
        },
    };
    let status = match o_st {
        Some(v) => v,
        None => {
            return Err(ParserError::Format("missing required field STATUS".to_owned()));
        },
    };
    let descv = match o_desc {
        Some(v) => v,
        None => {
            return Err(ParserError::Format("missing required field DESCRIPTION".to_owned()));
        },
    };
    let description = string_of_chars(&descv);
    Ok(
        Transaction {
            tx_id: id,
            tx_type: ty,
            from_user_id,
            to_user_id,
            amount,
            timestamp,
            status,
            description,
        },
    )
}

/// Decodes a text document: comment lines are dropped, blank lines separate
/// blocks, and each block becomes one record.
///
/// The result matches [`spec_text_decode`] on the input characters.
#[verifier::rlimit(100)]
pub fn from_read(input: &str) -> (r: Result<Vec<Transaction>, ParserError>)
    ensures
        text_decode_matches(input@, r),
{
    let v = chars_of(input);
    let ls = lines_of(&v);
    let ghost lsv = spec_lines(input@);
    let mut acc: Vec<Transaction> = Vec::new();
    let mut block: Vec<Vec<char>> = Vec::new();
    let mut i: usize = 0;
    proof {
        assert(acc.deep_view() =~= Seq::<TxView>::empty());
        assert(block.deep_view() =~= Seq::<Seq<char>>::empty());
    }
    while i < ls.len()
        invariant
            i <= ls@.len(),
            ls.deep_view() == lsv,
            lsv.len() == ls@.len(),
            spec_text_decode(input@) == text_blocks(
                lsv,
                i as int,
                block.deep_view(),
                acc.deep_view(),
            ),
        decreases ls@.len() - i,
    {
        let line = &ls[i];
        proof {
            assert(lsv[i as int] == ls@[i as int].deep_view());
            lemma_deep_chars(&ls@[i as int]);
            assert(lsv[i as int] == line@);
        }
        let tl = trim(line);
        if tl.len() == 0 {
            if block.len() == 0 {
                proof {
                    assert(block.deep_view() =~= Seq::<Seq<char>>::empty());
                }
            } else {
                proof {
                    assert(block.deep_view().len() == block@.len());
                }
                let t = parse_block(&block);
                match t {
                    Ok(tx) => {
                        let ghost acc0 = acc;
                        acc.push(tx);
                        block = Vec::new();
                        proof {
                            lemma_deep_view_push_tx(acc0, acc, tx);
                            assert(block.deep_view() =~= Seq::<Seq<char>>::empty());
                        }
                    },
                    Err(e) => {
                        return Err(e);
                    },
                }
            }
        } else if tl[0] == '#' {
        } else {
            let lcopy = copy_chars(line);
            let ghost block0 = block;
            block.push(lcopy);
            proof {
                lemma_deep_view_push(block0, block, lcopy);
            }
        }
        i = i + 1;
    }
    if block.len() > 0 {
        proof {
            assert(block.deep_view().len() == block@.len());
        }
        let t = parse_block(&block);
        match t {
            Ok(tx) => {
                let ghost acc0 = acc;
                acc.push(tx);
                proof {
                    lemma_deep_view_push_tx(acc0, acc, tx);
                }
                Ok(acc)
            },
            Err(e) => Err(e),
        }
    } else {
        proof {
            assert(block.deep_view() =~= Seq::<Seq<char>>::empty());
        }
        Ok(acc)
    }
}

/// Appends all characters of `v`.
fn extend_chars(out: &mut Vec<char>, v: Vec<char>)
    ensures
        final(out)@ == old(out)@ + v@,
{
    let mut vv = v;
    out.append(&mut vv);
}

/// One record's text, written out flat in line order.
#[verifier::rlimit(100)]
proof fn lemma_tx_chars_flat(t: TxView, n: nat)
    ensures
        spec_text_tx_chars(t, n) == comment_line(n) + seq!['\n'] + tx_block_lines(t)[0] + seq![
            '\n',
        ] + tx_block_lines(t)[1] + seq!['\n'] + tx_block_lines(t)[2] + seq!['\n'] + tx_block_lines(
            t,
        )[3] + seq!['\n'] + tx_block_lines(t)[4] + seq!['\n'] + tx_block_lines(t)[5] + seq!['\n']
            + tx_block_lines(t)[6] + seq!['\n'] + tx_block_lines(t)[7] + seq!['\n'] + seq!['\n'],
{
    reveal(spec_text_tx_chars);
    assert(spec_text_tx_chars(t, n) =~= comment_line(n) + seq!['\n'] + tx_block_lines(t)[0] + seq![
        '\n',
    ] + tx_block_lines(t)[1] + seq!['\n'] + tx_block_lines(t)[2] + seq!['\n'] + tx_block_lines(
        t,
    )[3] + seq!['\n'] + tx_block_lines(t)[4] + seq!['\n'] + tx_block_lines(t)[5] + seq!['\n']
        + tx_block_lines(t)[6] + seq!['\n'] + tx_block_lines(t)[7] + seq!['\n'] + seq!['\n']);
}

/// Appends one `KEY: value` line whose value is already in characters.
fn push_kv_chars(out: &mut Vec<char>, key: Vec<char>, val: Vec<char>)
    ensures
        final(out)@ == old(out)@ + (key@ + kv_sep() + val@) + seq!['\n'],
{
    let ghost k0 = key@;
    let ghost v0 = val@;
    extend_chars(out, key);
    out.push(':');
    out.push(' ');
    extend_chars(out, val);
    out.push('\n');
    proof {
        assert(out@ =~= old(out)@ + (k0 + kv_sep() + v0) + seq!['\n']);
    }
}

/// Appends one `KEY: value` line with an unsigned decimal value.
fn push_kv_u64(out: &mut Vec<char>, key: Vec<char>, v: u64)
    ensures
        final(out)@ == old(out)@ + (key@ + kv_sep() + spec_u64_chars(v as nat)) + seq!['\n'],
{
    let ghost k0 = key@;
    extend_chars(out, key);
    out.push(':');
    out.push(' ');
    push_u64_chars(out, v);
    out.push('\n');
    proof {
        assert(out@ =~= old(out)@ + (k0 + kv_sep() + spec_u64_chars(v as nat)) + seq!['\n']);
    }
}

/// Appends one `KEY: value` line with a signed decimal value.
fn push_kv_i64(out: &mut Vec<char>, key: Vec<char>, v: i64)
    ensures
        final(out)@ == old(out)@ + (key@ + kv_sep() + spec_i64_chars(v as int)) + seq!['\n'],
{
    let ghost k0 = key@;
    extend_chars(out, key);
    out.push(':');
    out.push(' ');
    push_i64_chars(out, v);
    out.push('\n');
    proof {
        assert(out@ =~= old(out)@ + (k0 + kv_sep() + spec_i64_chars(v as int)) + seq!['\n']);
    }
}

/// Appends one record's text: its numbered comment line, its eight key/value
/// lines, and the blank separator line.
#[verifier::rlimit(100)]
fn push_text_tx(out: &mut Vec<char>, tx: &Transaction, n: u64)
    ensures
        final(out)@ == old(out)@ + spec_text_tx_chars(tx@, n as nat),
{
    let ghost b = tx_block_lines(tx@);
    out.push('#');
    out.push(' ');
    out.push('R');
    out.push('e');
    out.push('c');
    out.push('o');
    out.push('r');
    out.push('d');
    out.push(' ');
    push_u64_chars(out, n);
    out.push('\n');
    let ghost p0 = old(out)@ + comment_line(n as nat) + seq!['\n'];
    proof {
        assert(out@ =~= p0);
    }
    push_kv_u64(out, key_tx_id_vec(), tx.tx_id);
    let ghost p1 = p0 + b[0] + seq!['\n'];
    proof {
        assert(out@ =~= p1);
    }
    push_kv_chars(out, key_tx_type_vec(), type_label_vec(&tx.tx_type));
    let ghost p2 = p1 + b[1] + seq!['\n'];
    proof {
        assert(out@ =~= p2);
    }
    push_kv_u64(out, key_from_user_id_vec(), tx.from_user_id);
    let ghost p3 = p2 + b[2] + seq!['\n'];
    proof {
        assert(out@ =~= p3);
    }
    push_kv_u64(out, key_to_user_id_vec(), tx.to_user_id);
    let ghost p4 = p3 + b[3] + seq!['\n'];
    proof {
        assert(out@ =~= p4);
    }
    push_kv_i64(out, key_amount_vec(), tx.amount);
    let ghost p5 = p4 + b[4] + seq!['\n'];
    proof {
        assert(out@ =~= p5);
    }
    push_kv_u64(out, key_timestamp_vec(), tx.timestamp);
    let ghost p6 = p5 + b[5] + seq!['\n'];
    proof {
        assert(out@ =~= p6);
    }
    push_kv_chars(out, key_status_vec(), status_label_vec(&tx.status));
    let ghost p7 = p6 + b[6] + seq!['\n'];
    proof {
        assert(out@ =~= p7);
    }
    let mut q: Vec<char> = Vec::new();
    q.push('"');
    extend_chars(&mut q, chars_of(tx.description.as_str()));
    q.push('"');
    proof {
        assert(q@ =~= quoted(tx.description@));
    }
    push_kv_chars(out, key_description_vec(), q);
    let ghost p8 = p7 + b[7] + seq!['\n'];
    proof {
        assert(out@ =~= p8);
    }
    out.push('\n');
    let ghost p9 = p8 + seq!['\n'];
    proof {
        lemma_tx_chars_flat(tx@, n as nat);
        assert(out@ =~= p9);
        assert(p9 =~= old(out)@ + (comment_line(n as nat) + seq!['\n'] + b[0] + seq!['\n'] + b[1]
            + seq!['\n'] + b[2] + seq!['\n'] + b[3] + seq!['\n'] + b[4] + seq!['\n'] + b[5] + seq![
            '\n',
        ] + b[6] + seq!['\n'] + b[7] + seq!['\n'] + seq!['\n']));
    }
}

/// Appending one record's text extends an encoded sequence.
proof fn lemma_text_encode_snoc(q: Seq<TxView>, t: TxView, j: int)
    requires
        0 <= j <= q.len(),
    ensures
        spec_text_encode_rec(q.push(t), j) == spec_text_encode_rec(q, j) + spec_text_tx_chars(
            t,
            (q.len() + 1) as nat,
        ),
    decreases q.len() - j,
{
    if j == q.len() {
        assert(q.push(t)[j] == t);
        assert(spec_text_encode_rec(q.push(t), j + 1) == Seq::<char>::empty());
        assert(spec_text_tx_chars(t, (j + 1) as nat) + Seq::<char>::empty()
            =~= Seq::<char>::empty() + spec_text_tx_chars(t, (q.len() + 1) as nat));
    } else {
        assert(q.push(t)[j] == q[j]);
        lemma_text_encode_snoc(q, t, j + 1);
        assert(spec_text_tx_chars(q[j], (j + 1) as nat) + (spec_text_encode_rec(q, j + 1)
            + spec_text_tx_chars(t, (q.len() + 1) as nat)) =~= (spec_text_tx_chars(
            q[j],
            (j + 1) as nat,
        ) + spec_text_encode_rec(q, j + 1)) + spec_text_tx_chars(t, (q.len() + 1) as nat));
    }
}

/// Encodes the records as a text document: for each record, in input order,
/// a numbered comment line, one `KEY: value` line per field, and a blank
/// separator line.
///
/// Returns exactly [`spec_text_encode`] of the records.
pub fn write_to(transactions: &Vec<Transaction>) -> (r: String)
    ensures
        r@ == spec_text_encode(transactions.deep_view()),
{
    let ghost s = transactions.deep_view();
    let mut out: Vec<char> = Vec::new();
    let mut i: usize = 0;
    proof {
        assert(s.take(0) =~= Seq::<TxView>::empty());
        assert(out@ =~= spec_text_encode_rec(s.take(0), 0));
    }
    while i < transactions.len()
        invariant
            i <= transactions@.len(),
            s == transactions.deep_view(),
            out@ == spec_text_encode_rec(s.take(i as int), 0),
        decreases transactions@.len() - i,
    {
        let tx = &transactions[i];
        proof {
            assert(tx@ == s[i as int]);
        }
        push_text_tx(&mut out, tx, (i as u64) + 1);
        proof {
            lemma_text_encode_snoc(s.take(i as int), s[i as int], 0);
            assert(s.take(i as int).push(s[i as int]) =~= s.take(i + 1));
        }
        i = i + 1;
    }
    proof {
        assert(s.take(s.len() as int) =~= s);
    }
    string_of_chars(&out)
}

} // verus!
