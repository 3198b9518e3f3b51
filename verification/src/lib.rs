//! Codecs for financial transaction records in three interchangeable
//! representations: a binary wire format, a CSV tabular format, and a
//! key/value text format.  Every decoder and encoder is specified against
//! a mathematical model of the record, and each codec carries a proved
//! round-trip law: decoding what was encoded yields the original records.

use vstd::prelude::*;

pub mod error;
pub mod chars;
pub mod num;
pub mod bin_format;
pub mod csv_format;
pub mod text_format;
pub mod equiv;

verus! {

/// Kind of operation a transaction performs.
#[derive(Debug, Clone, Copy, PartialEq, Eq, Structural)]
pub enum TxType {
    Deposit,
    Transfer,
    Withdrawal,
}

/// Outcome of a transaction.
#[derive(Debug, Clone, Copy, PartialEq, Eq, Structural)]
pub enum TxStatus {
    Success,
    Failure,
    Pending,
}

/// One financial transaction record, the unit of data interchange.
#[derive(Debug, Clone, PartialEq, Eq)]
pub struct Transaction {
    pub tx_id: u64,
    pub tx_type: TxType,
    /// 0 is the reserved sentinel for an external source.
    pub from_user_id: u64,
    pub to_user_id: u64,
    /// Minor currency units; the sign is not constrained.
    pub amount: i64,
    /// Milliseconds since the Unix epoch.
    pub timestamp: u64,
    pub status: TxStatus,
    /// Free-form text; may be empty.
    pub description: String,
}

/// Mathematical model of a transaction record: the same fields, with the
/// description abstracted to its character sequence.
pub struct TxView {
    pub tx_id: u64,
    pub tx_type: TxType,
    pub from_user_id: u64,
    pub to_user_id: u64,
    pub amount: i64,
    pub timestamp: u64,
    pub status: TxStatus,
    pub description: Seq<char>,
}

impl View for Transaction {
    type V = TxView;

    open spec fn view(&self) -> TxView {
        TxView {
            tx_id: self.tx_id,
            tx_type: self.tx_type,
            from_user_id: self.from_user_id,
            to_user_id: self.to_user_id,
            amount: self.amount,
            timestamp: self.timestamp,
            status: self.status,
            description: self.description@,
        }
    }
}

impl DeepView for Transaction {
    type V = TxView;

    open spec fn deep_view(&self) -> TxView {
        self.view()
    }
}

/// The uppercase label naming a transaction type in the CSV and text formats.
pub open spec fn type_label(t: TxType) -> Seq<char> {
    match t {
        TxType::Deposit => seq!['D', 'E', 'P', 'O', 'S', 'I', 'T'],
        TxType::Transfer => seq!['T', 'R', 'A', 'N', 'S', 'F', 'E', 'R'],
        TxType::Withdrawal => seq!['W', 'I', 'T', 'H', 'D', 'R', 'A', 'W', 'A', 'L'],
    }
}

/// The transaction type named by a label, if any.
pub open spec fn spec_type_of(s: Seq<char>) -> Option<TxType> {
    if s == type_label(TxType::Deposit) {
        Some(TxType::Deposit)
    } else if s == type_label(TxType::Transfer) {
        Some(TxType::Transfer)
    } else if s == type_label(TxType::Withdrawal) {
        Some(TxType::Withdrawal)
    } else {
        None
    }
}

/// The uppercase label naming a transaction status in the CSV and text formats.
pub open spec fn status_label(s: TxStatus) -> Seq<char> {
    match s {
        TxStatus::Success => seq!['S', 'U', 'C', 'C', 'E', 'S', 'S'],
        TxStatus::Failure => seq!['F', 'A', 'I', 'L', 'U', 'R', 'E'],
        TxStatus::Pending => seq!['P', 'E', 'N', 'D', 'I', 'N', 'G'],
    }
}

/// The transaction status named by a label, if any.
pub open spec fn spec_status_of(s: Seq<char>) -> Option<TxStatus> {
    if s == status_label(TxStatus::Success) {
        Some(TxStatus::Success)
    } else if s == status_label(TxStatus::Failure) {
        Some(TxStatus::Failure)
    } else if s == status_label(TxStatus::Pending) {
        Some(TxStatus::Pending)
    } else {
        None
    }
}

/// Labels name their own type: parsing a printed label gives the value back.
pub proof fn lemma_type_label_of(t: TxType)
    ensures
        spec_type_of(type_label(t)) == Some(t),
{
    match t {
        TxType::Deposit => {
        },
        TxType::Transfer => {
            assert(type_label(TxType::Transfer).len() != type_label(TxType::Deposit).len());
        },
        TxType::Withdrawal => {
            assert(type_label(TxType::Withdrawal).len() != type_label(TxType::Deposit).len());
            assert(type_label(TxType::Withdrawal).len() != type_label(TxType::Transfer).len());
        },
    }
}

/// Labels name their own status: parsing a printed label gives the value back.
pub proof fn lemma_status_label_of(s: TxStatus)
    ensures
        spec_status_of(status_label(s)) == Some(s),
{
    match s {
        TxStatus::Success => {
        },
        TxStatus::Failure => {
            assert(status_label(TxStatus::Failure)[0] != status_label(TxStatus::Success)[0]);
        },
        TxStatus::Pending => {
            assert(status_label(TxStatus::Pending)[0] != status_label(TxStatus::Success)[0]);
            assert(status_label(TxStatus::Pending)[0] != status_label(TxStatus::Failure)[0]);
        },
    }
}

/// The label of a transaction type, as a character vector.
pub fn type_label_vec(t: &TxType) -> (r: Vec<char>)
    ensures
        r@ == type_label(*t),
{
    match t {
        TxType::Deposit => vec!['D', 'E', 'P', 'O', 'S', 'I', 'T'],
        TxType::Transfer => vec!['T', 'R', 'A', 'N', 'S', 'F', 'E', 'R'],
        TxType::Withdrawal => vec!['W', 'I', 'T', 'H', 'D', 'R', 'A', 'W', 'A', 'L'],
    }
}

/// The label of a transaction status, as a character vector.
pub fn status_label_vec(s: &TxStatus) -> (r: Vec<char>)
    ensures
        r@ == status_label(*s),
{
    match s {
        TxStatus::Success => vec!['S', 'U', 'C', 'C', 'E', 'S', 'S'],
        TxStatus::Failure => vec!['F', 'A', 'I', 'L', 'U', 'R', 'E'],
        TxStatus::Pending => vec!['P', 'E', 'N', 'D', 'I', 'N', 'G'],
    }
}

/// The transaction type named by the given characters, if any.
pub fn type_of_chars(v: &Vec<char>) -> (r: Option<TxType>)
    ensures
        r == spec_type_of(v@),
{
    let dep = type_label_vec(&TxType::Deposit);
    let tra = type_label_vec(&TxType::Transfer);
    let wit = type_label_vec(&TxType::Withdrawal);
    if chars::chars_eq(v, &dep) {
        Some(TxType::Deposit)
    } else if chars::chars_eq(v, &tra) {
        Some(TxType::Transfer)
    } else if chars::chars_eq(v, &wit) {
        Some(TxType::Withdrawal)
    } else {
        None
    }
}

/// A character that cannot collide with any delimiter of the three formats:
/// a digit, an uppercase letter, an underscore, or a minus sign.
pub open spec fn plain_char(c: char) -> bool {
    let u = c as u32;
    (48 <= u <= 57) || (65 <= u <= 90) || u == 95 || u == 45
}

/// Plain characters are none of the delimiters and are not whitespace.
pub proof fn lemma_plain_char(c: char)
    requires
        plain_char(c),
    ensures
        c != '"',
        c != ',',
        c != '\n',
        c != '\r',
        c != ':',
        c != '#',
        !chars::is_ws(c),
{
}

/// Every character of a type label is plain.
pub proof fn lemma_type_label_plain(t: TxType)
    ensures
        forall|k: int|
            0 <= k < type_label(t).len() ==> plain_char(#[trigger] type_label(t)[k]),
{
    match t {
        TxType::Deposit => {
            assert(forall|k: int|
                0 <= k < type_label(TxType::Deposit).len() ==> plain_char(
                    #[trigger] type_label(TxType::Deposit)[k],
                ));
        },
        TxType::Transfer => {
            assert(forall|k: int|
                0 <= k < type_label(TxType::Transfer).len() ==> plain_char(
                    #[trigger] type_label(TxType::Transfer)[k],
                ));
        },
        TxType::Withdrawal => {
            assert(forall|k: int|
                0 <= k < type_label(TxType::Withdrawal).len() ==> plain_char(
                    #[trigger] type_label(TxType::Withdrawal)[k],
                ));
        },
    }
}

/// Every character of a status label is plain.
pub proof fn lemma_status_label_plain(s: TxStatus)
    ensures
        forall|k: int|
            0 <= k < status_label(s).len() ==> plain_char(#[trigger] status_label(s)[k]),
{
    match s {
        TxStatus::Success => {
            assert(forall|k: int|
                0 <= k < status_label(TxStatus::Success).len() ==> plain_char(
                    #[trigger] status_label(TxStatus::Success)[k],
                ));
        },
        TxStatus::Failure => {
            assert(forall|k: int|
                0 <= k < status_label(TxStatus::Failure).len() ==> plain_char(
                    #[trigger] status_label(TxStatus::Failure)[k],
                ));
        },
        TxStatus::Pending => {
            assert(forall|k: int|
                0 <= k < status_label(TxStatus::Pending).len() ==> plain_char(
                    #[trigger] status_label(TxStatus::Pending)[k],
                ));
        },
    }
}

/// The key naming the identifier field.
pub open spec fn key_tx_id() -> Seq<char> {
    seq!['T', 'X', '_', 'I', 'D']
}

/// The key naming the type field.
pub open spec fn key_tx_type() -> Seq<char> {
    seq!['T', 'X', '_', 'T', 'Y', 'P', 'E']
}

/// The key naming the source-account field.
pub open spec fn key_from_user_id() -> Seq<char> {
    seq!['F', 'R', 'O', 'M', '_', 'U', 'S', 'E', 'R', '_', 'I', 'D']
}

/// The key naming the destination-account field.
pub open spec fn key_to_user_id() -> Seq<char> {
    seq!['T', 'O', '_', 'U', 'S', 'E', 'R', '_', 'I', 'D']
}

/// The key naming the amount field.
pub open spec fn key_amount() -> Seq<char> {
    seq!['A', 'M', 'O', 'U', 'N', 'T']
}

/// The key naming the timestamp field.
pub open spec fn key_timestamp() -> Seq<char> {
    seq!['T', 'I', 'M', 'E', 'S', 'T', 'A', 'M', 'P']
}

/// The key naming the status field.
pub open spec fn key_status() -> Seq<char> {
    seq!['S', 'T', 'A', 'T', 'U', 'S']
}

/// The key naming the description field.
pub open spec fn key_description() -> Seq<char> {
    seq!['D', 'E', 'S', 'C', 'R', 'I', 'P', 'T', 'I', 'O', 'N']
}

/// Every character of every field key is plain.
pub proof fn lemma_keys_plain()
    ensures
        forall|k: int| 0 <= k < key_tx_id().len() ==> plain_char(#[trigger] key_tx_id()[k]),
        forall|k: int| 0 <= k < key_tx_type().len() ==> plain_char(#[trigger] key_tx_type()[k]),
        forall|k: int|
            0 <= k < key_from_user_id().len() ==> plain_char(#[trigger] key_from_user_id()[k]),
        forall|k: int|
            0 <= k < key_to_user_id().len() ==> plain_char(#[trigger] key_to_user_id()[k]),
        forall|k: int| 0 <= k < key_amount().len() ==> plain_char(#[trigger] key_amount()[k]),
        forall|k: int| 0 <= k < key_timestamp().len() ==> plain_char(#[trigger] key_timestamp()[k]),
        forall|k: int| 0 <= k < key_status().len() ==> plain_char(#[trigger] key_status()[k]),
        forall|k: int|
            0 <= k < key_description().len() ==> plain_char(#[trigger] key_description()[k]),
{
}

/// The identifier key, as a character vector.
pub fn key_tx_id_vec() -> (r: Vec<char>)
    ensures
        r@ == key_tx_id(),
{
    vec!['T', 'X', '_', 'I', 'D']
}

/// The type key, as a character vector.
pub fn key_tx_type_vec() -> (r: Vec<char>)
    ensures
        r@ == key_tx_type(),
{
    vec!['T', 'X', '_', 'T', 'Y', 'P', 'E']
}

/// The source-account key, as a character vector.
pub fn key_from_user_id_vec() -> (r: Vec<char>)
    ensures
        r@ == key_from_user_id(),
{
    vec!['F', 'R', 'O', 'M', '_', 'U', 'S', 'E', 'R', '_', 'I', 'D']
}

/// The destination-account key, as a character vector.
pub fn key_to_user_id_vec() -> (r: Vec<char>)
    ensures
        r@ == key_to_user_id(),
{
    vec!['T', 'O', '_', 'U', 'S', 'E', 'R', '_', 'I', 'D']
}

/// The amount key, as a character vector.
pub fn key_amount_vec() -> (r: Vec<char>)
    ensures
        r@ == key_amount(),
{
    vec!['A', 'M', 'O', 'U', 'N', 'T']
}

/// The timestamp key, as a character vector.
pub fn key_timestamp_vec() -> (r: Vec<char>)
    ensures
        r@ == key_timestamp(),
{
    vec!['T', 'I', 'M', 'E', 'S', 'T', 'A', 'M', 'P']
}

/// The status key, as a character vector.
pub fn key_status_vec() -> (r: Vec<char>)
    ensures
        r@ == key_status(),
{
    vec!['S', 'T', 'A', 'T', 'U', 'S']
}

/// The description key, as a character vector.
pub fn key_description_vec() -> (r: Vec<char>)
    ensures
        r@ == key_description(),
{
    vec!['D', 'E', 'S', 'C', 'R', 'I', 'P', 'T', 'I', 'O', 'N']
}

/// The transaction status named by the given characters, if any.
pub fn status_of_chars(v: &Vec<char>) -> (r: Option<TxStatus>)
    ensures
        r == spec_status_of(v@),
{
    let suc = status_label_vec(&TxStatus::Success);
    let fai = status_label_vec(&TxStatus::Failure);
    let pen = status_label_vec(&TxStatus::Pending);
    if chars::chars_eq(v, &suc) {
        Some(TxStatus::Success)
    } else if chars::chars_eq(v, &fai) {
        Some(TxStatus::Failure)
    } else if chars::chars_eq(v, &pen) {
        Some(TxStatus::Pending)
    } else {
        None
    }
}

impl Transaction {
    /// Decodes a CSV document into records; see [`csv_format::from_read`].
    pub fn from_csv(input: &str) -> (r: Result<Vec<Transaction>, error::ParserError>)
        ensures
            csv_format::csv_decode_matches(input@, r),
    {
        csv_format::from_read(input)
    }

    /// Encodes records as a CSV document; see [`csv_format::write_to`].
    pub fn to_csv(transactions: &Vec<Transaction>) -> (r: String)
        ensures
            r@ == csv_format::spec_csv_encode(transactions.deep_view()),
    {
        csv_format::write_to(transactions)
    }

    /// Decodes a binary stream into records; see [`bin_format::from_read`].
    pub fn from_bin(input: &Vec<u8>) -> (r: Result<Vec<Transaction>, error::ParserError>)
        ensures
            bin_format::bin_decode_matches(input@, r),
            input@.len() >= 4 && input@.subrange(0, 4) != bin_format::spec_magic() ==> (r
                matches Err(error::ParserError::Format(m)) && m@ == "Invalid MAGIC header"@),
    {
        bin_format::from_read(input)
    }

    /// Encodes records as a binary stream; see [`bin_format::write_to`].
    pub fn to_bin(transactions: &Vec<Transaction>) -> (r: Result<Vec<u8>, error::ParserError>)
        ensures
            r is Ok <==> bin_format::bin_encodable(transactions.deep_view()),
            r matches Ok(out) ==> out@ == bin_format::spec_bin_encode(transactions.deep_view()),
    {
        bin_format::write_to(transactions)
    }

    /// Decodes a text document into records; see [`text_format::from_read`].
    pub fn from_text(input: &str) -> (r: Result<Vec<Transaction>, error::ParserError>)
        ensures
            text_format::text_decode_matches(input@, r),
    {
        text_format::from_read(input)
    }

    /// Encodes records as a text document; see [`text_format::write_to`].
    pub fn to_text(transactions: &Vec<Transaction>) -> (r: String)
        ensures
            r@ == text_format::spec_text_encode(transactions.deep_view()),
    {
        text_format::write_to(transactions)
    }
}

} // verus!
