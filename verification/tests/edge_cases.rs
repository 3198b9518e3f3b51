use ypbank::{Transaction, TxType, TxStatus};
use ypbank::error::ParserError;

fn tx(
    id: u64,
    ty: TxType,
    from: u64,
    to: u64,
    amount: i64,
    ts: u64,
    st: TxStatus,
    desc: &str,
) -> Transaction {
    Transaction {
        tx_id: id,
        tx_type: ty,
        from_user_id: from,
        to_user_id: to,
        amount,
        timestamp: ts,
        status: st,
        description: desc.to_string(),
    }
}

#[test]
fn end_to_end_single_deposit() {
    let txs = vec![tx(
        1001,
        TxType::Deposit,
        0,
        501,
        50000,
        1672531200000,
        TxStatus::Success,
        "Initial funding",
    )];
    // binary: 4 magic + 4 length + 8 + 1 + 8 + 8 + 8 + 8 + 1 + 4 fixed-width
    // bytes, plus the description's UTF-8 bytes ("Initial funding" is 15)
    let bin = Transaction::to_bin(&txs).unwrap();
    assert_eq!(bin.len(), 4 + 4 + 8 + 1 + 8 + 8 + 8 + 8 + 1 + 4 + "Initial funding".len());
    assert_eq!(Transaction::from_bin(&bin).unwrap(), txs);
    let csv = Transaction::to_csv(&txs);
    assert_eq!(Transaction::from_csv(&csv).unwrap(), txs);
    let text = Transaction::to_text(&txs);
    assert_eq!(Transaction::from_text(&text).unwrap(), txs);
}

#[test]
fn empty_inputs_decode_to_no_records() {
    assert_eq!(Transaction::from_csv("").unwrap(), vec![]);
    assert_eq!(Transaction::from_text("").unwrap(), vec![]);
    assert_eq!(Transaction::from_bin(&Vec::new()).unwrap(), vec![]);
}

#[test]
fn order_and_signs_preserved() {
    let txs = vec![
        tx(7, TxType::Withdrawal, 3, 0, -250, 5, TxStatus::Failure, ""),
        tx(1, TxType::Transfer, 2, 9, i64::MIN, 0, TxStatus::Pending, "second"),
        tx(2, TxType::Deposit, 0, 1, i64::MAX, u64::MAX, TxStatus::Success, "third"),
    ];
    let bin = Transaction::to_bin(&txs).unwrap();
    assert_eq!(Transaction::from_bin(&bin).unwrap(), txs);
    let csv = Transaction::to_csv(&txs);
    assert_eq!(Transaction::from_csv(&csv).unwrap(), txs);
    let text = Transaction::to_text(&txs);
    assert_eq!(Transaction::from_text(&text).unwrap(), txs);
}

#[test]
fn unicode_description_binary_roundtrip() {
    let txs = vec![tx(5, TxType::Deposit, 0, 1, 10, 20, TxStatus::Pending, "caf\u{e9} \u{1F600}")];
    let bin = Transaction::to_bin(&txs).unwrap();
    assert_eq!(Transaction::from_bin(&bin).unwrap(), txs);
}

#[test]
fn comment_and_blank_tolerance() {
    let with_comments = "# leading note\nTX_ID: 1\n# interleaved\nTX_TYPE: DEPOSIT\n\
        FROM_USER_ID: 0\nTO_USER_ID: 2\nAMOUNT: 100\nTIMESTAMP: 5\nSTATUS: SUCCESS\n\
        DESCRIPTION: \"x\"\n\n";
    let without_comments = "TX_ID: 1\nTX_TYPE: DEPOSIT\nFROM_USER_ID: 0\nTO_USER_ID: 2\n\
        AMOUNT: 100\nTIMESTAMP: 5\nSTATUS: SUCCESS\nDESCRIPTION: \"x\"\n\n";
    let a = Transaction::from_text(with_comments).unwrap();
    let b = Transaction::from_text(without_comments).unwrap();
    assert_eq!(a, b);
    assert_eq!(a.len(), 1);
    assert_eq!(a[0].description, "x");
}

#[test]
fn text_duplicate_key_last_wins() {
    let data = "TX_ID: 1\nTX_ID: 9\nTX_TYPE: TRANSFER\nFROM_USER_ID: 3\nTO_USER_ID: 4\n\
        AMOUNT: -5\nTIMESTAMP: 6\nSTATUS: PENDING\nDESCRIPTION: \"d\"\n";
    let txs = Transaction::from_text(data).unwrap();
    assert_eq!(txs.len(), 1);
    assert_eq!(txs[0].tx_id, 9);
}

#[test]
fn text_unknown_key_ignored() {
    let data = "TX_ID: 1\nNOTE: whatever\nTX_TYPE: DEPOSIT\nFROM_USER_ID: 0\nTO_USER_ID: 2\n\
        AMOUNT: 1\nTIMESTAMP: 2\nSTATUS: SUCCESS\nDESCRIPTION: \"\"\n";
    let txs = Transaction::from_text(data).unwrap();
    assert_eq!(txs.len(), 1);
    assert_eq!(txs[0].description, "");
}

#[test]
fn text_bad_number_is_parse_error() {
    let data = "TX_ID: xyz\n\n";
    match Transaction::from_text(data) {
        Err(ParserError::Parse(_)) => {}
        other => panic!("expected a parse error, got {:?}", other),
    }
}

#[test]
fn text_unknown_type_is_format_error() {
    let data = "TX_TYPE: LOAN\n\n";
    match Transaction::from_text(data) {
        Err(ParserError::Format(_)) => {}
        other => panic!("expected a format error, got {:?}", other),
    }
}

#[test]
fn text_description_keeps_inner_quotes() {
    let txs = vec![tx(3, TxType::Deposit, 0, 1, 5, 6, TxStatus::Success, "say \"hi\" twice")];
    let text = Transaction::to_text(&txs);
    assert_eq!(Transaction::from_text(&text).unwrap(), txs);
}

#[test]
fn padded_description_roundtrips() {
    let txs = vec![tx(4, TxType::Transfer, 1, 2, 5, 6, TxStatus::Pending, "  padded  ")];
    let text = Transaction::to_text(&txs);
    assert_eq!(Transaction::from_text(&text).unwrap(), txs);
    let csv = Transaction::to_csv(&txs);
    assert_eq!(Transaction::from_csv(&csv).unwrap(), txs);
}

#[test]
fn text_line_without_colon_is_format_error() {
    let data = "TX_ID 1\n\n";
    match Transaction::from_text(data) {
        Err(ParserError::Format(_)) => {}
        other => panic!("expected a format error, got {:?}", other),
    }
}

#[test]
fn csv_bad_number_is_parse_error() {
    let data = "TX_ID,TX_TYPE,FROM_USER_ID,TO_USER_ID,AMOUNT,TIMESTAMP,STATUS,DESCRIPTION\n\
        abc,DEPOSIT,0,2,100,5,SUCCESS,\"d\"";
    match Transaction::from_csv(data) {
        Err(ParserError::Parse(_)) => {}
        other => panic!("expected a parse error, got {:?}", other),
    }
}

#[test]
fn csv_unknown_type_is_format_error() {
    let data = "TX_ID,TX_TYPE,FROM_USER_ID,TO_USER_ID,AMOUNT,TIMESTAMP,STATUS,DESCRIPTION\n\
        1,LOAN,0,2,100,5,SUCCESS,\"d\"";
    match Transaction::from_csv(data) {
        Err(ParserError::Format(_)) => {}
        other => panic!("expected a format error, got {:?}", other),
    }
}

#[test]
fn csv_unknown_status_is_format_error() {
    let data = "TX_ID,TX_TYPE,FROM_USER_ID,TO_USER_ID,AMOUNT,TIMESTAMP,STATUS,DESCRIPTION\n\
        1,DEPOSIT,0,2,100,5,LOST,\"d\"";
    match Transaction::from_csv(data) {
        Err(ParserError::Format(_)) => {}
        other => panic!("expected a format error, got {:?}", other),
    }
}

#[test]
fn bin_truncated_record_is_format_error() {
    let mut bin = Transaction::to_bin(&vec![tx(
        1,
        TxType::Deposit,
        0,
        2,
        3,
        4,
        TxStatus::Success,
        "abc",
    )])
    .unwrap();
    bin.pop();
    match Transaction::from_bin(&bin) {
        Err(ParserError::Format(_)) => {}
        other => panic!("expected a format error, got {:?}", other),
    }
}

#[test]
fn bin_invalid_type_byte_is_format_error() {
    let mut bin = Transaction::to_bin(&vec![tx(
        1,
        TxType::Deposit,
        0,
        2,
        3,
        4,
        TxStatus::Success,
        "",
    )])
    .unwrap();
    // the type byte sits after the magic, the length field, and the id
    bin[16] = 9;
    match Transaction::from_bin(&bin) {
        Err(ParserError::Format(_)) => {}
        other => panic!("expected a format error, got {:?}", other),
    }
}

#[test]
fn bin_invalid_utf8_description_is_encoding_error() {
    let mut bin = Transaction::to_bin(&vec![tx(
        1,
        TxType::Deposit,
        0,
        2,
        3,
        4,
        TxStatus::Success,
        "a",
    )])
    .unwrap();
    let last = bin.len() - 1;
    bin[last] = 0xFF;
    match Transaction::from_bin(&bin) {
        Err(ParserError::Utf8(_)) => {}
        other => panic!("expected an encoding error, got {:?}", other),
    }
}

#[test]
fn bin_body_length_field_is_not_validated() {
    let mut bin = Transaction::to_bin(&vec![tx(
        1,
        TxType::Deposit,
        0,
        2,
        3,
        4,
        TxStatus::Success,
        "x",
    )])
    .unwrap();
    // corrupting the body-length prefix does not change the decode
    bin[4] = 0xAB;
    let txs = Transaction::from_bin(&bin).unwrap();
    assert_eq!(txs[0].tx_id, 1);
}

#[test]
fn csv_fields_tolerate_surrounding_spaces() {
    let data = "TX_ID,TX_TYPE,FROM_USER_ID,TO_USER_ID,AMOUNT,TIMESTAMP,STATUS,DESCRIPTION\n\
        \t1 , DEPOSIT ,0, 2 ,100, 5 , SUCCESS ,\"d\"";
    let txs = Transaction::from_csv(data).unwrap();
    assert_eq!(txs.len(), 1);
    assert_eq!(txs[0].tx_id, 1);
    assert_eq!(txs[0].status, TxStatus::Success);
}

#[test]
fn numbers_with_plus_sign_parse() {
    let data = "TX_ID,TX_TYPE,FROM_USER_ID,TO_USER_ID,AMOUNT,TIMESTAMP,STATUS,DESCRIPTION\n\
        +1,DEPOSIT,0,2,+100,5,SUCCESS,\"d\"";
    let txs = Transaction::from_csv(data).unwrap();
    assert_eq!(txs[0].tx_id, 1);
    assert_eq!(txs[0].amount, 100);
}

#[test]
fn numbers_out_of_range_are_parse_errors() {
    let data = "TX_ID,TX_TYPE,FROM_USER_ID,TO_USER_ID,AMOUNT,TIMESTAMP,STATUS,DESCRIPTION\n\
        18446744073709551616,DEPOSIT,0,2,100,5,SUCCESS,\"d\"";
    match Transaction::from_csv(data) {
        Err(ParserError::Parse(_)) => {}
        other => panic!("expected a parse error, got {:?}", other),
    }
}

#[test]
fn crlf_line_endings_accepted() {
    let data = "TX_ID,TX_TYPE,FROM_USER_ID,TO_USER_ID,AMOUNT,TIMESTAMP,STATUS,DESCRIPTION\r\n\
        1,DEPOSIT,0,2,100,5,SUCCESS,\"d\"\r\n";
    let txs = Transaction::from_csv(data).unwrap();
    assert_eq!(txs.len(), 1);
    assert_eq!(txs[0].description, "d");
}

#[test]
fn csv_exact_encoding() {
    let txs = vec![tx(1, TxType::Deposit, 0, 2, -100, 5, TxStatus::Success, "d")];
    let csv = Transaction::to_csv(&txs);
    assert_eq!(
        csv,
        "TX_ID,TX_TYPE,FROM_USER_ID,TO_USER_ID,AMOUNT,TIMESTAMP,STATUS,DESCRIPTION\n\
         1,DEPOSIT,0,2,-100,5,SUCCESS,\"d\"\n"
    );
}

#[test]
fn text_exact_encoding() {
    let txs = vec![tx(1, TxType::Transfer, 3, 4, 7, 9, TxStatus::Pending, "pay")];
    let text = Transaction::to_text(&txs);
    assert_eq!(
        text,
        "# Record 1\nTX_ID: 1\nTX_TYPE: TRANSFER\nFROM_USER_ID: 3\nTO_USER_ID: 4\n\
         AMOUNT: 7\nTIMESTAMP: 9\nSTATUS: PENDING\nDESCRIPTION: \"pay\"\n\n"
    );
}
