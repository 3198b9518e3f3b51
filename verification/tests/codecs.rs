use ypbank::{Transaction, TxType, TxStatus};
use ypbank::error::ParserError;

fn create_test_txs() -> Vec<Transaction> {
    vec![
        Transaction {
            tx_id: 1001,
            tx_type: TxType::Deposit,
            from_user_id: 0,
            to_user_id: 501,
            amount: 50000,
            timestamp: 1672531200000,
            status: TxStatus::Success,
            description: "Initial funding".to_string(),
        },
    ]
}

#[test]
fn test_csv_description_with_comma() {
    let data = "TX_ID,TX_TYPE,FROM_USER_ID,TO_USER_ID,AMOUNT,TIMESTAMP,STATUS,DESCRIPTION\n\
        1,DEPOSIT,0,2,100,1633036800000,SUCCESS,\"Pay, with comma\"";
    let txs = Transaction::from_csv(data).unwrap();
    assert_eq!(txs.len(), 1);
    assert_eq!(txs[0].description, "Pay, with comma");
}

#[test]
fn test_text_roundtrip() {
    let txs = create_test_txs();
    let buffer = Transaction::to_text(&txs);
    let decoded = Transaction::from_text(&buffer).unwrap();
    assert_eq!(txs, decoded);
}

#[test]
fn test_csv_roundtrip() {
    let txs = create_test_txs();
    let buffer = Transaction::to_csv(&txs);
    let decoded = Transaction::from_csv(&buffer).unwrap();
    assert_eq!(txs, decoded);
}

#[test]
fn test_bin_roundtrip() {
    let txs = create_test_txs();
    let buffer = Transaction::to_bin(&txs).unwrap();
    let decoded = Transaction::from_bin(&buffer).unwrap();
    assert_eq!(txs, decoded);
}

#[test]
fn test_invalid_magic_bin() {
    let data = b"NOT_MAGIC_12345678".to_vec();
    let result = Transaction::from_bin(&data);
    match result {
        Err(ParserError::Format(msg)) => assert!(msg.contains("MAGIC")),
        Err(e) => panic!("Expected Format error, got {:?}", e),
        Ok(_) => panic!("Expected error for invalid MAGIC"),
    }
}

#[test]
fn test_csv_missing_fields() {
    let data = "TX_ID,TX_TYPE\n1001,DEPOSIT";
    let result = Transaction::from_csv(data);
    assert!(result.is_err());
}

#[test]
fn test_text_missing_required_field() {
    let data = "TX_ID: 1001\nTX_TYPE: DEPOSIT\n\n";
    let result = Transaction::from_text(data);
    assert!(result.is_err());
}

#[test]
fn test_cross_format_roundtrip() {
    let txs = create_test_txs();
    let csv = Transaction::to_csv(&txs);
    let from_csv = Transaction::from_csv(&csv).unwrap();
    let bin = Transaction::to_bin(&from_csv).unwrap();
    let from_bin = Transaction::from_bin(&bin).unwrap();
    let text = Transaction::to_text(&from_bin);
    let from_text = Transaction::from_text(&text).unwrap();
    assert_eq!(txs, from_text);
}

#[test]
fn lib_test_text_roundtrip() {
    let txs = create_test_txs();
    let buffer = ypbank::text_format::write_to(&txs);
    let decoded = ypbank::text_format::from_read(&buffer).unwrap();
    assert_eq!(txs, decoded);
}

#[test]
fn lib_test_csv_roundtrip() {
    let txs = create_test_txs();
    let buffer = ypbank::csv_format::write_to(&txs);
    let decoded = ypbank::csv_format::from_read(&buffer).unwrap();
    assert_eq!(txs, decoded);
}

#[test]
fn lib_test_bin_roundtrip() {
    let txs = create_test_txs();
    let buffer = ypbank::bin_format::write_to(&txs).unwrap();
    let decoded = ypbank::bin_format::from_read(&buffer).unwrap();
    assert_eq!(txs, decoded);
}
