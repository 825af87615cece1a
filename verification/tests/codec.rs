use ledger::transaction::{DecodeError, Transaction};

#[test]
fn round_trip_simple() {
    let tx = Transaction::new(vec![65u8], vec![66u8], 10);
    let bytes = tx.encode();
    let back = Transaction::decode(bytes.as_slice()).unwrap();
    assert_eq!(back, tx);
    assert_eq!(back.sender_address, vec![65u8]);
    assert_eq!(back.recipient_address, vec![66u8]);
    assert_eq!(back.value, 10);
}

#[test]
fn round_trip_empty_addresses() {
    let tx = Transaction::new(Vec::new(), Vec::new(), 0);
    let bytes = tx.encode();
    let back = Transaction::decode(bytes.as_slice()).unwrap();
    assert_eq!(back, tx);
}

#[test]
fn round_trip_long_addresses() {
    let sender = vec![7u8; 300];
    let recipient = vec![9u8; 1000];
    let tx = Transaction::new(sender.clone(), recipient.clone(), u64::MAX);
    let bytes = tx.encode();
    let back = Transaction::decode(bytes.as_slice()).unwrap();
    assert_eq!(back.sender_address, sender);
    assert_eq!(back.recipient_address, recipient);
    assert_eq!(back.value, u64::MAX);
}

#[test]
fn encode_exact_bytes() {
    let tx = Transaction::new(vec![65u8], vec![66u8], 10);
    let bytes = tx.encode();
    let expected: Vec<u8> = vec![
        1, 0, 0, 0, // sender length, little-endian
        65, // sender
        1, 0, 0, 0, // recipient length, little-endian
        66, // recipient
        10, 0, 0, 0, 0, 0, 0, 0, // value, little-endian
    ];
    assert_eq!(bytes, expected);
}

#[test]
fn decode_exact_bytes() {
    let bytes: Vec<u8> = vec![
        2, 0, 0, 0, 1, 2, // sender
        1, 0, 0, 0, 3, // recipient
        7, 0, 0, 0, 0, 0, 0, 0, // value
    ];
    let tx = Transaction::decode(bytes.as_slice()).unwrap();
    assert_eq!(tx.sender_address, vec![1u8, 2u8]);
    assert_eq!(tx.recipient_address, vec![3u8]);
    assert_eq!(tx.value, 7);
}

#[test]
fn decode_rejects_truncated_input() {
    assert_eq!(Transaction::decode(&[]), Err(DecodeError));
    assert_eq!(Transaction::decode(&[1, 2, 3]), Err(DecodeError));
    // A sender length pointing past the end of the input.
    assert_eq!(Transaction::decode(&[200, 0, 0, 0, 1, 2, 3]), Err(DecodeError));
    // Valid lengths but the value field is cut short.
    assert_eq!(
        Transaction::decode(&[1, 0, 0, 0, 65, 1, 0, 0, 0, 66, 10, 0]),
        Err(DecodeError)
    );
}

#[test]
fn decode_rejects_trailing_bytes() {
    let tx = Transaction::new(vec![65u8], vec![66u8], 10);
    let mut bytes = tx.encode();
    bytes.push(0);
    assert_eq!(Transaction::decode(bytes.as_slice()), Err(DecodeError));
}

#[test]
fn transaction_equality_is_structural() {
    let a = Transaction::new(vec![1u8], vec![2u8], 3);
    let b = Transaction::new(vec![1u8], vec![2u8], 3);
    let c = Transaction::new(vec![1u8], vec![2u8], 4);
    assert_eq!(a, b);
    assert!(a != c);
}
