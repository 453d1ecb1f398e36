use txdecode::cursor::ByteCursor;
use txdecode::decoder::{decode, decode_bytes};
use txdecode::error::{DecodeError, HexError};
use txdecode::hashing::hash_raw_transaction;
use txdecode::model::{Amount, Txid};
use txdecode::readers::{read_amount, read_compact_size, read_script, read_txid, read_u32};

const EMPTY_TX: &str = "01000000000000000000";
const EMPTY_TX_ID: &str = "d21633ba23f70118185227be58a63527675641ad37967e2aa461559f577aec43";

fn one_in_one_out() -> String {
    let mut s = String::new();
    s.push_str("02000000");
    s.push_str("01");
    s.push_str(&"11".repeat(31));
    s.push_str("22");
    s.push_str("03000000");
    s.push_str("02ABcd");
    s.push_str("feffffff");
    s.push_str("01");
    s.push_str("00f2052a01000000");
    s.push_str("0151");
    s.push_str("e8030000");
    s
}

#[test]
fn test_read_compact_size() {
    let bytes = [1_u8];
    let mut c = ByteCursor::new(&bytes);
    assert_eq!(read_compact_size(&mut c), Ok(1_u64));

    let bytes = [253_u8, 0, 1];
    let mut c = ByteCursor::new(&bytes);
    assert_eq!(read_compact_size(&mut c), Ok(256_u64));

    let bytes = [254_u8, 0, 0, 0, 1];
    let mut c = ByteCursor::new(&bytes);
    assert_eq!(read_compact_size(&mut c), Ok(256_u64.pow(3)));

    let bytes = [255_u8, 0, 0, 0, 0, 0, 0, 0, 1];
    let mut c = ByteCursor::new(&bytes);
    assert_eq!(read_compact_size(&mut c), Ok(256_u64.pow(7)));

    let decoded = hex::decode("fd204e").unwrap();
    let mut c = ByteCursor::new(&decoded);
    assert_eq!(read_compact_size(&mut c), Ok(20_000_u64));
}

#[test]
fn compact_size_single_byte_is_its_value() {
    for b in [0_u8, 1, 100, 252] {
        let bytes = [b, 0xff, 0xff];
        let mut c = ByteCursor::new(&bytes);
        assert_eq!(read_compact_size(&mut c), Ok(b as u64));
        assert_eq!(c.position(), 1);
    }
}

#[test]
fn compact_size_consumes_prefix_and_width() {
    let bytes = [254_u8, 1, 0, 0, 0, 7];
    let mut c = ByteCursor::new(&bytes);
    assert_eq!(read_compact_size(&mut c), Ok(1));
    assert_eq!(c.position(), 5);
    assert_eq!(c.remaining(), 1);
}

#[test]
fn compact_size_non_minimal_accepted() {
    let bytes = [253_u8, 1, 0];
    let mut c = ByteCursor::new(&bytes);
    assert_eq!(read_compact_size(&mut c), Ok(1));
}

#[test]
fn compact_size_largest_value() {
    let bytes = [255_u8; 9];
    let mut c = ByteCursor::new(&bytes);
    assert_eq!(read_compact_size(&mut c), Ok(u64::MAX));
}

#[test]
fn compact_size_short_read_fails() {
    let bytes: [u8; 0] = [];
    let mut c = ByteCursor::new(&bytes);
    assert_eq!(
        read_compact_size(&mut c),
        Err(DecodeError::InsufficientData { offset: 0, requested: 1 })
    );

    let bytes = [254_u8, 1, 0];
    let mut c = ByteCursor::new(&bytes);
    assert_eq!(
        read_compact_size(&mut c),
        Err(DecodeError::InsufficientData { offset: 1, requested: 4 })
    );
}

#[test]
fn read_exact_is_strict() {
    let bytes = [1_u8, 2, 3];
    let mut c = ByteCursor::new(&bytes);
    assert_eq!(c.read_exact(2), Ok(&bytes[0..2]));
    assert_eq!(c.read_exact(2), Err(DecodeError::InsufficientData { offset: 2, requested: 2 }));
    assert_eq!(c.position(), 2);
    assert_eq!(c.read_exact(1), Ok(&bytes[2..3]));
    assert_eq!(c.read_exact(0), Ok(&bytes[3..3]));
}

#[test]
fn read_u32_is_little_endian() {
    let bytes = [0x78_u8, 0x56, 0x34, 0x12, 0xff, 0xff, 0xff];
    let mut c = ByteCursor::new(&bytes);
    assert_eq!(read_u32(&mut c), Ok(0x1234_5678));
    assert_eq!(
        read_u32(&mut c),
        Err(DecodeError::InsufficientData { offset: 4, requested: 4 })
    );
}

#[test]
fn read_amount_is_little_endian() {
    let bytes = [0x00_u8, 0xf2, 0x05, 0x2a, 0x01, 0, 0, 0];
    let mut c = ByteCursor::new(&bytes);
    assert_eq!(read_amount(&mut c).map(|a| a.to_sat()), Ok(5_000_000_000));
    assert_eq!(Amount::from_sat(7).to_sat(), 7);
}

#[test]
fn read_txid_keeps_storage_order() {
    let mut bytes = [0_u8; 33];
    for (i, b) in bytes.iter_mut().enumerate() {
        *b = i as u8;
    }
    let mut c = ByteCursor::new(&bytes);
    let txid = read_txid(&mut c).unwrap();
    let mut expected = [0_u8; 32];
    expected.copy_from_slice(&bytes[0..32]);
    assert_eq!(txid.to_bytes(), expected);
    assert_eq!(c.position(), 32);
}

#[test]
fn read_script_renders_lowercase_hex() {
    let bytes = [3_u8, 0xAB, 0x01, 0xff, 0x99];
    let mut c = ByteCursor::new(&bytes);
    assert_eq!(read_script(&mut c), Ok("ab01ff".to_string()));
    assert_eq!(c.position(), 4);

    let bytes = [0_u8];
    let mut c = ByteCursor::new(&bytes);
    assert_eq!(read_script(&mut c), Ok(String::new()));
}

#[test]
fn read_script_longer_than_buffer_fails() {
    let bytes = [5_u8, 1, 2];
    let mut c = ByteCursor::new(&bytes);
    assert_eq!(
        read_script(&mut c),
        Err(DecodeError::InsufficientData { offset: 1, requested: 5 })
    );
}

#[test]
fn txid_is_shown_reversed() {
    let mut bytes = [0_u8; 32];
    bytes[0] = 0x01;
    bytes[31] = 0xAB;
    let txid = Txid::from_bytes(bytes);
    let shown = txid.to_hex();
    assert_eq!(shown.len(), 64);
    assert!(shown.starts_with("ab00"));
    assert!(shown.ends_with("0001"));
}

#[test]
fn hash_is_double_sha256() {
    let raw = hex::decode(EMPTY_TX).unwrap();
    assert_eq!(hash_raw_transaction(&raw).to_hex(), EMPTY_TX_ID);
}

#[test]
fn decode_empty_transaction() {
    let tx = decode(EMPTY_TX.to_string()).unwrap();
    assert_eq!(tx.version, 1);
    assert!(tx.inputs.is_empty());
    assert!(tx.outputs.is_empty());
    assert_eq!(tx.lock_time, 0);
    assert_eq!(tx.transaction_id.to_hex(), EMPTY_TX_ID);
}

#[test]
fn decode_one_input_one_output() {
    let hex = one_in_one_out();
    let tx = decode(hex.clone()).unwrap();
    assert_eq!(tx.version, 2);
    assert_eq!(tx.inputs.len(), 1);
    let input = &tx.inputs[0];
    let mut prev = [0x11_u8; 32];
    prev[31] = 0x22;
    assert_eq!(input.txid.to_bytes(), prev);
    assert_eq!(input.output_index, 3);
    assert_eq!(input.script_sig, "abcd");
    assert_eq!(input.sequence, 0xffff_fffe);
    assert_eq!(tx.outputs.len(), 1);
    assert_eq!(tx.outputs[0].amount.to_sat(), 5_000_000_000);
    assert_eq!(tx.outputs[0].script_pubkey, "51");
    assert_eq!(tx.lock_time, 1000);
    let raw = hex::decode(&hex).unwrap();
    assert_eq!(tx.transaction_id.to_bytes(), hash_raw_transaction(&raw).to_bytes());
}

#[test]
fn decode_ignores_trailing_bytes_but_hashes_them() {
    let mut hex = EMPTY_TX.to_string();
    hex.push_str("beef");
    let tx = decode(hex).unwrap();
    assert_eq!(tx.version, 1);
    assert_eq!(tx.lock_time, 0);
    assert_ne!(tx.transaction_id.to_hex(), EMPTY_TX_ID);
}

#[test]
fn decode_accepts_uppercase_hex() {
    let lower = decode(one_in_one_out().to_lowercase()).unwrap();
    let upper = decode(one_in_one_out().to_uppercase()).unwrap();
    assert_eq!(lower.transaction_id.to_bytes(), upper.transaction_id.to_bytes());
    assert_eq!(upper.inputs[0].script_sig, "abcd");
}

#[test]
fn decode_odd_length_is_hex_error() {
    assert_eq!(
        decode("0100000".to_string()).err(),
        Some(DecodeError::HexDecode(HexError::OddLength))
    );
}

#[test]
fn decode_non_hex_character_is_hex_error() {
    assert_eq!(
        decode("01000g00000000000000".to_string()).err(),
        Some(DecodeError::HexDecode(HexError::InvalidCharacter { c: 'g', index: 5 }))
    );
    assert!(matches!(
        decode("zz".to_string()),
        Err(DecodeError::HexDecode(_))
    ));
}

#[test]
fn decode_truncated_input_is_insufficient_data() {
    assert_eq!(
        decode("0100000001".to_string()).err(),
        Some(DecodeError::InsufficientData { offset: 5, requested: 32 })
    );
}

#[test]
fn decode_truncated_lock_time_is_insufficient_data() {
    assert_eq!(
        decode("010000000000000000".to_string()).err(),
        Some(DecodeError::InsufficientData { offset: 6, requested: 4 })
    );
}

#[test]
fn decode_empty_string_is_insufficient_data() {
    assert_eq!(
        decode(String::new()).err(),
        Some(DecodeError::InsufficientData { offset: 0, requested: 4 })
    );
}

#[test]
fn decode_huge_input_count_fails_cleanly() {
    assert_eq!(
        decode("01000000ffffffffffffffffff".to_string()).err(),
        Some(DecodeError::InsufficientData { offset: 13, requested: 32 })
    );
}

#[test]
fn decode_is_deterministic() {
    let hex = one_in_one_out();
    let a = decode(hex.clone()).unwrap();
    let b = decode(hex).unwrap();
    assert_eq!(a.transaction_id.to_bytes(), b.transaction_id.to_bytes());
    assert_eq!(a.version, b.version);
    assert_eq!(a.inputs[0].script_sig, b.inputs[0].script_sig);
    assert_eq!(a.outputs[0].amount.to_sat(), b.outputs[0].amount.to_sat());
    assert_eq!(a.lock_time, b.lock_time);
}

#[test]
fn decode_bytes_matches_decode() {
    let raw = hex::decode(EMPTY_TX).unwrap();
    let tx = decode_bytes(&raw).unwrap();
    assert_eq!(tx.transaction_id.to_hex(), EMPTY_TX_ID);
}
