use orbis::big_endian::{BigEndianU256, BigEndianU32, BigEndianU64, DecodeError};
use sp_core::U256;
use parity_scale_codec::Encode;

#[test]
fn big_endian_encoded_order_matches_numeric_order() {
    let values = [0u32, 1, 255, 256, 512, 65536, u32::MAX];
    let encoded = values.iter().map(|&v| BigEndianU32(v).encode()).collect::<Vec<_>>();
    for w in encoded.windows(2) {
        assert!(
            w[0] < w[1],
            "BigEndianU32 encoded order must match numeric order: {:?} < {:?}",
            w[0],
            w[1],
        );
    }
}

#[test]
fn big_endian_u32_encodes_in_big_endian() {
    let value = BigEndianU32(0x01020304);
    let encoded = value.encode();
    assert_eq!(encoded, vec![0x01, 0x02, 0x03, 0x04]);
}

#[test]
fn big_endian_u32_decodes_from_big_endian() {
    let bytes = [0x01, 0x02, 0x03, 0x04];
    let decoded = BigEndianU32::decode(&bytes[..]).unwrap();
    assert_eq!(decoded.0, 0x01020304);
}

#[test]
fn big_endian_u32_lexicographic_order_matches_numeric_order() {
    let values = [0u32, 1, 255, 256, 257, 65535, 65536, u32::MAX - 1, u32::MAX];
    let mut encoded: Vec<_> = values.iter().map(|&v| BigEndianU32(v).encode()).collect();
    let original_order = encoded.clone();
    encoded.sort();
    assert_eq!(
        encoded, original_order,
        "Lexicographic order of encoded BigEndianU32 must match numeric order"
    );
}

#[test]
fn big_endian_u32_max_encoded_len() {
    assert_eq!(BigEndianU32::max_encoded_len(), 4);
}

#[test]
fn le_u32_encoded_order_does_not_match_numeric_order() {
    let a = 1u32.encode();
    let b = 256u32.encode();
    assert!(b < a, "LE u32 encoding must sort 256 before 1 (the bug)");
}

#[test]
fn encode_to_matches_encode() {
    for v in [0u32, 1, 256, u32::MAX] {
        let via_encode = BigEndianU32(v).encode();
        let mut via_encode_to = Vec::new();
        BigEndianU32(v).encode_to(&mut via_encode_to);
        assert_eq!(via_encode, via_encode_to);
    }
}

#[test]
fn roundtrip() {
    for v in [0u32, 1, 255, 256, 65535, u32::MAX] {
        let encoded = BigEndianU32(v).encode();
        let decoded = BigEndianU32::decode(&encoded[..]).unwrap();
        assert_eq!(decoded.0, v);
    }
}

#[test]
fn big_endian_u64_roundtrip_and_order() {
    let values = [0u64, 1, 255, 256, u32::MAX as u64, u64::MAX - 1, u64::MAX];
    let encoded: Vec<_> = values.iter().map(|&v| BigEndianU64(v).encode()).collect();
    for w in encoded.windows(2) {
        assert!(w[0] < w[1], "BigEndianU64 must sort in numeric order");
    }
    for v in values {
        let bytes = BigEndianU64(v).encode();
        let decoded = BigEndianU64::decode(&bytes[..]).unwrap();
        assert_eq!(decoded.0, v);
    }
    assert_eq!(BigEndianU64::max_encoded_len(), 8);
}

#[test]
fn decode_rejects_short_input() {
    assert_eq!(BigEndianU32::decode(&[1u8, 2, 3][..]), Err(DecodeError::NotEnoughData));
    assert_eq!(BigEndianU64::decode(&[0u8; 7][..]), Err(DecodeError::NotEnoughData));
}

#[test]
fn decode_leaves_trailing_bytes() {
    let decoded = BigEndianU32::decode(&[0u8, 0, 1, 0, 9, 9][..]).unwrap();
    assert_eq!(decoded.0, 256);
}

#[test]
fn conversions_keep_the_value() {
    let b: BigEndianU32 = 7u32.into();
    let v: u32 = b.into();
    assert_eq!(v, 7);
    let b64: BigEndianU64 = 9u64.into();
    let v64: u64 = b64.into();
    assert_eq!(v64, 9);
    assert_eq!(BigEndianU64(0x0102030405060708).encode(), vec![1, 2, 3, 4, 5, 6, 7, 8]);
}

fn u256_values() -> [U256; 8] {
    [
        U256::zero(),
        U256::one(),
        U256::from(u64::MAX),
        U256::from(1u64) << 128,
        U256::from(1u64) << 200,
        U256::MAX - U256::one(),
        U256::MAX,
        U256::from(1234567890u64) * U256::from(987654321u64),
    ]
}

fn key(v: U256) -> BigEndianU256 {
    BigEndianU256(v.0)
}

#[test]
fn big_endian_u256_roundtrip() {
    for v in u256_values() {
        let encoded = key(v).encode();
        let decoded = BigEndianU256::decode(&encoded[..]).unwrap();
        assert_eq!(U256(decoded.0), v);
    }
}

#[test]
fn big_endian_u256_encodes_in_big_endian() {
    // 1u256 must encode as 0x00..0001 (MSB first).
    let encoded = key(U256::one()).encode();
    assert_eq!(encoded.len(), 32);
    let mut expected = vec![0u8; 32];
    expected[31] = 1;
    assert_eq!(encoded, expected);
}

#[test]
fn big_endian_u256_lexicographic_order_matches_numeric_order() {
    let mut vs = u256_values();
    // Sort numerically.
    vs.sort();
    let encoded: Vec<_> = vs.iter().map(|v| key(*v).encode()).collect();
    let mut sorted = encoded.clone();
    sorted.sort();
    assert_eq!(encoded, sorted, "BigEndianU256 encoded order must match numeric order of the inner U256");
}

#[test]
fn big_endian_u256_max_encoded_len() {
    assert_eq!(BigEndianU256::max_encoded_len(), 32);
}

#[test]
fn big_endian_u256_encoding_is_the_u256_big_endian_bytes() {
    for v in u256_values() {
        assert_eq!(key(v).encode(), v.to_big_endian().to_vec());
        let mut dest = vec![9u8];
        key(v).encode_to(&mut dest);
        assert_eq!(dest[0], 9);
        assert_eq!(&dest[1..], &v.to_big_endian()[..]);
        assert_eq!(U256(BigEndianU256::from_be_bytes(&v.to_big_endian()).0), v);
    }
    let limbs = key(U256::from(0x0102u64) << 240).encode();
    assert_eq!(&limbs[..2], &[1u8, 2]);
    assert!(limbs[2..].iter().all(|b| *b == 0));
}

#[test]
fn big_endian_u256_compares_numerically() {
    let vs = u256_values();
    for a in vs {
        for b in vs {
            assert_eq!(key(a).lt(&key(b)), a < b);
        }
    }
}

#[test]
fn big_endian_u256_needs_32_bytes() {
    assert_eq!(BigEndianU256::decode(&[0u8; 31]), Err(DecodeError::NotEnoughData));
    let mut long = vec![0u8; 33];
    long[31] = 7;
    long[32] = 9;
    assert_eq!(U256(BigEndianU256::decode(&long).unwrap().0), U256::from(7u64));
}
