use astroblasto_multiplayer::HashMapCodec;
use astroblasto_multiplayer::hash_map_codec::CodecError;
use astroblasto_multiplayer::hash_map_codec::MapEntry;

fn entry(key: &str, value: f64) -> MapEntry {
    MapEntry { key: key.as_bytes().to_vec(), value: value.to_bits() }
}

#[test]
fn test_basic() {
    let codec = HashMapCodec;

    let original_map = vec![entry("x", 1.0)];

    let buf = codec.encode(&original_map).unwrap();

    let decoded_map = codec.decode(&buf).unwrap();
    assert_eq!(original_map, decoded_map);
}

#[test]
fn encode_single_entry_big_endian_form() {
    let codec = HashMapCodec;
    let buf = codec.encode(&vec![entry("x", 1.0)]).unwrap();
    let expected: Vec<u8> = vec![
        0x00, 0x00, 0x00, 0x01, // one entry
        0x00, 0x00, 0x00, 0x01, // key length 1
        0x78, // "x"
        0x3F, 0xF0, 0x00, 0x00, 0x00, 0x00, 0x00, 0x00, // 1.0 as a big-endian double
    ];
    assert_eq!(buf, expected);
    let decoded = codec.decode(&buf).unwrap();
    assert_eq!(decoded, vec![entry("x", 1.0)]);
}

#[test]
fn encode_empty_map() {
    let codec = HashMapCodec;
    let buf = codec.encode(&Vec::new()).unwrap();
    assert_eq!(buf, vec![0u8, 0, 0, 0]);
    let decoded = codec.decode(&buf).unwrap();
    assert!(decoded.is_empty());
}

#[test]
fn round_trip_many_entries() {
    let codec = HashMapCodec;
    let entries = vec![
        entry("", 0.0),
        entry("velocity", -250.25),
        entry("ip-192.168.0.17:1234", 0.0),
        entry("score", 12.0),
        MapEntry { key: vec![0xC3, 0xA9], value: f64::NAN.to_bits() }, // "é" in UTF-8
    ];
    let buf = codec.encode(&entries).unwrap();
    let decoded = codec.decode(&buf).unwrap();
    assert_eq!(entries, decoded);
}

#[test]
fn encode_is_deterministic() {
    let codec = HashMapCodec;
    let entries = vec![entry("a", 3.5), entry("b", -7.0)];
    let buf1 = codec.encode(&entries).unwrap();
    let buf2 = codec.encode(&entries).unwrap();
    assert_eq!(buf1, buf2);
}

#[test]
fn long_key_uses_all_length_bytes() {
    let codec = HashMapCodec;
    let long_key = MapEntry { key: vec![b'k'; 300], value: 2.0f64.to_bits() };
    let buf = codec.encode(&vec![long_key.clone()]).unwrap();
    assert_eq!(&buf[0..4], &[0, 0, 0, 1]);
    assert_eq!(&buf[4..8], &[0, 0, 1, 44]); // key length 300, big-endian
    assert_eq!(buf.len(), 4 + 4 + 300 + 8);
    let decoded = codec.decode(&buf).unwrap();
    assert_eq!(decoded, vec![long_key]);
}

#[test]
fn decode_rejects_short_header() {
    let codec = HashMapCodec;
    assert_eq!(codec.decode(&vec![]).unwrap_err(), CodecError::Malformed);
    assert_eq!(codec.decode(&vec![0, 0, 1]).unwrap_err(), CodecError::Malformed);
}

#[test]
fn decode_rejects_truncated_entry() {
    let codec = HashMapCodec;
    // claims one entry, but nothing follows the count
    assert_eq!(codec.decode(&vec![0, 0, 0, 1]).unwrap_err(), CodecError::Malformed);
    // claims a 1-byte key, but the value bytes are missing
    let buf = vec![0, 0, 0, 1, 0, 0, 0, 1, 0x78, 0x3F, 0xF0];
    assert_eq!(codec.decode(&buf).unwrap_err(), CodecError::Malformed);
}

#[test]
fn decode_rejects_trailing_bytes() {
    let codec = HashMapCodec;
    let mut buf = codec.encode(&vec![entry("x", 1.0)]).unwrap();
    buf.push(0);
    assert_eq!(codec.decode(&buf).unwrap_err(), CodecError::Malformed);
}

#[test]
fn decode_rejects_over_cap_count() {
    let codec = HashMapCodec;
    // count 2^31 exceeds the cap of 2^31 - 1
    let buf = vec![0x80, 0, 0, 0];
    assert_eq!(codec.decode(&buf).unwrap_err(), CodecError::Malformed);
}

#[test]
fn decode_rejects_over_cap_key_length() {
    let codec = HashMapCodec;
    // one entry whose claimed key length is 2^31
    let buf = vec![0, 0, 0, 1, 0x80, 0, 0, 0];
    assert_eq!(codec.decode(&buf).unwrap_err(), CodecError::Malformed);
}

#[test]
fn decode_rejects_keys_that_are_not_utf8() {
    let codec = HashMapCodec;
    let value_bytes = 1.0f64.to_bits().to_be_bytes();

    // a lone 0xFF can never appear in UTF-8
    let mut buf = vec![0, 0, 0, 1, 0, 0, 0, 1, 0xFF];
    buf.extend_from_slice(&value_bytes);
    assert_eq!(codec.decode(&buf).unwrap_err(), CodecError::Malformed);

    // a bare continuation byte
    let mut buf = vec![0, 0, 0, 1, 0, 0, 0, 1, 0x80];
    buf.extend_from_slice(&value_bytes);
    assert_eq!(codec.decode(&buf).unwrap_err(), CodecError::Malformed);

    // the overlong two-byte form of '/'
    let mut buf = vec![0, 0, 0, 1, 0, 0, 0, 2, 0xC0, 0xAF];
    buf.extend_from_slice(&value_bytes);
    assert_eq!(codec.decode(&buf).unwrap_err(), CodecError::Malformed);

    // an encoded UTF-16 surrogate
    let mut buf = vec![0, 0, 0, 1, 0, 0, 0, 3, 0xED, 0xA0, 0x80];
    buf.extend_from_slice(&value_bytes);
    assert_eq!(codec.decode(&buf).unwrap_err(), CodecError::Malformed);

    // a truncated multi-byte sequence inside an otherwise complete entry
    let mut buf = vec![0, 0, 0, 1, 0, 0, 0, 2, 0xC3, 0x28];
    buf.extend_from_slice(&value_bytes);
    assert_eq!(codec.decode(&buf).unwrap_err(), CodecError::Malformed);
}

#[test]
fn decode_accepts_multibyte_utf8_keys() {
    let codec = HashMapCodec;
    let key = "héllo✓𝄞"; // two-, three- and four-byte sequences
    let entries = vec![MapEntry { key: key.as_bytes().to_vec(), value: 4.5f64.to_bits() }];
    let buf = codec.encode(&entries).unwrap();
    assert_eq!(codec.decode(&buf).unwrap(), entries);
}
