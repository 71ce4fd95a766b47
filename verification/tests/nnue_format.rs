//! Network files: headers, plain arrays and packed ones.
use morstilia::nnue::format::{Reader, LEB128_MAGIC, VERSION};
use morstilia::nnue::network::load_from;
use morstilia::nnue::LoadError;

fn reader(bytes: &[u8]) -> Reader<'_> {
    Reader::new(bytes)
}

fn leb_block<I: IntoIterator<Item = i32>>(values: I) -> Vec<u8> {
    let mut payload = Vec::new();
    for v in values {
        let mut value = v as i32;
        loop {
            let byte = (value & 0x7f) as u8;
            value >>= 7;
            if (byte & 0x40) == 0 {
                if value == 0 {
                    payload.push(byte);
                    break;
                }
            } else if value == -1 {
                payload.push(byte);
                break;
            }
            payload.push(byte | 0x80);
        }
    }
    let mut out = Vec::new();
    out.extend_from_slice(&LEB128_MAGIC);
    out.extend_from_slice(&(payload.len() as u32).to_le_bytes());
    out.extend_from_slice(&payload);
    out
}

#[test]
fn leb128_round_trips_positive_negative_and_extreme_values() {
    // i16 range edges plus values needing 2 and 3 bytes.
    let values: [i32; 10] = [0, 1, -1, 63, 64, -64, -65, 8191, -8192, i16::MIN as i32];
    let block = leb_block(values);
    let mut r = reader(&block);
    let mut out = vec![0i16; values.len()];
    r.read_leb128(&mut out, "test").unwrap();
    assert_eq!(out, values.map(|v| v as i16));
}

#[test]
fn leb128_i32_uses_more_than_two_bytes() {
    let values: [i32; 6] = [0, 1, -1, 1 << 20, -(1 << 20), 0x3fff_ffff];
    let block = leb_block(values);
    let mut r = reader(&block);
    let mut out = vec![0i32; values.len()];
    r.read_leb128(&mut out, "test").unwrap();
    assert_eq!(out, values);
}

#[test]
fn leb128_rejects_a_missing_magic_string() {
    let mut r = reader(b"NOT_COMPRESSED_LEB128\0\0\0\0");
    let mut out = [0i16; 1];
    let err = r.read_leb128(&mut out, "test").unwrap_err();
    assert!(err.message().contains("COMPRESSED_LEB128"), "{}", err.message());
}

#[test]
fn leb128_rejects_a_wrong_byte_count() {
    // Claim one byte more than the payload holds.
    let mut block = leb_block([1i32, 2]);
    let n = u32::from_le_bytes([
        block[LEB128_MAGIC.len()],
        block[LEB128_MAGIC.len() + 1],
        block[LEB128_MAGIC.len() + 2],
        block[LEB128_MAGIC.len() + 3],
    ]);
    block[LEB128_MAGIC.len()] = (n + 1) as u8;
    let mut r = reader(&block);
    let mut out = [0i16; 2];
    let err = r.read_leb128(&mut out, "test").unwrap_err();
    assert!(err.message().contains("shorter than declared"), "{}", err.message());

    // ... and one byte less.
    let mut block = leb_block([1i32, 2]);
    block[LEB128_MAGIC.len()] = (n - 1) as u8;
    let mut r = reader(&block);
    let err = r.read_leb128::<i16>(&mut out, "test").unwrap_err();
    assert!(err.message().contains("longer than declared"), "{}", err.message());
}

#[test]
fn leb128_rejects_a_truncated_payload() {
    let block = leb_block([1i32, 2, 3]);
    let mut r = reader(&block[..block.len() - 1]);
    let mut out = [0i16; 3];
    let err = r.read_leb128(&mut out, "test").unwrap_err();
    assert!(err.message().contains("ended too early"), "{}", err.message());
}

#[test]
fn header_rejects_a_bad_version_or_hash() {
    let mut bytes = Vec::new();
    bytes.extend_from_slice(&0x1234_5678u32.to_le_bytes());
    bytes.extend_from_slice(&0xA85B_2205u32.to_le_bytes());
    bytes.extend_from_slice(&0u32.to_le_bytes());
    let mut r = reader(&bytes);
    let err = r.read_header(0xA85B_2205).unwrap_err();
    assert!(err.message().contains("version"), "{}", err.message());

    let mut bytes = Vec::new();
    bytes.extend_from_slice(&VERSION.to_le_bytes());
    bytes.extend_from_slice(&0xDEAD_BEEFu32.to_le_bytes());
    bytes.extend_from_slice(&0u32.to_le_bytes());
    let mut r = reader(&bytes);
    let err = r.read_header(0xA85B_2205).unwrap_err();
    assert!(err.message().contains("architecture hash"), "{}", err.message());
}

#[test]
fn header_round_trips_the_description() {
    let desc = "nn-1a298aa575a0.nnue";
    let mut bytes = Vec::new();
    bytes.extend_from_slice(&VERSION.to_le_bytes());
    bytes.extend_from_slice(&0xA85B_2205u32.to_le_bytes());
    bytes.extend_from_slice(&(desc.len() as u32).to_le_bytes());
    bytes.extend_from_slice(desc.as_bytes());
    let mut r = reader(&bytes);
    let h = r.read_header(0xA85B_2205).unwrap();
    assert_eq!(h.network_hash, 0xA85B_2205);
    assert_eq!(h.description, desc);
    r.expect_eof("test").unwrap();
}

#[test]
fn trailing_data_is_rejected() {
    let mut bytes = Vec::new();
    bytes.extend_from_slice(&VERSION.to_le_bytes());
    bytes.extend_from_slice(&0xA85B_2205u32.to_le_bytes());
    bytes.extend_from_slice(&0u32.to_le_bytes());
    bytes.push(0xff);
    let mut r = reader(&bytes);
    r.read_header(0xA85B_2205).unwrap();
    let err = r.expect_eof("test").unwrap_err();
    assert!(err.message().contains("trailing data"), "{}", err.message());
}

#[test]
fn raw_little_endian_arrays_are_decoded() {
    let bytes: Vec<u8> = (0..16u8).collect();
    let mut r = reader(&bytes);
    let mut out = [0i16; 8];
    r.read_le_array(&mut out, "test").unwrap();
    for (k, v) in out.iter().enumerate() {
        assert_eq!(*v, i16::from_le_bytes([bytes[2 * k], bytes[2 * k + 1]]));
    }
}

#[test]
fn truncated_raw_array_is_an_error() {
    let r = reader(&[1u8, 2, 3]);
    let mut r = r;
    let mut out = [0i32; 4];
    let err = r.read_le_array(&mut out, "test").unwrap_err();
    assert!(err.message().contains("truncated"), "{}", err.message());
}

#[test]
fn networks_that_cannot_be_loaded_say_why() {
    let e = LoadError::Io("no such file".to_string());
    assert_eq!(e.message(), "cannot read the net file: no such file");
    let e = match load_from(&mut reader(&[1, 2, 3, 4, 5, 6, 7, 8, 9, 10, 11, 12])) {
        Err(e) => e,
        Ok(_) => panic!("no network"),
    };
    let words = e.message();
    assert_eq!(LoadError::Format(e).message(), format!("invalid net: {words}"));
}
