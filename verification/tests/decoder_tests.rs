use ftr_parser::decoder::CborDecoder;
use ftr_parser::FtrError;

fn enc_uint(major: u8, v: u64) -> Vec<u8> {
    let h = major << 5;
    if v < 24 {
        vec![h | (v as u8)]
    } else if v < 0x100 {
        vec![h | 24, v as u8]
    } else if v < 0x10000 {
        let mut out = vec![h | 25];
        out.extend_from_slice(&(v as u16).to_be_bytes());
        out
    } else if v < 0x1_0000_0000 {
        let mut out = vec![h | 26];
        out.extend_from_slice(&(v as u32).to_be_bytes());
        out
    } else {
        let mut out = vec![h | 27];
        out.extend_from_slice(&v.to_be_bytes());
        out
    }
}

#[test]
fn integer_boundary_round_trip() {
    let tiers: [u64; 9] = [0, 23, 24, 255, 256, 65535, 65536, 4294967295, 4294967296];
    for &v in tiers.iter() {
        // as a non-negative integer item
        let mut d = CborDecoder::new(enc_uint(0, v));
        assert_eq!(d.read_int().unwrap(), v as i64);
        // as a tag with the same argument
        let mut d = CborDecoder::new(enc_uint(6, v));
        assert_eq!(d.read_tag().unwrap(), v as i64);
        // as an array length
        let mut d = CborDecoder::new(enc_uint(4, v));
        assert_eq!(d.read_array_length().unwrap(), v as i64);
    }
}

#[test]
fn negative_integer_folding() {
    // major type 1, argument a: value is -1 - a
    let mut d = CborDecoder::new(enc_uint(1, 0));
    assert_eq!(d.read_int().unwrap(), -1);
    let mut d = CborDecoder::new(enc_uint(1, 9));
    assert_eq!(d.read_int().unwrap(), -10);
    let mut d = CborDecoder::new(enc_uint(1, 255));
    assert_eq!(d.read_int().unwrap(), -256);
}

#[test]
fn peek_idempotence() {
    let mut d = CborDecoder::new(vec![0x42, 0x77]);
    let a = d.read_major_type(2).unwrap();
    assert_eq!(a, 2);
    // two consecutive peeks return the identical byte
    assert_eq!(d.peek().unwrap(), 0x77);
    assert_eq!(d.peek().unwrap(), 0x77);
    // a consuming read right after returns that same byte exactly once
    let arg = d.read_major_type(3).unwrap();
    assert_eq!(arg, 0x17);
    // and the byte is not seen twice: the source is now exhausted
    assert_eq!(d.peek(), Err(FtrError::Truncated));
}

#[test]
fn major_type_mismatch() {
    let mut d = CborDecoder::new(vec![0x42]);
    assert_eq!(d.read_array_length(), Err(FtrError::Format));
}

#[test]
fn truncated_argument() {
    // header announces 2 following bytes but only one is there
    let mut d = CborDecoder::new(vec![0x19, 0x01]);
    assert_eq!(d.read_int(), Err(FtrError::Truncated));
}

#[test]
fn indefinite_array_sentinel() {
    let mut d = CborDecoder::new(vec![0x9f, 0xff]);
    assert_eq!(d.read_array_length().unwrap(), -1);
    assert_eq!(d.peek().unwrap(), 0xff);
}

#[test]
fn byte_string_reads_exact_bytes() {
    let mut bytes = enc_uint(2, 3);
    bytes.extend_from_slice(&[9, 8, 7, 1, 2]);
    let mut d = CborDecoder::new(bytes);
    assert_eq!(d.read_byte_string().unwrap(), vec![9, 8, 7]);
    assert_eq!(d.peek().unwrap(), 1);
}

#[test]
fn indefinite_byte_string_refused() {
    let mut d = CborDecoder::new(vec![0x5f, 0xff]);
    assert_eq!(d.read_byte_string(), Err(FtrError::Format));
}

#[test]
fn text_string_decodes_utf8() {
    let mut bytes = enc_uint(3, 3);
    bytes.extend_from_slice(b"clk");
    let mut d = CborDecoder::new(bytes);
    assert_eq!(d.read_text_string().unwrap(), "clk".to_string());
}

#[test]
fn invalid_utf8_is_encoding_error() {
    let mut bytes = enc_uint(3, 2);
    bytes.extend_from_slice(&[0xc3, 0x28]);
    let mut d = CborDecoder::new(bytes);
    assert_eq!(d.read_text_string(), Err(FtrError::Encoding));
}

#[test]
fn boolean_reads() {
    let mut d = CborDecoder::new(vec![0xf5, 0xf4]);
    assert_eq!(d.read_boolean().unwrap(), true);
    assert_eq!(d.read_boolean().unwrap(), false);
}

#[test]
fn float_bits_read_big_endian() {
    // 1.5f32 is 0x3fc00000
    let mut bytes = vec![0xfa];
    bytes.extend_from_slice(&1.5f32.to_be_bytes());
    let mut d = CborDecoder::new(bytes);
    let bits = d.read_float().unwrap();
    assert_eq!(f32::from_bits(bits), 1.5f32);
}

#[test]
fn double_bits_read_big_endian() {
    let mut bytes = vec![0xfb];
    bytes.extend_from_slice(&2.25f64.to_be_bytes());
    let mut d = CborDecoder::new(bytes);
    let bits = d.read_double().unwrap();
    assert_eq!(f64::from_bits(bits), 2.25f64);
}

#[test]
fn half_float_bits_read() {
    // half-precision 1.0 is 0x3c00
    let mut d = CborDecoder::new(vec![0xf9, 0x3c, 0x00]);
    assert_eq!(d.read_half_precision_float().unwrap(), 0x3c00);
}

#[test]
fn skip_byte_string_steps_over() {
    let mut bytes = enc_uint(2, 3);
    bytes.extend_from_slice(&[9, 8, 7]);
    bytes.push(0x01);
    let mut d = CborDecoder::new(bytes);
    d.skip_byte_string().unwrap();
    assert_eq!(d.read_int().unwrap(), 1);
}

#[test]
fn expect_integer_type_splits_major() {
    let mut d = CborDecoder::new(vec![]);
    assert_eq!(d.expect_integer_type(0x05).unwrap(), 0);
    assert_eq!(d.expect_integer_type(0x25).unwrap(), -1);
    assert_eq!(d.expect_integer_type(0x45), Err(FtrError::Format));
}

#[test]
fn read_major_type_exact_checks_subtype() {
    let mut d = CborDecoder::new(vec![0xfa]);
    assert_eq!(d.read_major_type_exact(7, 27), Err(FtrError::Format));
}

#[test]
fn indefinite_text_string_refused() {
    let mut d = CborDecoder::new(vec![0x7f, 0xff]);
    assert_eq!(d.read_text_string(), Err(FtrError::Format));
}

#[test]
fn read_int_rejects_non_integer_major() {
    let mut d = CborDecoder::new(vec![0x9f]);
    assert_eq!(d.read_int(), Err(FtrError::Format));
}

#[test]
fn empty_source_is_truncated() {
    let mut d = CborDecoder::new(Vec::new());
    assert_eq!(d.read_int(), Err(FtrError::Truncated));
    let mut d = CborDecoder::new(Vec::new());
    assert_eq!(d.peek(), Err(FtrError::Truncated));
}

#[test]
fn unsigned_int_sentinel_above_27() {
    let mut d = CborDecoder::new(vec![]);
    assert_eq!(d.read_unsigned_int(31, true).unwrap(), -1);
    assert_eq!(d.read_unsigned_int(31, false).unwrap(), -1);
    assert_eq!(d.read_unsigned_int(28, false).unwrap(), -1);
}
