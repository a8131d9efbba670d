use dart_kernel::codec::{decode_option, Codec};
use dart_kernel::error::KernelError;
use dart_kernel::prim::{FileOffset, Uint, Utf8};

fn encode(n: u32) -> Result<Vec<u8>, KernelError> {
    let mut out = Vec::new();
    Uint(n).encode(&mut out)?;
    Ok(out)
}

fn check_roundtrip(val: Uint) {
    let encoded = encode(val.0).unwrap();
    let mut pos = 0usize;
    let decoded = Uint::decode(&encoded, &mut pos).unwrap();
    assert_eq!(val, decoded);
    assert_eq!(pos, encoded.len());
}

#[test]
fn test_roundtrips() {
    check_roundtrip(Uint(u32::MIN));
    check_roundtrip(Uint(u8::MAX.into()));
    check_roundtrip(Uint(u16::MAX.into()));
    check_roundtrip(Uint(u8::MAX as u32 + u16::MAX as u32));

    check_roundtrip(Uint(12));
    check_roundtrip(Uint(4321));
    check_roundtrip(Uint(123456));
    check_roundtrip(Uint(87654321));
}

#[test]
fn test_encodings() {
    assert_eq!(encode(12).unwrap(), vec![0xC]);
    assert_eq!(encode(81).unwrap(), vec![0x51]);
    assert_eq!(encode(4321).unwrap(), vec![0x90, 0xE1]);
    assert_eq!(encode(123456).unwrap(), vec![0xC0, 0x1, 0xE2, 0x40]);
    assert_eq!(encode(87654321).unwrap(), vec![0xC5, 0x39, 0x7F, 0xB1]);
}

#[test]
fn var_uint_decodes_the_listed_encodings() {
    let cases: [(&[u8], u32); 5] = [
        (&[0x0C], 12),
        (&[0x51], 81),
        (&[0x90, 0xE1], 4321),
        (&[0xC0, 0x01, 0xE2, 0x40], 123456),
        (&[0xC5, 0x39, 0x7F, 0xB1], 87654321),
    ];
    for (bytes, n) in cases {
        let mut pos = 0usize;
        assert_eq!(Uint::decode(bytes, &mut pos).unwrap(), Uint(n));
        assert_eq!(pos, bytes.len());
    }
}

#[test]
fn var_uint_width_at_boundaries() {
    assert_eq!(encode(0x7F).unwrap(), vec![0x7F]);
    assert_eq!(encode(0x80).unwrap(), vec![0x80, 0x80]);
    assert_eq!(encode(0x3FFF).unwrap(), vec![0xBF, 0xFF]);
    assert_eq!(encode(0x4000).unwrap(), vec![0xC0, 0x00, 0x40, 0x00]);
    assert_eq!(encode((1 << 30) - 1).unwrap(), vec![0xFF, 0xFF, 0xFF, 0xFF]);
    for n in [0u32, 0x7F, 0x80, 0x3FFF, 0x4000, (1 << 30) - 1] {
        check_roundtrip(Uint(n));
    }
}

#[test]
fn var_uint_refuses_thirty_one_bits() {
    let mut out = Vec::new();
    assert_eq!(Uint(1 << 30).encode(&mut out), Err(KernelError::InvalidVarUint));
    assert!(out.is_empty());
}

#[test]
fn var_uint_short_read() {
    let mut pos = 0usize;
    assert_eq!(Uint::decode(&[0xC0, 0x01], &mut pos), Err(KernelError::ShortRead));
}

#[test]
fn option_with_bad_presence_byte() {
    let mut pos = 0usize;
    let r = decode_option::<FileOffset>(&[2, 5], &mut pos);
    assert_eq!(r, Err(KernelError::InvalidOption(2)));
}

#[test]
fn utf8_round_trip_and_invalid_text() {
    let text = Utf8("héllo".to_string());
    let mut out = Vec::new();
    text.encode(&mut out).unwrap();
    assert_eq!(out[0], 6);
    let mut pos = 0usize;
    assert_eq!(Utf8::decode(&out, &mut pos).unwrap(), text);
    let mut pos = 0usize;
    assert_eq!(Utf8::decode(&[2, 0xC3, 0x28], &mut pos), Err(KernelError::InvalidUtf8));
}

#[test]
fn utf8_short_read_and_invalid_text() {
    let mut pos = 0usize;
    assert_eq!(Utf8::decode(&[3, b'a', b'b'], &mut pos), Err(KernelError::ShortRead));
    let mut pos = 0usize;
    assert_eq!(Utf8::decode(&[1, 0xFF], &mut pos), Err(KernelError::InvalidUtf8));
}
