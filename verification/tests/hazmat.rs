use hazmat::error::HazmatError;
use hazmat::hazmat::{create_header, verify_header, Header, ALIGN_TO, HEADER_SIZE, SIGNATURE_VER1};

#[test]
fn headers_are_little_endian_and_skip_their_own_sector() {
    let bytes = create_header(0x0102_0304, 0x1122_3344_5566_7788);
    assert_eq!(bytes.len(), HEADER_SIZE);
    assert_eq!(bytes[..16], SIGNATURE_VER1.to_le_bytes());
    assert_eq!(bytes[16..24], [0x05, 0x03, 0x02, 0x01, 0, 0, 0, 0]);
    assert_eq!(bytes[24..], 0x1122_3344_5566_7788_u64.to_le_bytes());
    assert_eq!(ALIGN_TO, 4096);
}

#[test]
fn created_headers_verify() {
    let mut bytes = create_header(42_824, 559_015);
    bytes.resize(512, 0xaa);
    assert_eq!(
        verify_header(&bytes),
        Ok(Some(Header {
            signature: 0xde61_af8d_dd99_6602_f414_8ac8_3b9e_506f,
            starting_lba: 42_825,
            ending_lba: 559_015,
        }))
    );
}

#[test]
fn found_headers_spell_their_bytes() {
    let mut bytes = vec![0x5au8; 64];
    bytes[..16].copy_from_slice(&SIGNATURE_VER1.to_le_bytes());
    let found = verify_header(&bytes).unwrap().unwrap();
    assert_eq!(create_header(found.starting_lba - 1, found.ending_lba), bytes[..32]);
}

#[test]
fn other_bytes_are_no_header() {
    let mut bytes = create_header(1, 2);
    bytes[3] ^= 1;
    assert_eq!(verify_header(&bytes), Ok(None));
    assert_eq!(verify_header(&[0u8; 512]), Ok(None));
}

#[test]
fn short_buffers_are_refused() {
    assert_eq!(verify_header(&[0u8; 31]), Err(HazmatError::HeaderTooShort { len: 31 }));
    assert_eq!(verify_header(&[]), Err(HazmatError::HeaderTooShort { len: 0 }));
    assert_eq!(verify_header(&[0u8; 32]), Ok(None));
}
