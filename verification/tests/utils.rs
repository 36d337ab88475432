use hazmat::text::{decimal_padded_text, decimal_text, hex_text, signed_text};
use hazmat::utils::{print_report, read_le_u16, read_le_u32, read_le_u64};

#[test]
fn report_rows_are_filled_with_dots() {
    assert_eq!(print_report("label", "value", 9), "label....: value");
    assert_eq!(print_report("label", "value", 5), "label: value");
    assert_eq!(print_report("label", "value", 2), "label: value");
    assert_eq!(print_report("", "", 3), "...: ");
    assert_eq!(print_report("é", "x", 3), format!("{:.<3}: x", "é"));
}

#[test]
fn little_endian_fields_are_read() {
    let bytes = [0xff, 1, 2, 3, 4, 5, 6, 7, 8];
    assert_eq!(read_le_u16(&bytes, 1), 0x0201);
    assert_eq!(read_le_u32(&bytes, 1), 0x0403_0201);
    assert_eq!(read_le_u64(&bytes, 1), 0x0807_0605_0403_0201);
    assert_eq!(read_le_u64(&[0xff; 8], 0), u64::MAX);
}

#[test]
fn numbers_are_written() {
    for n in [0, 1, 9, 10, 99, 100, 12_345, u64::MAX] {
        assert_eq!(decimal_text(n), n.to_string());
    }
    for n in [0, -1, 1, i64::MIN, i64::MAX] {
        assert_eq!(signed_text(n), n.to_string());
    }
    assert_eq!(decimal_padded_text(7, 2), "07");
    assert_eq!(decimal_padded_text(2024, 4), "2024");
    assert_eq!(decimal_padded_text(12_345, 4), "12345");
    assert_eq!(hex_text(&[0x00, 0x1f, 0xa0], 0, 3), "001fa0");
    assert_eq!(hex_text(&[0x00, 0x1f, 0xa0], 1, 1), "");
}
