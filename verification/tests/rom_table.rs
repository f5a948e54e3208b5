use fantom::rom_table::{
    is_big_endian, is_wide, parse_hex_addr, read_table, sized_layout, sized_patch, stores_wide, table_layout,
    table_patch, write_report, write_table, TableLayout, TablePatch,
};

fn layout(address: &str, storagetype: &str, x: u32, y: u32, endian: Option<&str>) -> TableLayout {
    table_layout(address, storagetype, x, y, endian.map(|e| e.to_string())).unwrap().unwrap()
}

fn patch(address: &str, storagetype: &str, endian: Option<&str>, values: &[u32]) -> TablePatch {
    table_patch(address, storagetype, endian.map(|e| e.to_string()), values.to_vec()).unwrap().unwrap()
}

fn image() -> Vec<u8> {
    (0u8..16).map(|b| b * 16 + 1).collect()
}

#[test]
fn addresses_read_with_and_without_prefix() {
    assert_eq!(parse_hex_addr("1A2B3C"), Ok(0x1A2B3C));
    assert_eq!(parse_hex_addr("0x1A2B3C"), Ok(0x1A2B3C));
    assert_eq!(parse_hex_addr("0X1a2b3c"), Ok(0x1A2B3C));
    assert_eq!(parse_hex_addr("  0x10\n"), Ok(16));
    assert_eq!(parse_hex_addr("0x0x10"), Ok(16));
    assert_eq!(parse_hex_addr("0x0X10"), Ok(16));
    assert_eq!(parse_hex_addr("+F"), Ok(15));
}

#[test]
fn bad_addresses_are_reported_as_given() {
    assert_eq!(
        parse_hex_addr(" zz "),
        Err("bad hex address ' zz ': invalid digit found in string".to_string())
    );
    assert_eq!(
        parse_hex_addr("0x"),
        Err("bad hex address '0x': cannot parse integer from empty string".to_string())
    );
    assert_eq!(
        parse_hex_addr("0X0x10"),
        Err("bad hex address '0X0x10': invalid digit found in string".to_string())
    );
    assert_eq!(
        parse_hex_addr("0x 1"),
        Err("bad hex address '0x 1': invalid digit found in string".to_string())
    );
    assert_eq!(
        parse_hex_addr("123456789ABCDEF01"),
        Err("bad hex address '123456789ABCDEF01': number too large to fit in target type".to_string())
    );
}

#[test]
fn shown_addresses_read_back() {
    for addr in [0u64, 1, 0xABCDEF, u64::MAX] {
        assert_eq!(parse_hex_addr(&format!("0x{:X}", addr)), Ok(addr));
    }
}

#[test]
fn storage_types() {
    assert!(stores_wide("uint16"));
    assert!(stores_wide("UInt16"));
    assert!(!stores_wide("uint8"));
    assert!(!stores_wide(" uint16"));
    assert!(!stores_wide("float"));
    assert!(!stores_wide(""));
    assert!(is_wide("uint16"));
    assert!(!is_wide("UINT16"));
    assert!(!stores_wide("u\u{130}nt16"));
}

#[test]
fn byte_orders() {
    assert!(is_big_endian(None));
    assert!(is_big_endian(Some("big".to_string())));
    assert!(is_big_endian(Some("BiG".to_string())));
    assert!(!is_big_endian(Some("little".to_string())));
    assert!(!is_big_endian(Some(String::new())));
    assert!(!is_big_endian(Some("big ".to_string())));
}

#[test]
fn one_byte_elements() {
    assert_eq!(read_table(&image(), &layout("2", "uint8", 3, 1, None)), Ok(vec![0x21, 0x31, 0x41]));
    assert_eq!(read_table(&image(), &layout("2", "other", 1, 1, Some("little"))), Ok(vec![0x21]));
}

#[test]
fn two_byte_elements_in_both_orders() {
    assert_eq!(read_table(&image(), &layout("0x1", "uint16", 2, 1, None)), Ok(vec![0x1121, 0x3141]));
    assert_eq!(read_table(&image(), &layout("0x1", "UINT16", 2, 1, Some("little"))), Ok(vec![0x2111, 0x4131]));
}

#[test]
fn a_size_of_zero_counts_as_one() {
    assert_eq!(read_table(&image(), &layout("F", "uint8", 0, 0, None)), Ok(vec![0xF1]));
    assert_eq!(read_table(&image(), &layout("E", "uint8", 0, 2, None)), Ok(vec![0xE1, 0xF1]));
}

#[test]
fn values_come_row_by_row() {
    let values = read_table(&image(), &layout("4", "uint16", 3, 2, None)).unwrap();
    assert_eq!(values.len(), 6);
    for y in 0..2 {
        for x in 0..3 {
            let at = 4 + 2 * (y * 3 + x);
            assert_eq!(values[y * 3 + x], image()[at] as u32 * 256 + image()[at + 1] as u32);
        }
    }
}

#[test]
fn the_last_byte_is_inside() {
    assert!(read_table(&image(), &layout("0", "uint16", 4, 2, None)).is_ok());
    assert_eq!(
        read_table(&image(), &layout("1", "uint16", 4, 2, None)),
        Err("table at 0x1 (16 bytes) runs past end of ROM (16 bytes)".to_string())
    );
    assert_eq!(
        read_table(&[], &layout("abc", "uint8", 1, 1, None)),
        Err("table at 0xABC (1 bytes) runs past end of ROM (0 bytes)".to_string())
    );
}

#[test]
fn a_table_whose_end_does_not_fit_has_no_layout() {
    assert!(table_layout("FFFFFFFFFFFFFFFF", "uint8", 1, 1, None).unwrap().is_none());
    assert!(table_layout("FFFFFFFFFFFFFFFE", "uint8", 1, 1, None).unwrap().is_some());
    assert!(table_layout("FFFFFFFFFFFFFFFE", "uint16", 1, 1, None).unwrap().is_none());
    assert!(table_layout("0", "uint16", u32::MAX, u32::MAX, None).unwrap().is_none());
    assert!(table_layout("0", "uint8", u32::MAX, u32::MAX, None).unwrap().is_some());
    assert!(table_layout("", "uint8", 1, 1, None).is_err());
    assert!(sized_layout("FFFFFFFFFFFFFFFF", false, 1, 1, None).unwrap().is_none());
    assert!(TableLayout::new(u64::MAX, false, true, 0).is_some());
    assert!(TableLayout::new(u64::MAX, false, true, 1).is_none());
}

#[test]
fn a_patch_whose_end_does_not_fit_is_none() {
    assert!(table_patch("FFFFFFFFFFFFFFFF", "uint8", None, vec![1]).unwrap().is_none());
    assert!(table_patch("FFFFFFFFFFFFFFFF", "uint8", None, vec![]).unwrap().is_some());
    assert_eq!(
        table_patch("x", "uint8", None, vec![]).err(),
        Some("bad hex address 'x': invalid digit found in string".to_string())
    );
    assert!(sized_patch("FFFFFFFFFFFFFFFE", true, None, vec![1]).unwrap().is_none());
}

#[test]
fn writing_one_byte_elements() {
    let mut bytes = image();
    let p = patch("3", "uint8", None, &[0xAB, 0x1CD]);
    assert_eq!(write_table(&mut bytes, &p), Ok(()));
    let mut expected = image();
    expected[3] = 0xAB;
    expected[4] = 0xCD;
    assert_eq!(bytes, expected);
}

#[test]
fn writing_two_byte_elements_in_both_orders() {
    let mut bytes = image();
    assert_eq!(write_table(&mut bytes, &patch("3", "uint16", None, &[0x1234])), Ok(()));
    assert_eq!(&bytes[2..6], &[0x21, 0x12, 0x34, 0x51]);
    let mut bytes = image();
    assert_eq!(write_table(&mut bytes, &patch("3", "uint16", Some("little"), &[0x91234])), Ok(()));
    assert_eq!(&bytes[2..6], &[0x21, 0x34, 0x12, 0x51]);
}

#[test]
fn a_refused_write_leaves_the_image() {
    let mut bytes = image();
    assert_eq!(
        write_table(&mut bytes, &patch("E", "uint16", None, &[1, 2])),
        Err("write at 0xE (4 bytes) runs past end of ROM (16 bytes)".to_string())
    );
    assert_eq!(bytes, image());
    assert_eq!(
        write_table(&mut bytes, &patch("11", "uint8", None, &[])),
        Err("write at 0x11 (0 bytes) runs past end of ROM (16 bytes)".to_string())
    );
    assert_eq!(write_table(&mut bytes, &patch("10", "uint8", None, &[])), Ok(()));
    assert_eq!(bytes, image());
}

#[test]
fn reading_gives_back_what_was_written() {
    for endian in [None, Some("little")] {
        let values = [0u32, 0xFFFF, 0x1234, 0xFF, 0x100, 7];
        let mut bytes = image();
        write_table(&mut bytes, &patch("1", "uint16", endian, &values)).unwrap();
        assert_eq!(read_table(&bytes, &layout("1", "uint16", 3, 2, endian)), Ok(values.to_vec()));
    }
    let mut bytes = image();
    write_table(&mut bytes, &patch("0", "uint16", None, &[0x12345678])).unwrap();
    assert_eq!(read_table(&bytes, &layout("0", "uint16", 1, 1, None)), Ok(vec![0x5678]));
    write_table(&mut bytes, &patch("0", "uint8", None, &[0x12345678])).unwrap();
    assert_eq!(read_table(&bytes, &layout("0", "uint8", 1, 1, None)), Ok(vec![0x78]));
}

#[test]
fn writing_what_was_read_changes_nothing() {
    for storagetype in ["uint8", "uint16"] {
        for endian in [None, Some("little")] {
            let mut bytes = image();
            let values = read_table(&bytes, &layout("2", storagetype, 3, 2, endian)).unwrap();
            write_table(&mut bytes, &patch("2", storagetype, endian, &values)).unwrap();
            assert_eq!(bytes, image());
        }
    }
}

#[test]
fn tables_apart_do_not_disturb_each_other() {
    let mut bytes = image();
    let before = read_table(&bytes, &layout("8", "uint16", 4, 1, None));
    write_table(&mut bytes, &patch("0", "uint16", None, &[1, 2, 3, 4])).unwrap();
    assert_eq!(read_table(&bytes, &layout("8", "uint16", 4, 1, None)), before);
}

#[test]
fn the_later_of_two_writes_shows() {
    let mut once = image();
    write_table(&mut once, &patch("5", "uint8", None, &[9, 8])).unwrap();
    let mut twice = image();
    write_table(&mut twice, &patch("5", "uint8", None, &[1, 2])).unwrap();
    write_table(&mut twice, &patch("5", "uint8", None, &[9, 8])).unwrap();
    assert_eq!(once, twice);
}

#[test]
fn writes_are_reported() {
    let p = patch("0x1a0", "uint8", None, &[1, 2, 3]);
    assert_eq!(write_report(&p, "C:/roms/a.bin"), "wrote 3 value(s) at 0x1A0 in C:/roms/a.bin");
}
