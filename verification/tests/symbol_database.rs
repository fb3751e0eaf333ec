use std::io::Write;

use gb_save::sym_text::parse_sym_line;
use gb_save::{Address, SaveError, Symbol, SymbolDatabase};

#[test]
fn parses_valid_symbol_lines_and_ignores_invalid() {
    let text = "00:ABE2 sSaveVersion\ninvalid\n01:AD0D sChecksum\n";
    let db = SymbolDatabase::from_sym_text(text);
    assert!(db.contains("sSaveVersion"));
    assert!(db.contains("sChecksum"));
    assert!(!db.contains("invalid"));
}

#[test]
fn last_symbol_wins_on_duplicates() {
    let text = "00:0001 dup\n00:0002 dup\n";
    let db = SymbolDatabase::from_sym_text(text);
    assert_eq!(db.get_symbol("dup").unwrap().address, 0x0002);
}

#[test]
fn missing_symbol_returns_typed_error() {
    let db = SymbolDatabase::new();
    let err = db.get_symbol("nope").unwrap_err();
    match err {
        SaveError::SymbolNotFound { name } => assert_eq!(name, "nope"),
        other => panic!("unexpected error: {other:?}"),
    }
}

#[test]
fn a_line_parses_to_bank_and_address() {
    let (name, symbol) = parse_sym_line("00:ABE2 sSaveVersion").unwrap();
    assert_eq!(name, "sSaveVersion");
    assert_eq!(symbol, Symbol { bank: 0x00, address: 0xABE2 });
    let (name, symbol) = parse_sym_line("fF:0a1B wRam.Local_1").unwrap();
    assert_eq!(name, "wRam.Local_1");
    assert_eq!(symbol, Symbol { bank: 0xFF, address: 0x0A1B });
}

#[test]
fn space_around_the_two_tokens_is_passed_over() {
    let (name, symbol) = parse_sym_line("  01:A000\t\u{00A0} name \r").unwrap();
    assert_eq!(name, "name");
    assert_eq!(symbol, Symbol { bank: 1, address: 0xA000 });
    let (name, _) = parse_sym_line("01:A000\u{3000}name").unwrap();
    assert_eq!(name, "name");
}

#[test]
fn malformed_lines_write_no_entry() {
    assert!(parse_sym_line("").is_none());
    assert!(parse_sym_line("   ").is_none());
    assert!(parse_sym_line("00:ABE2").is_none());
    assert!(parse_sym_line("sSaveVersion").is_none());
    assert!(parse_sym_line("0:ABE2 name").is_none());
    assert!(parse_sym_line("000:ABE2 name").is_none());
    assert!(parse_sym_line("00:ABE name").is_none());
    assert!(parse_sym_line("00:ABE22 name").is_none());
    assert!(parse_sym_line("00ABE2 name").is_none());
    assert!(parse_sym_line("00;ABE2 name").is_none());
    assert!(parse_sym_line("0G:ABE2 name").is_none());
    assert!(parse_sym_line("00:ABEG name").is_none());
    assert!(parse_sym_line("+0:ABE2 name").is_none());
    assert!(parse_sym_line("00:+BE2 name").is_none());
    assert!(parse_sym_line("00:ABE2 name extra").is_none());
    assert!(parse_sym_line("00:ABE2 na-me").is_none());
    assert!(parse_sym_line("00:ABE2 n\u{00E9}").is_none());
    assert!(parse_sym_line("00:ABE2 name ; comment").is_none());
}

#[test]
fn text_without_a_final_line_feed_parses_its_last_line() {
    let db = SymbolDatabase::from_sym_text("00:A000 first\r\n01:A001 second");
    assert_eq!(db.get_symbol("first").unwrap(), Symbol { bank: 0, address: 0xA000 });
    assert_eq!(db.get_symbol("second").unwrap(), Symbol { bank: 1, address: 0xA001 });
    assert!(SymbolDatabase::from_sym_text("").iter().is_empty());
    assert!(SymbolDatabase::from_sym_text("\n\n").iter().is_empty());
    assert!(SymbolDatabase::default().iter().is_empty());
}

#[test]
fn a_malformed_line_between_definitions_changes_nothing() {
    let db = SymbolDatabase::from_sym_text("00:0001 dup\n00:00 dup\n00:0003 other\ndup\n");
    assert_eq!(db.get_symbol("dup").unwrap().address, 0x0001);
    assert_eq!(db.get_symbol("other").unwrap().address, 0x0003);
}

#[test]
fn iter_gives_each_name_once() {
    let db = SymbolDatabase::from_sym_text("00:0001 a\n00:0002 b\n00:0003 a\n");
    let mut all = db.iter();
    all.sort_by(|a, b| a.0.cmp(&b.0));
    assert_eq!(
        all,
        vec![
            ("a".to_string(), Symbol { bank: 0, address: 3 }),
            ("b".to_string(), Symbol { bank: 0, address: 2 }),
        ]
    );
}

#[test]
fn a_later_definition_takes_the_place_of_an_earlier_one() {
    let db = SymbolDatabase::from_sym_text("01:0002 x\n03:0004 y\n05:0006 x\n");
    assert_eq!(db.get_symbol("x").unwrap(), Symbol { bank: 5, address: 6 });
    assert_eq!(db.get_symbol("y").unwrap(), Symbol { bank: 3, address: 4 });
    assert_eq!(db.iter().len(), 2);
}

#[test]
fn region_windows() {
    assert!(!SymbolDatabase::is_sram_address(0x9FFF));
    assert!(SymbolDatabase::is_sram_address(0xA000));
    assert!(SymbolDatabase::is_sram_address(0xBFFF));
    assert!(!SymbolDatabase::is_sram_address(0xC000));
    assert!(!SymbolDatabase::is_wram_address(0xBFFF));
    assert!(SymbolDatabase::is_wram_address(0xC000));
    assert!(SymbolDatabase::is_wram_address(0xDFFF));
    assert!(!SymbolDatabase::is_wram_address(0xE000));
}

#[test]
fn sram_absolute_address_adds_the_bank_offset() {
    let db = SymbolDatabase::from_sym_text(
        "00:ABE2 sSaveVersion\n01:AD0D sChecksum\nFF:BFFF sLast\n00:C000 wStart\n",
    );
    assert_eq!(db.sram_absolute_address("sSaveVersion").unwrap(), Address(0x0BE2));
    assert_eq!(db.sram_absolute_address("sChecksum").unwrap(), Address(0x2000 + 0x0D0D));
    assert_eq!(db.sram_absolute_address("sLast").unwrap(), Address(0xFF * 0x2000 + 0x1FFF));
    match db.sram_absolute_address("wStart") {
        Err(SaveError::SymbolNotInSram { name, address }) => {
            assert_eq!(name, "wStart");
            assert_eq!(address, 0xC000);
        }
        other => panic!("unexpected result: {other:?}"),
    }
    match db.sram_absolute_address("missing") {
        Err(SaveError::SymbolNotFound { name }) => assert_eq!(name, "missing"),
        other => panic!("unexpected result: {other:?}"),
    }
}

fn layout() -> SymbolDatabase {
    SymbolDatabase::from_sym_text(
        "01:C100 wBase\n01:C123 wField\n01:C0FF wBefore\n02:A010 sBase\n00:8000 other\n",
    )
}

#[test]
fn wram_relative_address_projects_onto_the_sram_base() {
    let db = layout();
    assert_eq!(
        db.wram_relative_to_sram_absolute_address("wBase", "sBase", "wField").unwrap(),
        Address(2 * 0x2000 + 0x10 + 0x23)
    );
    assert_eq!(
        db.wram_relative_to_sram_absolute_address("wBase", "sBase", "wBase").unwrap(),
        Address(2 * 0x2000 + 0x10)
    );
}

#[test]
fn wram_relative_address_errors_in_order() {
    let db = layout();
    match db.wram_relative_to_sram_absolute_address("nope", "nope2", "nope3") {
        Err(SaveError::SymbolNotFound { name }) => assert_eq!(name, "nope"),
        other => panic!("unexpected result: {other:?}"),
    }
    match db.wram_relative_to_sram_absolute_address("sBase", "sBase", "wField") {
        Err(SaveError::SymbolNotInExpectedRegion { name, expected, address }) => {
            assert_eq!(name, "sBase");
            assert_eq!(expected, "WRAM");
            assert_eq!(address, 0xA010);
        }
        other => panic!("unexpected result: {other:?}"),
    }
    match db.wram_relative_to_sram_absolute_address("wBase", "nope2", "nope3") {
        Err(SaveError::SymbolNotFound { name }) => assert_eq!(name, "nope3"),
        other => panic!("unexpected result: {other:?}"),
    }
    match db.wram_relative_to_sram_absolute_address("wBase", "sBase", "other") {
        Err(SaveError::SymbolNotInExpectedRegion { name, expected, address }) => {
            assert_eq!(name, "other");
            assert_eq!(expected, "WRAM");
            assert_eq!(address, 0x8000);
        }
        other => panic!("unexpected result: {other:?}"),
    }
    match db.wram_relative_to_sram_absolute_address("wBase", "nope2", "wBefore") {
        Err(SaveError::SymbolBeforeBase { symbol, base }) => {
            assert_eq!(symbol, "wBefore");
            assert_eq!(base, "wBase");
        }
        other => panic!("unexpected result: {other:?}"),
    }
    match db.wram_relative_to_sram_absolute_address("wBase", "nope2", "wField") {
        Err(SaveError::SymbolNotFound { name }) => assert_eq!(name, "nope2"),
        other => panic!("unexpected result: {other:?}"),
    }
    match db.wram_relative_to_sram_absolute_address("wBase", "wField", "wField") {
        Err(SaveError::SymbolNotInExpectedRegion { name, expected, address }) => {
            assert_eq!(name, "wField");
            assert_eq!(expected, "SRAM");
            assert_eq!(address, 0xC123);
        }
        other => panic!("unexpected result: {other:?}"),
    }
}

#[test]
fn gzip_payload_is_decompressed_and_parsed() {
    let mut encoder = flate2::write::GzEncoder::new(Vec::new(), flate2::Compression::default());
    encoder.write_all(b"00:ABE2 sSaveVersion\ninvalid\n").unwrap();
    let gz = encoder.finish().unwrap();
    let db = SymbolDatabase::from_gzip_bytes(&gz).unwrap();
    assert_eq!(db.get_symbol("sSaveVersion").unwrap(), Symbol { bank: 0, address: 0xABE2 });
    assert!(!db.contains("invalid"));
}

#[test]
fn gzip_failure_is_its_own_error() {
    match SymbolDatabase::from_gzip_bytes(b"00:ABE2 sSaveVersion\n") {
        Err(SaveError::SymbolFileDecompressionFailed) => {}
        _ => panic!("plain text is no gzip payload"),
    }
    match SymbolDatabase::from_gzip_bytes(&[]) {
        Err(SaveError::SymbolFileDecompressionFailed) => {}
        _ => panic!("an empty payload is no gzip payload"),
    }
    let mut encoder = flate2::write::GzEncoder::new(Vec::new(), flate2::Compression::default());
    encoder.write_all(&[0xFF, 0xFE, 0x00]).unwrap();
    let gz = encoder.finish().unwrap();
    match SymbolDatabase::from_gzip_bytes(&gz) {
        Err(SaveError::SymbolFileDecompressionFailed) => {}
        _ => panic!("bytes that are no UTF-8 are no text"),
    }
}

#[test]
fn a_cloned_table_holds_the_same_definitions() {
    let db = SymbolDatabase::from_sym_text("00:0001 a\n00:0002 b\n");
    let copy = db.clone();
    drop(db);
    assert_eq!(copy.get_symbol("a").unwrap(), Symbol { bank: 0, address: 1 });
    assert_eq!(copy.get_symbol("b").unwrap(), Symbol { bank: 0, address: 2 });
    assert_eq!(copy.iter().len(), 2);
}
