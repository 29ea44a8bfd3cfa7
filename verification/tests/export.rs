use lorawanwiz::export::{
    format_dev_addr, format_hex_block, format_hex_compact, signal_color_for, symbol_kind_label,
    symbol_kind_letter, typst_raw_inline, typst_safe_for_raw_block, typst_string,
};
use lorawanwiz::math::{ChirpDirection, SymbolKind};

#[test]
fn hex_compact_and_dev_addr() {
    assert_eq!(format_hex_compact(&[0x01, 0xab, 0xff]), "01 AB FF");
    assert_eq!(format_hex_compact(&[]), "");
    assert_eq!(format_dev_addr(&[0x26, 0x01, 0x1f, 0x88]), "26011F88");
}

#[test]
fn hex_block_layout() {
    assert_eq!(format_hex_block(&[]), "(empty)");
    let block = format_hex_block(b"hi\x00");
    let expected = format!("0000:  68 69 00{}  |hi.|", " ".repeat(3 * 13 + 1));
    assert_eq!(block, expected);
    let bytes: Vec<u8> = (0x41u8..0x41 + 17).collect();
    let block = format_hex_block(&bytes);
    let lines: Vec<&str> = block.split('\n').collect();
    assert_eq!(lines.len(), 2);
    assert_eq!(
        lines[0],
        "0000:  41 42 43 44 45 46 47 48  49 4A 4B 4C 4D 4E 4F 50  |ABCDEFGHIJKLMNOP|"
    );
    assert!(lines[1].starts_with("0010:  51"));
    assert!(lines[1].ends_with("|Q|"));
}

#[test]
fn hex_block_long_offsets() {
    let bytes = vec![0u8; 16 * 4097];
    let block = format_hex_block(&bytes);
    let last = block.split('\n').last().unwrap();
    assert!(last.starts_with("10000: "));
}

#[test]
fn typst_escapes() {
    assert_eq!(typst_string("a\"b\\c\nd"), "a\\\"b\\\\c\\nd");
    assert_eq!(typst_raw_inline("a`b"), "a\u{2018}b");
    assert_eq!(typst_safe_for_raw_block("``"), "``");
    assert_eq!(typst_safe_for_raw_block("```"), "``\u{200B}`");
    assert_eq!(typst_safe_for_raw_block("a````b``"), "a``\u{200B}``b``");
    assert!(!typst_safe_for_raw_block("``````````").contains("```"));
}

#[test]
fn symbol_kind_texts() {
    assert_eq!(symbol_kind_label(SymbolKind::Preamble), "Preamble");
    assert_eq!(symbol_kind_label(SymbolKind::Payload), "Payload");
    assert_eq!(symbol_kind_letter(SymbolKind::Sync), "S");
    assert_eq!(symbol_kind_letter(SymbolKind::Payload), "D");
    assert_eq!(signal_color_for(SymbolKind::Sync, ChirpDirection::Up), "#d8862c");
    assert_eq!(signal_color_for(SymbolKind::Sync, ChirpDirection::Down), "#8a8d96");
    assert_eq!(signal_color_for(SymbolKind::Header, ChirpDirection::Up), "#5fa14a");
    assert_eq!(signal_color_for(SymbolKind::Payload, ChirpDirection::Up), "#3a8edb");
}
