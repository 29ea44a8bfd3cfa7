use lorawanwiz::state::hex_string;
use lorawanwiz::ui::{
    abbreviated_hex, apply_crypto_key, apply_message_key, count_hex_digits, crypto_field_lengths,
    crypto_status, hex_bytes, next_bandwidth_hz, next_f_cnt, next_f_port, next_sf, symbol_groups,
    CryptoFocus, SymbolGroup, TextKey,
};
use lorawanwiz::math::{build_symbol_stream, SymbolKind};

#[test]
fn cycle_controls() {
    assert_eq!(next_sf(7), 8);
    assert_eq!(next_sf(11), 12);
    assert_eq!(next_sf(12), 7);
    assert_eq!(next_sf(200), 7);
    assert_eq!(next_bandwidth_hz(125_000), 250_000);
    assert_eq!(next_bandwidth_hz(250_000), 500_000);
    assert_eq!(next_bandwidth_hz(500_000), 125_000);
    assert_eq!(next_bandwidth_hz(1), 125_000);
    assert_eq!(next_f_port(1), 2);
    assert_eq!(next_f_port(9), 1);
    assert_eq!(next_f_port(0), 1);
    assert_eq!(next_f_cnt(5), 6);
    assert_eq!(next_f_cnt(u32::MAX), 0);
}

#[test]
fn message_typing_respects_limit() {
    let mut m = String::from("hell");
    assert!(apply_message_key(&mut m, &TextKey::Character("o".to_string()), 5));
    assert_eq!(m, "hello");
    assert!(!apply_message_key(&mut m, &TextKey::Character("!".to_string()), 5));
    assert_eq!(m, "hello");
    assert!(!apply_message_key(&mut m, &TextKey::Space, 5));
    assert!(apply_message_key(&mut m, &TextKey::Backspace, 5));
    assert_eq!(m, "hell");
    assert!(apply_message_key(&mut m, &TextKey::Space, 5));
    assert_eq!(m, "hell ");
    assert!(!apply_message_key(&mut m, &TextKey::Other, 5));
    // Byte length counts: a two-byte character does not fit in one byte.
    let mut e = String::new();
    assert!(!apply_message_key(&mut e, &TextKey::Character("\u{e9}".to_string()), 1));
    assert!(apply_message_key(&mut e, &TextKey::Character("\u{e9}".to_string()), 2));
    // Backspace on an empty message still marks the inputs dirty.
    let mut empty = String::new();
    assert!(apply_message_key(&mut empty, &TextKey::Backspace, 5));
    assert_eq!(empty, "");
}

#[test]
fn crypto_typing_filters_and_uppercases() {
    let mut b = String::from("26");
    apply_crypto_key(&mut b, &TextKey::Character("0x1f:g-".to_string()), 8);
    // '0' and '1', 'f' kept and upper-cased, 'x' and 'g' dropped, ':' '-' kept.
    assert_eq!(b, "2601F:-");
    apply_crypto_key(&mut b, &TextKey::Character("88aa".to_string()), 8);
    // Only three more hex digits fit (five are already there).
    assert_eq!(b, "2601F:-88A");
    apply_crypto_key(&mut b, &TextKey::Character(":".to_string()), 8);
    assert_eq!(b, "2601F:-88A:");
    apply_crypto_key(&mut b, &TextKey::Backspace, 8);
    assert_eq!(b, "2601F:-88A");
    apply_crypto_key(&mut b, &TextKey::Space, 8);
    assert_eq!(b, "2601F:-88A");
    assert_eq!(count_hex_digits(&b), 8);
}

#[test]
fn crypto_field_lengths_by_focus() {
    assert_eq!(crypto_field_lengths(CryptoFocus::DevAddr), Some((4, 8)));
    assert_eq!(crypto_field_lengths(CryptoFocus::AppSKey), Some((16, 32)));
    assert_eq!(crypto_field_lengths(CryptoFocus::NwkSKey), Some((16, 32)));
    assert_eq!(crypto_field_lengths(CryptoFocus::Unfocused), None);
}

#[test]
fn crypto_status_text() {
    assert_eq!(crypto_status("26011F88", 4), (true, "ok".to_string()));
    assert_eq!(crypto_status("26:01", 4), (false, "4/8 digits".to_string()));
    assert_eq!(crypto_status("", 16), (false, "0/32 digits".to_string()));
}

#[test]
fn abbreviated_hex_examples() {
    let key: [u8; 16] = [
        0x2B, 0x7E, 0x15, 0x16, 0x28, 0xAE, 0xD2, 0xA6, 0xAB, 0xF7, 0x15, 0x88, 0x09, 0xCF, 0x4F,
        0x3C,
    ];
    assert_eq!(abbreviated_hex(&key), "2B7E15...4F3C");
    assert_eq!(abbreviated_hex(&[1, 2]), "0102...0102");
    assert_eq!(abbreviated_hex(&[]), "...");
}

#[test]
fn hex_bytes_wraps_every_16() {
    assert_eq!(hex_bytes(&[]), "(empty)");
    assert_eq!(hex_bytes(&[0xab, 0x01]), "AB 01");
    let bytes: Vec<u8> = (0u8..18).collect();
    assert_eq!(
        hex_bytes(&bytes),
        "00 01 02 03 04 05 06 07 08 09 0A 0B 0C 0D 0E 0F\n10 11"
    );
    assert_eq!(hex_string(&[0xab, 0x01]), "AB01");
}

#[test]
fn symbol_groups_of_stream() {
    let stream = build_symbol_stream(&[0x40, 0x01, 0x02], 7);
    let groups = symbol_groups(&stream);
    assert_eq!(
        groups,
        vec![
            SymbolGroup { kind: SymbolKind::Preamble, start: 0, count: 8 },
            SymbolGroup { kind: SymbolKind::Sync, start: 8, count: 2 },
            SymbolGroup { kind: SymbolKind::Header, start: 10, count: 2 },
            SymbolGroup { kind: SymbolKind::Payload, start: 12, count: 3 },
        ]
    );
    assert!(symbol_groups(&[]).is_empty());
}
