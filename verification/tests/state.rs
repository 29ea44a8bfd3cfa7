use lorawanwiz::state::{
    hex_string, is_supported_save_version, max_app_payload_bytes, next_volume_percent,
    parse_hex, parse_hex_would_split_char, CodingRate, DEFAULT_APP_SKEY, DEFAULT_DEV_ADDR, DEFAULT_NWK_SKEY,
};

#[test]
fn coding_rate_labels() {
    assert_eq!(CodingRate::FourFive.label(), "4/5");
    assert_eq!(CodingRate::FourSix.label(), "4/6");
    assert_eq!(CodingRate::FourSeven.label(), "4/7");
    assert_eq!(CodingRate::FourEight.label(), "4/8");
}

#[test]
fn coding_rate_all_and_cycle() {
    let all = CodingRate::all();
    assert_eq!(all.len(), 4);
    assert_eq!(all[0], CodingRate::FourFive);
    assert_eq!(all[3], CodingRate::FourEight);
    let mut cr = CodingRate::FourFive;
    for i in 1..=4 {
        cr = cr.next();
        assert_eq!(cr, all[i % 4]);
    }
    assert_eq!(cr, CodingRate::FourFive);
}

#[test]
fn max_payload_table() {
    assert_eq!(max_app_payload_bytes(7, 125), 222);
    assert_eq!(max_app_payload_bytes(8, 250), 222);
    assert_eq!(max_app_payload_bytes(9, 125), 115);
    assert_eq!(max_app_payload_bytes(9, 500), 115);
    assert_eq!(max_app_payload_bytes(10, 125), 51);
    assert_eq!(max_app_payload_bytes(12, 500), 51);
    assert_eq!(max_app_payload_bytes(7, 200), 51);
    assert_eq!(max_app_payload_bytes(6, 125), 51);
}

#[test]
fn volume_cycles_through_steps() {
    assert_eq!(next_volume_percent(25), 50);
    assert_eq!(next_volume_percent(50), 75);
    assert_eq!(next_volume_percent(75), 100);
    assert_eq!(next_volume_percent(100), 25);
    assert_eq!(next_volume_percent(37), 50);
    assert_eq!(next_volume_percent(38), 75);
    assert_eq!(next_volume_percent(-5), 50);
}

#[test]
fn save_version_check() {
    assert!(is_supported_save_version(0));
    assert!(is_supported_save_version(1));
    assert!(!is_supported_save_version(2));
}

#[test]
fn hex_string_of_defaults() {
    assert_eq!(hex_string(&DEFAULT_DEV_ADDR), "26011F88");
    assert_eq!(hex_string(&DEFAULT_APP_SKEY), "2B7E151628AED2A6ABF7158809CF4F3C");
    assert_eq!(hex_string(&DEFAULT_NWK_SKEY), "99887766554433221100AABBCCDDEEFF");
    assert_eq!(hex_string(&[]), "");
}

#[test]
fn parse_hex_accepts_separators_and_case() {
    assert_eq!(parse_hex("26:01-1f 88", 4), Some(vec![0x26, 0x01, 0x1f, 0x88]));
    assert_eq!(parse_hex("26011F88", 4), Some(vec![0x26, 0x01, 0x1f, 0x88]));
    assert_eq!(parse_hex("\t2601\n1F88 ", 4), Some(vec![0x26, 0x01, 0x1f, 0x88]));
}

#[test]
fn parse_hex_rejects_bad_input() {
    assert_eq!(parse_hex("26011F8", 4), None);
    assert_eq!(parse_hex("26011F8800", 4), None);
    assert_eq!(parse_hex("26011G88", 4), None);
    assert_eq!(parse_hex("", 1), None);
    // Non-ASCII that does not split a character: the pair fails to parse.
    assert_eq!(parse_hex("\u{e9}", 1), None);
}

#[test]
fn parse_hex_plus_sign_pair() {
    // u8::from_str_radix accepts a leading '+': "+f" reads as 15.
    assert_eq!(parse_hex("+f01", 2), Some(vec![0x0f, 0x01]));
    assert_eq!(parse_hex("f+01", 2), None);
}

#[test]
fn parse_hex_zero_bytes() {
    assert_eq!(parse_hex("", 0), Some(vec![]));
    assert_eq!(parse_hex(" : - ", 0), Some(vec![]));
}

#[test]
fn hex_string_parses_back() {
    let bytes: Vec<u8> = (0u8..=255).collect();
    let text = hex_string(&bytes);
    assert_eq!(parse_hex(&text, bytes.len()), Some(bytes));
}

#[test]
fn parse_hex_split_detection() {
    // "é" is two bytes and starts a pair: the pair fails to parse, no split.
    assert!(!parse_hex_would_split_char("\u{e9}", 1));
    // 'a' then a two-byte character at an odd position: the first pair would
    // end inside it.
    assert!(parse_hex_would_split_char("a\u{e9}b", 2));
    // A three-byte character at the start of a pair.
    assert!(parse_hex_would_split_char("\u{20ac}a", 2));
    // An earlier pair fails first, so nothing is split.
    assert!(!parse_hex_would_split_char("zz\u{20ac}x", 3));
    // Length mismatch: rejected before any pair is cut.
    assert!(!parse_hex_would_split_char("a\u{e9}", 2));
    // Plain ASCII never splits.
    assert!(!parse_hex_would_split_char("26011F88", 4));
}
