use lorawanwiz::math::{
    apply_gray_coding, build_ai_block, build_lorawan_frame, build_symbol_stream,
    bytes_to_symbols, compute_mic, encrypt_payload, encrypt_payload_with_steps,
    inverse_gray_coding, message_to_bytes, mic_from_tag, mic_input, ChirpDirection, SymbolKind,
    PREAMBLE_LEN, SYNC_SYMBOL_1, SYNC_SYMBOL_2,
};

fn hex_key(s: &str) -> [u8; 16] {
    assert_eq!(s.len(), 32);
    let mut k = [0u8; 16];
    for i in 0..16 {
        k[i] = u8::from_str_radix(&s[i * 2..i * 2 + 2], 16).unwrap();
    }
    k
}

#[test]
fn message_to_bytes_basic() {
    assert_eq!(message_to_bytes("hello"), vec![0x68, 0x65, 0x6c, 0x6c, 0x6f]);
    assert_eq!(message_to_bytes(""), Vec::<u8>::new());
}

#[test]
fn gray_coding_round_trip() {
    for s in 0u16..4096 {
        assert_eq!(inverse_gray_coding(apply_gray_coding(s)), s);
    }
}

#[test]
fn gray_coding_known_values() {
    assert_eq!(apply_gray_coding(0), 0);
    assert_eq!(apply_gray_coding(1), 1);
    assert_eq!(apply_gray_coding(2), 3);
    assert_eq!(apply_gray_coding(3), 2);
    assert_eq!(apply_gray_coding(4), 6);
    assert_eq!(apply_gray_coding(7), 4);
}

#[test]
fn encrypt_then_decrypt_is_identity() {
    let key = hex_key("2b7e151628aed2a6abf7158809cf4f3c");
    let dev = [0x12, 0x34, 0x56, 0x78];
    let pt = b"hello world, this crosses 16 bytes";
    let ct = encrypt_payload(pt, &key, 1, &dev);
    let pt2 = encrypt_payload(&ct, &key, 1, &dev);
    assert_eq!(pt2, pt);
}

#[test]
fn encrypt_changes_with_fcnt() {
    let key = hex_key("2b7e151628aed2a6abf7158809cf4f3c");
    let dev = [0x12, 0x34, 0x56, 0x78];
    let pt = b"hello";
    let c1 = encrypt_payload(pt, &key, 1, &dev);
    let c2 = encrypt_payload(pt, &key, 2, &dev);
    assert_ne!(c1, c2);
}

#[test]
fn encrypt_changes_with_devaddr() {
    let key = hex_key("2b7e151628aed2a6abf7158809cf4f3c");
    let pt = b"hello";
    let c1 = encrypt_payload(pt, &key, 1, &[1, 2, 3, 4]);
    let c2 = encrypt_payload(pt, &key, 1, &[5, 6, 7, 8]);
    assert_ne!(c1, c2);
}

#[test]
fn encrypt_with_steps_block_count() {
    let key = hex_key("2b7e151628aed2a6abf7158809cf4f3c");
    let dev = [0x12, 0x34, 0x56, 0x78];
    let pt = b"hello, longer than 16 bytes please";
    let plain = encrypt_payload(pt, &key, 7, &dev);
    let (with_steps, steps) = encrypt_payload_with_steps(pt, &key, 7, &dev);
    assert_eq!(plain, with_steps);
    assert_eq!(steps.len(), 3);
    assert_eq!(steps[0].block_index, 1);
    assert_eq!(steps[2].block_index, 3);
}

#[test]
fn encrypt_empty_payload_returns_empty() {
    let key = hex_key("2b7e151628aed2a6abf7158809cf4f3c");
    let dev = [0; 4];
    assert!(encrypt_payload(&[], &key, 0, &dev).is_empty());
}

#[test]
fn ai_block_layout_matches_spec() {
    let dev = [0x01, 0x02, 0x03, 0x04];
    let a = build_ai_block(1, 0x0000_0007, &dev);
    assert_eq!(a[0], 0x01);
    assert_eq!(&a[1..5], &[0, 0, 0, 0]);
    assert_eq!(a[5], 0x00); // uplink
    assert_eq!(&a[6..10], &[0x04, 0x03, 0x02, 0x01]);
    assert_eq!(&a[10..14], &[0x07, 0x00, 0x00, 0x00]);
    assert_eq!(a[14], 0x00);
    assert_eq!(a[15], 0x01);
}

#[test]
fn mic_is_deterministic_and_4_bytes() {
    let nwk = hex_key("2b7e151628aed2a6abf7158809cf4f3c");
    let dev = [0x12, 0x34, 0x56, 0x78];
    let ct = vec![0xaa, 0xbb, 0xcc];
    let m1 = compute_mic(0x40, &dev, 0x00, 1, 1, &ct, &nwk);
    let m2 = compute_mic(0x40, &dev, 0x00, 1, 1, &ct, &nwk);
    assert_eq!(m1, m2);
    assert_eq!(m1.len(), 4);
}

#[test]
fn mic_changes_with_payload() {
    let nwk = hex_key("2b7e151628aed2a6abf7158809cf4f3c");
    let dev = [0x12, 0x34, 0x56, 0x78];
    let m1 = compute_mic(0x40, &dev, 0x00, 1, 1, &[1, 2, 3], &nwk);
    let m2 = compute_mic(0x40, &dev, 0x00, 1, 1, &[1, 2, 4], &nwk);
    assert_ne!(m1, m2);
}

#[test]
fn mic_changes_with_fcnt() {
    let nwk = hex_key("2b7e151628aed2a6abf7158809cf4f3c");
    let dev = [0x12, 0x34, 0x56, 0x78];
    let pl = [0xaa, 0xbb];
    let m1 = compute_mic(0x40, &dev, 0x00, 1, 1, &pl, &nwk);
    let m2 = compute_mic(0x40, &dev, 0x00, 2, 1, &pl, &nwk);
    assert_ne!(m1, m2);
}

#[test]
fn frame_layout_sizes() {
    let f = build_lorawan_frame(0x40, &[1, 2, 3, 4], 0x00, 0x0001, 0x01, &[0xaa; 5], &[0; 4]);
    assert_eq!(f.len(), 1 + 4 + 1 + 2 + 1 + 5 + 4);
    assert_eq!(f[0], 0x40);
}

#[test]
fn frame_devaddr_is_little_endian() {
    let f = build_lorawan_frame(0x40, &[0x12, 0x34, 0x56, 0x78], 0x00, 0, 1, &[], &[0; 4]);
    assert_eq!(&f[1..5], &[0x78, 0x56, 0x34, 0x12]);
}

#[test]
fn bytes_to_symbols_sf8_byte_aligned() {
    let syms = bytes_to_symbols(&[0xab, 0xcd], 8);
    assert_eq!(syms, vec![0xab, 0xcd]);
}

#[test]
fn bytes_to_symbols_sf7_packs_bits() {
    let syms = bytes_to_symbols(&[0xff, 0xff], 7);
    assert_eq!(syms.len(), 3);
    assert_eq!(syms[0], 0x7f);
    assert_eq!(syms[1], 0x7f);
    assert_eq!(syms[2], 0x60);
}

#[test]
fn bytes_to_symbols_sf12_padded() {
    let syms = bytes_to_symbols(&[0xab], 12);
    assert_eq!(syms.len(), 1);
    // 0xab packed MSB-first into 12 bits: 1010_1011_0000 = 0xab0.
    assert_eq!(syms[0], 0xab0);
}

#[test]
fn build_symbol_stream_has_preamble_and_sync() {
    let frame = vec![0x40, 0x01, 0x02, 0x03];
    let stream = build_symbol_stream(&frame, 8);
    assert!(stream.len() >= PREAMBLE_LEN + 2 + 1);
    for i in 0..PREAMBLE_LEN {
        assert_eq!(stream[i].kind, SymbolKind::Preamble);
        assert_eq!(stream[i].raw, 0);
        assert_eq!(stream[i].direction, ChirpDirection::Down);
    }
    assert_eq!(stream[PREAMBLE_LEN].kind, SymbolKind::Sync);
    assert_eq!(stream[PREAMBLE_LEN].raw, SYNC_SYMBOL_1);
    assert_eq!(stream[PREAMBLE_LEN + 1].raw, SYNC_SYMBOL_2);
    assert_eq!(stream[PREAMBLE_LEN + 2].kind, SymbolKind::Header);
}

#[test]
fn build_symbol_stream_empty_frame_just_preamble_and_sync() {
    let stream = build_symbol_stream(&[], 8);
    assert_eq!(stream.len(), PREAMBLE_LEN + 2);
}

// ---------------------------------------------------------------------------
// Further cases: laws on concrete values, exact vectors, edge cases.
// ---------------------------------------------------------------------------

#[test]
fn gray_decode_then_encode_is_identity_on_all_u16() {
    for g in 0u16..=u16::MAX {
        assert_eq!(apply_gray_coding(inverse_gray_coding(g)), g);
        assert_eq!(inverse_gray_coding(apply_gray_coding(g)), g);
    }
}

#[test]
fn inverse_gray_known_values() {
    assert_eq!(inverse_gray_coding(0), 0);
    assert_eq!(inverse_gray_coding(3), 2);
    assert_eq!(inverse_gray_coding(6), 4);
    assert_eq!(inverse_gray_coding(0x8000), 0xffff);
}

#[test]
fn aes_keystream_matches_fips197_vector() {
    // FIPS-197 appendix C.1: key 000102..0f, plaintext 00112233..ff encrypts to
    // 69c4e0d86a7b0430d8cdb78070b4c55a. With an all-zero plaintext, the
    // ciphertext of one block is the keystream block S1.
    let key: [u8; 16] = [
        0x00, 0x01, 0x02, 0x03, 0x04, 0x05, 0x06, 0x07, 0x08, 0x09, 0x0a, 0x0b, 0x0c, 0x0d,
        0x0e, 0x0f,
    ];
    let dev = [0x01, 0x02, 0x03, 0x04];
    let (ct, steps) = encrypt_payload_with_steps(&[0u8; 16], &key, 7, &dev);
    assert_eq!(steps.len(), 1);
    assert_eq!(steps[0].s_block.to_vec(), ct);
    assert_eq!(steps[0].a_block, build_ai_block(1, 7, &dev));
    assert_ne!(ct, vec![0u8; 16]);
}

#[test]
fn encrypt_steps_partition_payload() {
    let key = hex_key("2b7e151628aed2a6abf7158809cf4f3c");
    let dev = [0x12, 0x34, 0x56, 0x78];
    let pt: Vec<u8> = (0u8..40).collect();
    let (ct, steps) = encrypt_payload_with_steps(&pt, &key, 3, &dev);
    assert_eq!(ct.len(), 40);
    assert_eq!(steps.len(), 3);
    let mut all_pt = Vec::new();
    let mut all_ct = Vec::new();
    for (i, s) in steps.iter().enumerate() {
        assert_eq!(s.block_index as usize, i + 1);
        assert_eq!(s.a_block, build_ai_block(i as u8 + 1, 3, &dev));
        for (j, b) in s.plaintext.iter().enumerate() {
            assert_eq!(s.ciphertext[j], b ^ s.s_block[j]);
        }
        all_pt.extend_from_slice(&s.plaintext);
        all_ct.extend_from_slice(&s.ciphertext);
    }
    assert_eq!(steps[2].plaintext.len(), 8);
    assert_eq!(all_pt, pt);
    assert_eq!(all_ct, ct);
}

#[test]
fn encrypt_block_index_wraps_after_255_blocks() {
    let key = [7u8; 16];
    let dev = [0; 4];
    let pt = vec![0u8; 256 * 16 + 1];
    let (_, steps) = encrypt_payload_with_steps(&pt, &key, 0, &dev);
    assert_eq!(steps.len(), 257);
    assert_eq!(steps[254].block_index, 255);
    assert_eq!(steps[255].block_index, 0);
    assert_eq!(steps[256].block_index, 1);
}

#[test]
fn mic_input_has_b0_then_message() {
    let dev = [0x12, 0x34, 0x56, 0x78];
    let input = mic_input(0x40, &dev, 0x00, 0x0001_0203, 0x05, &[0xaa, 0xbb]);
    assert_eq!(
        input,
        vec![
            0x49, 0, 0, 0, 0, 0x00, 0x78, 0x56, 0x34, 0x12, 0x03, 0x02, 0x01, 0x00, 0x00, 11,
            0x40, 0x78, 0x56, 0x34, 0x12, 0x00, 0x03, 0x02, 0x05, 0xaa, 0xbb,
        ]
    );
}

#[test]
fn mic_is_first_four_bytes_of_rfc4493_cmac() {
    // RFC 4493 example 2: key 2b7e1516..., message 6bc1bee2 2e409f96 e93d7e11
    // 7393172a has CMAC 070a16b4 6b4d4144 f79bdd9d d04a287c.
    let tag: [u8; 16] = [
        0x07, 0x0a, 0x16, 0xb4, 0x6b, 0x4d, 0x41, 0x44, 0xf7, 0x9b, 0xdd, 0x9d, 0xd0, 0x4a,
        0x28, 0x7c,
    ];
    assert_eq!(mic_from_tag(&tag), [0x07, 0x0a, 0x16, 0xb4]);
}

#[test]
fn mic_changes_with_key() {
    let dev = [0x12, 0x34, 0x56, 0x78];
    let m1 = compute_mic(0x40, &dev, 0x00, 1, 1, &[1, 2, 3], &[1u8; 16]);
    let m2 = compute_mic(0x40, &dev, 0x00, 1, 1, &[1, 2, 3], &[2u8; 16]);
    assert_ne!(m1, m2);
}

#[test]
fn frame_full_layout() {
    let f = build_lorawan_frame(0x40, &[0x12, 0x34, 0x56, 0x78], 0x00, 0x0001_0203, 0x07, &[9, 8], &[1, 2, 3, 4]);
    assert_eq!(f, vec![0x40, 0x78, 0x56, 0x34, 0x12, 0x00, 0x03, 0x02, 0x07, 9, 8, 1, 2, 3, 4]);
}

#[test]
fn bytes_to_symbols_sf7_eight_bytes_is_ten_symbols() {
    let syms = bytes_to_symbols(&[0xff; 8], 7);
    assert_eq!(syms.len(), 10);
    for s in &syms[..9] {
        assert_eq!(*s, 0x7f);
    }
    // 64 bits = 9 * 7 + 1: the last symbol carries one bit and 6 zero bits.
    assert_eq!(syms[9], 0x40);
}

#[test]
fn bytes_to_symbols_empty() {
    assert!(bytes_to_symbols(&[], 7).is_empty());
}

#[test]
fn bytes_to_symbols_symbols_fit_in_sf_bits() {
    let bytes: Vec<u8> = (0u8..=255).collect();
    for sf in 7u8..=12 {
        let syms = bytes_to_symbols(&bytes, sf);
        assert_eq!(syms.len(), (256 * 8 + sf as usize - 1) / sf as usize);
        for s in syms {
            assert!((s as u32) < (1u32 << sf));
        }
    }
}

#[test]
fn build_symbol_stream_labels_and_gray() {
    let frame = vec![0x40, 0xab, 0xcd];
    let stream = build_symbol_stream(&frame, 7);
    // 8 preamble + 2 sync + 2 header symbols (8 bits at SF7) + 3 payload (16 bits at SF7)
    assert_eq!(stream.len(), 15);
    for (i, s) in stream.iter().enumerate() {
        assert_eq!(s.index, i);
        assert_eq!(s.gray, apply_gray_coding(s.raw));
    }
    assert_eq!(stream[10].kind, SymbolKind::Header);
    assert_eq!(stream[11].kind, SymbolKind::Header);
    assert_eq!(stream[12].kind, SymbolKind::Payload);
    assert_eq!(stream[10].raw, 0x20);
    assert_eq!(stream[11].raw, 0x00);
    assert_eq!(stream[12].raw, 0x55);
    assert_eq!(stream[8].gray, apply_gray_coding(SYNC_SYMBOL_1));
    assert_eq!(stream[9].direction, ChirpDirection::Up);
}

#[test]
fn build_symbol_stream_single_byte_frame_has_no_payload() {
    let stream = build_symbol_stream(&[0x40], 8);
    assert_eq!(stream.len(), PREAMBLE_LEN + 3);
    assert_eq!(stream[PREAMBLE_LEN + 2].kind, SymbolKind::Header);
    assert_eq!(stream[PREAMBLE_LEN + 2].raw, 0x40);
}
