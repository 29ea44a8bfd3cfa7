use lorawanwiz::math::{
    build_lorawan_frame, build_symbol_stream, compute_mic, encrypt_payload, FCTRL_NONE,
    MHDR_UNCONFIRMED_UP,
};
use lorawanwiz::pipeline::run_pipeline_bytes;
use lorawanwiz::state::{DEFAULT_APP_SKEY, DEFAULT_DEV_ADDR, DEFAULT_NWK_SKEY};

#[test]
fn pipeline_composes_steps() {
    let out = run_pipeline_bytes("hello", &DEFAULT_APP_SKEY, &DEFAULT_NWK_SKEY, &DEFAULT_DEV_ADDR, 1, 1, 7);
    assert_eq!(out.plaintext, b"hello".to_vec());
    let ct = encrypt_payload(b"hello", &DEFAULT_APP_SKEY, 1, &DEFAULT_DEV_ADDR);
    assert_eq!(out.ciphertext, ct);
    assert_eq!(out.encrypt_steps.len(), 1);
    let mic = compute_mic(MHDR_UNCONFIRMED_UP, &DEFAULT_DEV_ADDR, FCTRL_NONE, 1, 1, &ct, &DEFAULT_NWK_SKEY);
    assert_eq!(out.mic, mic);
    let frame = build_lorawan_frame(MHDR_UNCONFIRMED_UP, &DEFAULT_DEV_ADDR, FCTRL_NONE, 1, 1, &ct, &mic);
    assert_eq!(out.frame, frame);
    assert_eq!(out.frame.len(), 18);
    let stream = build_symbol_stream(&frame, 7);
    assert_eq!(out.symbols.len(), stream.len());
    for (a, b) in out.symbols.iter().zip(stream.iter()) {
        assert_eq!(a.raw, b.raw);
        assert_eq!(a.kind, b.kind);
    }
    // 8 preamble + 2 sync + 2 header + ceil(17 * 8 / 7) = 20 payload symbols.
    assert_eq!(out.symbols.len(), 32);
}

#[test]
fn pipeline_empty_message() {
    let out = run_pipeline_bytes("", &DEFAULT_APP_SKEY, &DEFAULT_NWK_SKEY, &DEFAULT_DEV_ADDR, 1, 1, 12);
    assert!(out.plaintext.is_empty());
    assert!(out.ciphertext.is_empty());
    assert!(out.encrypt_steps.is_empty());
    assert_eq!(out.frame.len(), 13);
}
