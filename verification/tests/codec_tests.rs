use prompt_store::hex::{hex_enc, hex_dec};
use prompt_store::ids::PromptId;
use prompt_store::metadata::{PromptMetadata, encode_meta, decode_meta, decode_legacy_meta};
use prompt_store::norm::normalize_line_endings;

#[test]
fn hex_encodes_fixed_width() {
    assert_eq!(hex_enc(0, 16), "0000000000000000");
    assert_eq!(hex_enc(255, 4), "00ff");
    assert_eq!(hex_enc(0xdeadbeef, 8), "deadbeef");
}

#[test]
fn hex_round_trips() {
    let vals: Vec<u128> = vec![0, 1, 15, 16, 255, 0xdead_beef, u128::MAX];
    for v in vals {
        let s = hex_enc(v, 32);
        assert_eq!(s.len(), 32);
        assert_eq!(hex_dec(s.as_str(), 0, 32), Some(v));
    }
}

#[test]
fn hex_rejects_bad_digits() {
    assert_eq!(hex_dec("00zz", 0, 4), None);
    assert_eq!(hex_dec("ABCD", 0, 4), None); // upper case is not accepted
}

#[test]
fn id_keys_have_expected_shape() {
    let user = PromptId::User { uuid: 0xabc };
    let k = user.encode();
    assert_eq!(k, format!("u{}", hex_enc(0xabc, 32)));
    assert_eq!(k.len(), 33);
    let w = PromptId::EditWorkflow.encode();
    assert_eq!(w, "w");
}

#[test]
fn metadata_round_trips() {
    let m = PromptMetadata {
        id: PromptId::User { uuid: 42 },
        title: Some(String::from("A title with \n and tabs\t!")),
        default: true,
        saved_at: 123456789,
    };
    let s = encode_meta(&m);
    let d = decode_meta(s.as_str()).expect("record must decode");
    assert!(matches!(d.id, PromptId::User { uuid: 42 }));
    assert_eq!(d.title.as_deref(), Some("A title with \n and tabs\t!"));
    assert!(d.default);
    assert_eq!(d.saved_at, 123456789);
}

#[test]
fn metadata_round_trips_untitled() {
    let m = PromptMetadata {
        id: PromptId::User { uuid: u128::MAX },
        title: None,
        default: false,
        saved_at: 0,
    };
    let s = encode_meta(&m);
    let d = decode_meta(s.as_str()).expect("record must decode");
    assert!(matches!(d.id, PromptId::User { uuid: u128::MAX }));
    assert_eq!(d.title, None);
    assert!(!d.default);
    assert_eq!(d.saved_at, 0);
}

#[test]
fn metadata_round_trips_builtin() {
    let m = PromptMetadata {
        id: PromptId::EditWorkflow,
        title: Some(String::from("Workflow")),
        default: true,
        saved_at: 7,
    };
    let s = encode_meta(&m);
    let d = decode_meta(s.as_str()).expect("record must decode");
    assert!(matches!(d.id, PromptId::EditWorkflow));
    assert_eq!(d.title.as_deref(), Some("Workflow"));
}

#[test]
fn malformed_records_are_rejected() {
    assert!(decode_meta("").is_none());
    assert!(decode_meta("x").is_none());
    assert!(decode_meta("u0123").is_none());
    assert!(decode_meta("w\n5\n0000000000000000\nn").is_none()); // bad flag
    let good = encode_meta(&PromptMetadata {
        id: PromptId::User { uuid: 9 },
        title: None,
        default: false,
        saved_at: 1,
    });
    let mut truncated = good.clone();
    truncated.pop();
    assert!(decode_meta(truncated.as_str()).is_none());
    assert!(decode_meta(good.as_str()).is_some());
}

#[test]
fn legacy_records_decode() {
    let key_hex = hex_enc(77, 32);
    let rec = format!("{}\n1\n{}\ntOld title", key_hex, hex_enc(100, 16));
    let d = decode_legacy_meta(rec.as_str()).expect("legacy record must decode");
    assert!(matches!(d.id, PromptId::User { uuid: 77 }));
    assert_eq!(d.title.as_deref(), Some("Old title"));
    assert!(d.default);
    assert_eq!(d.saved_at, 100);
    assert!(decode_legacy_meta("not hex at all").is_none());
}

#[test]
fn line_endings_normalize() {
    assert_eq!(normalize_line_endings("a\r\nb"), "a\nb");
    assert_eq!(normalize_line_endings("a\rb"), "a\nb");
    assert_eq!(normalize_line_endings("\r\r\n"), "\n\n");
    assert_eq!(normalize_line_endings("plain\ntext"), "plain\ntext");
    assert_eq!(normalize_line_endings(""), "");
    assert_eq!(normalize_line_endings("\r"), "\n");
}

#[test]
fn hex_parses_at_offsets() {
    assert_eq!(hex_dec("xx00ffyy", 2, 4), Some(0xff));
    assert_eq!(hex_dec("00ff", 0, 2), Some(0));
    assert_eq!(hex_dec("00ff", 2, 2), Some(0xff));
}

#[test]
fn normalization_is_idempotent_on_examples() {
    let cases = vec!["a\r\nb", "a\rb", "\r\r\n", "mixed\r\nlines\rhere\n"];
    for c in cases {
        let once = normalize_line_endings(c);
        let twice = normalize_line_endings(once.as_str());
        assert_eq!(once, twice);
        assert!(!once.contains('\r'));
    }
}
