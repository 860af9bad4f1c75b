use darken::codec::{
    encode, decode, subject_id_of, action_of, control_token, sentinel_color_exec,
    Background, RecolorOptions, DecodeError, TokenAction,
};
use darken::color::RgbColor;

fn opts(apply: bool, auto_adjust: bool, background: Background) -> RecolorOptions {
    RecolorOptions { apply, auto_adjust, background }
}

#[test]
fn encodes_default_options() {
    let t = encode(&RecolorOptions::defaults(), 42, false);
    assert_eq!(t, "darken-0-0--42");
}

#[test]
fn encodes_full_options() {
    let o = opts(false, true, Background::Color(RgbColor { red: 0x20, green: 0x20, blue: 0x20 }));
    let t = encode(&o, 7, true);
    assert_eq!(t, "darken-1-1-202020-7");
}

#[test]
fn encodes_ask_sentinel() {
    let o = opts(false, false, Background::Ask);
    let t = encode(&o, 9, false);
    assert_eq!(t, "darken-0-0-000001-9");
}

#[test]
fn round_trips_all_backgrounds() {
    let backgrounds = [
        Background::Unset,
        Background::Ask,
        Background::Color(RgbColor { red: 255, green: 255, blue: 255 }),
        Background::Color(RgbColor { red: 0x2e, green: 0x34, blue: 0x40 }),
    ];
    for apply in [false, true] {
        for auto_adjust in [false, true] {
            for background in backgrounds {
                let o = opts(apply, auto_adjust, background);
                let t = encode(&o, 123456789, apply);
                let (o2, id) = decode(t.as_str()).unwrap();
                assert_eq!(o2, o);
                assert_eq!(id, 123456789);
            }
        }
    }
}

#[test]
fn round_trip_overrides_apply_flag() {
    let o = opts(false, true, Background::Unset);
    let t = encode(&o, 5, true);
    let (o2, id) = decode(t.as_str()).unwrap();
    assert!(o2.apply);
    assert_eq!(o2.auto_adjust, o.auto_adjust);
    assert_eq!(o2.background, o.background);
    assert_eq!(id, 5);
}

#[test]
fn sentinel_literal_decodes_as_ask() {
    let o = opts(true, false, Background::Color(sentinel_color_exec()));
    let t = encode(&o, 3, true);
    let (o2, _) = decode(t.as_str()).unwrap();
    assert_eq!(o2.background, Background::Ask);
}

#[test]
fn decodes_short_token_with_defaults() {
    let (o, id) = decode("darken-1-77").unwrap();
    assert!(o.apply);
    assert!(!o.auto_adjust);
    assert_eq!(o.background, Background::Unset);
    assert_eq!(id, 77);
}

#[test]
fn ignores_unknown_extra_fields() {
    let (o, id) = decode("darken-1-0-202020-futureflag-88").unwrap();
    assert!(o.apply);
    assert!(!o.auto_adjust);
    assert_eq!(o.background, Background::Color(RgbColor { red: 0x20, green: 0x20, blue: 0x20 }));
    assert_eq!(id, 88);
}

#[test]
fn rejects_too_few_fields() {
    assert_eq!(decode(""), Err(DecodeError::WrongFieldCount));
    assert_eq!(decode("darken"), Err(DecodeError::WrongFieldCount));
    assert_eq!(decode("darken-5"), Err(DecodeError::WrongFieldCount));
}

#[test]
fn rejects_non_numeric_flag() {
    assert_eq!(decode("darken-x-5"), Err(DecodeError::NonNumericFlag));
    assert_eq!(decode("darken-2-5"), Err(DecodeError::NonNumericFlag));
    assert_eq!(decode("darken-1-maybe-202020-5"), Err(DecodeError::NonNumericFlag));
    assert_eq!(decode("darken--5"), Err(DecodeError::NonNumericFlag));
}

#[test]
fn rejects_invalid_color_digits() {
    assert_eq!(decode("darken-1-0-zzzzzz-5"), Err(DecodeError::InvalidColorDigits));
    assert_eq!(decode("darken-1-0-fff-5"), Err(DecodeError::InvalidColorDigits));
}

#[test]
fn rejects_bad_subject_id() {
    assert_eq!(decode("darken-1-0--abc"), Err(DecodeError::NonNumericSubjectId));
    assert_eq!(decode("darken-1-0--0"), Err(DecodeError::NonNumericSubjectId));
    assert_eq!(decode("darken-1-0--"), Err(DecodeError::NonNumericSubjectId));
    assert_eq!(decode("darken-1-0--99999999999999999999999"), Err(DecodeError::NonNumericSubjectId));
}

#[test]
fn never_panics_on_garbage() {
    let garbage = [
        "-", "--", "---", "----", "darken-", "-darken", "a-b-c", "🌙-🌙-🌙",
        "darken-1-1-000001-9-extra-", "delete", "0-0-0-0-0-0-0-0-0",
        "darken-1-0-202020-18446744073709551616",
    ];
    for g in garbage {
        let _ = decode(g);
        let _ = subject_id_of(g);
        let _ = action_of(g);
    }
}

#[test]
fn extracts_trailing_subject_id() {
    assert_eq!(subject_id_of("delete-123"), Some(123));
    assert_eq!(subject_id_of("darken-1-0-202020-7"), Some(7));
    assert_eq!(subject_id_of("42"), Some(42));
    assert_eq!(subject_id_of("delete-"), None);
    assert_eq!(subject_id_of("delete-12x"), None);
}

#[test]
fn classifies_actions_by_prefix() {
    assert_eq!(action_of("darken-0-0--1"), Some(TokenAction::Darken));
    assert_eq!(action_of("delete-1"), Some(TokenAction::Delete));
    assert_eq!(action_of("clear-1"), Some(TokenAction::Clear));
    assert_eq!(action_of("stop-1"), Some(TokenAction::Stop));
    assert_eq!(action_of("darkened-1"), None);
    assert_eq!(action_of("other-1"), None);
    assert_eq!(action_of(""), None);
}

#[test]
fn builds_control_tokens() {
    assert_eq!(control_token(TokenAction::Delete, 9), "delete-9");
    assert_eq!(control_token(TokenAction::Stop, 120), "stop-120");
    assert_eq!(subject_id_of(control_token(TokenAction::Delete, 314).as_str()), Some(314));
}

#[test]
fn handles_largest_subject_id() {
    let t = control_token(TokenAction::Delete, u64::MAX);
    assert_eq!(subject_id_of(t.as_str()), Some(u64::MAX));
    let t = encode(&RecolorOptions::defaults(), u64::MAX, false);
    let (_, id) = decode(t.as_str()).unwrap();
    assert_eq!(id, u64::MAX);
}
