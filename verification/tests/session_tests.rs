use darken::session::{
    step, validate_attachment, AttachmentMeta, SessionState, SessionEvent, SessionAction,
    ValidationError, MAX_ATTACHMENT_BYTES,
};
use darken::codec::{decode, encode, Background, RecolorOptions};
use darken::color::RgbColor;
use darken::image_data::DecodedImage;
use darken::brightness::analyze;
use darken::palette::apply;

const THRESHOLD: u32 = 4000;

fn png_meta(size_bytes: u64) -> AttachmentMeta {
    AttachmentMeta {
        url: String::from("https://example.invalid/a.png"),
        proxy_url: String::from("https://proxy.invalid/a.png"),
        content_type: Some(String::from("image/png")),
        size_bytes,
        author_is_bot: false,
    }
}

#[test]
fn validates_ordinary_png() {
    assert_eq!(validate_attachment(&png_meta(1024)), Ok(()));
    assert_eq!(validate_attachment(&png_meta(MAX_ATTACHMENT_BYTES)), Ok(()));
}

#[test]
fn rejects_oversized_attachment() {
    let twenty_mib = 20 * 1024 * 1024;
    assert_eq!(validate_attachment(&png_meta(twenty_mib)), Err(ValidationError::TooLarge));
}

#[test]
fn rejects_missing_content_type() {
    let mut m = png_meta(10);
    m.content_type = None;
    assert_eq!(validate_attachment(&m), Err(ValidationError::NoContentType));
}

#[test]
fn rejects_non_image_content_type() {
    let mut m = png_meta(10);
    m.content_type = Some(String::from("text/plain"));
    assert_eq!(validate_attachment(&m), Err(ValidationError::NotAnImage));
}

#[test]
fn oversized_attachment_is_rejected_without_fetch() {
    let twenty_mib = 20 * 1024 * 1024;
    let ev = SessionEvent::AttachmentPosted { subject: 42, meta: png_meta(twenty_mib) };
    let (state, action) = step(THRESHOLD, &SessionState::Idle, &ev);
    assert_eq!(state, SessionState::Idle);
    assert!(matches!(
        action,
        SessionAction::RejectAttachment { reason: ValidationError::TooLarge }
    ));
}

#[test]
fn valid_attachment_triggers_fetch() {
    let ev = SessionEvent::AttachmentPosted { subject: 42, meta: png_meta(1000) };
    let (state, action) = step(THRESHOLD, &SessionState::Idle, &ev);
    assert_eq!(state, SessionState::Measuring { subject: 42 });
    match action {
        SessionAction::FetchAndMeasure { url } => {
            assert_eq!(url, "https://proxy.invalid/a.png");
        },
        _ => panic!("expected a fetch"),
    }
}

#[test]
fn bright_image_is_announced() {
    let ev = SessionEvent::Measured { subject: 42, average: 9000 };
    let (state, action) = step(THRESHOLD, &SessionState::Measuring { subject: 42 }, &ev);
    assert_eq!(state, SessionState::Announced { subject: 42 });
    match action {
        SessionAction::PostAnnouncement { token } => {
            assert_eq!(token, "darken-0-0--42");
        },
        _ => panic!("expected an announcement"),
    }
}

#[test]
fn dim_image_stays_quiet() {
    let ev = SessionEvent::Measured { subject: 42, average: 3000 };
    let (state, action) = step(THRESHOLD, &SessionState::Measuring { subject: 42 }, &ev);
    assert_eq!(state, SessionState::Idle);
    assert!(matches!(action, SessionAction::Quiet));
}

#[test]
fn apply_press_goes_straight_to_rendering() {
    let press = SessionEvent::ButtonPressed { token: String::from("darken-1-0--42") };
    let (state, action) = step(THRESHOLD, &SessionState::Announced { subject: 42 }, &press);
    match (&state, &action) {
        (
            SessionState::Rendering { subject: 42, options },
            SessionAction::RenderAndDeliver { subject: 42, options: o2 },
        ) => {
            assert!(options.apply && o2.apply);
            assert_eq!(options.background, Background::Unset);
        },
        _ => panic!("expected a render"),
    }
}

#[test]
fn end_to_end_announce_render_and_dispose() {
    let ev = SessionEvent::Measured { subject: 42, average: 9000 };
    let (state, _) = step(THRESHOLD, &SessionState::Measuring { subject: 42 }, &ev);
    let press = SessionEvent::ButtonPressed { token: String::from("darken-1-0--42") };
    let (state, action) = step(THRESHOLD, &state, &press);
    let options = match action {
        SessionAction::RenderAndDeliver { subject: 42, options } => options,
        _ => panic!("expected a render"),
    };

    let img = DecodedImage::new(2, 3, vec![240; 24]).unwrap();
    let stats = analyze(&img);
    assert!(stats.average > THRESHOLD);
    let out = apply(&img, &options, &stats);
    assert_eq!((out.width, out.height), (2, 3));

    let done = SessionEvent::RenderFinished { subject: 42 };
    let (state, action) = step(THRESHOLD, &state, &done);
    assert_eq!(state, SessionState::Delivered { subject: 42 });
    let dispose_token = match action {
        SessionAction::AttachDisposeControl { token } => token,
        _ => panic!("expected a dispose control"),
    };
    assert_eq!(dispose_token, "delete-42");

    let press = SessionEvent::ButtonPressed { token: dispose_token };
    let (state, action) = step(THRESHOLD, &state, &press);
    assert_eq!(state, SessionState::Disposed);
    assert!(matches!(action, SessionAction::DeleteSubject { subject: 42 }));
}

#[test]
fn ask_sentinel_opens_modal_and_submission_updates_token() {
    let ask = RecolorOptions { apply: false, auto_adjust: false, background: Background::Ask };
    let press = SessionEvent::ButtonPressed { token: encode(&ask, 42, false) };
    let (state, action) = step(THRESHOLD, &SessionState::Announced { subject: 42 }, &press);
    assert!(matches!(state, SessionState::BackgroundPrompt { subject: 42, .. }));
    assert!(matches!(action, SessionAction::OpenBackgroundModal { subject: 42 }));

    let submit = SessionEvent::ModalSubmitted { text: String::from("#202020") };
    let (state, action) = step(THRESHOLD, &state, &submit);
    assert_eq!(state, SessionState::Announced { subject: 42 });
    let token = match action {
        SessionAction::UpdateControls { token } => token,
        _ => panic!("expected refreshed controls"),
    };
    let (o, id) = decode(token.as_str()).unwrap();
    assert_eq!(id, 42);
    assert_eq!(o.background, Background::Color(RgbColor { red: 0x20, green: 0x20, blue: 0x20 }));

    let apply_token = encode(&o, id, true);
    let (state, action) = step(THRESHOLD, &state, &SessionEvent::ButtonPressed { token: apply_token });
    let options = match action {
        SessionAction::RenderAndDeliver { subject: 42, options } => options,
        _ => panic!("expected a render"),
    };
    assert!(matches!(state, SessionState::Rendering { subject: 42, .. }));

    let img = DecodedImage::new(1, 1, vec![0, 0, 0, 0]).unwrap();
    let stats = analyze(&img);
    let out = apply(&img, &options, &stats);
    assert_eq!(out.pixels, vec![46, 52, 64, 255]);
}

#[test]
fn invalid_modal_input_returns_to_announced() {
    let ask = RecolorOptions { apply: false, auto_adjust: false, background: Background::Ask };
    let state = SessionState::BackgroundPrompt { subject: 7, options: ask };
    let submit = SessionEvent::ModalSubmitted { text: String::from("not-a-color") };
    let (state, action) = step(THRESHOLD, &state, &submit);
    assert_eq!(state, SessionState::Announced { subject: 7 });
    assert!(matches!(action, SessionAction::ShowColorError));
}

#[test]
fn malformed_token_degrades_to_error_response() {
    let press = SessionEvent::ButtonPressed { token: String::from("darken-x-42") };
    let before = SessionState::Announced { subject: 42 };
    let (state, action) = step(THRESHOLD, &before, &press);
    assert_eq!(state, before);
    assert!(matches!(action, SessionAction::ShowTokenError { .. }));
}

#[test]
fn stop_and_clear_reset_the_flow() {
    for token in ["stop-42", "clear-42"] {
        let press = SessionEvent::ButtonPressed { token: String::from(token) };
        let (state, action) = step(THRESHOLD, &SessionState::Announced { subject: 42 }, &press);
        assert_eq!(state, SessionState::Idle);
        assert!(matches!(action, SessionAction::ClearControls));
    }
}

#[test]
fn vanished_subject_resets_with_apology() {
    let (state, action) = step(
        THRESHOLD,
        &SessionState::Rendering {
            subject: 42,
            options: RecolorOptions { apply: true, auto_adjust: false, background: Background::Unset },
        },
        &SessionEvent::SubjectGone,
    );
    assert_eq!(state, SessionState::Idle);
    assert!(matches!(action, SessionAction::Apologize));
}

#[test]
fn mismatched_measurement_is_ignored() {
    let before = SessionState::Measuring { subject: 1 };
    let ev = SessionEvent::Measured { subject: 2, average: 9000 };
    let (state, action) = step(THRESHOLD, &before, &ev);
    assert_eq!(state, before);
    assert!(matches!(action, SessionAction::Quiet));
}

#[test]
fn foreign_control_is_ignored() {
    let before = SessionState::Announced { subject: 1 };
    let press = SessionEvent::ButtonPressed { token: String::from("vote-up-1") };
    let (state, action) = step(THRESHOLD, &before, &press);
    assert_eq!(state, before);
    assert!(matches!(action, SessionAction::Quiet));
}

#[test]
fn bot_authored_attachment_is_passed_over() {
    let mut meta = png_meta(1000);
    meta.author_is_bot = true;
    let ev = SessionEvent::AttachmentPosted { subject: 42, meta };
    let (state, action) = step(THRESHOLD, &SessionState::Idle, &ev);
    assert_eq!(state, SessionState::Idle);
    assert!(matches!(action, SessionAction::Quiet));
}
