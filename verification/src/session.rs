//! The interaction state machine.
//!
//! Every inbound callback — new attachment, button press, modal submit —
//! is reduced to a [`SessionEvent`]; [`step`] decides the next logical
//! state and the single outward action the adapter must perform.  The
//! machine itself does no I/O: fetching, measuring, rendering and message
//! editing are actions carried out by the adapter, which reports back
//! with further events.  A vanished subject message always resets the
//! flow with an apology rather than failing upward.

use vstd::prelude::*;
use crate::codec::{
    Background, DecodeError, RecolorOptions, TokenAction, spec_action_of, spec_decode,
    spec_encode, spec_control_token, spec_subject_id_of, action_of, decode, encode,
    control_token, subject_id_of, has_prefix,
};
use crate::color::{RgbColor, spec_parse_color, parse_color};

verus! {

/// Largest attachment the bot will touch: 16 MiB.
pub const MAX_ATTACHMENT_BYTES: u64 = 16777216;

/// What an inbound attachment event carries.
pub struct AttachmentMeta {
    pub url: String,
    pub proxy_url: String,
    pub content_type: Option<String>,
    pub size_bytes: u64,
    pub author_is_bot: bool,
}

/// Mathematical shape of an attachment event.
pub struct MetaV {
    pub url: Seq<char>,
    pub proxy_url: Seq<char>,
    pub content_type: Option<Seq<char>>,
    pub size_bytes: u64,
    pub author_is_bot: bool,
}

impl View for AttachmentMeta {
    type V = MetaV;

    open spec fn view(&self) -> MetaV {
        MetaV {
            url: self.url@,
            proxy_url: self.proxy_url@,
            content_type: match self.content_type {
                Some(s) => Some(s@),
                None => None,
            },
            size_bytes: self.size_bytes,
            author_is_bot: self.author_is_bot,
        }
    }
}

/// Why an attachment is rejected before any fetch.
#[derive(Clone, Copy, PartialEq, Eq, Structural, Debug)]
pub enum ValidationError {
    TooLarge,
    NoContentType,
    NotAnImage,
}

/// What validating an attachment yields: too big, typeless and non-image
/// attachments are rejected, in that order of precedence.
pub open spec fn spec_validate(m: MetaV) -> Result<(), ValidationError> {
    if m.size_bytes > MAX_ATTACHMENT_BYTES {
        Err(ValidationError::TooLarge)
    } else {
        match m.content_type {
            None => Err(ValidationError::NoContentType),
            Some(ct) => {
                if crate::codec::is_prefix("image/"@, ct) {
                    Ok(())
                } else {
                    Err(ValidationError::NotAnImage)
                }
            },
        }
    }
}

/// Validate an attachment's size and declared type.  No fetch happens
/// before this check passes.
pub fn validate_attachment(m: &AttachmentMeta) -> (r: Result<(), ValidationError>)
    ensures
        r == spec_validate(m@),
{
    if m.size_bytes > MAX_ATTACHMENT_BYTES {
        return Err(ValidationError::TooLarge);
    }
    match &m.content_type {
        None => Err(ValidationError::NoContentType),
        Some(ct) => {
            if has_prefix(ct.as_str(), "image/") {
                Ok(())
            } else {
                Err(ValidationError::NotAnImage)
            }
        },
    }
}

/// The logical state of one subject message's flow.
#[derive(Clone, Copy, PartialEq, Eq, Structural, Debug)]
pub enum SessionState {
    Idle,
    Measuring { subject: u64 },
    Announced { subject: u64 },
    BackgroundPrompt { subject: u64, options: RecolorOptions },
    Rendering { subject: u64, options: RecolorOptions },
    Delivered { subject: u64 },
    Disposed,
}

/// One inbound callback, reduced to plain values.
pub enum SessionEvent {
    AttachmentPosted { subject: u64, meta: AttachmentMeta },
    Measured { subject: u64, average: u32 },
    ButtonPressed { token: String },
    ModalSubmitted { text: String },
    RenderFinished { subject: u64 },
    SubjectGone,
}

/// Mathematical shape of an inbound callback.
pub enum EventV {
    AttachmentPosted { subject: u64, meta: MetaV },
    Measured { subject: u64, average: u32 },
    ButtonPressed { token: Seq<char> },
    ModalSubmitted { text: Seq<char> },
    RenderFinished { subject: u64 },
    SubjectGone,
}

impl View for SessionEvent {
    type V = EventV;

    open spec fn view(&self) -> EventV {
        match self {
            SessionEvent::AttachmentPosted { subject, meta } => EventV::AttachmentPosted {
                subject: *subject,
                meta: meta@,
            },
            SessionEvent::Measured { subject, average } => EventV::Measured {
                subject: *subject,
                average: *average,
            },
            SessionEvent::ButtonPressed { token } => EventV::ButtonPressed { token: token@ },
            SessionEvent::ModalSubmitted { text } => EventV::ModalSubmitted { text: text@ },
            SessionEvent::RenderFinished { subject } => EventV::RenderFinished {
                subject: *subject,
            },
            SessionEvent::SubjectGone => EventV::SubjectGone,
        }
    }
}

/// The single outward action the adapter performs after a step.
pub enum SessionAction {
    Quiet,
    RejectAttachment { reason: ValidationError },
    FetchAndMeasure { url: String },
    PostAnnouncement { token: String },
    ShowTokenError { error: DecodeError },
    OpenBackgroundModal { subject: u64 },
    UpdateControls { token: String },
    RenderAndDeliver { subject: u64, options: RecolorOptions },
    AttachDisposeControl { token: String },
    DeleteSubject { subject: u64 },
    ClearControls,
    ShowColorError,
    Apologize,
}

/// Mathematical shape of an outward action.
pub enum ActionV {
    Quiet,
    RejectAttachment { reason: ValidationError },
    FetchAndMeasure { url: Seq<char> },
    PostAnnouncement { token: Seq<char> },
    ShowTokenError { error: DecodeError },
    OpenBackgroundModal { subject: u64 },
    UpdateControls { token: Seq<char> },
    RenderAndDeliver { subject: u64, options: RecolorOptions },
    AttachDisposeControl { token: Seq<char> },
    DeleteSubject { subject: u64 },
    ClearControls,
    ShowColorError,
    Apologize,
}

impl View for SessionAction {
    type V = ActionV;

    open spec fn view(&self) -> ActionV {
        match self {
            SessionAction::Quiet => ActionV::Quiet,
            SessionAction::RejectAttachment { reason } => ActionV::RejectAttachment {
                reason: *reason,
            },
            SessionAction::FetchAndMeasure { url } => ActionV::FetchAndMeasure { url: url@ },
            SessionAction::PostAnnouncement { token } => ActionV::PostAnnouncement {
                token: token@,
            },
            SessionAction::ShowTokenError { error } => ActionV::ShowTokenError { error: *error },
            SessionAction::OpenBackgroundModal { subject } => ActionV::OpenBackgroundModal {
                subject: *subject,
            },
            SessionAction::UpdateControls { token } => ActionV::UpdateControls { token: token@ },
            SessionAction::RenderAndDeliver { subject, options } => ActionV::RenderAndDeliver {
                subject: *subject,
                options: *options,
            },
            SessionAction::AttachDisposeControl { token } => ActionV::AttachDisposeControl {
                token: token@,
            },
            SessionAction::DeleteSubject { subject } => ActionV::DeleteSubject {
                subject: *subject,
            },
            SessionAction::ClearControls => ActionV::ClearControls,
            SessionAction::ShowColorError => ActionV::ShowColorError,
            SessionAction::Apologize => ActionV::Apologize,
        }
    }
}

/// The default option record folded into a fresh announcement token.
pub open spec fn default_options() -> RecolorOptions {
    RecolorOptions { apply: false, auto_adjust: false, background: Background::Unset }
}

/// The transition function: from the configured announcement threshold,
/// the current state and one event, to the next state and the action the
/// adapter must perform.
pub open spec fn spec_step(threshold: u32, state: SessionState, ev: EventV) -> (SessionState, ActionV) {
    match ev {
        EventV::AttachmentPosted { subject, meta } => {
            if meta.author_is_bot {
                // Another bot's attachments are passed over silently.
                (SessionState::Idle, ActionV::Quiet)
            } else {
                match spec_validate(meta) {
                    Err(e) => (SessionState::Idle, ActionV::RejectAttachment { reason: e }),
                    Ok(_) => (
                        SessionState::Measuring { subject },
                        ActionV::FetchAndMeasure { url: meta.proxy_url },
                    ),
                }
            }
        },
        EventV::Measured { subject, average } => {
            match state {
                SessionState::Measuring { subject: s } => {
                    if s == subject {
                        if average > threshold {
                            (
                                SessionState::Announced { subject },
                                ActionV::PostAnnouncement {
                                    token: spec_encode(default_options(), subject, false),
                                },
                            )
                        } else {
                            (SessionState::Idle, ActionV::Quiet)
                        }
                    } else {
                        (state, ActionV::Quiet)
                    }
                },
                _ => (state, ActionV::Quiet),
            }
        },
        EventV::ButtonPressed { token } => {
            match spec_action_of(token) {
                Some(TokenAction::Darken) => {
                    match spec_decode(token) {
                        Ok((o, id)) => {
                            if o.background == Background::Ask {
                                (
                                    SessionState::BackgroundPrompt { subject: id, options: o },
                                    ActionV::OpenBackgroundModal { subject: id },
                                )
                            } else if o.apply {
                                (
                                    SessionState::Rendering { subject: id, options: o },
                                    ActionV::RenderAndDeliver { subject: id, options: o },
                                )
                            } else {
                                (
                                    SessionState::Announced { subject: id },
                                    ActionV::UpdateControls { token: spec_encode(o, id, false) },
                                )
                            }
                        },
                        Err(e) => (state, ActionV::ShowTokenError { error: e }),
                    }
                },
                Some(TokenAction::Delete) => {
                    match spec_subject_id_of(token) {
                        Some(id) => (SessionState::Disposed, ActionV::DeleteSubject { subject: id }),
                        None => (
                            state,
                            ActionV::ShowTokenError { error: DecodeError::NonNumericSubjectId },
                        ),
                    }
                },
                Some(TokenAction::Clear) => (SessionState::Idle, ActionV::ClearControls),
                Some(TokenAction::Stop) => (SessionState::Idle, ActionV::ClearControls),
                None => (state, ActionV::Quiet),
            }
        },
        EventV::ModalSubmitted { text } => {
            match state {
                SessionState::BackgroundPrompt { subject, options } => {
                    match spec_parse_color(text) {
                        Ok(c) => {
                            let o2 = RecolorOptions {
                                apply: options.apply,
                                auto_adjust: options.auto_adjust,
                                background: Background::Color(c),
                            };
                            (
                                SessionState::Announced { subject },
                                ActionV::UpdateControls { token: spec_encode(o2, subject, false) },
                            )
                        },
                        Err(_) => (SessionState::Announced { subject }, ActionV::ShowColorError),
                    }
                },
                _ => (state, ActionV::Quiet),
            }
        },
        EventV::RenderFinished { subject } => {
            match state {
                SessionState::Rendering { subject: s, options: _ } => {
                    if s == subject {
                        (
                            SessionState::Delivered { subject },
                            ActionV::AttachDisposeControl {
                                token: spec_control_token(TokenAction::Delete, subject),
                            },
                        )
                    } else {
                        (state, ActionV::Quiet)
                    }
                },
                _ => (state, ActionV::Quiet),
            }
        },
        EventV::SubjectGone => (SessionState::Idle, ActionV::Apologize),
    }
}

/// Drive the machine one event forward.
pub fn step(threshold: u32, state: &SessionState, event: &SessionEvent) -> (r: (
    SessionState,
    SessionAction,
))
    ensures
        r.0 == spec_step(threshold, *state, event@).0,
        r.1@ == spec_step(threshold, *state, event@).1,
{
    match event {
        SessionEvent::AttachmentPosted { subject, meta } => {
            if meta.author_is_bot {
                (SessionState::Idle, SessionAction::Quiet)
            } else {
                match validate_attachment(meta) {
                    Err(e) => (SessionState::Idle, SessionAction::RejectAttachment { reason: e }),
                    Ok(_) => (
                        SessionState::Measuring { subject: *subject },
                        SessionAction::FetchAndMeasure { url: meta.proxy_url.clone() },
                    ),
                }
            }
        },
        SessionEvent::Measured { subject, average } => {
            match state {
                SessionState::Measuring { subject: s } => {
                    if *s == *subject {
                        if *average > threshold {
                            let token = encode(&RecolorOptions::defaults(), *subject, false);
                            (
                                SessionState::Announced { subject: *subject },
                                SessionAction::PostAnnouncement { token },
                            )
                        } else {
                            (SessionState::Idle, SessionAction::Quiet)
                        }
                    } else {
                        (*state, SessionAction::Quiet)
                    }
                },
                _ => (*state, SessionAction::Quiet),
            }
        },
        SessionEvent::ButtonPressed { token } => {
            match action_of(token.as_str()) {
                Some(TokenAction::Darken) => {
                    match decode(token.as_str()) {
                        Ok((o, id)) => {
                            if o.background == Background::Ask {
                                (
                                    SessionState::BackgroundPrompt { subject: id, options: o },
                                    SessionAction::OpenBackgroundModal { subject: id },
                                )
                            } else if o.apply {
                                (
                                    SessionState::Rendering { subject: id, options: o },
                                    SessionAction::RenderAndDeliver { subject: id, options: o },
                                )
                            } else {
                                let t2 = encode(&o, id, false);
                                (
                                    SessionState::Announced { subject: id },
                                    SessionAction::UpdateControls { token: t2 },
                                )
                            }
                        },
                        Err(e) => (*state, SessionAction::ShowTokenError { error: e }),
                    }
                },
                Some(TokenAction::Delete) => {
                    match subject_id_of(token.as_str()) {
                        Some(id) => (
                            SessionState::Disposed,
                            SessionAction::DeleteSubject { subject: id },
                        ),
                        None => (
                            *state,
                            SessionAction::ShowTokenError {
                                error: DecodeError::NonNumericSubjectId,
                            },
                        ),
                    }
                },
                Some(TokenAction::Clear) => (SessionState::Idle, SessionAction::ClearControls),
                Some(TokenAction::Stop) => (SessionState::Idle, SessionAction::ClearControls),
                None => (*state, SessionAction::Quiet),
            }
        },
        SessionEvent::ModalSubmitted { text } => {
            match state {
                SessionState::BackgroundPrompt { subject, options } => {
                    match parse_color(text.as_str()) {
                        Ok(c) => {
                            let o2 = RecolorOptions {
                                apply: options.apply,
                                auto_adjust: options.auto_adjust,
                                background: Background::Color(c),
                            };
                            let t2 = encode(&o2, *subject, false);
                            (
                                SessionState::Announced { subject: *subject },
                                SessionAction::UpdateControls { token: t2 },
                            )
                        },
                        Err(_) => (
                            SessionState::Announced { subject: *subject },
                            SessionAction::ShowColorError,
                        ),
                    }
                },
                _ => (*state, SessionAction::Quiet),
            }
        },
        SessionEvent::RenderFinished { subject } => {
            match state {
                SessionState::Rendering { subject: s, options: _ } => {
                    if *s == *subject {
                        let t = control_token(TokenAction::Delete, *subject);
                        (
                            SessionState::Delivered { subject: *subject },
                            SessionAction::AttachDisposeControl { token: t },
                        )
                    } else {
                        (*state, SessionAction::Quiet)
                    }
                },
                _ => (*state, SessionAction::Quiet),
            }
        },
        SessionEvent::SubjectGone => (SessionState::Idle, SessionAction::Apologize),
    }
}

} // verus!
