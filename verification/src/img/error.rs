//! Errors reported by the image readers.

use vstd::prelude::*;
use crate::error::push_str;

verus! {

#[derive(Debug, Clone, Copy, PartialEq, Eq, Structural)]
pub enum ErrorKind {
    IlligalCallback,
    DecodeError,
    OutboundIndex,
    IlligalData,
}

/// The label of an error kind: the kind's name.
pub open spec fn error_label(k: ErrorKind) -> Seq<char> {
    match k {
        ErrorKind::IlligalCallback => "IlligalCallback"@,
        ErrorKind::DecodeError => "DecodeError"@,
        ErrorKind::OutboundIndex => "OutboundIndex"@,
        ErrorKind::IlligalData => "IlligalData"@,
    }
}

impl ErrorKind {
    pub fn as_str(&self) -> (s: &'static str)
        ensures
            s@ == error_label(*self),
    {
        match self {
            ErrorKind::IlligalCallback => "IlligalCallback",
            ErrorKind::DecodeError => "DecodeError",
            ErrorKind::OutboundIndex => "OutboundIndex",
            ErrorKind::IlligalData => "IlligalData",
        }
    }
}

/// The text of a decoding failure: its kind's label, the label and the message apart by a
/// space, or the message.
pub open spec fn error_text_of(e: ErrView) -> Seq<char> {
    match e.kind {
        Some(k) => if e.plain { error_label(k) } else { error_label(k) + " "@ + e.message },
        None => e.message,
    }
}

/// A decoding failure, a kind with a detail message, or a free-form message.
#[derive(Debug)]
pub enum ImgError {
    Simple(ErrorKind),
    SimpleAddMessage(ErrorKind, String),
    Custom(String),
}

/// What a decoding failure says: its kind, if it has one, its message text, and whether it is
/// a bare kind without a message.
pub struct ErrView {
    pub kind: Option<ErrorKind>,
    pub message: Seq<char>,
    pub plain: bool,
}

impl ImgError {
    pub open spec fn view_err(&self) -> ErrView {
        match self {
            ImgError::Simple(k) => ErrView { kind: Some(*k), message: Seq::empty(), plain: true },
            ImgError::SimpleAddMessage(k, s) => ErrView { kind: Some(*k), message: s@, plain: false },
            ImgError::Custom(s) => ErrView { kind: None, message: s@, plain: false },
        }
    }

    /// The text of the failure (see `error_text_of`).
    pub fn fmt(&self) -> (s: String)
        ensures
            s@ == error_text_of(self.view_err()),
    {
        match self {
            ImgError::Simple(kind) => kind.as_str().to_owned(),
            ImgError::SimpleAddMessage(kind, message) => {
                let mut out = kind.as_str().to_owned();
                push_str(&mut out, " ");
                push_str(&mut out, message.as_str());
                out
            },
            ImgError::Custom(message) => message.as_str().to_owned(),
        }
    }
}

} // verus!
