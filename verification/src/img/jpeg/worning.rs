//! Warnings of the JPEG decoder: conditions after which decoding stopped early or went on.

use vstd::prelude::*;
use crate::error::push_str;

verus! {

#[derive(Debug, Clone, Copy, PartialEq, Eq, Structural)]
pub enum WorningKind {
    IlligalRSTMaker,
    UnfindEOIMaker,
    DataCorruption,
    BufferOverrun,
    UnexpectMaker,
}

/// The label of a warning kind. Only a misplaced restart marker has a label of its own;
/// every other kind reads "Out of memory".
pub open spec fn kind_label(k: WorningKind) -> Seq<char> {
    match k {
        WorningKind::IlligalRSTMaker => "Illigal RST Maker"@,
        _ => "Out of memory"@,
    }
}

impl WorningKind {
    pub fn as_str(&self) -> (s: &'static str)
        ensures
            s@ == kind_label(*self),
    {
        match self {
            WorningKind::IlligalRSTMaker => "Illigal RST Maker",
            _ => "Out of memory",
        }
    }
}

#[derive(Debug)]
pub enum JPEGWorning {
    Simple(WorningKind),
    SimpleAddMessage(WorningKind, String),
    Custom(String),
}

/// The text of a warning: its label, its label and message apart by a space, or its message.
pub open spec fn worning_text(w: JPEGWorning) -> Seq<char> {
    match w {
        JPEGWorning::Simple(k) => kind_label(k),
        JPEGWorning::SimpleAddMessage(k, s) => kind_label(k) + " "@ + s@,
        JPEGWorning::Custom(s) => s@,
    }
}

/// What a warning says: its kind, if it has one, and its message.
pub struct WarnView {
    pub kind: Option<WorningKind>,
    pub message: Seq<char>,
    pub plain: bool,
}

impl JPEGWorning {
    pub open spec fn view_warn(&self) -> WarnView {
        match self {
            JPEGWorning::Simple(k) => WarnView { kind: Some(*k), message: Seq::empty(), plain: true },
            JPEGWorning::SimpleAddMessage(k, s) => WarnView { kind: Some(*k), message: s@, plain: false },
            JPEGWorning::Custom(s) => WarnView { kind: None, message: s@, plain: false },
        }
    }

    pub fn fmt(&self) -> (s: String)
        ensures
            s@ == worning_text(*self),
    {
        match self {
            JPEGWorning::Simple(error_kind) => error_kind.as_str().to_owned(),
            JPEGWorning::SimpleAddMessage(error_kind, s) => {
                let mut out = error_kind.as_str().to_owned();
                push_str(&mut out, " ");
                push_str(&mut out, s.as_str());
                out
            },
            JPEGWorning::Custom(s) => s.as_str().to_owned(),
        }
    }
}

} // verus!
