//! Error types of the two parsers and of game detection, with spec-level
//! error kinds as their views.
//!
//! The exec errors carry human-readable `String` payloads; the views keep
//! exactly what the contracts pin down: the kind of failure, and for a
//! missing-field error the name of the field (for a bad numeral, the
//! offending text). The descriptive message of a grammar error is not part
//! of any contract.

use vstd::prelude::*;

verus! {

/// Failure of descriptor parsing (or, in the surrounding application, of
/// reading a descriptor file).
#[derive(Debug)]
pub enum ModParseError {
    /// The file could not be read; the payload describes the failure.
    Io(String),
    /// A required key never appeared; the payload names it.
    MissingField(String),
    /// The text does not match the descriptor grammar; the payload
    /// describes the syntactic failure.
    ParseError(String),
}

/// Spec-level kind of a [`ModParseError`].
pub enum ModErrorKind {
    Io,
    MissingField(Seq<char>),
    ParseError,
}

impl View for ModParseError {
    type V = ModErrorKind;

    open spec fn view(&self) -> ModErrorKind {
        match self {
            ModParseError::Io(_) => ModErrorKind::Io,
            ModParseError::MissingField(f) => ModErrorKind::MissingField(f@),
            ModParseError::ParseError(_) => ModErrorKind::ParseError,
        }
    }
}

/// Failure of library-manifest parsing.
#[derive(Debug)]
pub enum VdfParseError {
    /// A library block lacks a required key; the payload names it.
    MissingField(String),
    /// The text does not match the manifest grammar; the payload describes
    /// the syntactic failure.
    ParseError(String),
    /// A field that must be a decimal unsigned integer is not one (or does
    /// not fit in 32 bits); the payload is the offending text.
    InvalidNumber(String),
}

/// Spec-level kind of a [`VdfParseError`].
pub enum VdfErrorKind {
    MissingField(Seq<char>),
    ParseError,
    InvalidNumber(Seq<char>),
}

impl View for VdfParseError {
    type V = VdfErrorKind;

    open spec fn view(&self) -> VdfErrorKind {
        match self {
            VdfParseError::MissingField(f) => VdfErrorKind::MissingField(f@),
            VdfParseError::ParseError(_) => VdfErrorKind::ParseError,
            VdfParseError::InvalidNumber(n) => VdfErrorKind::InvalidNumber(n@),
        }
    }
}

/// Failure of the whole detection pass.
#[derive(Debug)]
pub enum DetectionError {
    /// The user's home directory could not be determined.
    NoHomeDir,
    /// The manifest file was missing or unreadable; the payload describes
    /// the failure.
    Io(String),
    /// The manifest file did not parse.
    Parse(VdfParseError),
}

/// Spec-level kind of a [`DetectionError`].
pub enum DetectionErrorKind {
    NoHomeDir,
    Io,
    Parse(VdfErrorKind),
}

impl View for DetectionError {
    type V = DetectionErrorKind;

    open spec fn view(&self) -> DetectionErrorKind {
        match self {
            DetectionError::NoHomeDir => DetectionErrorKind::NoHomeDir,
            DetectionError::Io(_) => DetectionErrorKind::Io,
            DetectionError::Parse(e) => DetectionErrorKind::Parse(e@),
        }
    }
}

} // verus!
