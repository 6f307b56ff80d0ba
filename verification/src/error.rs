//! The ways in which a field cannot be had.

use crate::field::rejection_text;
use crate::field::Rejection;
use vstd::prelude::*;

verus! {

/// A text of a commit that may fail to be valid UTF-8.
#[derive(Debug, Clone, Copy, PartialEq, Eq, Structural)]
pub enum TextField {
    AuthorName,
    AuthorEmail,
    Summary,
    Message,
}

/// Why a field could not be resolved. Each of these ends the run.
#[derive(Debug, PartialEq, Eq)]
pub enum FieldError {
    /// The code asks for no field of this report.
    InvalidFormat { code: String, rejection: Rejection },
    /// A text of the commit is not valid UTF-8.
    InvalidText(TextField),
    /// The abbreviated hash that came back is not text.
    BadShortHash,
    /// The repository could not abbreviate a hash or load the object; the
    /// text is what it said.
    Backend(String),
    /// A time or its offset from UTC lies outside what can be written as a
    /// date.
    TimeOutOfRange,
}

/// A [`FieldError`] with its texts as sequences of characters.
pub ghost enum FieldErrorView {
    InvalidFormat { code: Seq<char>, rejection: Rejection },
    InvalidText(TextField),
    BadShortHash,
    Backend(Seq<char>),
    TimeOutOfRange,
}

impl View for FieldError {
    type V = FieldErrorView;

    open spec fn view(&self) -> FieldErrorView {
        match self {
            FieldError::InvalidFormat { code, rejection } => FieldErrorView::InvalidFormat {
                code: code@,
                rejection: *rejection,
            },
            FieldError::InvalidText(which) => FieldErrorView::InvalidText(*which),
            FieldError::BadShortHash => FieldErrorView::BadShortHash,
            FieldError::Backend(said) => FieldErrorView::Backend(said@),
            FieldError::TimeOutOfRange => FieldErrorView::TimeOutOfRange,
        }
    }
}

/// The message for a code that is turned down: the code between backquotes,
/// then the reason.
pub open spec fn invalid_format_text(code: Seq<char>, reason: Seq<char>) -> Seq<char> {
    "Invalid format `"@ + code + "`: "@ + reason
}

/// The message that goes with an error.
pub open spec fn error_text(e: FieldErrorView) -> Seq<char> {
    match e {
        FieldErrorView::InvalidFormat { code, rejection } => invalid_format_text(
            code,
            rejection_text(rejection),
        ),
        FieldErrorView::InvalidText(TextField::AuthorName) => "Author name contains invalid UTF8"@,
        FieldErrorView::InvalidText(TextField::AuthorEmail) => "Author email contains invalid UTF8"@,
        FieldErrorView::InvalidText(TextField::Summary) => "Commit header contains invalid UTF8"@,
        FieldErrorView::InvalidText(TextField::Message) => "Commit message contains invalid UTF8"@,
        FieldErrorView::BadShortHash => "libgit returned a bad shorthash"@,
        FieldErrorView::Backend(said) => said,
        FieldErrorView::TimeOutOfRange => "Commit time is out of range"@,
    }
}

/// Writes the message for a code that is turned down.
pub fn invalid_format(format: &str, reason: &str) -> (message: String)
    ensures
        message@ == invalid_format_text(format@, reason@),
{
    let mut message = "Invalid format `".to_owned();
    message.append(format);
    message.append("`: ");
    message.append(reason);
    message
}

impl FieldError {
    /// The message to show for this error.
    pub fn message(&self) -> (message: String)
        ensures
            message@ == error_text(self@),
    {
        match self {
            FieldError::InvalidFormat { code, rejection } => invalid_format(
                code.as_str(),
                rejection.reason(),
            ),
            FieldError::InvalidText(TextField::AuthorName) =>
                "Author name contains invalid UTF8".to_owned(),
            FieldError::InvalidText(TextField::AuthorEmail) =>
                "Author email contains invalid UTF8".to_owned(),
            FieldError::InvalidText(TextField::Summary) =>
                "Commit header contains invalid UTF8".to_owned(),
            FieldError::InvalidText(TextField::Message) =>
                "Commit message contains invalid UTF8".to_owned(),
            FieldError::BadShortHash => "libgit returned a bad shorthash".to_owned(),
            FieldError::Backend(said) => said.clone(),
            FieldError::TimeOutOfRange => "Commit time is out of range".to_owned(),
        }
    }
}

} // verus!
