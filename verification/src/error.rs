//! The errors of validation and installation.

use vstd::prelude::*;
use crate::text::{decimal, decimal_text, join2, join3, join4, join5};

verus! {

/// Errors returned by the validation and installation pipeline.
///
/// Paths are held as the text under which they are shown, and errors of the operating system and
/// of the JSON reader as their message.
#[derive(Debug, PartialEq, Eq)]
pub enum Error {
    InvalidRecipe(String),
    InvalidCatalog(String),
    InvalidSignature,
    UnsupportedPlatform(String),
    Download { url: String, message: String },
    DownloadTooLarge { limit: u64 },
    ChecksumMismatch { path: String, expected: String, actual: String },
    UnsafeArchiveEntry(String),
    ArchiveLimit(String),
    UciValidation(String),
    MissingInstall(String),
    Cancelled,
    Io { path: String, source: String },
    Json(String),
    Other(String),
}

/// An [`Error`] with its texts as sequences of characters.
pub enum ErrorView {
    InvalidRecipe(Seq<char>),
    InvalidCatalog(Seq<char>),
    InvalidSignature,
    UnsupportedPlatform(Seq<char>),
    Download { url: Seq<char>, message: Seq<char> },
    DownloadTooLarge { limit: u64 },
    ChecksumMismatch { path: Seq<char>, expected: Seq<char>, actual: Seq<char> },
    UnsafeArchiveEntry(Seq<char>),
    ArchiveLimit(Seq<char>),
    UciValidation(Seq<char>),
    MissingInstall(Seq<char>),
    Cancelled,
    Io { path: Seq<char>, source: Seq<char> },
    Json(Seq<char>),
    Other(Seq<char>),
}

impl View for Error {
    type V = ErrorView;

    open spec fn view(&self) -> ErrorView {
        match *self {
            Error::InvalidRecipe(text) => ErrorView::InvalidRecipe(text@),
            Error::InvalidCatalog(text) => ErrorView::InvalidCatalog(text@),
            Error::InvalidSignature => ErrorView::InvalidSignature,
            Error::UnsupportedPlatform(text) => ErrorView::UnsupportedPlatform(text@),
            Error::Download { url, message } => ErrorView::Download {
                url: url@,
                message: message@,
            },
            Error::DownloadTooLarge { limit } => ErrorView::DownloadTooLarge { limit },
            Error::ChecksumMismatch { path, expected, actual } => ErrorView::ChecksumMismatch {
                path: path@,
                expected: expected@,
                actual: actual@,
            },
            Error::UnsafeArchiveEntry(text) => ErrorView::UnsafeArchiveEntry(text@),
            Error::ArchiveLimit(text) => ErrorView::ArchiveLimit(text@),
            Error::UciValidation(text) => ErrorView::UciValidation(text@),
            Error::MissingInstall(text) => ErrorView::MissingInstall(text@),
            Error::Cancelled => ErrorView::Cancelled,
            Error::Io { path, source } => ErrorView::Io { path: path@, source: source@ },
            Error::Json(text) => ErrorView::Json(text@),
            Error::Other(text) => ErrorView::Other(text@),
        }
    }
}

/// Whether a check without a result ended as `fault` says: with that error, or without one.
pub open spec fn settles(outcome: Result<(), Error>, fault: Option<ErrorView>) -> bool {
    match fault {
        None => outcome is Ok,
        Some(error) => outcome matches Err(found) && found@ == error,
    }
}

/// Whether an outcome is the given error.
pub open spec fn fails_with<T>(outcome: Result<T, Error>, error: ErrorView) -> bool {
    outcome matches Err(found) && found@ == error
}

impl ErrorView {
    /// The message of the error.
    pub open spec fn message(self) -> Seq<char> {
        match self {
            ErrorView::InvalidRecipe(text) => "invalid recipe: "@ + text,
            ErrorView::InvalidCatalog(text) => "invalid catalog: "@ + text,
            ErrorView::InvalidSignature => "catalog signature verification failed"@,
            ErrorView::UnsupportedPlatform(text) => "unsupported platform `"@ + text + "`"@,
            ErrorView::Download { url, message } => "download failed for "@ + url + ": "@
                + message,
            ErrorView::DownloadTooLarge { limit } =>
                "download exceeded its declared or configured size limit ("@ + decimal(
                limit as nat,
            ) + " bytes)"@,
            ErrorView::ChecksumMismatch { path, expected, actual } => "checksum mismatch for "@
                + path + ": expected "@ + expected + ", got "@ + actual,
            ErrorView::UnsafeArchiveEntry(text) => "unsafe archive entry `"@ + text + "`"@,
            ErrorView::ArchiveLimit(text) => "archive exceeds safety limit: "@ + text,
            ErrorView::UciValidation(text) => "UCI validation failed: "@ + text,
            ErrorView::MissingInstall(text) => "installed engine is not present: "@ + text,
            ErrorView::Cancelled => "operation cancelled"@,
            ErrorView::Io { path, source } => "I/O error at "@ + path + ": "@ + source,
            ErrorView::Json(text) => "JSON error: "@ + text,
            ErrorView::Other(text) => text,
        }
    }
}

impl Error {
    /// The message of the error.
    pub fn message(&self) -> (text: String)
        ensures
            text@ == self@.message(),
    {
        match self {
            Error::InvalidRecipe(text) => join2("invalid recipe: ", text.as_str()),
            Error::InvalidCatalog(text) => join2("invalid catalog: ", text.as_str()),
            Error::InvalidSignature => "catalog signature verification failed".to_owned(),
            Error::UnsupportedPlatform(text) => join3("unsupported platform `", text.as_str(), "`"),
            Error::Download { url, message } => join4(
                "download failed for ",
                url.as_str(),
                ": ",
                message.as_str(),
            ),
            Error::DownloadTooLarge { limit } => join3(
                "download exceeded its declared or configured size limit (",
                decimal_text(*limit).as_str(),
                " bytes)",
            ),
            Error::ChecksumMismatch { path, expected, actual } => {
                let head = join5(
                    "checksum mismatch for ",
                    path.as_str(),
                    ": expected ",
                    expected.as_str(),
                    ", got ",
                );
                join2(head.as_str(), actual.as_str())
            },
            Error::UnsafeArchiveEntry(text) => join3("unsafe archive entry `", text.as_str(), "`"),
            Error::ArchiveLimit(text) => join2("archive exceeds safety limit: ", text.as_str()),
            Error::UciValidation(text) => join2("UCI validation failed: ", text.as_str()),
            Error::MissingInstall(text) => join2("installed engine is not present: ", text.as_str()),
            Error::Cancelled => "operation cancelled".to_owned(),
            Error::Io { path, source } => join4(
                "I/O error at ",
                path.as_str(),
                ": ",
                source.as_str(),
            ),
            Error::Json(text) => join2("JSON error: ", text.as_str()),
            Error::Other(text) => text.clone(),
        }
    }

    /// The error of an operating system call on a path.
    pub fn io(path: &str, source: &str) -> (error: Error)
        ensures
            error@ == (ErrorView::Io { path: path@, source: source@ }),
    {
        Error::Io { path: path.to_owned(), source: source.to_owned() }
    }
}

/// `Ok` until the cancel flag is set, then [`Error::Cancelled`].
pub fn check_cancel(cancelled: bool) -> (outcome: Result<(), Error>)
    ensures
        settles(outcome, if cancelled { Some(ErrorView::Cancelled) } else { None }),
{
    if cancelled {
        Err(Error::Cancelled)
    } else {
        Ok(())
    }
}

/// What the message of an error holds: what it is about, behind what it is.
pub proof fn messages_say_what_is_wrong(
    text: Seq<char>,
    more: Seq<char>,
    last: Seq<char>,
    limit: u64,
)
    ensures
        ErrorView::InvalidRecipe(text).message() == "invalid recipe: "@ + text,
        ErrorView::InvalidCatalog(text).message() == "invalid catalog: "@ + text,
        ErrorView::InvalidSignature.message() == "catalog signature verification failed"@,
        ErrorView::UnsupportedPlatform(text).message() == "unsupported platform `"@ + text + "`"@,
        (ErrorView::Download { url: text, message: more }).message() == "download failed for "@
            + text + ": "@ + more,
        (ErrorView::DownloadTooLarge { limit }).message()
            == "download exceeded its declared or configured size limit ("@ + decimal(limit as nat)
            + " bytes)"@,
        (ErrorView::ChecksumMismatch { path: text, expected: more, actual: last }).message()
            == "checksum mismatch for "@ + text + ": expected "@ + more + ", got "@ + last,
        ErrorView::UnsafeArchiveEntry(text).message() == "unsafe archive entry `"@ + text + "`"@,
        ErrorView::ArchiveLimit(text).message() == "archive exceeds safety limit: "@ + text,
        ErrorView::UciValidation(text).message() == "UCI validation failed: "@ + text,
        ErrorView::MissingInstall(text).message() == "installed engine is not present: "@ + text,
        ErrorView::Cancelled.message() == "operation cancelled"@,
        (ErrorView::Io { path: text, source: more }).message() == "I/O error at "@ + text + ": "@
            + more,
        ErrorView::Json(text).message() == "JSON error: "@ + text,
        ErrorView::Other(text).message() == text,
{
}

} // verus!
