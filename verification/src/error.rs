//! The errors that the library reports.

use vstd::prelude::*;
use vstd::string::StringExecFns;

verus! {

/// Why an operation on a slide failed. Each variant carries the name or the
/// number of what was asked for, or the message of the slide reader.
#[derive(Clone, Debug, PartialEq, Eq)]
pub enum OpenSlideError {
    /// A file that does not exist.
    MissingFile(String),
    /// A file whose format is not recognised.
    UnsupportedFile(String),
    /// A property or an associated image that the slide does not have.
    KeyError(String),
    /// A level or a tile address outside the valid range.
    IndexError(String),
    /// An error reported by the slide reader.
    InternalError(String),
}

/// An error with the text it carries as a sequence of characters.
pub enum ErrorView {
    MissingFile(Seq<char>),
    UnsupportedFile(Seq<char>),
    KeyError(Seq<char>),
    IndexError(Seq<char>),
    InternalError(Seq<char>),
}

impl View for OpenSlideError {
    type V = ErrorView;

    open spec fn view(&self) -> ErrorView {
        match self {
            OpenSlideError::MissingFile(m) => ErrorView::MissingFile(m@),
            OpenSlideError::UnsupportedFile(m) => ErrorView::UnsupportedFile(m@),
            OpenSlideError::KeyError(m) => ErrorView::KeyError(m@),
            OpenSlideError::IndexError(m) => ErrorView::IndexError(m@),
            OpenSlideError::InternalError(m) => ErrorView::InternalError(m@),
        }
    }
}

impl ErrorView {
    /// The sentence that describes the error.
    pub open spec fn message(self) -> Seq<char> {
        match self {
            ErrorView::MissingFile(m) => "File "@ + m + " does not exist"@,
            ErrorView::UnsupportedFile(m) => "Unsupported format: "@ + m,
            ErrorView::KeyError(m) => "Key "@ + m + " does not exist"@,
            ErrorView::IndexError(m) => "Level "@ + m + " out of range"@,
            ErrorView::InternalError(m) => m,
        }
    }
}

impl OpenSlideError {
    /// The sentence that describes the error.
    pub fn error_message(&self) -> (msg: String)
        ensures
            msg@ == self@.message(),
    {
        match self {
            OpenSlideError::MissingFile(m) => String::from_str("File ").concat(m.as_str()).concat(
                " does not exist",
            ),
            OpenSlideError::UnsupportedFile(m) => String::from_str("Unsupported format: ").concat(
                m.as_str(),
            ),
            OpenSlideError::KeyError(m) => String::from_str("Key ").concat(m.as_str()).concat(
                " does not exist",
            ),
            OpenSlideError::IndexError(m) => String::from_str("Level ").concat(m.as_str()).concat(
                " out of range",
            ),
            OpenSlideError::InternalError(m) => m.clone(),
        }
    }
}

} // verus!
