//! The errors that the library reports.
use vstd::prelude::*;

verus! {

/// An error of the library, with its message.
pub enum AppError {
    /// A configuration error: missing or broken settings or files.
    Config(String),
    /// Something asked for is not there.
    NotFound(String),
    /// An authentication error.
    Auth(String),
    /// A line-editor error.
    Readline(String),
}

/// The model of an error.
pub enum ErrorV {
    Config(Seq<char>),
    NotFound(Seq<char>),
    Auth(Seq<char>),
    Readline(Seq<char>),
}

impl View for AppError {
    type V = ErrorV;

    open spec fn view(&self) -> ErrorV {
        match self {
            AppError::Config(m) => ErrorV::Config(m@),
            AppError::NotFound(m) => ErrorV::NotFound(m@),
            AppError::Auth(m) => ErrorV::Auth(m@),
            AppError::Readline(m) => ErrorV::Readline(m@),
        }
    }
}

} // verus!
