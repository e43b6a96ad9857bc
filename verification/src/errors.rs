//! What can go wrong around the library: loading a font, prompting the
//! user, writing the picture.

use vstd::prelude::*;
use crate::renderer::RendererError;
use crate::text::join;

verus! {

/// What can go wrong when a font is loaded.
#[derive(Debug)]
pub enum FontFaceError {
    /// The font file could not be opened.
    FontOpeningError,
    /// The file's contents are no font; with the parser's reason.
    CreationError(&'static str),
}

impl FontFaceError {
    /// The text of the error.
    pub open spec fn message_text(self) -> Seq<char> {
        match self {
            FontFaceError::FontOpeningError => "Encountered error opening font file."@,
            FontFaceError::CreationError(reason) => "Encountered error creating font face: "@
                + reason@,
        }
    }

    /// The text of the error.
    pub fn message(&self) -> (text: String)
        ensures
            text@ == self.message_text(),
    {
        match self {
            FontFaceError::FontOpeningError => "Encountered error opening font file.".to_owned(),
            FontFaceError::CreationError(reason) => {
                let text = join("Encountered error creating font face: ", reason, "");
                proof {
                    reveal_strlit("");
                    assert(reason@ + ""@ =~= reason@);
                    assert("Encountered error creating font face: "@ + reason@ + ""@
                        =~= "Encountered error creating font face: "@ + reason@);
                }
                text
            },
        }
    }
}

/// What can go wrong in the application.
#[derive(Debug)]
pub enum AppError {
    NoFontPath,
    InvalidFontPath,
    FontLoadingError(FontFaceError),
    MissingCellDim,
    InputParsingError,
    RenderingError(RendererError),
}

impl AppError {
    /// The text of the error.
    pub open spec fn message_text(self) -> Seq<char> {
        match self {
            AppError::NoFontPath => "No path was provided."@,
            AppError::InvalidFontPath => "Invalid Path."@,
            AppError::FontLoadingError(err) => "Encountered error loading font: "@
                + err.message_text() + "."@,
            AppError::MissingCellDim => "Must provide dimension."@,
            AppError::InputParsingError => "Encountered error parsing user input."@,
            AppError::RenderingError(err) => "Encountered error rendering: "@ + err.message_text()
                + "."@,
        }
    }

    /// The text of the error.
    pub fn message(&self) -> (text: String)
        ensures
            text@ == self.message_text(),
    {
        match self {
            AppError::NoFontPath => "No path was provided.".to_owned(),
            AppError::InvalidFontPath => "Invalid Path.".to_owned(),
            AppError::FontLoadingError(err) => {
                let inner = err.message();
                join("Encountered error loading font: ", inner.as_str(), ".")
            },
            AppError::MissingCellDim => "Must provide dimension.".to_owned(),
            AppError::InputParsingError => "Encountered error parsing user input.".to_owned(),
            AppError::RenderingError(err) => {
                let inner = err.message();
                join("Encountered error rendering: ", inner.as_str(), ".")
            },
        }
    }
}

/// What can go wrong in a subcommand.
#[derive(Debug)]
pub enum SubcommandError {
    NoFontPath,
    InvalidFontPath,
    FontLoadingError(FontFaceError),
    MissingCellDim,
    InputParsingError,
    RenderingError(RendererError),
}

impl SubcommandError {
    /// The text of the error.
    pub open spec fn message_text(self) -> Seq<char> {
        match self {
            SubcommandError::NoFontPath => "No path was provided."@,
            SubcommandError::InvalidFontPath => "Invalid Path."@,
            SubcommandError::FontLoadingError(err) => "Encountered error loading font: "@
                + err.message_text() + "."@,
            SubcommandError::MissingCellDim => "Must provide dimension."@,
            SubcommandError::InputParsingError => "Encountered error parsing user input."@,
            SubcommandError::RenderingError(err) => "Encountered error rendering: "@
                + err.message_text() + "."@,
        }
    }

    /// The text of the error.
    pub fn message(&self) -> (text: String)
        ensures
            text@ == self.message_text(),
    {
        match self {
            SubcommandError::NoFontPath => "No path was provided.".to_owned(),
            SubcommandError::InvalidFontPath => "Invalid Path.".to_owned(),
            SubcommandError::FontLoadingError(err) => {
                let inner = err.message();
                join("Encountered error loading font: ", inner.as_str(), ".")
            },
            SubcommandError::MissingCellDim => "Must provide dimension.".to_owned(),
            SubcommandError::InputParsingError => "Encountered error parsing user input.".to_owned(),
            SubcommandError::RenderingError(err) => {
                let inner = err.message();
                join("Encountered error rendering: ", inner.as_str(), ".")
            },
        }
    }
}

} // verus!
