use vstd::prelude::*;

verus! {

/// What went wrong with the engine.
#[derive(Clone, Copy, Debug, PartialEq, Eq, Structural)]
pub enum EngineError {
    /// The engine lacks one of the entry points that the library needs.
    MissingEntryPoint,
    /// The engine gave no document, or one with an empty text.
    ParseFailed,
    /// The engine described paragraphs and sentences that do not fit together.
    InconsistentLayout,
}

/// Why a book could not be opened.
#[derive(Clone, Copy, Debug, PartialEq, Eq, Structural)]
pub struct BookError {
    pub kind: EngineError,
}

impl BookError {
    /// A short description of the error.
    pub fn message(&self) -> (r: &'static str) {
        match self.kind {
            EngineError::MissingEntryPoint => "the engine lacks a required entry point",
            EngineError::ParseFailed => "the engine could not parse the book",
            EngineError::InconsistentLayout => "the engine reported an inconsistent book layout",
        }
    }
}

} // verus!
