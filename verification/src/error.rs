use vstd::prelude::*;
use vstd::string::*;

verus! {

/// Why an operation of the library did not take place.
#[derive(Clone, Copy, Debug, PartialEq, Eq, Structural)]
pub enum SnippetError {
    /// The live clock or the active document's path could not be read.
    SourceUnavailable,
    /// A document could not be decoded, or lacks what a snippet needs.
    DecodeError,
    /// A document could not be encoded or written.
    EncodeError,
    /// No persisted snippet has the name asked for.
    NotFound,
    /// The snippet's beat length is zero or negative, so nothing can be
    /// rescaled against it.
    InvalidTempo,
    /// The source timeline holds no tempo reference at all.
    NoTempoReference,
}

impl SnippetError {
    /// The one-line text shown to the user for this error.
    pub fn message(&self) -> (text: String)
        ensures
            text@ == self.message_spec()@,
    {
        match self {
            SnippetError::SourceUnavailable => String::from_str("Failed to read the game"),
            SnippetError::DecodeError => String::from_str("Failed to decode the document"),
            SnippetError::EncodeError => String::from_str("Failed to encode the document"),
            SnippetError::NotFound => String::from_str("Snippet not found"),
            SnippetError::InvalidTempo => String::from_str("Snippet tempo is not positive"),
            SnippetError::NoTempoReference => String::from_str("Timeline has no timing point"),
        }
    }

    pub open spec fn message_spec(&self) -> &'static str {
        match self {
            SnippetError::SourceUnavailable => "Failed to read the game",
            SnippetError::DecodeError => "Failed to decode the document",
            SnippetError::EncodeError => "Failed to encode the document",
            SnippetError::NotFound => "Snippet not found",
            SnippetError::InvalidTempo => "Snippet tempo is not positive",
            SnippetError::NoTempoReference => "Timeline has no timing point",
        }
    }
}

} // verus!
