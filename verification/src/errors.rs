//! Error types of the rendering engine and of input reading.

use vstd::prelude::*;

verus! {

/// Why a render request could not be served.
#[derive(Debug, Clone, Copy, PartialEq, Eq, Structural)]
pub enum CharaError {
    /// The requested built-in name is not in the catalog.
    NotFound,
    /// Externally supplied content (a template file) was not made available
    /// to the engine by the calling layer.
    Io,
    /// Externally supplied content is not valid text.
    Decode,
    /// A template is structurally unusable.
    Malformed,
}

impl CharaError {
    /// A short description, for the calling layer to present.
    pub fn message(&self) -> (r: &'static str)
        ensures
            (*self is NotFound ==> r@ == "unknown built-in character"@),
            (*self is Io ==> r@ == "character file was not read"@),
            (*self is Decode ==> r@ == "character data is not valid text"@),
            (*self is Malformed ==> r@ == "character template is unusable"@),
    {
        match self {
            CharaError::NotFound => "unknown built-in character",
            CharaError::Io => "character file was not read",
            CharaError::Decode => "character data is not valid text",
            CharaError::Malformed => "character template is unusable",
        }
    }
}

/// Why reading the message from the calling layer's input failed.  The
/// payloads carry the surrounding error descriptions as plain text.
#[derive(Debug, PartialEq, Eq)]
pub enum ReadInputError {
    /// An I/O error, with its description.
    IoError(String),
    /// A UTF-8 decoding error, with its description.
    Utf8Error(String),
}

impl ReadInputError {
    /// A one-line description: the error's kind, then the underlying
    /// error's own text.
    pub fn message(&self) -> (r: String)
        ensures
            (self is IoError ==> r@ == "IO error: "@ + self->IoError_0@),
            (self is Utf8Error ==> r@ == "UTF-8 error: "@ + self->Utf8Error_0@),
    {
        match self {
            ReadInputError::IoError(e) => {
                let mut s = String::new();
                s.append("IO error: ");
                s.append(e.as_str());
                proof {
                    assert(Seq::<char>::empty() + "IO error: "@ + self->IoError_0@ =~= "IO error: "@
                        + self->IoError_0@);
                }
                s
            },
            ReadInputError::Utf8Error(e) => {
                let mut s = String::new();
                s.append("UTF-8 error: ");
                s.append(e.as_str());
                proof {
                    assert(Seq::<char>::empty() + "UTF-8 error: "@ + self->Utf8Error_0@ =~= "UTF-8 error: "@
                        + self->Utf8Error_0@);
                }
                s
            },
        }
    }
}

} // verus!
