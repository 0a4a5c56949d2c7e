//! SDK error types.

use vstd::prelude::*;
use vstd::string::StringExecFns;

verus! {

/// SDK errors.
///
/// Structural validation failures, missing files, other I/O failures,
/// malformed JSON, transport failures, and errors reported by the remote
/// registration service.
/// Each carries its human-readable detail text.
#[derive(Debug, Clone)]
pub enum SdkError {
    InvalidStoryboard(String),
    StoryProtocol(String),
    FileNotFound(String),
    Io(String),
    Json(String),
    Http(String),
    Validation(String),
}

/// The message prefix for each error kind.
pub open spec fn error_prefix(e: SdkError) -> Seq<char> {
    match e {
        SdkError::InvalidStoryboard(_) => "Invalid storyboard: "@,
        SdkError::StoryProtocol(_) => "Story Protocol error: "@,
        SdkError::FileNotFound(_) => "File not found: "@,
        SdkError::Io(_) => "IO error: "@,
        SdkError::Json(_) => "JSON error: "@,
        SdkError::Http(_) => "HTTP error: "@,
        SdkError::Validation(_) => "Validation error: "@,
    }
}

/// The detail text an error carries.
pub open spec fn error_detail(e: SdkError) -> Seq<char> {
    match e {
        SdkError::InvalidStoryboard(m) => m@,
        SdkError::StoryProtocol(m) => m@,
        SdkError::FileNotFound(m) => m@,
        SdkError::Io(m) => m@,
        SdkError::Json(m) => m@,
        SdkError::Http(m) => m@,
        SdkError::Validation(m) => m@,
    }
}

impl SdkError {
    /// The full human-readable message: kind prefix followed by the detail.
    pub fn message(&self) -> (r: String)
        ensures
            r@ == error_prefix(*self) + error_detail(*self),
    {
        let mut out: String = match self {
            SdkError::InvalidStoryboard(_) => String::from_str("Invalid storyboard: "),
            SdkError::StoryProtocol(_) => String::from_str("Story Protocol error: "),
            SdkError::FileNotFound(_) => String::from_str("File not found: "),
            SdkError::Io(_) => String::from_str("IO error: "),
            SdkError::Json(_) => String::from_str("JSON error: "),
            SdkError::Http(_) => String::from_str("HTTP error: "),
            SdkError::Validation(_) => String::from_str("Validation error: "),
        };
        match self {
            SdkError::InvalidStoryboard(m) => out.append(m.as_str()),
            SdkError::StoryProtocol(m) => out.append(m.as_str()),
            SdkError::FileNotFound(m) => out.append(m.as_str()),
            SdkError::Io(m) => out.append(m.as_str()),
            SdkError::Json(m) => out.append(m.as_str()),
            SdkError::Http(m) => out.append(m.as_str()),
            SdkError::Validation(m) => out.append(m.as_str()),
        }
        out
    }
}

} // verus!
