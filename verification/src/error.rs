//! The errors that the library reports, and the text each one is flattened to
//! when it crosses the boundary to a caller.

use vstd::prelude::*;

verus! {

/// What a validation found wrong.
#[derive(Clone, Copy, Debug, PartialEq, Eq, Structural)]
pub enum Invalid {
    /// The path is not a file carrying the flow extension.
    NotAFlowFile,
    /// The name derived from a file's stem is empty.
    EmptyName,
    /// A segment of a flow name is empty, or starts or ends with white space.
    MalformedSegment,
}

/// The step of an operation at which the file system failed.
#[derive(Clone, Copy, Debug, PartialEq, Eq, Structural)]
pub enum IoStep {
    CreateFlowsDir,
    ReadDir,
    ReadEntry,
    ReadFile,
    CreateParentDir,
    WriteFile,
    RemoveFile,
    MoveFile,
}

/// An error of the flow store, the importer or the settings.
#[derive(Debug, PartialEq, Eq)]
pub enum StoreError {
    /// The input was refused before anything was changed.
    Validation(Invalid),
    /// A file, a directory or a definition is missing; the text says which.
    NotFound(String),
    /// The destination of a rename is taken; the text is its path.
    Conflict(String),
    /// The file system failed at the given step; the text is its cause.
    Io(IoStep, String),
    /// A document or a configuration value is malformed; the text says how.
    Parse(String),
    /// The engine refused a request; the text is its message.
    Engine(String),
}

/// What an error means: the same error with each text as a sequence of
/// characters.
pub ghost enum Failure {
    Validation(Invalid),
    NotFound(Seq<char>),
    Conflict(Seq<char>),
    Io(IoStep, Seq<char>),
    Parse(Seq<char>),
    Engine(Seq<char>),
}

impl View for StoreError {
    type V = Failure;

    open spec fn view(&self) -> Failure {
        match self {
            StoreError::Validation(kind) => Failure::Validation(*kind),
            StoreError::NotFound(what) => Failure::NotFound(what@),
            StoreError::Conflict(path) => Failure::Conflict(path@),
            StoreError::Io(step, cause) => Failure::Io(*step, cause@),
            StoreError::Parse(how) => Failure::Parse(how@),
            StoreError::Engine(message) => Failure::Engine(message@),
        }
    }
}

/// The text of a validation error.
pub open spec fn invalid_text(kind: Invalid) -> Seq<char> {
    match kind {
        Invalid::NotAFlowFile => "Invalid file extension"@,
        Invalid::EmptyName => "Agent flow name is empty"@,
        Invalid::MalformedSegment => "Invalid agent flow name"@,
    }
}

/// The text that names a failed file-system step.
pub open spec fn step_text(step: IoStep) -> Seq<char> {
    match step {
        IoStep::CreateFlowsDir => "Failed to create flows directory"@,
        IoStep::ReadDir => "Failed to read directory"@,
        IoStep::ReadEntry => "Failed to read directory entry"@,
        IoStep::ReadFile => "Failed to read agent flow file"@,
        IoStep::CreateParentDir => "Failed to create parent directory"@,
        IoStep::WriteFile => "Failed to write agent flow file"@,
        IoStep::RemoveFile => "Failed to remove agent flow file"@,
        IoStep::MoveFile => "Failed to rename old agent flow file"@,
    }
}

/// The text that an error is flattened to.
pub open spec fn error_text(e: Failure) -> Seq<char> {
    match e {
        Failure::Validation(kind) => invalid_text(kind),
        Failure::NotFound(what) => what,
        Failure::Conflict(path) => "Agent flow file already exists: "@ + path,
        Failure::Io(step, cause) => step_text(step) + ": "@ + cause,
        Failure::Parse(how) => how,
        Failure::Engine(message) => message,
    }
}

impl StoreError {
    /// The plain message that stands for this error outside the library.
    pub fn message(&self) -> (r: String)
        ensures
            r@ == error_text(self@),
    {
        match self {
            StoreError::Validation(kind) => {
                match kind {
                    Invalid::NotAFlowFile => String::from_str("Invalid file extension"),
                    Invalid::EmptyName => String::from_str("Agent flow name is empty"),
                    Invalid::MalformedSegment => String::from_str("Invalid agent flow name"),
                }
            },
            StoreError::NotFound(what) => what.clone(),
            StoreError::Conflict(path) => {
                let mut r = String::from_str("Agent flow file already exists: ");
                r.append(path.as_str());
                r
            },
            StoreError::Io(step, cause) => {
                let mut r = match step {
                    IoStep::CreateFlowsDir => String::from_str("Failed to create flows directory"),
                    IoStep::ReadDir => String::from_str("Failed to read directory"),
                    IoStep::ReadEntry => String::from_str("Failed to read directory entry"),
                    IoStep::ReadFile => String::from_str("Failed to read agent flow file"),
                    IoStep::CreateParentDir => String::from_str("Failed to create parent directory"),
                    IoStep::WriteFile => String::from_str("Failed to write agent flow file"),
                    IoStep::RemoveFile => String::from_str("Failed to remove agent flow file"),
                    IoStep::MoveFile => String::from_str("Failed to rename old agent flow file"),
                };
                r.append(": ");
                r.append(cause.as_str());
                r
            },
            StoreError::Parse(how) => how.clone(),
            StoreError::Engine(message) => message.clone(),
        }
    }
}

} // verus!
