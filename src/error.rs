use vstd::prelude::*;

verus! {

/// The kinds of failure that the pipeline distinguishes.
#[derive(Clone, Copy, Debug, PartialEq, Eq, Structural)]
pub enum ErrorKind {
    /// A corrupt PNG, or a frame buffer that grew past its bound.
    DecodeFraming,
    /// The upscaling model rejected a frame or failed internally.
    Upscale,
    /// A child process could not be spawned, read or written.
    ChildProcess,
    /// The decoder or encoder binary is not available.
    ToolUnavailable,
    /// A validation failure before the pipeline runs.
    Argument,
    /// Any other failure.
    Other,
}

/// An error with its kind and a one-line message.
#[derive(Clone, Debug)]
pub struct Error {
    pub kind: ErrorKind,
    pub message: String,
}

impl Error {
    /// An error of kind `Other` carrying `message`.
    pub fn new(message: String) -> (r: Error)
        ensures
            r.kind == ErrorKind::Other,
            r.message@ == message@,
    {
        Error { kind: ErrorKind::Other, message }
    }

    /// An error of the given kind carrying `message`.
    pub fn with_kind(kind: ErrorKind, message: String) -> (r: Error)
        ensures
            r.kind == kind,
            r.message@ == message@,
    {
        Error { kind, message }
    }

    /// The kind of this error.
    pub fn kind(&self) -> (r: ErrorKind)
        ensures
            r == self.kind,
    {
        self.kind
    }

    /// The message of this error, as it is shown to the user.
    pub fn message(&self) -> (r: String)
        ensures
            r@ == self.message@,
    {
        self.message.clone()
    }
}

} // verus!
