//! The errors that a client can be told of, and the result of one invocation.

use crate::text::copy_text;
use crate::value::{Value, ValueModel};
use vstd::prelude::*;
use vstd::string::*;

verus! {

/// The kinds of error.
#[derive(Clone, Copy, Debug, PartialEq, Eq, Structural)]
pub enum ErrorKind {
    /// No router owns the requested tool name.
    UnknownTool,
    /// The arguments do not fit the tool's input schema.
    InvalidArguments,
    /// The router did not answer before the deadline.
    Timeout,
    /// The router reported a failure, or its payload does not fit the
    /// tool's output schema.
    RouterInternalError,
    /// A frame could not be decoded.
    TransportError,
}

impl ErrorKind {
    /// The name under which the kind goes over the wire.
    pub open spec fn wire_name(self) -> Seq<char> {
        match self {
            ErrorKind::UnknownTool => "UnknownTool"@,
            ErrorKind::InvalidArguments => "InvalidArguments"@,
            ErrorKind::Timeout => "Timeout"@,
            ErrorKind::RouterInternalError => "RouterInternalError"@,
            ErrorKind::TransportError => "TransportError"@,
        }
    }

    /// Whether the kind says that the request was at fault.
    pub open spec fn blames_request(self) -> bool {
        self == ErrorKind::UnknownTool || self == ErrorKind::InvalidArguments
    }

    /// Whether the kind says that the server had trouble.
    pub open spec fn blames_server(self) -> bool {
        self == ErrorKind::RouterInternalError || self == ErrorKind::Timeout
    }

    /// The name under which the kind goes over the wire.
    pub fn name(&self) -> (r: &'static str)
        ensures
            r@ == self.wire_name(),
    {
        match self {
            ErrorKind::UnknownTool => "UnknownTool",
            ErrorKind::InvalidArguments => "InvalidArguments",
            ErrorKind::Timeout => "Timeout",
            ErrorKind::RouterInternalError => "RouterInternalError",
            ErrorKind::TransportError => "TransportError",
        }
    }

    /// Whether the request was at fault: an unknown tool or bad arguments.
    pub fn is_request_fault(&self) -> (r: bool)
        ensures
            r == self.blames_request(),
    {
        match self {
            ErrorKind::UnknownTool => true,
            ErrorKind::InvalidArguments => true,
            _ => false,
        }
    }

    /// Whether the server had trouble: a router failure or a timeout.
    pub fn is_server_fault(&self) -> (r: bool)
        ensures
            r == self.blames_server(),
    {
        match self {
            ErrorKind::RouterInternalError => true,
            ErrorKind::Timeout => true,
            _ => false,
        }
    }
}

/// An error as the client sees it.
#[derive(Debug, PartialEq)]
pub struct InvocationError {
    pub kind: ErrorKind,
    pub message: String,
    /// What the error is about: the tool or the field, where one is known.
    pub detail: Option<String>,
}

/// What an `InvocationError` is.
pub struct ErrorModel {
    pub kind: ErrorKind,
    pub message: Seq<char>,
    pub detail: Option<Seq<char>>,
}

impl View for InvocationError {
    type V = ErrorModel;

    open spec fn view(&self) -> ErrorModel {
        ErrorModel {
            kind: self.kind,
            message: self.message@,
            detail: match self.detail {
                Some(d) => Some(d@),
                None => None,
            },
        }
    }
}

impl InvocationError {
    /// An error of the given kind about `detail`.
    pub fn about(kind: ErrorKind, message: &str, detail: &str) -> (r: InvocationError)
        ensures
            r@ == (ErrorModel { kind, message: message@, detail: Some(detail@) }),
    {
        InvocationError { kind, message: copy_text(message), detail: Some(copy_text(detail)) }
    }

    /// An error of the given kind with nothing more to point at.
    pub fn plain(kind: ErrorKind, message: &str) -> (r: InvocationError)
        ensures
            r@ == (ErrorModel { kind, message: message@, detail: None }),
    {
        InvocationError { kind, message: copy_text(message), detail: None }
    }
}

/// The answer to one request: its id, and a payload or an error.
#[derive(Debug, PartialEq)]
pub struct InvocationResult {
    pub request_id: String,
    pub outcome: Result<Value, InvocationError>,
}

/// What an `InvocationResult` is.
pub struct ResultModel {
    pub request_id: Seq<char>,
    pub outcome: Result<ValueModel, ErrorModel>,
}

impl View for InvocationResult {
    type V = ResultModel;

    open spec fn view(&self) -> ResultModel {
        ResultModel {
            request_id: self.request_id@,
            outcome: match self.outcome {
                Ok(v) => Ok(v@),
                Err(e) => Err(e@),
            },
        }
    }
}

/// Each kind that the dispatcher reports blames the request or the server,
/// never both, so a client can always tell the two apart.
pub proof fn lemma_blame_is_exclusive(kind: ErrorKind)
    ensures
        !(kind.blames_request() && kind.blames_server()),
        kind != ErrorKind::TransportError ==> (kind.blames_request() || kind.blames_server()),
        kind == ErrorKind::TransportError ==> !kind.blames_request() && !kind.blames_server(),
{
}

} // verus!
