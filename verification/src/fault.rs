//! Failures of connections and codecs, as plain values.

use vstd::prelude::*;
use vstd::string::*;

verus! {

/// What kind of failure an operation on a connection or a file met.
#[derive(Clone, Copy, Debug, PartialEq, Eq, Structural)]
pub enum IoKind {
    BrokenPipe,
    ConnectionReset,
    ConnectionAborted,
    ConnectionRefused,
    UnexpectedEof,
    AddrInUse,
    InvalidData,
    InvalidInput,
    PermissionDenied,
    NotFound,
    TimedOut,
    Unsupported,
    Other,
}

/// A failure: its kind and what it says.
#[derive(Debug)]
pub struct IoFault {
    pub kind: IoKind,
    pub message: String,
}

/// Model of [`IoFault`].
pub struct FaultView {
    pub kind: IoKind,
    pub message: Seq<char>,
}

impl View for IoFault {
    type V = FaultView;

    open spec fn view(&self) -> FaultView {
        FaultView { kind: self.kind, message: self.message@ }
    }
}

impl Clone for IoFault {
    fn clone(&self) -> (r: Self)
        ensures
            r@ == self@,
    {
        IoFault { kind: self.kind, message: self.message.clone() }
    }
}

/// Model of a failure of the kind `kind` that says `message`.
pub open spec fn fault_view(kind: IoKind, message: Seq<char>) -> FaultView {
    FaultView { kind, message }
}

/// A failure of the kind `kind` that says `message`.
pub fn fault(kind: IoKind, message: &str) -> (f: IoFault)
    ensures
        f@ == fault_view(kind, message@),
{
    IoFault { kind, message: message.to_owned() }
}

/// Kinds of failure that only mean that the other side went away.
pub open spec fn benign(kind: IoKind) -> bool {
    kind == IoKind::BrokenPipe || kind == IoKind::ConnectionReset || kind
        == IoKind::ConnectionAborted || kind == IoKind::UnexpectedEof
}

/// Whether a failure only means that the other side went away.
pub fn is_benign(kind: IoKind) -> (r: bool)
    ensures
        r == benign(kind),
{
    match kind {
        IoKind::BrokenPipe
        | IoKind::ConnectionReset
        | IoKind::ConnectionAborted
        | IoKind::UnexpectedEof => true,
        _ => false,
    }
}

/// A peer went away if the pipe broke, the connection was reset or aborted, or it
/// ended early; every other kind is a failure.
pub proof fn kinds_of_going_away(kind: IoKind)
    ensures
        benign(kind) <==> kind is BrokenPipe || kind is ConnectionReset || kind is ConnectionAborted
            || kind is UnexpectedEof,
{
}

} // verus!
