//! The closed set of protocol errors and their rendered messages.

use vstd::prelude::*;
use vstd::string::StringExecFns;

verus! {

/// The result of a protocol operation.
pub type CommsResult<T> = Result<T, CommsError>;

/// Why a connection could not carry a message: the address was never
/// opened, or its connection is closed, or it is halted.
#[derive(Clone, Copy, Debug, PartialEq, Eq, Structural)]
pub enum NotSendableKind {
    Unknown,
    Closed,
    Halted,
}

/// The mathematical value of a [`CommsError`]: the same cases over
/// character sequences.
pub ghost enum ErrV {
    HandshakeConflict { name: Seq<char>, bound: Seq<char> },
    CapacityExceeded { name: Seq<char> },
    ConnectionAlreadyExists { addr: Seq<char> },
    NotSendable { addr: Seq<char>, kind: NotSendableKind },
}

/// A protocol error.
///
/// * `HandshakeConflict`: the client `name` was already bound to `bound`
///   when another handshake arrived; the handshake was rejected.
/// * `CapacityExceeded`: the client `name` was already at its post limit;
///   the post was rejected, and at the server this halts the connection.
/// * `ConnectionAlreadyExists`: `open` was called for `addr` while an entry
///   for it exists in any state.
/// * `NotSendable`: `send` was called for `addr` while no open connection
///   carries it; `kind` says whether it was unknown, closed or halted.
#[derive(Debug)]
pub enum CommsError {
    HandshakeConflict { name: String, bound: String },
    CapacityExceeded { name: String },
    ConnectionAlreadyExists { addr: String },
    NotSendable { addr: String, kind: NotSendableKind },
}

impl View for CommsError {
    type V = ErrV;

    open spec fn view(&self) -> ErrV {
        match self {
            CommsError::HandshakeConflict { name, bound } => ErrV::HandshakeConflict {
                name: name@,
                bound: bound@,
            },
            CommsError::CapacityExceeded { name } => ErrV::CapacityExceeded { name: name@ },
            CommsError::ConnectionAlreadyExists { addr } => ErrV::ConnectionAlreadyExists {
                addr: addr@,
            },
            CommsError::NotSendable { addr, kind } => ErrV::NotSendable { addr: addr@, kind: *kind },
        }
    }
}

/// The rendered message of an error.
pub open spec fn spec_error_message(e: ErrV) -> Seq<char> {
    match e {
        ErrV::HandshakeConflict { name, bound } => "Client '"@ + name
            + "' received unexpected handshake. Already connected to '"@ + bound + "'."@,
        ErrV::CapacityExceeded { name } => "Client '"@ + name + "' cannot ingest more messages."@,
        ErrV::ConnectionAlreadyExists { addr } => "Cannot open connection to '"@ + addr
            + "'. Connection already exists."@,
        ErrV::NotSendable { addr, kind } => match kind {
            NotSendableKind::Unknown => "Tried to send a message through an unknown connection ('"@
                + addr + "')."@,
            NotSendableKind::Closed => "Tried to send a message through a closed connection ('"@
                + addr + "')."@,
            NotSendableKind::Halted => "Tried to send a message through a halted connection ('"@
                + addr + "')."@,
        },
    }
}

impl CommsError {
    /// Renders this error as its exact textual message.
    pub fn message(&self) -> (r: String)
        ensures
            r@ == spec_error_message(self@),
    {
        match self {
            CommsError::HandshakeConflict { name, bound } => {
                let mut r = "Client '".to_owned();
                r.append(name.as_str());
                r.append("' received unexpected handshake. Already connected to '");
                r.append(bound.as_str());
                r.append("'.");
                r
            },
            CommsError::CapacityExceeded { name } => {
                let mut r = "Client '".to_owned();
                r.append(name.as_str());
                r.append("' cannot ingest more messages.");
                r
            },
            CommsError::ConnectionAlreadyExists { addr } => {
                let mut r = "Cannot open connection to '".to_owned();
                r.append(addr.as_str());
                r.append("'. Connection already exists.");
                r
            },
            CommsError::NotSendable { addr, kind } => {
                let mut r = match kind {
                    NotSendableKind::Unknown => "Tried to send a message through an unknown connection ('".to_owned(),
                    NotSendableKind::Closed => "Tried to send a message through a closed connection ('".to_owned(),
                    NotSendableKind::Halted => "Tried to send a message through a halted connection ('".to_owned(),
                };
                r.append(addr.as_str());
                r.append("').");
                r
            },
        }
    }
}

} // verus!
