//! The three message kinds and the message value routed between server and
//! clients.

use vstd::prelude::*;
use vstd::string::StringExecFns;

verus! {

/// The closed set of message kinds.
///
/// * `Handshake` greets a new client and establishes the connection; its
///   load carries the server's address, for the client to record.
/// * `Post` delivers a payload to be consumed by the client and counts
///   against the client's ingestion limit.
/// * `Get` asks the client for its current count of received posts.
#[derive(Clone, Copy)]
pub enum MessageType {
    Handshake,
    Post,
    Get,
}

/// The fixed display token of a message kind.
pub open spec fn spec_header(t: MessageType) -> Seq<char> {
    match t {
        MessageType::Handshake => "[HANDSHAKE]"@,
        MessageType::Post => "[POST]"@,
        MessageType::Get => "[GET]"@,
    }
}

impl MessageType {
    /// The fixed display token of this message kind.
    pub fn header(&self) -> (r: &'static str)
        ensures
            r@ == spec_header(*self),
    {
        match self {
            MessageType::Handshake => "[HANDSHAKE]",
            MessageType::Post => "[POST]",
            MessageType::Get => "[GET]",
        }
    }
}

/// The mathematical value of a [`Message`]: its kind and the characters of
/// its load.
pub ghost struct MessageV {
    pub msg_type: MessageType,
    pub load: Seq<char>,
}

/// An immutable message value. The meaning of `load` depends on `msg_type`:
/// the server's address for a Handshake, an uninterpreted payload for a
/// Post, unused (conventionally empty) for a Get.
pub struct Message {
    pub msg_type: MessageType,
    pub load: String,
}

impl View for Message {
    type V = MessageV;

    open spec fn view(&self) -> MessageV {
        MessageV { msg_type: self.msg_type, load: self.load@ }
    }
}

/// The display form of a message: its kind's header token and its load.
pub open spec fn spec_content(m: MessageV) -> Seq<char> {
    spec_header(m.msg_type) + "\n"@ + m.load
}

impl Message {
    /// The human-readable display form of this message: the header token of
    /// its kind, a newline, and the load.
    pub fn content(&self) -> (r: String)
        ensures
            r@ == spec_content(self@),
    {
        let mut r = self.msg_type.header().to_owned();
        r.append("\n");
        r.append(self.load.as_str());
        r
    }
}

} // verus!
