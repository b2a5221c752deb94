//! A named peer with a bounded capacity for Post messages.

use vstd::prelude::*;
use vstd::string::StringExecFns;

use crate::decimal::spec_decimal;
use crate::decimal::u32_to_decimal;
use crate::errors::CommsError;
use crate::errors::ErrV;
use crate::msg::Message;
use crate::msg::MessageType;
use crate::msg::MessageV;

verus! {

/// The mathematical value of a [`Client`].
pub ghost struct ClientV {
    pub name: Seq<char>,
    pub post_count: nat,
    pub limit: nat,
    pub connected_server: Option<Seq<char>>,
}

/// A client: an identity, a running count of ingested posts, the configured
/// post limit, and the server address bound by the first successful
/// handshake, if any.
pub struct Client {
    pub name: String,
    pub post_count: u32,
    pub limit: u32,
    pub connected_server: Option<String>,
}

impl View for Client {
    type V = ClientV;

    open spec fn view(&self) -> ClientV {
        ClientV {
            name: self.name@,
            post_count: self.post_count as nat,
            limit: self.limit as nat,
            connected_server: match self.connected_server {
                Some(ref s) => Some(s@),
                None => None,
            },
        }
    }
}

/// The view of a client's reply: either an optional response text, or an
/// error.
pub open spec fn spec_reply(r: Result<Option<String>, CommsError>) -> Result<
    Option<Seq<char>>,
    ErrV,
> {
    match r {
        Ok(None) => Ok(None),
        Ok(Some(s)) => Ok(Some(s@)),
        Err(e) => Err(e@),
    }
}

/// What a client does with one message: the client state after the call and
/// the reply. A rejected message leaves the state unchanged.
pub open spec fn client_step(c: ClientV, m: MessageV) -> (ClientV, Result<
    Option<Seq<char>>,
    ErrV,
>) {
    match m.msg_type {
        MessageType::Handshake => match c.connected_server {
            Some(bound) => (
                c,
                Err(ErrV::HandshakeConflict { name: c.name, bound }),
            ),
            None => (ClientV { connected_server: Some(m.load), ..c }, Ok(None)),
        },
        MessageType::Get => (c, Ok(Some(spec_decimal(c.post_count)))),
        MessageType::Post => if c.post_count >= c.limit {
            (c, Err(ErrV::CapacityExceeded { name: c.name }))
        } else {
            (ClientV { post_count: c.post_count + 1, ..c }, Ok(None))
        },
    }
}

impl Client {
    /// Creates a client with the given identity and post limit, no posts
    /// ingested and no server bound.
    pub fn new(name: String, limit: u32) -> (r: Client)
        ensures
            r@ == (ClientV {
                name: name@,
                post_count: 0,
                limit: limit as nat,
                connected_server: None,
            }),
    {
        Client { name, post_count: 0, limit, connected_server: None }
    }

    /// Consumes one message, exactly as [`client_step`] says: a first
    /// Handshake binds the server address; a Get replies with the decimal
    /// post count; a Post below the limit is counted; anything else is
    /// rejected with the matching error and no change of state.
    pub fn receive(&mut self, msg: Message) -> (r: Result<Option<String>, CommsError>)
        ensures
            final(self)@ == client_step(old(self)@, msg@).0,
            spec_reply(r) == client_step(old(self)@, msg@).1,
    {
        match msg.msg_type {
            MessageType::Handshake => match self.connected_server {
                Some(ref bound) => Err(
                    CommsError::HandshakeConflict { name: self.name.clone(), bound: bound.clone() },
                ),
                None => {
                    self.connected_server = Some(msg.load);
                    Ok(None)
                },
            },
            MessageType::Get => Ok(Some(u32_to_decimal(self.post_count))),
            MessageType::Post => {
                if self.post_count >= self.limit {
                    Err(CommsError::CapacityExceeded { name: self.name.clone() })
                } else {
                    self.post_count = self.post_count + 1;
                    Ok(None)
                }
            },
        }
    }
}

/// Law: a client accepts exactly one handshake. An unbound client accepts a
/// handshake and records the offered address; once bound, every handshake —
/// in particular any second one — is rejected with the conflict error naming
/// the bound address, and the client is unchanged.
pub proof fn lemma_handshake_binds_once(c: ClientV, first: MessageV, second: MessageV)
    requires
        c.connected_server is None,
        first.msg_type is Handshake,
        second.msg_type is Handshake,
    ensures
        client_step(c, first).1 == Ok::<Option<Seq<char>>, ErrV>(None),
        client_step(c, first).0 == (ClientV { connected_server: Some(first.load), ..c }),
        client_step(client_step(c, first).0, second) == (
            client_step(c, first).0,
            Err::<Option<Seq<char>>, ErrV>(
                ErrV::HandshakeConflict { name: c.name, bound: first.load },
            ),
        ),
{
}

/// Law: a Get never mutates the client and always replies with the decimal
/// rendering of the current post count.
pub proof fn lemma_get_is_readonly(c: ClientV, m: MessageV)
    requires
        m.msg_type is Get,
    ensures
        client_step(c, m).0 == c,
        client_step(c, m).1 == Ok::<Option<Seq<char>>, ErrV>(Some(spec_decimal(c.post_count))),
{
}

/// Law: posts are accepted exactly up to the limit. Below the limit a Post
/// increments the count and nothing else; at (or beyond) the limit it is
/// rejected with the capacity error and the count stops changing.
pub proof fn lemma_post_respects_limit(c: ClientV, m: MessageV)
    requires
        m.msg_type is Post,
    ensures
        c.post_count < c.limit ==> client_step(c, m) == (
            ClientV { post_count: c.post_count + 1, ..c },
            Ok::<Option<Seq<char>>, ErrV>(None),
        ),
        c.post_count >= c.limit ==> client_step(c, m) == (
            c,
            Err::<Option<Seq<char>>, ErrV>(ErrV::CapacityExceeded { name: c.name }),
        ),
{
}

/// Law: every step keeps the client's invariant `post_count <= limit`, and
/// never changes the name or the limit.
pub proof fn lemma_step_preserves_invariant(c: ClientV, m: MessageV)
    requires
        c.post_count <= c.limit,
    ensures
        client_step(c, m).0.post_count <= client_step(c, m).0.limit,
        client_step(c, m).0.name == c.name,
        client_step(c, m).0.limit == c.limit,
{
}

} // verus!
