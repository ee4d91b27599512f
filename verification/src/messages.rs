//! Message shapes exchanged between clients, the Writer/Reader actors and the
//! replica Servers, together with their mathematical views.
//!
//! Actor identities are plain `u64` values; the embedding program maps them to
//! whatever addresses its transport uses. Payload values are `String`s, viewed
//! as character sequences.

use vstd::prelude::*;

verus! {

/// Messages handled by the Writer and Reader actors: client requests and
/// server acknowledgements.
#[derive(Clone, Debug)]
pub enum ABDMessage {
    /// Client request: write this value to the register (Writer only).
    Write(String),
    /// Client request: read the register (Reader only).
    Read,
    /// A server acknowledges a write broadcast: (server id, counter).
    WriteAck(u64, u64),
    /// A server answers a read broadcast: (server id, tag, value, counter).
    ReadAck(u64, u64, String, u64),
}

/// Mathematical view of an [`ABDMessage`].
#[verifier::ext_equal]
pub enum ABDMessageView {
    Write { value: Seq<char> },
    Read,
    WriteAck { server: u64, counter: u64 },
    ReadAck { server: u64, tag: u64, value: Seq<char>, counter: u64 },
}

impl View for ABDMessage {
    type V = ABDMessageView;

    open spec fn view(&self) -> ABDMessageView {
        match self {
            ABDMessage::Write(v) => ABDMessageView::Write { value: v@ },
            ABDMessage::Read => ABDMessageView::Read,
            ABDMessage::WriteAck(s, c) => ABDMessageView::WriteAck {
                server: *s,
                counter: *c,
            },
            ABDMessage::ReadAck(s, t, v, c) => ABDMessageView::ReadAck {
                server: *s,
                tag: *t,
                value: v@,
                counter: *c,
            },
        }
    }
}

impl DeepView for ABDMessage {
    type V = ABDMessageView;

    open spec fn deep_view(&self) -> ABDMessageView {
        self.view()
    }
}

/// Messages handled by the Server actor. The first field is the identity of
/// the requesting Writer or Reader; the server's reply, if any, goes back to
/// that requester.
#[derive(Clone, Debug)]
pub enum ServerMessage {
    /// (sender id, tag, value, counter)
    Write(u64, u64, String, u64),
    /// (sender id, counter)
    Read(u64, u64),
}

/// Mathematical view of a [`ServerMessage`].
#[verifier::ext_equal]
pub enum ServerMessageView {
    Write { sender: u64, tag: u64, value: Seq<char>, counter: u64 },
    Read { sender: u64, counter: u64 },
}

impl View for ServerMessage {
    type V = ServerMessageView;

    open spec fn view(&self) -> ServerMessageView {
        match self {
            ServerMessage::Write(s, t, v, c) => ServerMessageView::Write {
                sender: *s,
                tag: *t,
                value: v@,
                counter: *c,
            },
            ServerMessage::Read(s, c) => ServerMessageView::Read {
                sender: *s,
                counter: *c,
            },
        }
    }
}

impl DeepView for ServerMessage {
    type V = ServerMessageView;

    open spec fn deep_view(&self) -> ServerMessageView {
        self.view()
    }
}

} // verus!
