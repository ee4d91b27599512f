//! The replica Server: holds one copy of the register as a `(tag, value)`
//! pair, applies tag-monotonic updates, and answers read and write requests
//! from the Writer and the Readers.
//!
//! A per-sender table of last-seen counters rejects stale or replayed
//! requests: a Write with a counter at or below the last-seen one is dropped
//! silently, a Read strictly below it likewise.

use crate::messages::{ABDMessage, ABDMessageView, ServerMessage, ServerMessageView};
use std::collections::HashMap;
use vstd::prelude::*;

verus! {

broadcast use vstd::std_specs::hash::group_hash_axioms;

/// [`Server`] bundles the replica server's transition logic; one lives per
/// replica actor in the embedding program.
pub struct Server;

/// A replica server's state: the register copy and the last-seen counter per
/// requesting client.
pub struct ServerState {
    /// Tag under which the current value was written.
    pub tag: u64,
    /// Current value of the shared register.
    pub value: String,
    /// Highest counter seen so far from each Writer/Reader identity.
    pub counters: HashMap<u64, u64>,
}

/// Mathematical view of a [`ServerState`].
#[verifier::ext_equal]
pub struct ServerModel {
    pub tag: u64,
    pub value: Seq<char>,
    pub counters: Map<u64, u64>,
}

impl View for ServerState {
    type V = ServerModel;

    open spec fn view(&self) -> ServerModel {
        ServerModel { tag: self.tag, value: self.value@, counters: self.counters@ }
    }
}

/// The highest counter this server has seen from `sender`, zero when the
/// sender has never been heard from.
pub open spec fn last_counter(counters: Map<u64, u64>, sender: u64) -> u64 {
    if counters.contains_key(sender) {
        counters[sender]
    } else {
        0
    }
}

/// State of a freshly started server: empty register at the sentinel tag 0,
/// no sender heard from yet.
pub open spec fn server_init() -> ServerModel {
    ServerModel { tag: 0, value: Seq::empty(), counters: Map::empty() }
}

/// The server state after handling `msg`.
///
/// A Write whose counter is at or below the sender's last-seen counter, or a
/// Read whose counter is strictly below it, leaves the state unchanged. A
/// fresh Write records the counter and adopts `(tag, value)` exactly when the
/// tag strictly exceeds the stored one; a fresh Read records the counter.
pub open spec fn server_step(s: ServerModel, msg: ServerMessageView) -> ServerModel {
    match msg {
        ServerMessageView::Write { sender, tag, value, counter } => {
            if counter <= last_counter(s.counters, sender) {
                s
            } else if tag > s.tag {
                ServerModel { tag, value, counters: s.counters.insert(sender, counter) }
            } else {
                ServerModel { counters: s.counters.insert(sender, counter), ..s }
            }
        },
        ServerMessageView::Read { sender, counter } => {
            if counter < last_counter(s.counters, sender) {
                s
            } else {
                ServerModel { counters: s.counters.insert(sender, counter), ..s }
            }
        },
    }
}

/// The reply the server owes the requester: an acknowledgement for every
/// fresh request, nothing for a stale one. A write is acknowledged even when
/// its tag was not adopted, so the requester can still progress its quorum.
pub open spec fn server_reply(s: ServerModel, my_id: u64, msg: ServerMessageView) -> Option<
    ABDMessageView,
> {
    match msg {
        ServerMessageView::Write { sender, tag, value, counter } => {
            if counter <= last_counter(s.counters, sender) {
                None
            } else {
                Some(ABDMessageView::WriteAck { server: my_id, counter })
            }
        },
        ServerMessageView::Read { sender, counter } => {
            if counter < last_counter(s.counters, sender) {
                None
            } else {
                Some(
                    ABDMessageView::ReadAck { server: my_id, tag: s.tag, value: s.value, counter },
                )
            }
        },
    }
}

impl Server {
    /// State of a freshly started replica server.
    pub fn pre_start(&self) -> (s: ServerState)
        ensures
            s@ == server_init(),
    {
        let s = ServerState { tag: 0, value: String::new(), counters: HashMap::new() };
        proof {
            assert(s@ =~= server_init());
        }
        s
    }

    /// Handles one incoming request. `my_id` is this server's own identity,
    /// quoted in every acknowledgement; the reply, if any, goes back to the
    /// requester named in the message.
    pub fn handle(&self, my_id: u64, message: ServerMessage, state: &mut ServerState) -> (reply:
        Option<ABDMessage>)
        ensures
            final(state)@ == server_step(old(state)@, message@),
            reply.deep_view() == server_reply(old(state)@, my_id, message@),
            final(state).tag >= old(state).tag,
    {
        let ghost s0 = state@;
        let ghost m0 = message@;
        match message {
            ServerMessage::Write(sender, tag, value, counter) => {
                let last: u64 = match state.counters.get(&sender) {
                    Some(c) => *c,
                    None => 0,
                };
                assert(last == last_counter(s0.counters, sender));
                if counter <= last {
                    return None;
                }
                state.counters.insert(sender, counter);
                if tag > state.tag {
                    state.tag = tag;
                    state.value = value;
                }
                proof {
                    assert(state@ =~= server_step(s0, m0));
                }
                Some(ABDMessage::WriteAck(my_id, counter))
            },
            ServerMessage::Read(sender, counter) => {
                let last: u64 = match state.counters.get(&sender) {
                    Some(c) => *c,
                    None => 0,
                };
                assert(last == last_counter(s0.counters, sender));
                if counter < last {
                    return None;
                }
                state.counters.insert(sender, counter);
                let reply = ABDMessage::ReadAck(my_id, state.tag, state.value.clone(), counter);
                proof {
                    assert(state@ =~= server_step(s0, m0));
                    assert(reply@ =~= server_reply(s0, my_id, m0).unwrap());
                }
                Some(reply)
            },
        }
    }
}

/// Tag monotonicity: across any request, a server's stored tag never
/// decreases.
pub proof fn lemma_server_tag_monotonic(s: ServerModel, msg: ServerMessageView)
    ensures
        server_step(s, msg).tag >= s.tag,
{
}

/// Counter freshness: a server never adopts a Write whose counter is at or
/// below its last-seen counter for that sender — such a request changes
/// nothing and earns no reply. After handling a fresh Write, the last-seen
/// counter for the sender equals the counter of that Write.
pub proof fn lemma_counter_freshness(s: ServerModel, msg: ServerMessageView, my_id: u64)
    requires
        msg is Write,
    ensures
        msg matches ServerMessageView::Write { sender, counter, .. } ==> {
            &&& counter <= last_counter(s.counters, sender) ==> server_step(s, msg) == s
                && server_reply(s, my_id, msg) is None
            &&& counter > last_counter(s.counters, sender) ==> last_counter(
                server_step(s, msg).counters,
                sender,
            ) == counter
        },
{
}

/// Write-back propagation: whenever a server acknowledges a Write carrying
/// tag `t`, its stored tag is at least `t` from that point on. A majority of
/// such acknowledgements therefore certifies that a majority of servers store
/// a tag of at least `t`.
pub proof fn lemma_write_ack_implies_tag(s: ServerModel, msg: ServerMessageView, my_id: u64)
    requires
        msg is Write,
        server_reply(s, my_id, msg) is Some,
    ensures
        msg matches ServerMessageView::Write { tag, .. } ==> server_step(s, msg).tag >= tag,
{
}

/// Write-back across a quorum: once every server of a quorum has
/// acknowledged one write broadcast carrying tag `t` — a Reader completes its
/// Phase 2, and the Writer its write, only after a majority did — every
/// server of that quorum stores a tag of at least `t`. Together with
/// `quorum::lemma_quorum_observes_tag` and tag monotonicity, any later
/// majority-read is answered by some server holding a tag of at least `t`.
pub proof fn lemma_quorum_write_back(
    pre: Map<u64, ServerModel>,
    post: Map<u64, ServerModel>,
    q: Set<u64>,
    msg: ServerMessageView,
    t: u64,
)
    requires
        msg matches ServerMessageView::Write { tag, .. } && tag == t,
        forall|sid: u64| q.contains(sid) ==> pre.contains_key(sid) && post.contains_key(sid),
        forall|sid: u64| q.contains(sid) ==> post[sid] == server_step(pre[sid], msg),
        forall|sid: u64| q.contains(sid) ==> server_reply(pre[sid], sid, msg) is Some,
    ensures
        forall|sid: u64| q.contains(sid) ==> post[sid].tag >= t,
{
    assert forall|sid: u64| q.contains(sid) implies post[sid].tag >= t by {
        lemma_write_ack_implies_tag(pre[sid], msg, sid);
    }
}

} // verus!
