//! The single Writer: mints tags, drives one write operation at a time
//! against the replica servers, and defers client requests that arrive while
//! a write is in flight to a FIFO backlog.
//!
//! The Writer is a pure state machine: handling a message yields a new state
//! and a list of effects — a broadcast to send to every server, or the
//! completion of the write in flight. The embedding program performs them.

use crate::messages::{ABDMessage, ABDMessageView};
use crate::quorum::{ack_insert, ack_inserted, lemma_ack_inserted_no_dup};
use std::collections::VecDeque;
use vstd::prelude::*;

verus! {

/// [`Writer`] bundles the writer's transition logic; exactly one lives in a
/// deployment.
pub struct Writer;

/// The Writer's state.
pub struct WriterState {
    /// How many replica servers the deployment has.
    pub num_servers: usize,
    /// Majority threshold for quorum.
    pub majority: usize,
    /// True while a write operation is in progress.
    pub writing: bool,
    /// Tag minted for the write in flight; the highest tag minted so far.
    pub tag: u64,
    /// Counter identifying the write operation in flight.
    pub write_counter: u64,
    /// Servers that have acknowledged the write in flight, each at most once.
    pub server_acks: Vec<u64>,
    /// Client requests deferred while a write was in flight, oldest first.
    pub backlog: VecDeque<ABDMessage>,
}

/// What the Writer asks its embedding to do after handling a message.
#[derive(Clone, Debug)]
pub enum WriterEffect {
    /// Send `Write(writer id, tag, value, counter)` to every server.
    Broadcast(u64, String, u64),
    /// The write at this tag gathered a majority of acknowledgements; report
    /// completion to the client.
    Complete(u64),
}

/// Mathematical view of a [`WriterEffect`].
#[verifier::ext_equal]
pub enum WriterEffectView {
    Broadcast { tag: u64, value: Seq<char>, counter: u64 },
    Complete { tag: u64 },
}

impl View for WriterEffect {
    type V = WriterEffectView;

    open spec fn view(&self) -> WriterEffectView {
        match self {
            WriterEffect::Broadcast(t, v, c) => WriterEffectView::Broadcast {
                tag: *t,
                value: v@,
                counter: *c,
            },
            WriterEffect::Complete(t) => WriterEffectView::Complete { tag: *t },
        }
    }
}

impl DeepView for WriterEffect {
    type V = WriterEffectView;

    open spec fn deep_view(&self) -> WriterEffectView {
        self.view()
    }
}

/// Mathematical view of a [`WriterState`].
#[verifier::ext_equal]
pub struct WriterModel {
    pub num_servers: usize,
    pub majority: usize,
    pub writing: bool,
    pub tag: u64,
    pub write_counter: u64,
    pub acks: Seq<u64>,
    pub backlog: Seq<ABDMessageView>,
}

impl View for WriterState {
    type V = WriterModel;

    open spec fn view(&self) -> WriterModel {
        WriterModel {
            num_servers: self.num_servers,
            majority: self.majority,
            writing: self.writing,
            tag: self.tag,
            write_counter: self.write_counter,
            acks: self.server_acks@,
            backlog: self.backlog.deep_view(),
        }
    }
}

impl WriterModel {
    /// Well-formedness, established at start-up and preserved by every turn:
    /// the majority threshold fits the deployment, votes are counted once per
    /// server, a write in flight has not yet reached its quorum, and only
    /// client write requests ever wait in the backlog.
    pub open spec fn wf(self) -> bool {
        &&& self.majority == self.num_servers / 2 + 1
        &&& self.acks.no_duplicates()
        &&& self.writing ==> self.acks.len() < self.majority
        &&& forall|i: int| 0 <= i < self.backlog.len() ==> self.backlog[i] is Write
    }
}

/// State of a freshly started Writer for `num_servers` replicas: idle, at the
/// sentinel tag 0, with counter 0.
pub open spec fn writer_init(num_servers: usize) -> WriterModel {
    WriterModel {
        num_servers,
        majority: (num_servers / 2 + 1) as usize,
        writing: false,
        tag: 0,
        write_counter: 0,
        acks: Seq::empty(),
        backlog: Seq::empty(),
    }
}

/// Result of handling a single message, backlog aside: the state after it,
/// the message handed back unhandled (only a client request during a busy
/// write), and the effect to perform.
#[verifier::ext_equal]
pub struct WriterStep {
    pub post: WriterModel,
    pub unhandled: Option<ABDMessageView>,
    pub effect: Option<WriterEffectView>,
}

/// The Writer's transition on one message, before the backlog discipline.
///
/// A client Write during a busy write is handed back unhandled; an idle
/// Writer starts the write by minting the next tag and counter and
/// broadcasting. A WriteAck for the current counter records the server's
/// vote; the vote that completes a majority finishes the operation. Acks at
/// stale counters and all other message kinds change nothing.
pub open spec fn writer_step(s: WriterModel, m: ABDMessageView) -> WriterStep {
    match m {
        ABDMessageView::Write { value } => {
            if s.writing {
                WriterStep { post: s, unhandled: Some(m), effect: None }
            } else {
                WriterStep {
                    post: WriterModel {
                        writing: true,
                        tag: (s.tag + 1) as u64,
                        write_counter: (s.write_counter + 1) as u64,
                        acks: Seq::empty(),
                        ..s
                    },
                    unhandled: None,
                    effect: Some(
                        WriterEffectView::Broadcast {
                            tag: (s.tag + 1) as u64,
                            value,
                            counter: (s.write_counter + 1) as u64,
                        },
                    ),
                }
            }
        },
        ABDMessageView::WriteAck { server, counter } => {
            if !s.writing {
                WriterStep { post: s, unhandled: None, effect: None }
            } else {
                let votes = if counter == s.write_counter {
                    ack_inserted(s.acks, server)
                } else {
                    s.acks
                };
                if votes.len() >= s.majority {
                    WriterStep {
                        post: WriterModel { writing: false, acks: votes, ..s },
                        unhandled: None,
                        effect: Some(WriterEffectView::Complete { tag: s.tag }),
                    }
                } else {
                    WriterStep {
                        post: WriterModel { acks: votes, ..s },
                        unhandled: None,
                        effect: None,
                    }
                }
            }
        },
        _ => WriterStep { post: s, unhandled: None, effect: None },
    }
}

/// Outcome of a whole message turn: the state afterwards and the effects it
/// produced, in order.
#[verifier::ext_equal]
pub struct WriterTurn {
    pub post: WriterModel,
    pub effects: Seq<WriterEffectView>,
}

/// The backlog drain: pop deferred requests from the head and feed each back
/// through the transition until one is handed back unhandled — it returns to
/// the front — or the backlog empties. Deferred requests are never reordered.
pub open spec fn writer_drain(s: WriterModel, effects: Seq<WriterEffectView>) -> WriterTurn
    decreases s.backlog.len(),
{
    if s.backlog.len() == 0 {
        WriterTurn { post: s, effects }
    } else {
        let head = s.backlog[0];
        let rest = WriterModel { backlog: s.backlog.drop_first(), ..s };
        let step = writer_step(rest, head);
        if step.unhandled is Some {
            WriterTurn { post: s, effects }
        } else {
            let pushed = match step.effect {
                Some(e) => effects.push(e),
                None => effects,
            };
            writer_drain(step.post, pushed)
        }
    }
}

/// A full message turn: handle the incoming message; if it was deferred,
/// append it to the backlog tail, otherwise drain the backlog.
pub open spec fn writer_turn(s: WriterModel, m: ABDMessageView) -> WriterTurn {
    let step = writer_step(s, m);
    if step.unhandled is Some {
        WriterTurn {
            post: WriterModel { backlog: s.backlog.push(m), ..s },
            effects: Seq::empty(),
        }
    } else {
        let first = match step.effect {
            Some(e) => seq![e],
            None => Seq::<WriterEffectView>::empty(),
        };
        writer_drain(step.post, first)
    }
}

/// A single transition preserves well-formedness, never touches the backlog,
/// and hands back at most the incoming message, and only a client Write.
pub proof fn lemma_writer_step_wf(s: WriterModel, m: ABDMessageView)
    requires
        s.wf(),
    ensures
        writer_step(s, m).post.wf(),
        writer_step(s, m).post.backlog == s.backlog,
        writer_step(s, m).unhandled is Some ==> writer_step(s, m).unhandled == Some(m) && m is Write
            && s.writing,
        m is Write && !s.writing ==> writer_step(s, m).post.writing,
        writer_step(s, m).post.tag != s.tag ==> writer_step(s, m).post.writing,
        writer_step(s, m).post.write_counter != s.write_counter ==> writer_step(s, m).post.writing,
{
    match m {
        ABDMessageView::WriteAck { server, counter } => {
            if s.writing && counter == s.write_counter {
                lemma_ack_inserted_no_dup(s.acks, server);
            }
        },
        _ => {},
    }
}

/// Number of server broadcasts among a turn's effects.
pub open spec fn writer_broadcast_count(effects: Seq<WriterEffectView>) -> nat
    decreases effects.len(),
{
    if effects.len() == 0 {
        0nat
    } else {
        writer_broadcast_count(effects.drop_last()) + (if effects.last() is Broadcast {
            1nat
        } else {
            0nat
        })
    }
}

proof fn lemma_writer_broadcast_count_push(effects: Seq<WriterEffectView>, e: WriterEffectView)
    ensures
        writer_broadcast_count(effects.push(e)) == writer_broadcast_count(effects) + (
        if e is Broadcast {
            1nat
        } else {
            0nat
        }),
{
    assert(effects.push(e).drop_last() =~= effects);
    assert(effects.push(e).last() == e);
}

/// What the backlog drain can broadcast: nothing while a write is in flight —
/// the deferred request waits — and at most one broadcast otherwise, which
/// starts the next write.
proof fn lemma_writer_drain_broadcasts(s: WriterModel, effects: Seq<WriterEffectView>)
    requires
        s.wf(),
    ensures
        ({
            let d = writer_drain(s, effects);
            &&& s.writing ==> d.post == s && d.effects == effects
            &&& writer_broadcast_count(d.effects) <= writer_broadcast_count(effects) + 1
            &&& writer_broadcast_count(d.effects) > writer_broadcast_count(effects)
                ==> d.post.writing
            &&& !d.post.writing ==> writer_broadcast_count(d.effects) == writer_broadcast_count(
                effects,
            )
        }),
    decreases s.backlog.len(),
{
    if s.backlog.len() == 0 {
    } else {
        let head = s.backlog[0];
        let rest = WriterModel { backlog: s.backlog.drop_first(), ..s };
        assert forall|i: int| 0 <= i < rest.backlog.len() implies rest.backlog[i] is Write by {
            assert(rest.backlog[i] == s.backlog[i + 1]);
        }
        assert(rest.wf());
        assert(head is Write);
        let step = writer_step(rest, head);
        lemma_writer_step_wf(rest, head);
        if !s.writing {
            let b = step.effect->Some_0;
            lemma_writer_broadcast_count_push(effects, b);
            lemma_writer_drain_broadcasts(step.post, effects.push(b));
        }
    }
}

/// Single operation in flight: one message turn broadcasts at most once, a
/// turn that broadcasts leaves a write in flight, and a turn that ends idle
/// broadcast nothing — a client request never triggers its Phase-1 broadcast
/// twice.
pub proof fn lemma_writer_single_broadcast(s: WriterModel, m: ABDMessageView)
    requires
        s.wf(),
    ensures
        ({
            let t = writer_turn(s, m);
            &&& writer_broadcast_count(t.effects) <= 1
            &&& writer_broadcast_count(t.effects) == 1 ==> t.post.writing
            &&& !t.post.writing ==> writer_broadcast_count(t.effects) == 0
        }),
{
    let step = writer_step(s, m);
    lemma_writer_step_wf(s, m);
    if step.unhandled is Some {
        assert(writer_broadcast_count(Seq::<WriterEffectView>::empty()) == 0);
    } else {
        let first = match step.effect {
            Some(e) => seq![e],
            None => Seq::<WriterEffectView>::empty(),
        };
        assert(writer_broadcast_count(Seq::<WriterEffectView>::empty()) == 0);
        match step.effect {
            Some(e) => {
                lemma_writer_broadcast_count_push(Seq::<WriterEffectView>::empty(), e);
                assert(Seq::<WriterEffectView>::empty().push(e) =~= first);
            },
            None => {},
        }
        lemma_writer_drain_broadcasts(step.post, first);
    }
}

proof fn lemma_writer_drain_backlog_suffix(s: WriterModel, effects: Seq<WriterEffectView>)
    ensures
        exists|k: int|
            0 <= k <= s.backlog.len() && writer_drain(s, effects).post.backlog =~= s.backlog.skip(
                k,
            ),
    decreases s.backlog.len(),
{
    if s.backlog.len() == 0 {
        assert(s.backlog.skip(0) =~= s.backlog);
    } else {
        let head = s.backlog[0];
        let rest = WriterModel { backlog: s.backlog.drop_first(), ..s };
        let step = writer_step(rest, head);
        if step.unhandled is Some {
            assert(s.backlog.skip(0) =~= s.backlog);
        } else {
            let pushed = match step.effect {
                Some(e) => effects.push(e),
                None => effects,
            };
            assert(step.post.backlog == rest.backlog);
            lemma_writer_drain_backlog_suffix(step.post, pushed);
            let k = choose|k: int|
                0 <= k <= step.post.backlog.len() && writer_drain(step.post, pushed).post.backlog
                    =~= step.post.backlog.skip(k);
            assert(step.post.backlog.skip(k) =~= s.backlog.skip(k + 1));
            assert(writer_drain(s, effects).post.backlog =~= s.backlog.skip(k + 1));
        }
    }
}

/// Backlog FIFO: a turn either appends the newly deferred request at the tail
/// or replays deferred requests from the head in arrival order — the backlog
/// afterwards is a suffix of the backlog before. Deferred requests are never
/// reordered, so of two requests deferred in order the first starts first.
pub proof fn lemma_writer_backlog_fifo(s: WriterModel, m: ABDMessageView)
    requires
        s.wf(),
    ensures
        ({
            let t = writer_turn(s, m);
            t.post.backlog == s.backlog.push(m) || exists|k: int|
                0 <= k <= s.backlog.len() && t.post.backlog =~= s.backlog.skip(k)
        }),
{
    let step = writer_step(s, m);
    lemma_writer_step_wf(s, m);
    if step.unhandled is Some {
    } else {
        let first = match step.effect {
            Some(e) => seq![e],
            None => Seq::<WriterEffectView>::empty(),
        };
        lemma_writer_drain_backlog_suffix(step.post, first);
    }
}

/// Quorum sufficiency: a transition completes the write in flight exactly
/// when it is an acknowledgement at the current counter whose sender brings
/// the set of distinct acknowledging servers up to a majority.
pub proof fn lemma_writer_quorum_sufficiency(s: WriterModel, m: ABDMessageView)
    requires
        s.wf(),
    ensures
        (writer_step(s, m).effect matches Some(e) && e is Complete) <==> ({
            &&& s.writing
            &&& m matches ABDMessageView::WriteAck { server, counter } && counter
                == s.write_counter && ack_inserted(s.acks, server).len() >= s.majority
        }),
{
}

impl Writer {
    /// State of a freshly started Writer for a deployment of `num_servers`
    /// replicas.
    pub fn pre_start(&self, num_servers: usize) -> (s: WriterState)
        ensures
            s@ == writer_init(num_servers),
            s@.wf(),
    {
        let s = WriterState {
            num_servers,
            majority: num_servers / 2 + 1,
            writing: false,
            tag: 0,
            write_counter: 0,
            server_acks: Vec::new(),
            backlog: VecDeque::new(),
        };
        proof {
            assert(s@ =~= writer_init(num_servers));
        }
        s
    }

    /// Handles one message without the backlog discipline, exactly as
    /// [`writer_step`] describes. Returns the message handed back unhandled
    /// (to be deferred) and the effect to perform, if any.
    pub fn handle_internal(&self, message: ABDMessage, state: &mut WriterState) -> (r: (
        Option<ABDMessage>,
        Option<WriterEffect>,
    ))
        requires
            message@ is Write && !old(state).writing ==> old(state).tag < u64::MAX && old(
                state,
            ).write_counter < u64::MAX,
        ensures
            final(state)@ == writer_step(old(state)@, message@).post,
            r.0.deep_view() == writer_step(old(state)@, message@).unhandled,
            r.1.deep_view() == writer_step(old(state)@, message@).effect,
    {
        let ghost s0 = state@;
        let ghost m0 = message@;
        match message {
            ABDMessage::Write(value) => {
                if state.writing {
                    let back = ABDMessage::Write(value);
                    proof {
                        assert(state@ =~= writer_step(s0, m0).post);
                    }
                    return (Some(back), None);
                }
                state.writing = true;
                state.tag = state.tag + 1;
                state.write_counter = state.write_counter + 1;
                state.server_acks.clear();
                let eff = WriterEffect::Broadcast(state.tag, value, state.write_counter);
                proof {
                    assert(state@ =~= writer_step(s0, m0).post);
                    assert(Some(eff).deep_view() =~= writer_step(s0, m0).effect);
                }
                (None, Some(eff))
            },
            ABDMessage::WriteAck(server, counter) => {
                if !state.writing {
                    proof {
                        assert(state@ =~= writer_step(s0, m0).post);
                    }
                    return (None, None);
                }
                if counter == state.write_counter {
                    ack_insert(&mut state.server_acks, server);
                }
                if state.server_acks.len() >= state.majority {
                    state.writing = false;
                    proof {
                        assert(state@ =~= writer_step(s0, m0).post);
                    }
                    return (None, Some(WriterEffect::Complete(state.tag)));
                }
                proof {
                    assert(state@ =~= writer_step(s0, m0).post);
                }
                (None, None)
            },
            _ => {
                proof {
                    assert(state@ =~= writer_step(s0, m0).post);
                }
                (None, None)
            },
        }
    }

    /// Handles one message turn, backlog discipline included, exactly as
    /// [`writer_turn`] describes: a deferred request joins the backlog tail;
    /// otherwise deferred requests are replayed from the head until one must
    /// wait again. Returns the effects to perform, in order.
    pub fn handle(&self, message: ABDMessage, state: &mut WriterState) -> (effects: Vec<
        WriterEffect,
    >)
        requires
            old(state)@.wf(),
            old(state).tag < u64::MAX,
            old(state).write_counter < u64::MAX,
        ensures
            final(state)@ == writer_turn(old(state)@, message@).post,
            effects.deep_view() == writer_turn(old(state)@, message@).effects,
            final(state)@.wf(),
    {
        let ghost s0 = state@;
        let ghost m0 = message@;
        let ghost target = writer_turn(s0, m0);
        let mut effects: Vec<WriterEffect> = Vec::new();
        proof {
            lemma_writer_step_wf(s0, m0);
        }
        let (maybe_unhandled, eff) = self.handle_internal(message, state);
        if let Some(m) = maybe_unhandled {
            state.backlog.push_back(m);
            proof {
                assert(state.backlog.deep_view() =~= s0.backlog.push(m0));
                assert(state@ =~= target.post);
                assert(effects.deep_view() =~= target.effects);
            }
            return effects;
        }
        if let Some(e) = eff {
            effects.push(e);
            proof {
                assert(effects.deep_view() =~= Seq::<WriterEffectView>::empty().push(e@));
            }
        }
        proof {
            match writer_step(s0, m0).effect {
                Some(ev) => {
                    assert(effects.deep_view() =~= seq![ev]);
                },
                None => {
                    assert(effects.deep_view() =~= Seq::<WriterEffectView>::empty());
                },
            }
            assert(writer_drain(state@, effects.deep_view()) == target);
        }
        loop
            invariant
                state@.wf(),
                !state@.writing ==> state.tag < u64::MAX && state.write_counter < u64::MAX,
                writer_drain(state@, effects.deep_view()) == target,
            ensures
                state@.wf(),
                state@ == target.post,
                effects.deep_view() == target.effects,
            decreases state@.backlog.len(),
        {
            let ghost cur = state@;
            let ghost effs = effects.deep_view();
            if state.backlog.len() == 0 {
                proof {
                    assert(writer_drain(cur, effs) == WriterTurn { post: cur, effects: effs });
                }
                break ;
            }
            let head = state.backlog.pop_front().unwrap();
            proof {
                assert(state.backlog.deep_view() =~= cur.backlog.drop_first());
                assert(head@ == cur.backlog[0]);
                assert forall|i: int| 0 <= i < state@.backlog.len() implies state@.backlog[i]
                    is Write by {
                    assert(state@.backlog[i] == cur.backlog[i + 1]);
                }
                assert(state@.wf());
                lemma_writer_step_wf(state@, head@);
            }
            let ghost rest = state@;
            let (mu, e2) = self.handle_internal(head, state);
            let ghost q = state.backlog@;
            match mu {
                Some(m2) => {
                    proof {
                        let step = writer_step(rest, cur.backlog[0]);
                        assert(step.unhandled == Some(cur.backlog[0]));
                        assert(m2.deep_view() == cur.backlog[0]);
                        assert(Seq::new(q.len(), |i: int| q[i].deep_view()) == rest.backlog);
                    }
                    state.backlog.push_front(m2);
                    proof {
                        assert(state.backlog@ == seq![m2] + q);
                        assert(state.backlog.deep_view().len() == cur.backlog.len());
                        assert forall|i: int|
                            0 <= i < state.backlog.deep_view().len() implies state.backlog.deep_view()[i]
                            == cur.backlog[i] by {
                            if i == 0 {
                                assert(state.backlog@[0] == m2);
                            } else {
                                assert(state.backlog@[i] == q[i - 1]);
                                assert(q[i - 1].deep_view() == rest.backlog[i - 1]);
                                assert(rest.backlog[i - 1] == cur.backlog[i]);
                            }
                        }
                        assert(state.backlog.deep_view() =~= cur.backlog);
                        assert(state@ =~= cur);
                        assert(writer_drain(cur, effs) == WriterTurn { post: cur, effects: effs });
                    }
                    break ;
                },
                None => {},
            }
            match e2 {
                Some(e3) => {
                    proof {
                        let step = writer_step(rest, cur.backlog[0]);
                        assert(e3.deep_view() == step.effect->Some_0);
                    }
                    effects.push(e3);
                    proof {
                        assert(effects.deep_view() =~= effs.push(e3@));
                    }
                },
                None => {},
            }
            proof {
                let step = writer_step(rest, cur.backlog[0]);
                assert(state@ == step.post);
                assert(writer_drain(state@, effects.deep_view()) == writer_drain(cur, effs));
            }
        }
        effects
    }
}

} // verus!
