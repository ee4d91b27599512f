//! The Reader: answers client read requests by the two-phase ABD read.
//!
//! Phase 1 queries all servers and learns the highest `(tag, value)` a
//! majority reports. Phase 2 writes that pair back to a majority before the
//! value is returned to the client — without the write-back a later read
//! could still observe an older majority, breaking atomicity. Client requests
//! arriving while a read is in flight wait in a FIFO backlog.
//!
//! Like the Writer, the Reader is a pure state machine returning effects; the
//! embedding program performs the sends and reports completions.

use crate::messages::{ABDMessage, ABDMessageView};
use crate::quorum::{ack_insert, ack_inserted, lemma_ack_inserted_no_dup};
use std::collections::VecDeque;
use vstd::prelude::*;

verus! {

/// Where the Reader stands in the two-phase read.
#[derive(Clone, Copy, Debug, PartialEq, Eq, Structural)]
pub enum ReaderStatus {
    /// No read in flight.
    Idle,
    /// Querying the servers for their current `(tag, value)`.
    Phase1,
    /// Writing the highest observed `(tag, value)` back to the servers.
    Phase2,
}

/// [`Reader`] bundles the reader's transition logic; one lives per reader
/// actor in the embedding program.
pub struct Reader;

/// The Reader's state.
pub struct ReaderState {
    /// How many replica servers the deployment has.
    pub num_servers: usize,
    /// Majority threshold for quorum.
    pub majority: usize,
    /// Where the read in flight stands, if any.
    pub status: ReaderStatus,
    /// Counter identifying the current phase of the read in flight.
    pub read_counter: u64,
    /// Servers that have answered the current phase, each at most once.
    pub server_acks: Vec<u64>,
    /// Highest tag observed in Phase 1 of the read in flight.
    pub max_tag: u64,
    /// Value paired with `max_tag`.
    pub value: String,
    /// Client requests deferred while a read was in flight, oldest first.
    pub backlog: VecDeque<ABDMessage>,
}

/// What the Reader asks its embedding to do after handling a message.
#[derive(Clone, Debug)]
pub enum ReaderEffect {
    /// Send `Read(reader id, counter)` to every server.
    BroadcastRead(u64),
    /// Send `Write(reader id, tag, value, counter)` to every server: the
    /// Phase-2 write-back of the highest observed pair.
    BroadcastWrite(u64, String, u64),
    /// The read completed; report this value to the client.
    Complete(String),
}

/// Mathematical view of a [`ReaderEffect`].
#[verifier::ext_equal]
pub enum ReaderEffectView {
    BroadcastRead { counter: u64 },
    BroadcastWrite { tag: u64, value: Seq<char>, counter: u64 },
    Complete { value: Seq<char> },
}

impl View for ReaderEffect {
    type V = ReaderEffectView;

    open spec fn view(&self) -> ReaderEffectView {
        match self {
            ReaderEffect::BroadcastRead(c) => ReaderEffectView::BroadcastRead { counter: *c },
            ReaderEffect::BroadcastWrite(t, v, c) => ReaderEffectView::BroadcastWrite {
                tag: *t,
                value: v@,
                counter: *c,
            },
            ReaderEffect::Complete(v) => ReaderEffectView::Complete { value: v@ },
        }
    }
}

impl DeepView for ReaderEffect {
    type V = ReaderEffectView;

    open spec fn deep_view(&self) -> ReaderEffectView {
        self.view()
    }
}

/// Mathematical view of a [`ReaderState`].
#[verifier::ext_equal]
pub struct ReaderModel {
    pub num_servers: usize,
    pub majority: usize,
    pub status: ReaderStatus,
    pub read_counter: u64,
    pub acks: Seq<u64>,
    pub max_tag: u64,
    pub value: Seq<char>,
    pub backlog: Seq<ABDMessageView>,
}

impl View for ReaderState {
    type V = ReaderModel;

    open spec fn view(&self) -> ReaderModel {
        ReaderModel {
            num_servers: self.num_servers,
            majority: self.majority,
            status: self.status,
            read_counter: self.read_counter,
            acks: self.server_acks@,
            max_tag: self.max_tag,
            value: self.value@,
            backlog: self.backlog.deep_view(),
        }
    }
}

impl ReaderModel {
    /// Well-formedness, established at start-up and preserved by every turn:
    /// the majority threshold fits the deployment, votes are counted once per
    /// server, a phase in flight has not yet reached its quorum, and only
    /// client read requests ever wait in the backlog.
    pub open spec fn wf(self) -> bool {
        &&& self.majority == self.num_servers / 2 + 1
        &&& self.acks.no_duplicates()
        &&& !(self.status is Idle) ==> self.acks.len() < self.majority
        &&& forall|i: int| 0 <= i < self.backlog.len() ==> self.backlog[i] is Read
    }
}

/// State of a freshly started Reader for `num_servers` replicas: idle, with
/// counter 0 and the empty register value at the sentinel tag 0.
pub open spec fn reader_init(num_servers: usize) -> ReaderModel {
    ReaderModel {
        num_servers,
        majority: (num_servers / 2 + 1) as usize,
        status: ReaderStatus::Idle,
        read_counter: 0,
        acks: Seq::empty(),
        max_tag: 0,
        value: Seq::empty(),
        backlog: Seq::empty(),
    }
}

/// Result of handling a single message, backlog aside.
#[verifier::ext_equal]
pub struct ReaderStep {
    pub post: ReaderModel,
    pub unhandled: Option<ABDMessageView>,
    pub effect: Option<ReaderEffectView>,
}

/// The Reader's transition on one message, before the backlog discipline.
///
/// A client Read during a busy read is handed back unhandled; an idle Reader
/// enters Phase 1 with a fresh counter and broadcasts a read. A ReadAck for
/// the current counter in Phase 1 records the vote and the highest observed
/// `(tag, value)`; the vote that completes a majority enters Phase 2 with the
/// next counter, broadcasting the observed pair as a write-back. A WriteAck
/// for the current counter in Phase 2 records the vote; the vote that
/// completes a majority finishes the read, reporting the observed value.
/// Stale replies, replies in the wrong phase, and client Writes change
/// nothing.
pub open spec fn reader_step(s: ReaderModel, m: ABDMessageView) -> ReaderStep {
    match m {
        ABDMessageView::Read => {
            if !(s.status is Idle) {
                ReaderStep { post: s, unhandled: Some(m), effect: None }
            } else {
                ReaderStep {
                    post: ReaderModel {
                        status: ReaderStatus::Phase1,
                        read_counter: (s.read_counter + 1) as u64,
                        acks: Seq::empty(),
                        max_tag: 0,
                        value: Seq::empty(),
                        ..s
                    },
                    unhandled: None,
                    effect: Some(
                        ReaderEffectView::BroadcastRead { counter: (s.read_counter + 1) as u64 },
                    ),
                }
            }
        },
        ABDMessageView::ReadAck { server, tag, value, counter } => {
            if !(s.status is Phase1) || counter != s.read_counter {
                ReaderStep { post: s, unhandled: None, effect: None }
            } else {
                let votes = ack_inserted(s.acks, server);
                let top = if tag > s.max_tag {
                    (tag, value)
                } else {
                    (s.max_tag, s.value)
                };
                if votes.len() < s.majority {
                    ReaderStep {
                        post: ReaderModel { acks: votes, max_tag: top.0, value: top.1, ..s },
                        unhandled: None,
                        effect: None,
                    }
                } else {
                    ReaderStep {
                        post: ReaderModel {
                            status: ReaderStatus::Phase2,
                            read_counter: (s.read_counter + 1) as u64,
                            acks: Seq::empty(),
                            max_tag: top.0,
                            value: top.1,
                            ..s
                        },
                        unhandled: None,
                        effect: Some(
                            ReaderEffectView::BroadcastWrite {
                                tag: top.0,
                                value: top.1,
                                counter: (s.read_counter + 1) as u64,
                            },
                        ),
                    }
                }
            }
        },
        ABDMessageView::WriteAck { server, counter } => {
            if !(s.status is Phase2) || counter != s.read_counter {
                ReaderStep { post: s, unhandled: None, effect: None }
            } else {
                let votes = ack_inserted(s.acks, server);
                if votes.len() < s.majority {
                    ReaderStep {
                        post: ReaderModel { acks: votes, ..s },
                        unhandled: None,
                        effect: None,
                    }
                } else {
                    ReaderStep {
                        post: ReaderModel { status: ReaderStatus::Idle, acks: votes, ..s },
                        unhandled: None,
                        effect: Some(ReaderEffectView::Complete { value: s.value }),
                    }
                }
            }
        },
        _ => ReaderStep { post: s, unhandled: None, effect: None },
    }
}

/// Outcome of a whole message turn.
#[verifier::ext_equal]
pub struct ReaderTurn {
    pub post: ReaderModel,
    pub effects: Seq<ReaderEffectView>,
}

/// The backlog drain, exactly as at the Writer: replay deferred requests from
/// the head until one must wait again or the backlog empties.
pub open spec fn reader_drain(s: ReaderModel, effects: Seq<ReaderEffectView>) -> ReaderTurn
    decreases s.backlog.len(),
{
    if s.backlog.len() == 0 {
        ReaderTurn { post: s, effects }
    } else {
        let head = s.backlog[0];
        let rest = ReaderModel { backlog: s.backlog.drop_first(), ..s };
        let step = reader_step(rest, head);
        if step.unhandled is Some {
            ReaderTurn { post: s, effects }
        } else {
            let pushed = match step.effect {
                Some(e) => effects.push(e),
                None => effects,
            };
            reader_drain(step.post, pushed)
        }
    }
}

/// A full message turn: handle the incoming message; if it was deferred,
/// append it to the backlog tail, otherwise drain the backlog.
pub open spec fn reader_turn(s: ReaderModel, m: ABDMessageView) -> ReaderTurn {
    let step = reader_step(s, m);
    if step.unhandled is Some {
        ReaderTurn {
            post: ReaderModel { backlog: s.backlog.push(m), ..s },
            effects: Seq::empty(),
        }
    } else {
        let first = match step.effect {
            Some(e) => seq![e],
            None => Seq::<ReaderEffectView>::empty(),
        };
        reader_drain(step.post, first)
    }
}

/// A single transition preserves well-formedness, never touches the backlog,
/// and hands back at most the incoming message, and only a client Read.
pub proof fn lemma_reader_step_wf(s: ReaderModel, m: ABDMessageView)
    requires
        s.wf(),
    ensures
        reader_step(s, m).post.wf(),
        reader_step(s, m).post.backlog == s.backlog,
        reader_step(s, m).unhandled is Some ==> reader_step(s, m).unhandled == Some(m) && m is Read
            && !(s.status is Idle),
        m is Read && s.status is Idle ==> reader_step(s, m).post.status is Phase1,
        reader_step(s, m).post.read_counter != s.read_counter ==> !(reader_step(
            s,
            m,
        ).post.status is Idle),
{
    match m {
        ABDMessageView::ReadAck { server, counter, .. } => {
            if s.status is Phase1 && counter == s.read_counter {
                lemma_ack_inserted_no_dup(s.acks, server);
            }
        },
        ABDMessageView::WriteAck { server, counter } => {
            if s.status is Phase2 && counter == s.read_counter {
                lemma_ack_inserted_no_dup(s.acks, server);
            }
        },
        _ => {},
    }
}

/// Number of Phase-1 broadcasts among a turn's effects.
pub open spec fn reader_broadcast_count(effects: Seq<ReaderEffectView>) -> nat
    decreases effects.len(),
{
    if effects.len() == 0 {
        0nat
    } else {
        reader_broadcast_count(effects.drop_last()) + (if effects.last() is BroadcastRead {
            1nat
        } else {
            0nat
        })
    }
}

proof fn lemma_reader_broadcast_count_push(effects: Seq<ReaderEffectView>, e: ReaderEffectView)
    ensures
        reader_broadcast_count(effects.push(e)) == reader_broadcast_count(effects) + (
        if e is BroadcastRead {
            1nat
        } else {
            0nat
        }),
{
    assert(effects.push(e).drop_last() =~= effects);
    assert(effects.push(e).last() == e);
}

/// What the backlog drain can broadcast: nothing while a read is in flight —
/// the deferred request waits — and at most one Phase-1 broadcast otherwise,
/// which starts the next read.
proof fn lemma_reader_drain_broadcasts(s: ReaderModel, effects: Seq<ReaderEffectView>)
    requires
        s.wf(),
    ensures
        ({
            let d = reader_drain(s, effects);
            &&& !(s.status is Idle) ==> d.post == s && d.effects == effects
            &&& reader_broadcast_count(d.effects) <= reader_broadcast_count(effects) + 1
            &&& reader_broadcast_count(d.effects) > reader_broadcast_count(effects) ==> d.post.status
                is Phase1
            &&& d.post.status is Idle ==> reader_broadcast_count(d.effects)
                == reader_broadcast_count(effects)
        }),
    decreases s.backlog.len(),
{
    if s.backlog.len() == 0 {
    } else {
        let head = s.backlog[0];
        let rest = ReaderModel { backlog: s.backlog.drop_first(), ..s };
        assert forall|i: int| 0 <= i < rest.backlog.len() implies rest.backlog[i] is Read by {
            assert(rest.backlog[i] == s.backlog[i + 1]);
        }
        assert(rest.wf());
        assert(head is Read);
        let step = reader_step(rest, head);
        lemma_reader_step_wf(rest, head);
        if s.status is Idle {
            let b = step.effect->Some_0;
            lemma_reader_broadcast_count_push(effects, b);
            lemma_reader_drain_broadcasts(step.post, effects.push(b));
        }
    }
}

/// Single operation in flight: one message turn sends at most one Phase-1
/// broadcast, a turn that sends one leaves a read in flight, and a turn that
/// ends idle sent none — a client request never triggers its Phase-1
/// broadcast twice. The status only ever steps along
/// Idle → Phase1 → Phase2 → Idle.
pub proof fn lemma_reader_single_broadcast(s: ReaderModel, m: ABDMessageView)
    requires
        s.wf(),
    ensures
        ({
            let t = reader_turn(s, m);
            &&& reader_broadcast_count(t.effects) <= 1
            &&& reader_broadcast_count(t.effects) == 1 ==> !(t.post.status is Idle)
            &&& t.post.status is Idle ==> reader_broadcast_count(t.effects) == 0
        }),
{
    let step = reader_step(s, m);
    lemma_reader_step_wf(s, m);
    assert(reader_broadcast_count(Seq::<ReaderEffectView>::empty()) == 0);
    if step.unhandled is Some {
    } else {
        let first = match step.effect {
            Some(e) => seq![e],
            None => Seq::<ReaderEffectView>::empty(),
        };
        match step.effect {
            Some(e) => {
                lemma_reader_broadcast_count_push(Seq::<ReaderEffectView>::empty(), e);
                assert(Seq::<ReaderEffectView>::empty().push(e) =~= first);
            },
            None => {},
        }
        lemma_reader_drain_broadcasts(step.post, first);
    }
}

/// The status never jumps: a transition keeps it or moves it one step along
/// Idle → Phase1 → Phase2 → Idle.
pub proof fn lemma_reader_status_transitions(s: ReaderModel, m: ABDMessageView)
    ensures
        s.status is Idle ==> reader_step(s, m).post.status is Idle || reader_step(
            s,
            m,
        ).post.status is Phase1,
        s.status is Phase1 ==> reader_step(s, m).post.status is Phase1 || reader_step(
            s,
            m,
        ).post.status is Phase2,
        s.status is Phase2 ==> reader_step(s, m).post.status is Phase2 || reader_step(
            s,
            m,
        ).post.status is Idle,
{
}

proof fn lemma_reader_drain_backlog_suffix(s: ReaderModel, effects: Seq<ReaderEffectView>)
    ensures
        exists|k: int|
            0 <= k <= s.backlog.len() && reader_drain(s, effects).post.backlog =~= s.backlog.skip(
                k,
            ),
    decreases s.backlog.len(),
{
    if s.backlog.len() == 0 {
        assert(s.backlog.skip(0) =~= s.backlog);
    } else {
        let head = s.backlog[0];
        let rest = ReaderModel { backlog: s.backlog.drop_first(), ..s };
        let step = reader_step(rest, head);
        if step.unhandled is Some {
            assert(s.backlog.skip(0) =~= s.backlog);
        } else {
            let pushed = match step.effect {
                Some(e) => effects.push(e),
                None => effects,
            };
            assert(step.post.backlog == rest.backlog);
            lemma_reader_drain_backlog_suffix(step.post, pushed);
            let k = choose|k: int|
                0 <= k <= step.post.backlog.len() && reader_drain(step.post, pushed).post.backlog
                    =~= step.post.backlog.skip(k);
            assert(step.post.backlog.skip(k) =~= s.backlog.skip(k + 1));
            assert(reader_drain(s, effects).post.backlog =~= s.backlog.skip(k + 1));
        }
    }
}

/// Backlog FIFO: a turn either appends the newly deferred request at the tail
/// or replays deferred requests from the head in arrival order — the backlog
/// afterwards is a suffix of the backlog before. Deferred requests are never
/// reordered, so of two requests deferred in order the first starts first.
pub proof fn lemma_reader_backlog_fifo(s: ReaderModel, m: ABDMessageView)
    requires
        s.wf(),
    ensures
        ({
            let t = reader_turn(s, m);
            t.post.backlog == s.backlog.push(m) || exists|k: int|
                0 <= k <= s.backlog.len() && t.post.backlog =~= s.backlog.skip(k)
        }),
{
    let step = reader_step(s, m);
    lemma_reader_step_wf(s, m);
    if step.unhandled is Some {
    } else {
        let first = match step.effect {
            Some(e) => seq![e],
            None => Seq::<ReaderEffectView>::empty(),
        };
        lemma_reader_drain_backlog_suffix(step.post, first);
    }
}

/// Quorum sufficiency: a transition enters Phase 2 exactly when it is a
/// Phase-1 answer at the current counter whose sender brings the distinct
/// voters up to a majority, and completes the read exactly when it is a
/// Phase-2 acknowledgement at the current counter doing the same.
pub proof fn lemma_reader_quorum_sufficiency(s: ReaderModel, m: ABDMessageView)
    requires
        s.wf(),
    ensures
        (reader_step(s, m).effect matches Some(e) && e is BroadcastWrite) <==> ({
            &&& s.status is Phase1
            &&& m matches ABDMessageView::ReadAck { server, counter, .. } && counter
                == s.read_counter && ack_inserted(s.acks, server).len() >= s.majority
        }),
        (reader_step(s, m).effect matches Some(e) && e is Complete) <==> ({
            &&& s.status is Phase2
            &&& m matches ABDMessageView::WriteAck { server, counter } && counter == s.read_counter
                && ack_inserted(s.acks, server).len() >= s.majority
        }),
{
}

/// Write-back, Phase-2 entry: the pair a Reader broadcasts on entering
/// Phase 2 is the highest `(tag, value)` it observed — at least every tag it
/// was answered with — and the state keeps exactly that pair and counter.
/// Combined with `lemma_write_ack_implies_tag` at the servers and the quorum
/// intersection property, a completed read certifies that a majority of
/// servers stored a tag at least as high as the one returned.
pub proof fn lemma_reader_write_back_entry(s: ReaderModel, m: ABDMessageView)
    ensures
        reader_step(s, m).effect matches Some(e) ==> (e matches
            ReaderEffectView::BroadcastWrite { tag, value, counter } ==> {
            let post = reader_step(s, m).post;
            &&& post.status is Phase2
            &&& tag == post.max_tag
            &&& value == post.value
            &&& counter == post.read_counter
            &&& tag >= s.max_tag
            &&& (m matches ABDMessageView::ReadAck { tag: t, .. } ==> tag >= t)
        }),
{
}

/// Phase-1 observation: no server answer ever lowers the observed tag — only
/// a client Read, starting a fresh observation, resets it — and a Phase-1
/// answer taken into account leaves the observed tag at least as high as the
/// answered one. Hence the pair a Reader writes back carries the highest tag
/// any consulted server reported; with `quorum::lemma_quorum_observes_tag`,
/// a read that consults a majority observes a tag at least as high as that of
/// any write that reached a majority — the freshness half of atomicity.
pub proof fn lemma_reader_observation(s: ReaderModel, m: ABDMessageView)
    ensures
        !(m is Read) ==> reader_step(s, m).post.max_tag >= s.max_tag,
        match m {
            ABDMessageView::ReadAck { tag, counter, .. } => s.status is Phase1 && counter
                == s.read_counter ==> reader_step(s, m).post.max_tag >= tag,
            _ => true,
        },
{
}

/// Write-back, Phase-2 stability: while the Reader waits in Phase 2, the pair
/// it wrote back and its counter never change, and the value a completing
/// turn reports is exactly that pair's value.
pub proof fn lemma_reader_phase2_stable(s: ReaderModel, m: ABDMessageView)
    requires
        s.status is Phase2,
    ensures
        reader_step(s, m).post.status is Phase2 ==> {
            let post = reader_step(s, m).post;
            &&& post.max_tag == s.max_tag
            &&& post.value == s.value
            &&& post.read_counter == s.read_counter
        },
        reader_step(s, m).effect matches Some(e) ==> e == (ReaderEffectView::Complete {
            value: s.value,
        }),
{
}

impl Reader {
    /// State of a freshly started Reader for a deployment of `num_servers`
    /// replicas.
    pub fn pre_start(&self, num_servers: usize) -> (s: ReaderState)
        ensures
            s@ == reader_init(num_servers),
            s@.wf(),
    {
        let s = ReaderState {
            num_servers,
            majority: num_servers / 2 + 1,
            status: ReaderStatus::Idle,
            read_counter: 0,
            server_acks: Vec::new(),
            max_tag: 0,
            value: String::new(),
            backlog: VecDeque::new(),
        };
        proof {
            assert(s@ =~= reader_init(num_servers));
        }
        s
    }

    /// Handles one message without the backlog discipline, exactly as
    /// [`reader_step`] describes. Returns the message handed back unhandled
    /// (to be deferred) and the effect to perform, if any.
    pub fn handle_internal(&self, message: ABDMessage, state: &mut ReaderState) -> (r: (
        Option<ABDMessage>,
        Option<ReaderEffect>,
    ))
        requires
            (message@ is Read && old(state).status is Idle) || (message@ is ReadAck && old(
                state,
            ).status is Phase1) ==> old(state).read_counter < u64::MAX,
        ensures
            final(state)@ == reader_step(old(state)@, message@).post,
            r.0.deep_view() == reader_step(old(state)@, message@).unhandled,
            r.1.deep_view() == reader_step(old(state)@, message@).effect,
    {
        let ghost s0 = state@;
        let ghost m0 = message@;
        match message {
            ABDMessage::Read => {
                if state.status != ReaderStatus::Idle {
                    proof {
                        assert(state@ =~= reader_step(s0, m0).post);
                    }
                    return (Some(ABDMessage::Read), None);
                }
                state.status = ReaderStatus::Phase1;
                state.read_counter = state.read_counter + 1;
                state.server_acks.clear();
                state.max_tag = 0;
                state.value = String::new();
                proof {
                    assert(state@ =~= reader_step(s0, m0).post);
                }
                (None, Some(ReaderEffect::BroadcastRead(state.read_counter)))
            },
            ABDMessage::ReadAck(server, tag, value, counter) => {
                if state.status != ReaderStatus::Phase1 || counter != state.read_counter {
                    proof {
                        assert(state@ =~= reader_step(s0, m0).post);
                    }
                    return (None, None);
                }
                ack_insert(&mut state.server_acks, server);
                if tag > state.max_tag {
                    state.max_tag = tag;
                    state.value = value;
                }
                if state.server_acks.len() < state.majority {
                    proof {
                        assert(state@ =~= reader_step(s0, m0).post);
                    }
                    return (None, None);
                }
                state.status = ReaderStatus::Phase2;
                state.server_acks.clear();
                state.read_counter = state.read_counter + 1;
                let eff = ReaderEffect::BroadcastWrite(
                    state.max_tag,
                    state.value.clone(),
                    state.read_counter,
                );
                proof {
                    assert(state@ =~= reader_step(s0, m0).post);
                    assert(Some(eff).deep_view() =~= reader_step(s0, m0).effect);
                }
                (None, Some(eff))
            },
            ABDMessage::WriteAck(server, counter) => {
                if state.status != ReaderStatus::Phase2 || counter != state.read_counter {
                    proof {
                        assert(state@ =~= reader_step(s0, m0).post);
                    }
                    return (None, None);
                }
                ack_insert(&mut state.server_acks, server);
                if state.server_acks.len() < state.majority {
                    proof {
                        assert(state@ =~= reader_step(s0, m0).post);
                    }
                    return (None, None);
                }
                state.status = ReaderStatus::Idle;
                let eff = ReaderEffect::Complete(state.value.clone());
                proof {
                    assert(state@ =~= reader_step(s0, m0).post);
                    assert(Some(eff).deep_view() =~= reader_step(s0, m0).effect);
                }
                (None, Some(eff))
            },
            _ => {
                proof {
                    assert(state@ =~= reader_step(s0, m0).post);
                }
                (None, None)
            },
        }
    }

    /// Handles one message turn, backlog discipline included, exactly as
    /// [`reader_turn`] describes. Returns the effects to perform, in order.
    pub fn handle(&self, message: ABDMessage, state: &mut ReaderState) -> (effects: Vec<
        ReaderEffect,
    >)
        requires
            old(state)@.wf(),
            old(state).read_counter < u64::MAX,
        ensures
            final(state)@ == reader_turn(old(state)@, message@).post,
            effects.deep_view() == reader_turn(old(state)@, message@).effects,
            final(state)@.wf(),
    {
        let ghost s0 = state@;
        let ghost m0 = message@;
        let ghost target = reader_turn(s0, m0);
        let mut effects: Vec<ReaderEffect> = Vec::new();
        proof {
            lemma_reader_step_wf(s0, m0);
        }
        let (maybe_unhandled, eff) = self.handle_internal(message, state);
        if let Some(m) = maybe_unhandled {
            state.backlog.push_back(m);
            proof {
                assert(state.backlog.deep_view() =~= s0.backlog.push(m0));
                assert(state@ =~= target.post);
                assert(effects.deep_view() =~= target.effects);
            }
            return effects;
        }
        if let Some(e) = eff {
            effects.push(e);
            proof {
                assert(effects.deep_view() =~= Seq::<ReaderEffectView>::empty().push(e@));
            }
        }
        proof {
            match reader_step(s0, m0).effect {
                Some(ev) => {
                    assert(effects.deep_view() =~= seq![ev]);
                },
                None => {
                    assert(effects.deep_view() =~= Seq::<ReaderEffectView>::empty());
                },
            }
            assert(reader_drain(state@, effects.deep_view()) == target);
        }
        loop
            invariant
                state@.wf(),
                state@.status is Idle ==> state.read_counter < u64::MAX,
                reader_drain(state@, effects.deep_view()) == target,
            ensures
                state@.wf(),
                state@ == target.post,
                effects.deep_view() == target.effects,
            decreases state@.backlog.len(),
        {
            let ghost cur = state@;
            let ghost effs = effects.deep_view();
            if state.backlog.len() == 0 {
                proof {
                    assert(reader_drain(cur, effs) == ReaderTurn { post: cur, effects: effs });
                }
                break ;
            }
            let head = state.backlog.pop_front().unwrap();
            proof {
                assert(state.backlog.deep_view() =~= cur.backlog.drop_first());
                assert(head@ == cur.backlog[0]);
                assert forall|i: int| 0 <= i < state@.backlog.len() implies state@.backlog[i]
                    is Read by {
                    assert(state@.backlog[i] == cur.backlog[i + 1]);
                }
                assert(state@.wf());
                lemma_reader_step_wf(state@, head@);
            }
            let ghost rest = state@;
            let (mu, e2) = self.handle_internal(head, state);
            let ghost q = state.backlog@;
            match mu {
                Some(m2) => {
                    proof {
                        let step = reader_step(rest, cur.backlog[0]);
                        assert(step.unhandled == Some(cur.backlog[0]));
                        assert(m2.deep_view() == cur.backlog[0]);
                        assert(Seq::new(q.len(), |i: int| q[i].deep_view()) == rest.backlog);
                    }
                    state.backlog.push_front(m2);
                    proof {
                        assert(state.backlog@ == seq![m2] + q);
                        assert(state.backlog.deep_view().len() == cur.backlog.len());
                        assert forall|i: int|
                            0 <= i < state.backlog.deep_view().len() implies state.backlog.deep_view()[i]
                            == cur.backlog[i] by {
                            if i == 0 {
                                assert(state.backlog@[0] == m2);
                            } else {
                                assert(state.backlog@[i] == q[i - 1]);
                                assert(q[i - 1].deep_view() == rest.backlog[i - 1]);
                                assert(rest.backlog[i - 1] == cur.backlog[i]);
                            }
                        }
                        assert(state.backlog.deep_view() =~= cur.backlog);
                        assert(state@ =~= cur);
                        assert(reader_drain(cur, effs) == ReaderTurn { post: cur, effects: effs });
                    }
                    break ;
                },
                None => {},
            }
            match e2 {
                Some(e3) => {
                    proof {
                        let step = reader_step(rest, cur.backlog[0]);
                        assert(e3.deep_view() == step.effect->Some_0);
                    }
                    effects.push(e3);
                    proof {
                        assert(effects.deep_view() =~= effs.push(e3@));
                    }
                },
                None => {},
            }
            proof {
                let step = reader_step(rest, cur.backlog[0]);
                assert(state@ == step.post);
                assert(reader_drain(state@, effects.deep_view()) == reader_drain(cur, effs));
            }
        }
        effects
    }
}

} // verus!
