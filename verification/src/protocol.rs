//! Cross-component safety: what the quorum arithmetic, the server rules and
//! the Reader's Phase-1 fold yield together.
//!
//! The centrepiece: once some write — the Writer's own, or a Reader's Phase-2
//! write-back — has been acknowledged by a majority of servers at tag `t`,
//! every read that completes its Phase 1 against truthful server answers
//! observes a tag of at least `t`. With the Phase-2 write-back this is the
//! atomicity argument of the protocol: a read never returns a value older
//! than the newest majority-replicated write.

use crate::messages::ABDMessageView;
use crate::quorum::{ack_inserted, lemma_ack_inserted_no_dup, lemma_quorum_intersection};
use crate::reader::{reader_step, ReaderModel};
use crate::server::ServerModel;
use vstd::prelude::*;

verus! {

broadcast use vstd::seq_lib::seq_to_set_is_finite;

/// The reader state after handling the messages of `ms`, oldest first, one
/// transition each.
pub open spec fn reader_run(r: ReaderModel, ms: Seq<ABDMessageView>) -> ReaderModel
    decreases ms.len(),
{
    if ms.len() == 0 {
        r
    } else {
        reader_run(reader_step(r, ms[0]).post, ms.drop_first())
    }
}

/// A truthful Phase-1 answer for the read at counter `c`: some server of the
/// deployment reporting exactly the `(tag, value)` it stores in `sv`.
pub open spec fn consistent_ack(
    m: ABDMessageView,
    sv: Map<u64, ServerModel>,
    ids: Set<u64>,
    c: u64,
) -> bool {
    match m {
        ABDMessageView::ReadAck { server, tag, value, counter } => {
            &&& ids.contains(server)
            &&& sv.contains_key(server)
            &&& tag == sv[server].tag
            &&& value == sv[server].value
            &&& counter == c
        },
        _ => false,
    }
}

/// Invariant carried through the Phase-1 fold: while in Phase 1, every
/// recorded voter is a deployment server whose stored tag the observation
/// already covers; once in Phase 2, the observation covers `t`.
pub open spec fn reader_quorum_inv(
    r: ReaderModel,
    sv: Map<u64, ServerModel>,
    ids: Set<u64>,
    c: u64,
    t: u64,
) -> bool {
    &&& r.status is Phase1 || r.status is Phase2
    &&& r.status is Phase1 ==> {
        &&& r.read_counter == c
        &&& r.majority == ids.len() / 2 + 1
        &&& r.acks.no_duplicates()
        &&& forall|j: int|
            0 <= j < r.acks.len() ==> ids.contains(#[trigger] r.acks[j]) && sv.contains_key(
                r.acks[j],
            ) && r.max_tag >= sv[r.acks[j]].tag
    }
    &&& r.status is Phase2 ==> r.max_tag >= t
}

proof fn lemma_reader_fold_observes(
    ids: Set<u64>,
    sv: Map<u64, ServerModel>,
    q1: Set<u64>,
    t: u64,
    c: u64,
    r: ReaderModel,
    ms: Seq<ABDMessageView>,
)
    requires
        ids.finite(),
        q1.subset_of(ids),
        q1.len() >= ids.len() / 2 + 1,
        forall|s: u64| #[trigger] q1.contains(s) ==> sv.contains_key(s) && sv[s].tag >= t,
        forall|i: int| 0 <= i < ms.len() ==> consistent_ack(#[trigger] ms[i], sv, ids, c),
        reader_quorum_inv(r, sv, ids, c, t),
    ensures
        reader_quorum_inv(reader_run(r, ms), sv, ids, c, t),
    decreases ms.len(),
{
    if ms.len() != 0 {
        let m = ms[0];
        assert(consistent_ack(m, sv, ids, c));
        let r1 = reader_step(r, m).post;
        if r.status is Phase1 {
            match m {
                ABDMessageView::ReadAck { server, tag, value, counter } => {
                    let votes = ack_inserted(r.acks, server);
                    lemma_ack_inserted_no_dup(r.acks, server);
                    assert forall|j: int| 0 <= j < votes.len() implies ids.contains(
                        #[trigger] votes[j],
                    ) && sv.contains_key(votes[j]) && r1.max_tag >= sv[votes[j]].tag by {
                        if j < r.acks.len() {
                            assert(votes[j] == r.acks[j]);
                        } else {
                            assert(votes[j] == server);
                        }
                    }
                    if votes.len() >= r.majority {
                        votes.unique_seq_to_set();
                        let vset = votes.to_set();
                        assert(vset.subset_of(ids)) by {
                            assert forall|x: u64| vset.contains(x) implies ids.contains(x) by {
                                let j = choose|j: int| 0 <= j < votes.len() && votes[j] == x;
                                assert(ids.contains(votes[j]));
                            }
                        }
                        lemma_quorum_intersection(ids, q1, vset);
                        let w = choose|s: u64| q1.contains(s) && vset.contains(s);
                        assert(votes.contains(w));
                        let j = choose|j: int| 0 <= j < votes.len() && votes[j] == w;
                        assert(r1.max_tag >= sv[votes[j]].tag);
                        assert(r1.max_tag >= t);
                    }
                },
                _ => {
                    assert(false);
                },
            }
        }
        assert(reader_quorum_inv(r1, sv, ids, c, t));
        assert forall|i: int| 0 <= i < ms.drop_first().len() implies consistent_ack(
            #[trigger] ms.drop_first()[i],
            sv,
            ids,
            c,
        ) by {
            assert(ms.drop_first()[i] == ms[i + 1]);
        }
        lemma_reader_fold_observes(ids, sv, q1, t, c, r1, ms.drop_first());
    }
}

/// A completed Phase 1 cannot miss a majority-replicated write.
///
/// Suppose every server of some majority quorum `q1` stores a tag of at least
/// `t` — the situation after a write or write-back at tag `t` was
/// acknowledged by a majority (`server::lemma_quorum_write_back`), which
/// server tags never fall below again (`server::lemma_server_tag_monotonic`).
/// Then a Reader that has just entered Phase 1 and handles any sequence of
/// truthful Phase-1 answers, in any order and with any duplication, observes
/// a tag of at least `t` by the time it reaches Phase 2 — and what it reaches
/// Phase 2 with is what it writes back and returns
/// (`reader::lemma_reader_write_back_entry`, `reader::lemma_reader_phase2_stable`).
/// Reads therefore never return a value older than the newest
/// majority-replicated write: the order of reads and writes respects real
/// time.
pub proof fn lemma_read_cannot_miss_majority_write(
    ids: Set<u64>,
    sv: Map<u64, ServerModel>,
    q1: Set<u64>,
    t: u64,
    r0: ReaderModel,
    ms: Seq<ABDMessageView>,
)
    requires
        ids.finite(),
        q1.subset_of(ids),
        q1.len() >= ids.len() / 2 + 1,
        forall|s: u64| #[trigger] q1.contains(s) ==> sv.contains_key(s) && sv[s].tag >= t,
        r0.status is Phase1,
        r0.acks == Seq::<u64>::empty(),
        r0.majority == ids.len() / 2 + 1,
        forall|i: int|
            0 <= i < ms.len() ==> consistent_ack(#[trigger] ms[i], sv, ids, r0.read_counter),
    ensures
        reader_run(r0, ms).status is Phase1 || reader_run(r0, ms).status is Phase2,
        reader_run(r0, ms).status is Phase2 ==> reader_run(r0, ms).max_tag >= t,
{
    lemma_reader_fold_observes(ids, sv, q1, t, r0.read_counter, r0, ms);
}

} // verus!
