//! Quorum arithmetic and acknowledgement bookkeeping shared by the Writer and
//! the Reader, together with the intersection property that makes majority
//! quorums sound.

use vstd::prelude::*;
use vstd::set_lib::{lemma_len_subset, lemma_set_disjoint_lens};

verus! {

/// Majority threshold for a deployment of `n` replica servers: any two
/// subsets of `n` distinct server ids of at least this size intersect.
pub fn majority_of(n: usize) -> (m: usize)
    ensures
        m == n / 2 + 1,
{
    n / 2 + 1
}

/// The acknowledgement set after recording a vote from server `id`:
/// duplicate votes from one server never count twice.
pub open spec fn ack_inserted(acks: Seq<u64>, id: u64) -> Seq<u64> {
    if acks.contains(id) {
        acks
    } else {
        acks.push(id)
    }
}

/// Recording a vote keeps the acknowledgement list free of duplicates.
pub proof fn lemma_ack_inserted_no_dup(acks: Seq<u64>, id: u64)
    requires
        acks.no_duplicates(),
    ensures
        ack_inserted(acks, id).no_duplicates(),
        ack_inserted(acks, id).len() >= acks.len(),
{
    if !acks.contains(id) {
        assert forall|i: int, j: int|
            0 <= i < ack_inserted(acks, id).len() && 0 <= j < ack_inserted(acks, id).len() && i
                != j implies ack_inserted(acks, id)[i] != ack_inserted(acks, id)[j] by {
            if i < acks.len() && j < acks.len() {
            } else if i < acks.len() {
                assert(acks[i] != id);
            } else if j < acks.len() {
                assert(acks[j] != id);
            }
        }
    }
}

/// Records a vote from server `id`, counting each server at most once.
pub fn ack_insert(acks: &mut Vec<u64>, id: u64)
    ensures
        final(acks)@ == ack_inserted(old(acks)@, id),
{
    let mut i: usize = 0;
    while i < acks.len()
        invariant
            i <= acks.len(),
            acks@ == old(acks)@,
            forall|j: int| 0 <= j < i ==> acks@[j] != id,
        decreases acks.len() - i,
    {
        if acks[i] == id {
            assert(acks@.contains(id));
            return ;
        }
        i += 1;
    }
    assert(!acks@.contains(id));
    acks.push(id);
}

/// Any two majority quorums over one server set share a member.
///
/// This is the heart of atomicity: the quorum a Reader consults in Phase 1
/// always intersects the quorum a completed Write (or a completed Phase-2
/// write-back) reached, so the Reader cannot miss the newest tag.
pub proof fn lemma_quorum_intersection(ids: Set<u64>, q1: Set<u64>, q2: Set<u64>)
    requires
        ids.finite(),
        q1.subset_of(ids),
        q2.subset_of(ids),
        q1.len() >= ids.len() / 2 + 1,
        q2.len() >= ids.len() / 2 + 1,
    ensures
        exists|s: u64| q1.contains(s) && q2.contains(s),
{
    lemma_len_subset(q1, ids);
    lemma_len_subset(q2, ids);
    if forall|s: u64| !(q1.contains(s) && q2.contains(s)) {
        assert(q1.disjoint(q2));
        lemma_set_disjoint_lens(q1, q2);
        assert((q1 + q2).len() == q1.len() + q2.len());
        assert((q1 + q2).subset_of(ids));
        lemma_len_subset(q1 + q2, ids);
        assert(false);
    }
}

/// If every member of one majority quorum stores a tag at least `t`, then any
/// other majority quorum contains a server whose stored tag is at least `t`.
///
/// Together with the write-back rule this yields the freshness half of
/// atomicity: once a write (or write-back) at tag `t` has reached a majority,
/// every later Phase-1 quorum observes a tag of at least `t`.
pub proof fn lemma_quorum_observes_tag(
    ids: Set<u64>,
    tag_of: Map<u64, u64>,
    q1: Set<u64>,
    q2: Set<u64>,
    t: u64,
)
    requires
        ids.finite(),
        q1.subset_of(ids),
        q2.subset_of(ids),
        q1.len() >= ids.len() / 2 + 1,
        q2.len() >= ids.len() / 2 + 1,
        forall|s: u64| q1.contains(s) ==> tag_of.contains_key(s) && tag_of[s] >= t,
    ensures
        exists|s: u64| q2.contains(s) && tag_of.contains_key(s) && tag_of[s] >= t,
{
    lemma_quorum_intersection(ids, q1, q2);
    let s = choose|s: u64| q1.contains(s) && q2.contains(s);
    assert(q2.contains(s) && tag_of.contains_key(s) && tag_of[s] >= t);
}

} // verus!
