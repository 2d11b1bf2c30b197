//! Node identities and the allocation of their numeric ids.

use crate::outside::random_in_range;
use std::collections::HashSet;
use vstd::prelude::*;

verus! {

broadcast use vstd::std_specs::hash::group_hash_axioms;

/// Smallest id a node can get.
pub const MIN_ID: i32 = 1;

/// Largest id a node can get.
pub const MAX_ID: i32 = 10_000;

/// How many random candidates are tried before the id space is searched in order.
pub const RANDOM_ATTEMPTS: u32 = 64;

/// One monitored host: a numeric id that no other live node shares, the name
/// it is shown under, and the address its stream is read from.
#[derive(Clone, Copy, Debug, PartialEq, Eq)]
pub struct Node<'a> {
    pub id: i32,
    pub hostname: &'a str,
    pub address: &'a str,
}

/// A node as a plain value.
pub ghost struct NodeView {
    pub id: i32,
    pub hostname: Seq<char>,
    pub address: Seq<char>,
}

impl<'a> View for Node<'a> {
    type V = NodeView;

    open spec fn view(&self) -> NodeView {
        NodeView { id: self.id, hostname: self.hostname@, address: self.address@ }
    }
}

/// An id can be handed out: it lies in the id range and is not in use.
pub open spec fn is_free(used: Set<i32>, id: i32) -> bool {
    MIN_ID <= id <= MAX_ID && !used.contains(id)
}

/// Every id of the range is in use.
pub open spec fn exhausted(used: Set<i32>) -> bool {
    forall|id: i32| MIN_ID <= id <= MAX_ID ==> used.contains(id)
}

/// A set in which every id of the range is in use holds at least as many
/// ids as the range does. So a set with fewer members always has a free id.
pub proof fn lemma_exhausted_set_is_large(used: Set<i32>)
    requires
        used.finite(),
        exhausted(used),
    ensures
        used.len() >= MAX_ID - MIN_ID + 1,
{
    let widen = |id: i32| id as int;
    let numbers = used.map(widen);
    vstd::set_lib::lemma_map_size_bound(used, numbers, widen);
    let range = vstd::set_lib::set_int_range(MIN_ID as int, MAX_ID + 1);
    vstd::set_lib::lemma_int_range(MIN_ID as int, MAX_ID + 1);
    assert(range.subset_of(numbers)) by {
        assert forall|n: int| range.contains(n) implies numbers.contains(n) by {
            let id = n as i32;
            assert(used.contains(id));
            assert(widen(id) == n);
        }
    }
    vstd::set_lib::lemma_len_subset(range, numbers);
}

/// Marks `candidate` as used if it can be handed out, and says whether it did.
pub fn claim_id(ids: &mut HashSet<i32>, candidate: i32) -> (claimed: bool)
    ensures
        claimed == is_free(old(ids)@, candidate),
        claimed ==> final(ids)@ == old(ids)@.insert(candidate),
        !claimed ==> final(ids)@ == old(ids)@,
{
    if candidate < MIN_ID || candidate > MAX_ID {
        return false;
    }
    if ids.contains(&candidate) {
        return false;
    }
    ids.insert(candidate);
    true
}

/// Marks the smallest free id as used and returns it; `None` when no id is free.
pub fn claim_lowest_free(ids: &mut HashSet<i32>) -> (claimed: Option<i32>)
    ensures
        match claimed {
            Some(id) => {
                &&& is_free(old(ids)@, id)
                &&& forall|lower: i32| MIN_ID <= lower < id ==> old(ids)@.contains(lower)
                &&& final(ids)@ == old(ids)@.insert(id)
            },
            None => exhausted(old(ids)@) && final(ids)@ == old(ids)@,
        },
{
    let mut candidate: i32 = MIN_ID;
    while candidate <= MAX_ID
        invariant
            MIN_ID <= candidate <= MAX_ID + 1,
            ids@ == old(ids)@,
            forall|lower: i32| MIN_ID <= lower < candidate ==> old(ids)@.contains(lower),
        decreases MAX_ID + 1 - candidate,
    {
        if claim_id(ids, candidate) {
            return Some(candidate);
        }
        candidate = candidate + 1;
    }
    None
}

/// The ids of `ids` can have been handed out one after another, starting
/// from the ids in `used`: each was free when its turn came.
pub open spec fn handed_out(used: Set<i32>, ids: Seq<i32>) -> bool
    decreases ids.len(),
{
    ids.len() == 0 || (handed_out(used, ids.drop_last()) && is_free(
        used.union(ids.drop_last().to_set()),
        ids.last(),
    ))
}

/// Ids never collide. However many ids are handed out one after another
/// from one set, no two of them are equal, none was in use before, and all
/// lie in the id range.
pub proof fn lemma_handed_out_ids_are_distinct(used: Set<i32>, ids: Seq<i32>)
    requires
        handed_out(used, ids),
    ensures
        ids.no_duplicates(),
        forall|i: int| 0 <= i < ids.len() ==> MIN_ID <= #[trigger] ids[i] <= MAX_ID && !used.contains(ids[i]),
    decreases ids.len(),
{
    if ids.len() > 0 {
        let earlier = ids.drop_last();
        lemma_handed_out_ids_are_distinct(used, earlier);
        assert forall|i: int, j: int| 0 <= i < ids.len() && 0 <= j < ids.len() && i != j implies ids[i]
            != ids[j] by {
            if i < earlier.len() && j < earlier.len() {
                assert(earlier[i] == ids[i] && earlier[j] == ids[j]);
            } else if i < earlier.len() {
                assert(earlier[i] == ids[i]);
                assert(earlier.to_set().contains(earlier[i]));
            } else {
                assert(earlier[j] == ids[j]);
                assert(earlier.to_set().contains(earlier[j]));
            }
        }
        assert forall|i: int| 0 <= i < ids.len() implies MIN_ID <= #[trigger] ids[i] <= MAX_ID
            && !used.contains(ids[i]) by {
            if i < earlier.len() {
                assert(earlier[i] == ids[i]);
            }
        }
    }
}

/// The id range holds `MAX_ID - MIN_ID + 1` ids, and no more than that can
/// be handed out one after another from any set: the allocation that would
/// come next finds every id in use.
pub proof fn lemma_id_range_is_bounded(used: Set<i32>, ids: Seq<i32>)
    requires
        handed_out(used, ids),
    ensures
        ids.len() <= MAX_ID - MIN_ID + 1,
{
    lemma_handed_out_ids_are_distinct(used, ids);
    let numbers = ids.map_values(|id: i32| id as int);
    assert(numbers.no_duplicates()) by {
        assert forall|i: int, j: int|
            0 <= i < numbers.len() && 0 <= j < numbers.len() && i != j implies numbers[i]
            != numbers[j] by {
            assert(ids[i] != ids[j]);
        }
    }
    numbers.unique_seq_to_set();
    let range = vstd::set_lib::set_int_range(MIN_ID as int, MAX_ID + 1);
    vstd::set_lib::lemma_int_range(MIN_ID as int, MAX_ID + 1);
    assert(numbers.to_set().subset_of(range)) by {
        assert forall|n: int| numbers.to_set().contains(n) implies range.contains(n) by {
            let i = choose|i: int| 0 <= i < numbers.len() && numbers[i] == n;
            assert(MIN_ID <= ids[i] <= MAX_ID);
        }
    }
    vstd::set_lib::lemma_len_subset(numbers.to_set(), range);
}

impl<'a> Node<'a> {
    /// Registers a node under a fresh id. Candidates are drawn at random and
    /// redrawn on collision; after `RANDOM_ATTEMPTS` collisions the smallest
    /// free id is taken instead, so the call ends. `None` comes back exactly
    /// when every id of the range is already in use, which takes a set of at
    /// least `MAX_ID - MIN_ID + 1` ids: with fewer in use the call succeeds.
    pub fn new(ids: &mut HashSet<i32>, hostname: &'a str, address: &'a str) -> (node: Option<Self>)
        ensures
            match node {
                Some(n) => {
                    &&& is_free(old(ids)@, n.id)
                    &&& final(ids)@ == old(ids)@.insert(n.id)
                    &&& n.hostname == hostname
                    &&& n.address == address
                },
                None => exhausted(old(ids)@) && final(ids)@ == old(ids)@,
            },
            old(ids)@.finite() && old(ids)@.len() < MAX_ID - MIN_ID + 1 ==> node is Some,
    {
        proof {
            if old(ids)@.finite() && exhausted(old(ids)@) {
                lemma_exhausted_set_is_large(old(ids)@);
            }
        }
        let mut attempt: u32 = 0;
        while attempt < RANDOM_ATTEMPTS
            invariant
                attempt <= RANDOM_ATTEMPTS,
                ids@ == old(ids)@,
            decreases RANDOM_ATTEMPTS - attempt,
        {
            let candidate: i32 = random_in_range(MIN_ID, MAX_ID);
            if claim_id(ids, candidate) {
                return Some(Node { id: candidate, hostname, address });
            }
            attempt = attempt + 1;
        }
        match claim_lowest_free(ids) {
            Some(id) => Some(Node { id, hostname, address }),
            None => None,
        }
    }
}

} // verus!
