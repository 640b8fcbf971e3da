//! The list of eligible candidates, ranked by the stake that backs them.

use crate::config::Settings;
use crate::maths::Balance;
use vstd::laws_cmp::{
    obeys_cmp, obeys_cmp_ord, obeys_cmp_partial_ord, obeys_partial_cmp_spec_properties,
};
use vstd::laws_eq::obeys_concrete_eq;
use vstd::prelude::*;
use vstd::std_specs::cmp::{PartialEqSpec, PartialOrdIs, PartialOrdSpec};

verus! {

/// An eligible candidate and the stake that backs it.
#[derive(Debug, Clone, Copy, PartialEq, Eq)]
pub struct EligibleCandidate<C, S> {
    pub candidate: C,
    pub stake: S,
}

/// Accounts are totally ordered, and equal only to themselves.
pub open spec fn accounts_are_ordered<A: Ord>() -> bool {
    &&& obeys_cmp::<A>()
    &&& obeys_concrete_eq::<A>()
}

/// Whether the account `lhs` comes before `rhs`.
pub open spec fn account_before<A: Ord>(lhs: A, rhs: A) -> bool {
    lhs.is_lt(&rhs)
}

/// Whether `lhs` ranks before `rhs`: it has more stake, or as much and comes first by its account.
pub open spec fn ranks_before<A: Ord>(
    lhs: EligibleCandidate<A, Balance>,
    rhs: EligibleCandidate<A, Balance>,
) -> bool {
    lhs.stake > rhs.stake || (lhs.stake == rhs.stake && account_before(
        lhs.candidate,
        rhs.candidate,
    ))
}

/// The order of accounts is total and strict.
proof fn lemma_account_order<A: Ord>()
    requires
        accounts_are_ordered::<A>(),
    ensures
        forall|x: A, y: A| #[trigger] account_before(x, y) ==> !account_before(y, x) && x != y,
        forall|x: A, y: A|
            x != y ==> #[trigger] account_before(x, y) || account_before(y, x),
        forall|x: A, y: A, z: A|
            #[trigger] account_before(x, y) && #[trigger] account_before(y, z) ==> account_before(
                x,
                z,
            ),
        A::obeys_partial_cmp_spec(),
        A::obeys_eq_spec(),
        forall|x: A, y: A| #[trigger] x.eq_spec(&y) <==> x == y,
{
    reveal(obeys_concrete_eq);
    reveal(obeys_cmp_ord);
    reveal(obeys_cmp_partial_ord);
    reveal(obeys_partial_cmp_spec_properties);
}

/// Accounts that are numbers are ordered, so that they can be kept in a list.
pub proof fn lemma_numbers_are_ordered()
    ensures
        accounts_are_ordered::<u32>(),
        accounts_are_ordered::<u64>(),
        accounts_are_ordered::<u128>(),
{
    broadcast use {vstd::laws_eq::group_laws_eq, vstd::laws_cmp::group_laws_cmp};

}

/// Whether two accounts are the same.
pub(crate) fn same_account<A: Ord>(lhs: &A, rhs: &A) -> (r: bool)
    requires
        accounts_are_ordered::<A>(),
    ensures
        r == (*lhs == *rhs),
{
    proof {
        lemma_account_order::<A>();
    }
    *lhs == *rhs
}

/// Whether `lhs` ranks before `rhs`.
fn outranks<A: Ord>(
    lhs: &EligibleCandidate<A, Balance>,
    rhs: &EligibleCandidate<A, Balance>,
) -> (r: bool)
    requires
        accounts_are_ordered::<A>(),
    ensures
        r == ranks_before(*lhs, *rhs),
{
    proof {
        lemma_account_order::<A>();
    }
    lhs.stake > rhs.stake || (lhs.stake == rhs.stake && lhs.candidate < rhs.candidate)
}

/// Where `candidate` stands in `entries`.
pub open spec fn position_of<A>(
    entries: Seq<EligibleCandidate<A, Balance>>,
    candidate: A,
) -> Option<u32> {
    if exists|i: int| 0 <= i < entries.len() && (#[trigger] entries[i]).candidate == candidate {
        Some(
            (choose|i: int|
                0 <= i < entries.len() && (#[trigger] entries[i]).candidate == candidate) as u32,
        )
    } else {
        None
    }
}

/// The entries but that of `candidate`.
pub open spec fn without<A>(
    entries: Seq<EligibleCandidate<A, Balance>>,
    candidate: A,
) -> Seq<EligibleCandidate<A, Balance>> {
    match position_of(entries, candidate) {
        Some(position) => entries.remove(position as int),
        None => entries,
    }
}

/// How many of `entries` rank before `entry`, which is the place of `entry` among them.
pub open spec fn rank_among<A: Ord>(
    entries: Seq<EligibleCandidate<A, Balance>>,
    entry: EligibleCandidate<A, Balance>,
) -> nat
    decreases entries.len(),
{
    if entries.len() == 0 {
        0
    } else {
        rank_among(entries.drop_last(), entry) + (if ranks_before(entries.last(), entry) {
            1nat
        } else {
            0
        })
    }
}

/// The first `bound` of `entries`.
pub open spec fn top<A>(entries: Seq<EligibleCandidate<A, Balance>>, bound: nat) -> Seq<
    EligibleCandidate<A, Balance>,
> {
    if entries.len() <= bound {
        entries
    } else {
        entries.take(bound as int)
    }
}

/// Entries are in the order of their rank, and no candidate occurs twice.
pub open spec fn ranked<A: Ord>(entries: Seq<EligibleCandidate<A, Balance>>) -> bool {
    &&& forall|i: int, j: int|
        0 <= i < j < entries.len() ==> ranks_before(#[trigger] entries[i], #[trigger] entries[j])
    &&& forall|i: int, j: int|
        0 <= i < j < entries.len() ==> (#[trigger] entries[i]).candidate != (
        #[trigger] entries[j]).candidate
}

/// What the list holds after `entry` was ranked in it, up to `bound` entries.
pub open spec fn with_ranked<A: Ord>(
    entries: Seq<EligibleCandidate<A, Balance>>,
    entry: EligibleCandidate<A, Balance>,
    bound: nat,
) -> Seq<EligibleCandidate<A, Balance>> {
    top(entries.insert(rank_among(entries, entry) as int, entry), bound)
}

/// The position of a candidate before and after an update.
#[derive(Debug, Clone, Copy, PartialEq, Eq)]
pub struct PositionChange {
    pub before: Option<u32>,
    pub after: Option<u32>,
}

/// All eligible candidates, most stake first. The list is bounded: candidates fall out of it when
/// they have less stake than the others that fill it, and are not brought back when one of those
/// leaves. Updating such a candidate brings it back.
///
/// The entries are a plain vector and the bound is a value, so that the contracts speak of lists of
/// any accounts and of any bound.
#[derive(Debug)]
pub struct SortedEligibleCandidates<A> {
    entries: Vec<EligibleCandidate<A, Balance>>,
    bound: u32,
}

impl<A> View for SortedEligibleCandidates<A> {
    type V = Seq<EligibleCandidate<A, Balance>>;

    closed spec fn view(&self) -> Self::V {
        self.entries@
    }
}

impl<A> SortedEligibleCandidates<A> {
    /// How many entries the list can hold.
    pub closed spec fn capacity(&self) -> u32 {
        self.bound
    }

    /// A list without entries that can hold `bound` of them.
    pub fn new(bound: u32) -> (r: Self)
        ensures
            r@ == Seq::<EligibleCandidate<A, Balance>>::empty(),
            r.capacity() == bound,
    {
        SortedEligibleCandidates { entries: Vec::new(), bound }
    }

    /// The entries, most stake first.
    pub fn entries(&self) -> (r: &Vec<EligibleCandidate<A, Balance>>)
        ensures
            r@ == self@,
    {
        &self.entries
    }
}

impl<A: Ord> SortedEligibleCandidates<A> {
    /// The entries are ranked and fit in the list.
    pub open spec fn well_formed(&self) -> bool {
        &&& ranked(self@)
        &&& self@.len() <= self.capacity()
    }

    /// The list that holds `entries`, or `None` where they are not ranked or do not fit.
    pub fn from_entries(entries: Vec<EligibleCandidate<A, Balance>>, bound: u32) -> (r: Option<
        Self,
    >)
        requires
            accounts_are_ordered::<A>(),
        ensures
            match r {
                Some(list) => {
                    &&& list@ == entries@
                    &&& list.capacity() == bound
                    &&& list.well_formed()
                },
                None => !(ranked(entries@) && entries@.len() <= bound),
            },
    {
        if entries.len() > bound as usize {
            return None;
        }
        let mut second: usize = 0;
        while second < entries.len()
            invariant
                accounts_are_ordered::<A>(),
                second <= entries@.len(),
                ranked(entries@.take(second as int)),
            decreases entries@.len() - second,
        {
            let ghost checked = entries@.take(second as int);
            let mut first: usize = 0;
            while first < second
                invariant
                    accounts_are_ordered::<A>(),
                    first <= second < entries@.len(),
                    forall|i: int|
                        0 <= i < first ==> ranks_before(
                            #[trigger] entries@[i],
                            entries@[second as int],
                        ) && entries@[i].candidate != entries@[second as int].candidate,
                decreases second - first,
            {
                if !outranks(&entries[first], &entries[second]) || same_account(
                    &entries[first].candidate,
                    &entries[second].candidate,
                ) {
                    return None;
                }
                first = first + 1;
            }
            second = second + 1;
            let ghost extended = entries@.take(second as int);
            assert(forall|i: int| 0 <= i < checked.len() ==> checked[i] == extended[i]);
        }
        assert(entries@.take(second as int) == entries@);
        Some(SortedEligibleCandidates { entries, bound })
    }

    /// Where `candidate` stands in the list.
    pub fn position(&self, candidate: &A) -> (r: Option<u32>)
        requires
            accounts_are_ordered::<A>(),
            self.well_formed(),
        ensures
            r == position_of(self@, *candidate),
    {
        let mut index: u32 = 0;
        while (index as usize) < self.entries.len()
            invariant
                accounts_are_ordered::<A>(),
                self.well_formed(),
                index <= self@.len(),
                forall|i: int| 0 <= i < index ==> (#[trigger] self@[i]).candidate != *candidate,
            decreases self@.len() - index,
        {
            if same_account(&self.entries[index as usize].candidate, candidate) {
                proof {
                    lemma_position(self@, index as int);
                }
                return Some(index);
            }
            index = index + 1;
        }
        None
    }

    /// The rank that `entry` has among the entries, by binary search.
    fn rank(&self, entry: &EligibleCandidate<A, Balance>) -> (r: u32)
        requires
            accounts_are_ordered::<A>(),
            self.well_formed(),
        ensures
            r == rank_among(self@, *entry),
            r <= self@.len(),
    {
        let mut low: usize = 0;
        let mut high: usize = self.entries.len();
        while low < high
            invariant
                accounts_are_ordered::<A>(),
                self.well_formed(),
                low <= high <= self@.len(),
                forall|i: int| 0 <= i < low ==> ranks_before(#[trigger] self@[i], *entry),
                forall|i: int|
                    high <= i < self@.len() ==> !ranks_before(#[trigger] self@[i], *entry),
            decreases high - low,
        {
            let middle: usize = low + (high - low) / 2;
            proof {
                lemma_account_order::<A>();
            }
            if outranks(&self.entries[middle], entry) {
                low = middle + 1;
            } else {
                high = middle;
            }
        }
        proof {
            lemma_rank(self@, *entry, low as int);
        }
        low as u32
    }

    /// Takes `candidate` out of the list, wherever it stands, and ranks it anew by `stake` if it
    /// is eligible. What no longer fits falls off the end.
    pub fn update(&mut self, candidate: A, stake: Balance, eligible: bool) -> (r: PositionChange)
        requires
            accounts_are_ordered::<A>(),
            old(self).well_formed(),
        ensures
            final(self).well_formed(),
            final(self).capacity() == old(self).capacity(),
            final(self)@ == updated(old(self)@, candidate, stake, eligible, old(self).capacity()),
            r.before == position_of(old(self)@, candidate),
            r.after == position_of(final(self)@, candidate),
    {
        let before = self.position(&candidate);
        if let Some(position) = before {
            proof {
                lemma_found(self@, candidate);
            }
            self.entries.remove(position as usize);
        }
        proof {
            lemma_without(old(self)@, candidate);
        }
        if !eligible {
            return PositionChange { before, after: None };
        }
        let entry = EligibleCandidate { candidate, stake };
        let rank: u32 = self.rank(&entry);
        let ghost rest = self@;
        proof {
            lemma_with_ranked(rest, entry, self.bound as nat);
        }
        if rank >= self.bound {
            assert(rest == with_ranked(rest, entry, self.bound as nat));
            return PositionChange { before, after: None };
        }
        if self.entries.len() == self.bound as usize {
            self.entries.pop();
        }
        self.entries.insert(rank as usize, entry);
        assert(self@ == with_ranked(rest, entry, self.bound as nat));
        proof {
            lemma_position(self@, rank as int);
        }
        PositionChange { before, after: Some(rank) }
    }
}

/// What decides the position of a candidate.
#[derive(Debug, Clone, Copy, PartialEq, Eq)]
pub struct CandidateState<A> {
    pub candidate: A,
    /// The stake that backs the candidate.
    pub stake: Balance,
    /// The stake that the candidate delegates towards itself.
    pub self_delegation: Balance,
    /// Whether the additional filter of the runtime lets the candidate through.
    pub passes_filter: bool,
}

/// What the list holds after each of `states` was applied in turn.
pub open spec fn updated_all<A: Ord>(
    entries: Seq<EligibleCandidate<A, Balance>>,
    settings: Settings,
    states: Seq<CandidateState<A>>,
    capacity: u32,
) -> Seq<EligibleCandidate<A, Balance>>
    decreases states.len(),
{
    if states.len() == 0 {
        entries
    } else {
        let state = states.last();
        updated(
            updated_all(entries, settings, states.drop_last(), capacity),
            state.candidate,
            state.stake,
            settings.eligible(state.self_delegation, state.passes_filter),
            capacity,
        )
    }
}

impl<A: Ord> SortedEligibleCandidates<A> {
    /// Updates the position of each candidate of `states` in turn.
    pub fn update_all(&mut self, settings: &Settings, states: Vec<CandidateState<A>>) -> (r: Vec<
        PositionChange,
    >)
        requires
            accounts_are_ordered::<A>(),
            old(self).well_formed(),
        ensures
            final(self).well_formed(),
            final(self).capacity() == old(self).capacity(),
            final(self)@ == updated_all(old(self)@, *settings, states@, old(self).capacity()),
            r@.len() == states@.len(),
            forall|i: int|
                0 <= i < states@.len() ==> (#[trigger] r@[i]).before == position_of(
                    updated_all(old(self)@, *settings, states@.take(i), old(self).capacity()),
                    states@[i].candidate,
                ),
            forall|i: int|
                0 <= i < states@.len() ==> (#[trigger] r@[i]).after == position_of(
                    updated_all(old(self)@, *settings, states@.take(i + 1), old(self).capacity()),
                    states@[i].candidate,
                ),
    {
        let ghost all = states@;
        let mut changes: Vec<PositionChange> = Vec::new();
        for state in iter: states
            invariant
                accounts_are_ordered::<A>(),
                iter.seq() == all,
                self.well_formed(),
                self.capacity() == old(self).capacity(),
                self@ == updated_all(
                    old(self)@,
                    *settings,
                    all.take(iter.index()),
                    old(self).capacity(),
                ),
                changes@.len() == iter.index(),
                forall|i: int|
                    0 <= i < iter.index() ==> (#[trigger] changes@[i]).before == position_of(
                        updated_all(old(self)@, *settings, all.take(i), old(self).capacity()),
                        all[i].candidate,
                    ),
                forall|i: int|
                    0 <= i < iter.index() ==> (#[trigger] changes@[i]).after == position_of(
                        updated_all(old(self)@, *settings, all.take(i + 1), old(self).capacity()),
                        all[i].candidate,
                    ),
        {
            let ghost index = iter.index();
            assert(all.take(index + 1).drop_last() == all.take(index));
            assert(all.take(index + 1).last() == state);
            let eligible: bool = settings.is_eligible(state.self_delegation, state.passes_filter);
            let change = self.update(state.candidate, state.stake, eligible);
            changes.push(change);
        }
        assert(all.take(all.len() as int) == all);
        changes
    }
}

/// What the list holds after an update.
pub open spec fn updated<A: Ord>(
    entries: Seq<EligibleCandidate<A, Balance>>,
    candidate: A,
    stake: Balance,
    eligible: bool,
    capacity: u32,
) -> Seq<EligibleCandidate<A, Balance>> {
    let rest = without(entries, candidate);
    if eligible {
        with_ranked(rest, EligibleCandidate { candidate, stake }, capacity as nat)
    } else {
        rest
    }
}

/// A candidate that has a position stands there.
proof fn lemma_found<A: Ord>(entries: Seq<EligibleCandidate<A, Balance>>, candidate: A)
    requires
        ranked(entries),
        entries.len() <= u32::MAX,
    ensures
        position_of(entries, candidate) matches Some(position) ==> position < entries.len()
            && entries[position as int].candidate == candidate,
{
    if exists|i: int| 0 <= i < entries.len() && (#[trigger] entries[i]).candidate == candidate {
        let index = choose|i: int|
            0 <= i < entries.len() && (#[trigger] entries[i]).candidate == candidate;
        lemma_position(entries, index);
    }
}

/// Taking a candidate out leaves the others ranked.
proof fn lemma_without<A: Ord>(entries: Seq<EligibleCandidate<A, Balance>>, candidate: A)
    requires
        ranked(entries),
        entries.len() <= u32::MAX,
    ensures
        ranked(without(entries, candidate)),
        without(entries, candidate).len() <= entries.len(),
        position_of(without(entries, candidate), candidate) is None,
        forall|i: int|
            0 <= i < without(entries, candidate).len() ==> (#[trigger] without(
                entries,
                candidate,
            )[i]).candidate != candidate,
{
    lemma_found(entries, candidate);
    if let Some(position) = position_of(entries, candidate) {
        let rest = without(entries, candidate);
        assert forall|i: int| 0 <= i < rest.len() implies #[trigger] rest[i] == entries[if i
            < position {
            i
        } else {
            i + 1
        }] by {}
    }
}

/// In a ranked list, the rank of an entry parts what ranks before it from what does not.
proof fn lemma_rank_parts<A: Ord>(
    entries: Seq<EligibleCandidate<A, Balance>>,
    entry: EligibleCandidate<A, Balance>,
)
    requires
        accounts_are_ordered::<A>(),
        ranked(entries),
    ensures
        rank_among(entries, entry) <= entries.len(),
        forall|i: int|
            0 <= i < rank_among(entries, entry) ==> ranks_before(#[trigger] entries[i], entry),
        forall|i: int|
            rank_among(entries, entry) <= i < entries.len() ==> !ranks_before(
                #[trigger] entries[i],
                entry,
            ),
    decreases entries.len(),
{
    lemma_account_order::<A>();
    if entries.len() > 0 {
        let rest = entries.drop_last();
        assert(forall|i: int| 0 <= i < rest.len() ==> #[trigger] rest[i] == entries[i]);
        lemma_rank_parts(rest, entry);
        if ranks_before(entries.last(), entry) {
            assert forall|i: int| 0 <= i < entries.len() implies ranks_before(
                #[trigger] entries[i],
                entry,
            ) by {}
            lemma_rank(entries, entry, entries.len() as int);
        } else {
            assert forall|i: int|
                rank_among(entries, entry) <= i < entries.len() implies !ranks_before(
                #[trigger] entries[i],
                entry,
            ) by {
                if i < rest.len() {
                    assert(rest[i] == entries[i]);
                }
            }
            assert forall|i: int| 0 <= i < rank_among(entries, entry) implies ranks_before(
                #[trigger] entries[i],
                entry,
            ) by {
                assert(rest[i] == entries[i]);
            }
        }
    }
}

/// Ranking an entry of a new candidate keeps the list ranked, and the candidate stands at its
/// rank unless that is beyond the bound.
proof fn lemma_with_ranked<A: Ord>(
    entries: Seq<EligibleCandidate<A, Balance>>,
    entry: EligibleCandidate<A, Balance>,
    bound: nat,
)
    requires
        accounts_are_ordered::<A>(),
        ranked(entries),
        entries.len() <= bound <= u32::MAX,
        forall|i: int| 0 <= i < entries.len() ==> (#[trigger] entries[i]).candidate
            != entry.candidate,
    ensures
        ranked(with_ranked(entries, entry, bound)),
        with_ranked(entries, entry, bound).len() <= bound,
        rank_among(entries, entry) <= entries.len(),
{
    lemma_inserted_is_ranked(entries, entry);
    lemma_rank_parts(entries, entry);
}

/// Inserting the entry of a new candidate at its rank keeps a list ranked.
proof fn lemma_inserted_is_ranked<A: Ord>(
    entries: Seq<EligibleCandidate<A, Balance>>,
    entry: EligibleCandidate<A, Balance>,
)
    requires
        accounts_are_ordered::<A>(),
        ranked(entries),
        forall|i: int|
            0 <= i < entries.len() ==> (#[trigger] entries[i]).candidate != entry.candidate,
    ensures
        ranked(entries.insert(rank_among(entries, entry) as int, entry)),
{
    lemma_account_order::<A>();
    lemma_rank_parts(entries, entry);
    let rank = rank_among(entries, entry) as int;
    let all = entries.insert(rank, entry);
    assert forall|i: int, j: int| 0 <= i < j < all.len() implies ranks_before(
        #[trigger] all[i],
        #[trigger] all[j],
    ) && all[i].candidate != all[j].candidate by {
        if i < rank {
            assert(all[i] == entries[i]);
        } else if i > rank {
            assert(all[i] == entries[i - 1]);
        }
        if j < rank {
            assert(all[j] == entries[j]);
        } else if j > rank {
            assert(all[j] == entries[j - 1]);
        }
    }
}

/// The place of an entry is where its candidate stands.
proof fn lemma_position<A: Ord>(entries: Seq<EligibleCandidate<A, Balance>>, index: int)
    requires
        ranked(entries),
        0 <= index < entries.len() <= u32::MAX,
    ensures
        position_of(entries, entries[index].candidate) == Some(index as u32),
{
    let candidate = entries[index].candidate;
    let found = choose|i: int|
        0 <= i < entries.len() && (#[trigger] entries[i]).candidate == candidate;
    assert(0 <= found < entries.len() && entries[found].candidate == candidate);
    assert(found == index);
}

/// The rank of an entry is the place that parts what ranks before it from what does not.
proof fn lemma_rank<A: Ord>(
    entries: Seq<EligibleCandidate<A, Balance>>,
    entry: EligibleCandidate<A, Balance>,
    place: int,
)
    requires
        0 <= place <= entries.len(),
        forall|i: int| 0 <= i < place ==> ranks_before(#[trigger] entries[i], entry),
        forall|i: int| place <= i < entries.len() ==> !ranks_before(#[trigger] entries[i], entry),
    ensures
        rank_among(entries, entry) == place,
    decreases entries.len(),
{
    if entries.len() > 0 {
        let rest = entries.drop_last();
        assert(forall|i: int| 0 <= i < rest.len() ==> rest[i] == entries[i]);
        if place == entries.len() {
            lemma_rank(rest, entry, place - 1);
        } else {
            lemma_rank(rest, entry, place);
        }
    }
}

/// The list is sorted by stake, so that its first entries are those with the most.
pub proof fn law_most_staked_come_first<A: Ord>(
    entries: Seq<EligibleCandidate<A, Balance>>,
    first: int,
    second: int,
)
    requires
        ranked(entries),
        0 <= first <= second < entries.len(),
    ensures
        entries[first].stake >= entries[second].stake,
{
}

/// An update brings nobody else back: whoever is in the list after it was there before, with the
/// same stake, or is the candidate that was updated.
pub proof fn law_update_brings_back_nobody_else<A: Ord>(
    entries: Seq<EligibleCandidate<A, Balance>>,
    candidate: A,
    stake: Balance,
    eligible: bool,
    capacity: u32,
    present: EligibleCandidate<A, Balance>,
)
    requires
        accounts_are_ordered::<A>(),
        ranked(entries),
        entries.len() <= capacity,
        updated(entries, candidate, stake, eligible, capacity).contains(present),
    ensures
        present == (EligibleCandidate { candidate, stake }) || (entries.contains(present)
            && present.candidate != candidate),
{
    let entry = EligibleCandidate { candidate, stake };
    let rest = without(entries, candidate);
    let after = updated(entries, candidate, stake, eligible, capacity);
    lemma_without(entries, candidate);
    lemma_found(entries, candidate);
    let index = after.index_of(present);
    if eligible {
        lemma_rank_parts(rest, entry);
        let rank = rank_among(rest, entry);
        assert(after[index] == rest.insert(rank as int, entry)[index]);
        if index != rank {
            let place = if index < rank {
                index
            } else {
                index - 1
            };
            assert(rest[place] == present);
            lemma_rest_is_present(entries, candidate, place);
        }
    } else {
        lemma_rest_is_present(entries, candidate, index);
    }
}

/// What is left after a candidate was taken out was there before.
proof fn lemma_rest_is_present<A: Ord>(
    entries: Seq<EligibleCandidate<A, Balance>>,
    candidate: A,
    index: int,
)
    requires
        ranked(entries),
        entries.len() <= u32::MAX,
        0 <= index < without(entries, candidate).len(),
    ensures
        entries.contains(without(entries, candidate)[index]),
{
    lemma_found(entries, candidate);
    if let Some(position) = position_of(entries, candidate) {
        if index < position {
            assert(entries[index] == without(entries, candidate)[index]);
        } else {
            assert(entries[index + 1] == without(entries, candidate)[index]);
        }
    }
}

/// A candidate falls out of the list only when the list is full of others that rank before it,
/// none of which has less stake.
pub proof fn law_only_the_least_staked_fall_out<A: Ord>(
    entries: Seq<EligibleCandidate<A, Balance>>,
    candidate: A,
    stake: Balance,
    eligible: bool,
    capacity: u32,
    dropped: EligibleCandidate<A, Balance>,
)
    requires
        accounts_are_ordered::<A>(),
        ranked(entries),
        entries.len() <= capacity,
        entries.contains(dropped),
        dropped.candidate != candidate,
        !updated(entries, candidate, stake, eligible, capacity).contains(dropped),
    ensures
        eligible,
        updated(entries, candidate, stake, eligible, capacity).len() == capacity,
        forall|i: int|
            0 <= i < capacity ==> (#[trigger] updated(
                entries,
                candidate,
                stake,
                eligible,
                capacity,
            )[i]).stake >= dropped.stake,
        forall|i: int|
            0 <= i < capacity ==> ranks_before(
                #[trigger] updated(entries, candidate, stake, eligible, capacity)[i],
                dropped,
            ),
{
    let entry = EligibleCandidate { candidate, stake };
    let rest = without(entries, candidate);
    let after = updated(entries, candidate, stake, eligible, capacity);
    lemma_without(entries, candidate);
    lemma_found(entries, candidate);
    let origin = entries.index_of(dropped);
    let place = match position_of(entries, candidate) {
        Some(position) => if origin < position {
            origin
        } else {
            origin - 1
        },
        None => origin,
    };
    assert(rest[place] == dropped);
    if !eligible {
        assert(after[place] == dropped);
    }
    lemma_rank_parts(rest, entry);
    let rank = rank_among(rest, entry) as int;
    let all = rest.insert(rank, entry);
    let all_place = if place < rank {
        place
    } else {
        place + 1
    };
    assert(all[all_place] == dropped);
    lemma_account_order::<A>();
    lemma_with_ranked(rest, entry, capacity as nat);
    lemma_inserted_is_ranked(rest, entry);
    if all_place < after.len() {
        assert(after[all_place] == dropped);
    }
    assert forall|i: int| 0 <= i < capacity implies ranks_before(#[trigger] after[i], dropped) by {
        assert(after[i] == all[i]);
    }
    assert forall|i: int| 0 <= i < capacity implies (#[trigger] after[i]).stake
        >= dropped.stake by {
        assert(ranks_before(after[i], dropped));
    }
}

/// An eligible candidate is in the list after its update, with its stake, if and only if there is
/// room at its rank: that is always so while the list is not full of the others.
pub proof fn law_update_ranks_an_eligible_candidate<A: Ord>(
    entries: Seq<EligibleCandidate<A, Balance>>,
    candidate: A,
    stake: Balance,
    capacity: u32,
)
    requires
        accounts_are_ordered::<A>(),
        ranked(entries),
        entries.len() <= capacity,
    ensures
        ({
            let entry = EligibleCandidate { candidate, stake };
            let rest = without(entries, candidate);
            let after = updated(entries, candidate, stake, true, capacity);
            &&& after.contains(entry) <==> rank_among(rest, entry) < capacity
            &&& rest.len() < capacity ==> after.contains(entry)
        }),
{
    let entry = EligibleCandidate { candidate, stake };
    let rest = without(entries, candidate);
    let after = updated(entries, candidate, stake, true, capacity);
    lemma_without(entries, candidate);
    lemma_rank_parts(rest, entry);
    let rank = rank_among(rest, entry) as int;
    let all = rest.insert(rank, entry);
    if rank < capacity {
        assert(after[rank] == all[rank]);
        assert(all[rank] == entry);
    } else {
        assert(after == rest);
        if after.contains(entry) {
            assert(rest[rest.index_of(entry)].candidate == candidate);
        }
    }
}

/// Updating any candidates, one after the other, keeps the list sorted by stake, without a
/// candidate twice, and within its bound.
pub proof fn law_updates_keep_the_list_ranked_and_bounded<A: Ord>(
    entries: Seq<EligibleCandidate<A, Balance>>,
    settings: Settings,
    states: Seq<CandidateState<A>>,
    capacity: u32,
)
    requires
        accounts_are_ordered::<A>(),
        ranked(entries),
        entries.len() <= capacity,
    ensures
        ranked(updated_all(entries, settings, states, capacity)),
        updated_all(entries, settings, states, capacity).len() <= capacity,
    decreases states.len(),
{
    if states.len() > 0 {
        let state = states.last();
        let before = updated_all(entries, settings, states.drop_last(), capacity);
        law_updates_keep_the_list_ranked_and_bounded(
            entries,
            settings,
            states.drop_last(),
            capacity,
        );
        lemma_without(before, state.candidate);
        let entry = EligibleCandidate { candidate: state.candidate, stake: state.stake };
        lemma_with_ranked(without(before, state.candidate), entry, capacity as nat);
    }
}

/// Updating candidates changes nobody else: whoever is in the list afterwards and was not updated
/// was there before, with the same stake.
pub proof fn law_updates_bring_back_nobody_else<A: Ord>(
    entries: Seq<EligibleCandidate<A, Balance>>,
    settings: Settings,
    states: Seq<CandidateState<A>>,
    capacity: u32,
    present: EligibleCandidate<A, Balance>,
)
    requires
        accounts_are_ordered::<A>(),
        ranked(entries),
        entries.len() <= capacity,
        updated_all(entries, settings, states, capacity).contains(present),
        forall|i: int|
            0 <= i < states.len() ==> (#[trigger] states[i]).candidate != present.candidate,
    ensures
        entries.contains(present),
    decreases states.len(),
{
    if states.len() > 0 {
        let rest = states.drop_last();
        let state = states.last();
        assert(forall|i: int| 0 <= i < rest.len() ==> #[trigger] rest[i] == states[i]);
        assert(state == states[states.len() - 1]);
        law_updates_keep_the_list_ranked_and_bounded(entries, settings, rest, capacity);
        law_update_brings_back_nobody_else(
            updated_all(entries, settings, rest, capacity),
            state.candidate,
            state.stake,
            settings.eligible(state.self_delegation, state.passes_filter),
            capacity,
            present,
        );
        law_updates_bring_back_nobody_else(entries, settings, rest, capacity, present);
    }
}

/// A candidate that is not eligible is not in the list after its update.
pub proof fn law_update_removes_an_ineligible_candidate<A: Ord>(
    entries: Seq<EligibleCandidate<A, Balance>>,
    candidate: A,
    stake: Balance,
    capacity: u32,
)
    requires
        ranked(entries),
        entries.len() <= capacity,
    ensures
        position_of(updated(entries, candidate, stake, false, capacity), candidate) is None,
{
    lemma_without(entries, candidate);
}

/// A list is ranked exactly where each entry has more stake than every later one, or as much and an
/// account that comes before, and no two entries are of one candidate.
pub proof fn law_ranked_lists_are_sorted_by_stake<A: Ord>(
    entries: Seq<EligibleCandidate<A, Balance>>,
)
    ensures
        ranked(entries) <==> (forall|i: int, j: int|
            0 <= i < j < entries.len() ==> ((#[trigger] entries[i]).stake > (
            #[trigger] entries[j]).stake || (entries[i].stake == entries[j].stake
                && entries[i].candidate.is_lt(&entries[j].candidate))) && entries[i].candidate
                != entries[j].candidate),
{
    if forall|i: int, j: int|
        0 <= i < j < entries.len() ==> ((#[trigger] entries[i]).stake > (
        #[trigger] entries[j]).stake || (entries[i].stake == entries[j].stake
            && entries[i].candidate.is_lt(&entries[j].candidate))) && entries[i].candidate
            != entries[j].candidate {
        assert forall|i: int, j: int| 0 <= i < j < entries.len() implies ranks_before(
            #[trigger] entries[i],
            #[trigger] entries[j],
        ) by {}
        assert forall|i: int, j: int| 0 <= i < j < entries.len() implies (
        #[trigger] entries[i]).candidate != (#[trigger] entries[j]).candidate by {}
    }
    if ranked(entries) {
        assert forall|i: int, j: int| 0 <= i < j < entries.len() implies ((
        #[trigger] entries[i]).stake > (#[trigger] entries[j]).stake || (entries[i].stake
            == entries[j].stake && entries[i].candidate.is_lt(&entries[j].candidate)))
            && entries[i].candidate != entries[j].candidate by {
            assert(ranks_before(entries[i], entries[j]));
        }
    }
}

/// A list holds what it is told to hold: it is sorted by stake, without a candidate twice, and no
/// longer than its capacity.
pub proof fn law_lists_are_sorted_and_bounded<A: Ord>(list: SortedEligibleCandidates<A>)
    requires
        list.well_formed(),
    ensures
        list@.len() <= list.capacity(),
        forall|i: int, j: int|
            0 <= i < j < list@.len() ==> ((#[trigger] list@[i]).stake > (#[trigger] list@[j]).stake
                || (list@[i].stake == list@[j].stake && list@[i].candidate.is_lt(
                &list@[j].candidate,
            ))) && list@[i].candidate != list@[j].candidate,
{
    law_ranked_lists_are_sorted_by_stake(list@);
}

/// The position that is told of a candidate is where its entry stands, and none is told exactly
/// where it has no entry.
pub proof fn law_position_is_where_the_entry_stands<A: Ord>(
    entries: Seq<EligibleCandidate<A, Balance>>,
    candidate: A,
)
    requires
        forall|i: int, j: int|
            0 <= i < j < entries.len() ==> ((#[trigger] entries[i]).stake > (
            #[trigger] entries[j]).stake || (entries[i].stake == entries[j].stake
                && entries[i].candidate.is_lt(&entries[j].candidate))) && entries[i].candidate
                != entries[j].candidate,
        entries.len() <= u32::MAX,
    ensures
        match position_of(entries, candidate) {
            Some(position) => position < entries.len() && entries[position as int].candidate
                == candidate,
            None => forall|i: int|
                0 <= i < entries.len() ==> (#[trigger] entries[i]).candidate != candidate,
        },
{
    law_ranked_lists_are_sorted_by_stake(entries);
    lemma_found(entries, candidate);
}

/// What an update does to a list, in full. Afterwards the list is sorted by stake, without a
/// candidate twice, and within its capacity. The candidate is in it only if it is eligible, and
/// then with its new stake, whatever its entry was before. If it is eligible and not in it, the
/// list is full of entries that each come before it. Everybody else in the list was there before,
/// with the same stake, and whoever else was there before and no longer is fell out because the
/// list is full of entries that each come before.
pub proof fn law_update_in_full<A: Ord>(
    entries: Seq<EligibleCandidate<A, Balance>>,
    candidate: A,
    stake: Balance,
    eligible: bool,
    capacity: u32,
    after: Seq<EligibleCandidate<A, Balance>>,
)
    requires
        accounts_are_ordered::<A>(),
        forall|i: int, j: int|
            0 <= i < j < entries.len() ==> ((#[trigger] entries[i]).stake > (
            #[trigger] entries[j]).stake || (entries[i].stake == entries[j].stake
                && entries[i].candidate.is_lt(&entries[j].candidate))) && entries[i].candidate
                != entries[j].candidate,
        entries.len() <= capacity,
        after == updated(entries, candidate, stake, eligible, capacity),
    ensures
        after.len() <= capacity,
        forall|i: int, j: int|
            0 <= i < j < after.len() ==> ((#[trigger] after[i]).stake > (#[trigger] after[j]).stake
                || (after[i].stake == after[j].stake && after[i].candidate.is_lt(
                &after[j].candidate,
            ))) && after[i].candidate != after[j].candidate,
        forall|i: int|
            0 <= i < after.len() && (#[trigger] after[i]).candidate == candidate ==> eligible
                && after[i].stake == stake,
        eligible && !after.contains(EligibleCandidate { candidate, stake }) ==> after.len()
            == capacity && (forall|i: int|
            0 <= i < after.len() ==> (#[trigger] after[i]).stake > stake || (after[i].stake == stake
                && after[i].candidate.is_lt(&candidate))),
        forall|i: int|
            0 <= i < after.len() && (#[trigger] after[i]).candidate != candidate
                ==> entries.contains(after[i]),
        forall|k: int|
            0 <= k < entries.len() && (#[trigger] entries[k]).candidate != candidate
                && !after.contains(entries[k]) ==> after.len() == capacity && (forall|i: int|
                0 <= i < after.len() ==> (#[trigger] after[i]).stake > entries[k].stake || (
                after[i].stake == entries[k].stake && after[i].candidate.is_lt(
                    &entries[k].candidate,
                ))),
{
    let entry = EligibleCandidate { candidate, stake };
    let rest = without(entries, candidate);
    law_ranked_lists_are_sorted_by_stake(entries);
    lemma_without(entries, candidate);
    lemma_with_ranked(rest, entry, capacity as nat);
    law_ranked_lists_are_sorted_by_stake(after);
    assert forall|i: int| 0 <= i < after.len() implies (#[trigger] after[i]).candidate != candidate
        && entries.contains(after[i]) || eligible && after[i] == entry by {
        assert(after.contains(after[i]));
        law_update_brings_back_nobody_else(
            entries,
            candidate,
            stake,
            eligible,
            capacity,
            after[i],
        );
        if !eligible {
            assert(rest[i] == after[i]);
        }
    }
    if eligible && !after.contains(entry) {
        law_update_ranks_an_eligible_candidate(entries, candidate, stake, capacity);
        lemma_rank_parts(rest, entry);
        assert(after == rest);
        assert forall|i: int| 0 <= i < after.len() implies (#[trigger] after[i]).stake > stake || (
        after[i].stake == stake && after[i].candidate.is_lt(&candidate)) by {
            assert(ranks_before(rest[i], entry));
        }
    }
    assert forall|k: int|
        0 <= k < entries.len() && (#[trigger] entries[k]).candidate != candidate && !after.contains(
            entries[k],
        ) implies after.len() == capacity && (forall|i: int|
        0 <= i < after.len() ==> (#[trigger] after[i]).stake > entries[k].stake || (after[i].stake
            == entries[k].stake && after[i].candidate.is_lt(&entries[k].candidate))) by {
        assert(entries.contains(entries[k]));
        law_only_the_least_staked_fall_out(
            entries,
            candidate,
            stake,
            eligible,
            capacity,
            entries[k],
        );
        assert forall|i: int| 0 <= i < after.len() implies (#[trigger] after[i]).stake
            > entries[k].stake || (after[i].stake == entries[k].stake && after[i].candidate.is_lt(
            &entries[k].candidate,
        )) by {
            assert(ranks_before(after[i], entries[k]));
        }
    }
}

/// While there is room for one more, an update drops nobody else, lets an eligible candidate in,
/// and makes the list longer by at most that one.
pub proof fn law_nobody_falls_out_while_there_is_room<A: Ord>(
    entries: Seq<EligibleCandidate<A, Balance>>,
    candidate: A,
    stake: Balance,
    eligible: bool,
    capacity: u32,
    after: Seq<EligibleCandidate<A, Balance>>,
)
    requires
        accounts_are_ordered::<A>(),
        forall|i: int, j: int|
            0 <= i < j < entries.len() ==> ((#[trigger] entries[i]).stake > (
            #[trigger] entries[j]).stake || (entries[i].stake == entries[j].stake
                && entries[i].candidate.is_lt(&entries[j].candidate))) && entries[i].candidate
                != entries[j].candidate,
        entries.len() < capacity,
        after == updated(entries, candidate, stake, eligible, capacity),
    ensures
        after.len() <= entries.len() + 1,
        eligible ==> after.contains(EligibleCandidate { candidate, stake }),
        forall|k: int|
            0 <= k < entries.len() && (#[trigger] entries[k]).candidate != candidate
                ==> after.contains(entries[k]),
{
    let entry = EligibleCandidate { candidate, stake };
    let rest = without(entries, candidate);
    law_ranked_lists_are_sorted_by_stake(entries);
    lemma_without(entries, candidate);
    lemma_found(entries, candidate);
    lemma_rank_parts(rest, entry);
    law_update_ranks_an_eligible_candidate(entries, candidate, stake, capacity);
    assert forall|k: int|
        0 <= k < entries.len() && (#[trigger] entries[k]).candidate
            != candidate implies after.contains(entries[k]) by {
        let place = match position_of(entries, candidate) {
            Some(position) => if k < position {
                k
            } else {
                k - 1
            },
            None => k,
        };
        assert(rest[place] == entries[k]);
        let rank = rank_among(rest, entry) as int;
        if eligible && place >= rank {
            assert(after[place + 1] == entries[k]);
        } else {
            assert(after[place] == entries[k]);
        }
    }
}

/// Without a state to apply the list stays as it is.
pub proof fn law_no_updates_change_nothing<A: Ord>(
    entries: Seq<EligibleCandidate<A, Balance>>,
    settings: Settings,
    capacity: u32,
)
    ensures
        updated_all(entries, settings, Seq::<CandidateState<A>>::empty(), capacity) == entries,
{
}

/// What the last of several updates does to the list that the others left, in full: the same as an
/// update of its candidate alone. In particular, the candidate is in the list only if it delegates
/// enough towards itself and passes the filter, and then with the stake of that last state.
pub proof fn law_last_update_in_full<A: Ord>(
    entries: Seq<EligibleCandidate<A, Balance>>,
    settings: Settings,
    states: Seq<CandidateState<A>>,
    capacity: u32,
    before: Seq<EligibleCandidate<A, Balance>>,
    after: Seq<EligibleCandidate<A, Balance>>,
)
    requires
        accounts_are_ordered::<A>(),
        forall|i: int, j: int|
            0 <= i < j < entries.len() ==> ((#[trigger] entries[i]).stake > (
            #[trigger] entries[j]).stake || (entries[i].stake == entries[j].stake
                && entries[i].candidate.is_lt(&entries[j].candidate))) && entries[i].candidate
                != entries[j].candidate,
        entries.len() <= capacity,
        states.len() > 0,
        before == updated_all(entries, settings, states.drop_last(), capacity),
        after == updated_all(entries, settings, states, capacity),
    ensures
        after.len() <= capacity,
        forall|i: int, j: int|
            0 <= i < j < after.len() ==> ((#[trigger] after[i]).stake > (#[trigger] after[j]).stake
                || (after[i].stake == after[j].stake && after[i].candidate.is_lt(
                &after[j].candidate,
            ))) && after[i].candidate != after[j].candidate,
        forall|i: int|
            0 <= i < after.len() && (#[trigger] after[i]).candidate == states.last().candidate
                ==> states.last().self_delegation >= settings.minimum_self_delegation
                && states.last().passes_filter && after[i].stake == states.last().stake,
        states.last().self_delegation >= settings.minimum_self_delegation
            && states.last().passes_filter && !after.contains(
            EligibleCandidate {
                candidate: states.last().candidate,
                stake: states.last().stake,
            },
        ) ==> after.len() == capacity && (forall|i: int|
            0 <= i < after.len() ==> (#[trigger] after[i]).stake > states.last().stake || (
            after[i].stake == states.last().stake && after[i].candidate.is_lt(
                &states.last().candidate,
            ))),
        forall|i: int|
            0 <= i < after.len() && (#[trigger] after[i]).candidate != states.last().candidate
                ==> before.contains(after[i]),
        forall|k: int|
            0 <= k < before.len() && (#[trigger] before[k]).candidate != states.last().candidate
                && !after.contains(before[k]) ==> after.len() == capacity && (forall|i: int|
                0 <= i < after.len() ==> (#[trigger] after[i]).stake > before[k].stake || (
                after[i].stake == before[k].stake && after[i].candidate.is_lt(
                    &before[k].candidate,
                ))),
{
    let state = states.last();
    law_ranked_lists_are_sorted_by_stake(entries);
    law_updates_keep_the_list_ranked_and_bounded(
        entries,
        settings,
        states.drop_last(),
        capacity,
    );
    law_ranked_lists_are_sorted_by_stake(before);
    law_update_in_full(
        before,
        state.candidate,
        state.stake,
        settings.eligible(state.self_delegation, state.passes_filter),
        capacity,
        after,
    );
}

/// The last state given for a candidate decides its entry: if the candidate is in the list after
/// all the updates, then that state makes it eligible and its entry carries the stake of that
/// state. And while the list has room for everybody, each candidate whose last state makes it
/// eligible is in it with that stake.
pub proof fn law_last_state_of_a_candidate_decides_its_entry<A: Ord>(
    entries: Seq<EligibleCandidate<A, Balance>>,
    settings: Settings,
    states: Seq<CandidateState<A>>,
    capacity: u32,
    index: int,
    after: Seq<EligibleCandidate<A, Balance>>,
)
    requires
        accounts_are_ordered::<A>(),
        forall|i: int, j: int|
            0 <= i < j < entries.len() ==> ((#[trigger] entries[i]).stake > (
            #[trigger] entries[j]).stake || (entries[i].stake == entries[j].stake
                && entries[i].candidate.is_lt(&entries[j].candidate))) && entries[i].candidate
                != entries[j].candidate,
        entries.len() <= capacity,
        0 <= index < states.len(),
        forall|k: int|
            index < k < states.len() ==> (#[trigger] states[k]).candidate
                != states[index].candidate,
        after == updated_all(entries, settings, states, capacity),
    ensures
        forall|i: int|
            0 <= i < after.len() && (#[trigger] after[i]).candidate == states[index].candidate
                ==> states[index].self_delegation >= settings.minimum_self_delegation
                && states[index].passes_filter && after[i].stake == states[index].stake,
        entries.len() + states.len() <= capacity && states[index].self_delegation
            >= settings.minimum_self_delegation && states[index].passes_filter ==> after.contains(
            EligibleCandidate {
                candidate: states[index].candidate,
                stake: states[index].stake,
            },
        ),
        entries.len() + states.len() <= capacity ==> after.len() <= entries.len() + states.len(),
    decreases states.len(),
{
    let rest = states.drop_last();
    let before = updated_all(entries, settings, rest, capacity);
    let last = states.last();
    let state = states[index];
    let eligible = settings.eligible(last.self_delegation, last.passes_filter);
    law_last_update_in_full(entries, settings, states, capacity, before, after);
    law_ranked_lists_are_sorted_by_stake(entries);
    law_updates_keep_the_list_ranked_and_bounded(entries, settings, rest, capacity);
    law_ranked_lists_are_sorted_by_stake(before);
    if entries.len() + states.len() <= capacity {
        lemma_updates_make_room(entries, settings, rest, capacity);
        law_nobody_falls_out_while_there_is_room(
            before,
            last.candidate,
            last.stake,
            eligible,
            capacity,
            after,
        );
    }
    if index < states.len() - 1 {
        assert(forall|k: int| 0 <= k < rest.len() ==> #[trigger] rest[k] == states[k]);
        assert(states[states.len() - 1].candidate != state.candidate);
        law_last_state_of_a_candidate_decides_its_entry(
            entries,
            settings,
            rest,
            capacity,
            index,
            before,
        );
        assert forall|i: int|
            0 <= i < after.len() && (#[trigger] after[i]).candidate
                == state.candidate implies state.self_delegation
            >= settings.minimum_self_delegation && state.passes_filter && after[i].stake
            == state.stake by {
            assert(before.contains(after[i]));
            let k = before.index_of(after[i]);
            assert(before[k].candidate == state.candidate);
        }
        let entry = EligibleCandidate { candidate: state.candidate, stake: state.stake };
        if before.contains(entry) {
            let k = before.index_of(entry);
            assert(before[k].candidate != last.candidate);
        }
    }
}

/// Each update makes the list longer by at most one, while there is room.
proof fn lemma_updates_make_room<A: Ord>(
    entries: Seq<EligibleCandidate<A, Balance>>,
    settings: Settings,
    states: Seq<CandidateState<A>>,
    capacity: u32,
)
    requires
        accounts_are_ordered::<A>(),
        ranked(entries),
        entries.len() + states.len() <= capacity,
    ensures
        updated_all(entries, settings, states, capacity).len() <= entries.len() + states.len(),
    decreases states.len(),
{
    if states.len() > 0 {
        let rest = states.drop_last();
        let before = updated_all(entries, settings, rest, capacity);
        let last = states.last();
        lemma_updates_make_room(entries, settings, rest, capacity);
        law_updates_keep_the_list_ranked_and_bounded(entries, settings, rest, capacity);
        law_ranked_lists_are_sorted_by_stake(before);
        law_nobody_falls_out_while_there_is_room(
            before,
            last.candidate,
            last.stake,
            settings.eligible(last.self_delegation, last.passes_filter),
            capacity,
            updated_all(entries, settings, states, capacity),
        );
    }
}

} // verus!
