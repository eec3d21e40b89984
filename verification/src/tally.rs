//! A count of wrong places, with the first few kept to show.

use vstd::prelude::*;

verus! {

/// Counts places and keeps the first `limit` of them.
pub struct Tally {
    wrong: usize,
    samples: Vec<usize>,
    limit: usize,
    noted: Ghost<Seq<usize>>,
}

/// The places among the first `count` that a predicate picks, in order.
pub open spec fn picked(count: int, pick: spec_fn(int) -> bool) -> Seq<usize>
    decreases count,
{
    if count <= 0 {
        Seq::empty()
    } else {
        let before = picked(count - 1, pick);
        if pick(count - 1) {
            before.push((count - 1) as usize)
        } else {
            before
        }
    }
}

/// The first `limit` of a sequence.
pub open spec fn head(places: Seq<usize>, limit: int) -> Seq<usize> {
    if places.len() <= limit {
        places
    } else {
        places.take(limit)
    }
}

impl Tally {
    /// Every place noted so far, in order.
    pub closed spec fn places(self) -> Seq<usize> {
        self.noted@
    }

    /// Most places that are kept.
    pub closed spec fn limit(self) -> int {
        self.limit as int
    }

    /// The count and the kept places are those of the places noted.
    pub closed spec fn well_formed(self) -> bool {
        &&& self.wrong == self.noted@.len()
        &&& self.samples@ == head(self.noted@, self.limit as int)
    }

    /// A tally of nothing, that keeps up to `limit` places.
    pub fn new(limit: usize) -> (tally: Tally)
        ensures
            tally.well_formed(),
            tally.limit() == limit,
            tally.places() == Seq::<usize>::empty(),
    {
        Tally { wrong: 0, samples: Vec::new(), limit, noted: Ghost(Seq::empty()) }
    }

    /// Notes one more place.
    pub fn note(&mut self, place: usize)
        requires
            old(self).well_formed(),
            old(self).places().len() < usize::MAX,
        ensures
            final(self).well_formed(),
            final(self).limit() == old(self).limit(),
            final(self).places() == old(self).places().push(place),
    {
        let ghost before = self.noted@;
        if self.samples.len() < self.limit {
            self.samples.push(place);
        }
        self.wrong = self.wrong + 1;
        self.noted = Ghost(before.push(place));
        proof {
            let after = before.push(place);
            if before.len() < self.limit {
                assert(self.samples@ =~= head(after, self.limit as int));
            } else {
                assert(after.take(self.limit as int) =~= before.take(self.limit as int));
                assert(head(before, self.limit as int) =~= before.take(self.limit as int));
            }
        }
    }

    /// How many places were noted.
    pub fn wrong(&self) -> (count: usize)
        requires
            self.well_formed(),
        ensures
            count == self.places().len(),
    {
        self.wrong
    }

    /// The first places noted, up to the limit.
    pub fn samples(&self) -> (kept: &Vec<usize>)
        requires
            self.well_formed(),
        ensures
            kept@ == head(self.places(), self.limit()),
            kept@.len() == self.limit() || kept@.len() == self.places().len(),
            kept@.len() <= self.limit(),
            kept@.len() <= self.places().len(),
            forall|k: int| 0 <= k < kept@.len() ==> kept@[k] == #[trigger] self.places()[k],
    {
        &self.samples
    }
}

/// No more places are picked than there are, and each is picked once.
pub proof fn lemma_picked_len(count: int, pick: spec_fn(int) -> bool)
    requires
        0 <= count,
    ensures
        picked(count, pick).len() <= count,
    decreases count,
{
    if count > 0 {
        lemma_picked_len(count - 1, pick);
    }
}

/// Law: nothing is picked exactly when the predicate picks no place.
pub proof fn law_nothing_picked_means_nothing_wrong(count: int, pick: spec_fn(int) -> bool)
    requires
        0 <= count,
    ensures
        picked(count, pick).len() == 0 <==> forall|i: int| 0 <= i < count ==> !#[trigger] pick(i),
    decreases count,
{
    if count > 0 {
        law_nothing_picked_means_nothing_wrong(count - 1, pick);
        if picked(count - 1, pick).len() == 0 {
            assert forall|i: int| 0 <= i < count && !pick(count - 1) implies !#[trigger] pick(
                i,
            ) by {
                if i < count - 1 {
                    assert(!pick(i));
                }
            }
        }
    }
}

/// Law: what is picked is the places that the predicate picks, each once and in
/// order: every one of them is there, nothing else is, and they increase.
pub proof fn law_picked_are_the_places_in_order(count: int, pick: spec_fn(int) -> bool)
    requires
        0 <= count <= usize::MAX,
    ensures
        forall|k: int|
            0 <= k < picked(count, pick).len() ==> (#[trigger] picked(count, pick)[k]) < count,
        forall|place: usize| #[trigger]
            picked(count, pick).contains(place) <==> place < count && pick(place as int),
        forall|k: int, l: int|
            0 <= k < l < picked(count, pick).len() ==> #[trigger] picked(count, pick)[k]
                < #[trigger] picked(count, pick)[l],
    decreases count,
{
    if count > 0 {
        law_picked_are_the_places_in_order(count - 1, pick);
        let before = picked(count - 1, pick);
        let after = picked(count, pick);
        let last = (count - 1) as usize;
        assert forall|place: usize| #[trigger]
            after.contains(place) <==> place < count && pick(place as int) by {
            if place < count - 1 && pick(place as int) {
                assert(before.contains(place));
                let k = choose|k: int| 0 <= k < before.len() && before[k] == place;
                assert(after[k] == place);
            }
            if place == count - 1 && pick(place as int) {
                assert(after[before.len() as int] == place);
            }
            if after.contains(place) {
                let k = choose|k: int| 0 <= k < after.len() && after[k] == place;
                if k < before.len() {
                    assert(before[k] == place);
                    assert(before.contains(place));
                } else {
                    assert(place == last);
                }
            }
        }
        assert forall|k: int, l: int| 0 <= k < l < after.len() implies #[trigger] after[k]
            < #[trigger] after[l] by {
            assert(after[k] == before[k]);
            if l < before.len() {
                assert(after[l] == before[l]);
            }
        }
    }
}

} // verus!
