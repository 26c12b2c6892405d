//! A list of items with integer weights, supporting weighted random
//! selection.

use vstd::prelude::*;
use crate::rng::random_below;

verus! {

/// The sum of the weights of a weight/item sequence.
pub open spec fn spec_total<T>(s: Seq<(T, u32)>) -> int
    decreases s.len(),
{
    if s.len() == 0 {
        0
    } else {
        s[0].1 + spec_total(s.drop_first())
    }
}

/// The index selected by a draw `r` under cumulative weights: the first
/// index whose cumulative weight range contains `r`.
pub open spec fn spec_pick<T>(s: Seq<(T, u32)>, r: int) -> int
    decreases s.len(),
{
    if s.len() == 0 {
        0
    } else if r < s[0].1 {
        0
    } else {
        1 + spec_pick(s.drop_first(), r - s[0].1)
    }
}

/// Weight sums are never negative.
pub proof fn lemma_total_nonneg<T>(s: Seq<(T, u32)>)
    ensures
        spec_total(s) >= 0,
    decreases s.len(),
{
    if s.len() > 0 {
        lemma_total_nonneg(s.drop_first());
    }
}

/// Appending an entry adds its weight to the sum.
pub proof fn lemma_total_push<T>(s: Seq<(T, u32)>, e: (T, u32))
    ensures
        spec_total(s.push(e)) == spec_total(s) + e.1,
    decreases s.len(),
{
    if s.len() == 0 {
        assert(s.push(e).drop_first() =~= s);
    } else {
        assert(s.push(e).drop_first() =~= s.drop_first().push(e));
        lemma_total_push(s.drop_first(), e);
    }
}

/// A draw below the total weight selects an index inside the sequence,
/// and that index carries positive weight.
pub proof fn lemma_pick_in_range<T>(s: Seq<(T, u32)>, r: int)
    requires
        0 <= r < spec_total(s),
    ensures
        0 <= spec_pick(s, r) < s.len(),
        s[spec_pick(s, r)].1 > 0,
    decreases s.len(),
{
    if s.len() > 0 && r >= s[0].1 {
        lemma_pick_in_range(s.drop_first(), r - s[0].1);
    }
}

/// A vector of items with weights; `total` caches the weight sum.
#[derive(Clone, Debug)]
pub struct WeightedVec<T> {
    pub entries: Vec<(T, u32)>,
    pub total: u64,
}

impl<T> WeightedVec<T> {
    /// Whether the cached total matches the entries.
    pub open spec fn wf(&self) -> bool {
        self.total == spec_total(self.entries@)
    }

    /// An empty weighted list.
    pub fn new() -> (r: WeightedVec<T>)
        ensures
            r.wf(),
            r.entries@.len() == 0,
            r.total == 0,
    {
        WeightedVec { entries: Vec::new(), total: 0 }
    }

    /// Append an item with its weight.
    pub fn push(&mut self, item: T, weight: u32)
        requires
            old(self).wf(),
            old(self).total + weight <= u64::MAX,
        ensures
            final(self).wf(),
            final(self).entries@ == old(self).entries@.push((item, weight)),
            final(self).total == old(self).total + weight,
    {
        proof {
            lemma_total_push(self.entries@, (item, weight));
        }
        let w: u64 = weight as u64;
        self.entries.push((item, weight));
        self.total = self.total + w;
    }

    /// How many items the list holds.
    pub fn len(&self) -> (r: usize)
        ensures
            r == self.entries@.len(),
    {
        self.entries.len()
    }

    /// The item at a given index.
    pub fn get_at(&self, i: usize) -> (r: &T)
        requires
            i < self.entries@.len(),
        ensures
            *r == self.entries@[i as int].0,
    {
        &self.entries[i].0
    }

    /// The index that the draw `r` selects under cumulative weights.
    pub fn pick_index(&self, r: u64) -> (i: usize)
        requires
            self.wf(),
            r < self.total,
        ensures
            i == spec_pick(self.entries@, r as int),
            i < self.entries@.len(),
            self.entries@[i as int].1 > 0,
    {
        proof {
            lemma_pick_in_range(self.entries@, r as int);
        }
        proof {
            assert(self.entries@.skip(0) =~= self.entries@);
        }
        let n: usize = self.entries.len();
        let mut i: usize = 0;
        let mut rem: u64 = r;
        loop
            invariant
                self.wf(),
                n == self.entries@.len(),
                i <= n,
                rem <= r,
                0 <= rem < spec_total(self.entries@.skip(i as int)),
                spec_pick(self.entries@, r as int) == i + spec_pick(
                    self.entries@.skip(i as int),
                    rem as int,
                ),
                0 <= spec_pick(self.entries@, r as int) < self.entries@.len(),
            decreases self.entries@.len() - i,
        {
            proof {
                assert(self.entries@.skip(i as int).len() > 0) by {
                    lemma_total_nonneg(self.entries@.skip(i as int));
                    if self.entries@.skip(i as int).len() == 0 {
                        assert(spec_total(self.entries@.skip(i as int)) == 0);
                    }
                }
                assert(self.entries@.skip(i as int)[0] == self.entries@[i as int]);
            }
            let w: u32 = self.entries[i].1;
            if rem < w as u64 {
                proof {
                    assert(spec_pick(self.entries@.skip(i as int), rem as int) == 0);
                }
                return i;
            }
            proof {
                assert(self.entries@.skip(i as int).drop_first() =~= self.entries@.skip(
                    i as int + 1,
                ));
            }
            rem = rem - w as u64;
            i = i + 1;
        }
    }

    /// A weighted random index: `None` exactly when the total weight is
    /// zero, else an in-range index of positive weight.
    pub fn get_random_index(&self) -> (r: Option<usize>)
        requires
            self.wf(),
        ensures
            r is Some <==> self.total > 0,
            r matches Some(i) ==> i < self.entries@.len() && self.entries@[i as int].1 > 0,
    {
        if self.total == 0 {
            None
        } else {
            let draw: u64 = random_below(self.total);
            Some(self.pick_index(draw))
        }
    }

    /// A weighted random item: `None` exactly when the total weight is
    /// zero, else one of the items of positive weight.
    pub fn get_random(&self) -> (r: Option<&T>)
        requires
            self.wf(),
        ensures
            r is Some <==> self.total > 0,
            r matches Some(v) ==> exists|i: int|
                0 <= i < self.entries@.len() && self.entries@[i].1 > 0 && *v == self.entries@[i].0,
    {
        match self.get_random_index() {
            None => None,
            Some(i) => Some(self.get_at(i)),
        }
    }
}

} // verus!
