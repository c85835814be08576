//! A reusable weighted-random-selection primitive: a table of labelled
//! outcomes with non-negative integer weights, rolled with probability
//! proportional to weight.  Drives both encounter spawning and hazard spread.

use vstd::prelude::*;
use crate::rng::rng_roll_dice;

verus! {

/// Sum of the weights of a weighted-outcome sequence.
pub open spec fn total_weight<T>(entries: Seq<(T, i32)>) -> int
    decreases entries.len(),
{
    if entries.len() == 0 {
        0
    } else {
        total_weight(entries.drop_last()) + entries.last().1
    }
}

/// All weights are non-negative.
pub open spec fn weights_nonneg<T>(entries: Seq<(T, i32)>) -> bool {
    forall|i: int| 0 <= i < entries.len() ==> (#[trigger] entries[i]).1 >= 0
}

/// The outcome a draw of `d` selects: walk the table front to back and pick
/// the first entry whose cumulative weight reaches `d`.
pub open spec fn spec_chosen<T>(entries: Seq<(T, i32)>, d: int) -> T
    recommends
        1 <= d <= total_weight(entries),
    decreases entries.len(),
{
    if entries.len() == 0 {
        arbitrary()
    } else if d <= entries[0].1 {
        entries[0].0
    } else {
        spec_chosen(entries.drop_first(), d - entries[0].1)
    }
}

/// With non-negative weights, every prefix sum is at most the total.
pub proof fn lemma_total_take_le<T>(entries: Seq<(T, i32)>, i: int)
    requires
        weights_nonneg(entries),
        0 <= i <= entries.len(),
    ensures
        total_weight(entries.take(i)) <= total_weight(entries),
        total_weight(entries.take(i)) >= 0,
    decreases entries.len() - i,
{
    if i == entries.len() {
        assert(entries.take(i) =~= entries);
        lemma_total_take_nonneg(entries, i);
    } else {
        lemma_total_take_le(entries, i + 1);
        assert(entries.take(i + 1).drop_last() =~= entries.take(i));
        assert(total_weight(entries.take(i + 1)) == total_weight(entries.take(i)) + entries[i].1);
        lemma_total_take_nonneg(entries, i);
    }
}

/// With non-negative weights, every prefix sum is non-negative.
pub proof fn lemma_total_take_nonneg<T>(entries: Seq<(T, i32)>, i: int)
    requires
        weights_nonneg(entries),
        0 <= i <= entries.len(),
    ensures
        total_weight(entries.take(i)) >= 0,
    decreases i,
{
    if i > 0 {
        lemma_total_take_nonneg(entries, i - 1);
        assert(entries.take(i).drop_last() =~= entries.take(i - 1));
    }
}

/// The outcome a positive in-range draw selects always carries a positive
/// weight: an outcome whose weight is zero can never be rolled.
pub proof fn lemma_chosen_weight_positive<T>(entries: Seq<(T, i32)>, d: int)
    requires
        weights_nonneg(entries),
        1 <= d <= total_weight(entries),
    ensures
        exists|i: int|
            0 <= i < entries.len() && (#[trigger] entries[i]).0 == spec_chosen(entries, d)
                && entries[i].1 > 0,
    decreases entries.len(),
{
    if entries.len() == 0 {
        assert(total_weight(entries) == 0);
    } else if d <= entries[0].1 {
        assert(entries[0].0 == spec_chosen(entries, d) && entries[0].1 > 0);
    } else {
        let rest = entries.drop_first();
        assert(weights_nonneg(rest)) by {
            assert(forall|i: int| 0 <= i < rest.len() ==> rest[i] == entries[i + 1]);
        }
        assert(total_weight(entries) == total_weight(rest) + entries[0].1) by {
            lemma_total_front_split(entries);
        }
        lemma_chosen_weight_positive(rest, d - entries[0].1);
        let i = choose|i: int|
            0 <= i < rest.len() && (#[trigger] rest[i]).0 == spec_chosen(rest, d - entries[0].1)
                && rest[i].1 > 0;
        assert(entries[i + 1] == rest[i]);
    }
}

/// With non-negative weights, the total weight is positive exactly when
/// some entry's weight is positive: a table that is empty or all-zero has
/// no mass to roll.
pub proof fn lemma_total_positive_iff<T>(entries: Seq<(T, i32)>)
    requires
        weights_nonneg(entries),
    ensures
        total_weight(entries) > 0 <==> exists|i: int|
            0 <= i < entries.len() && (#[trigger] entries[i]).1 > 0,
    decreases entries.len(),
{
    if entries.len() > 0 {
        let pre = entries.drop_last();
        assert(weights_nonneg(pre)) by {
            assert(forall|i: int| 0 <= i < pre.len() ==> pre[i] == entries[i]);
        }
        lemma_total_positive_iff(pre);
        lemma_total_take_nonneg(entries, entries.len() - 1);
        assert(entries.take(entries.len() - 1) =~= pre);
        if total_weight(entries) > 0 {
            if entries.last().1 > 0 {
                assert(entries[entries.len() - 1].1 > 0);
            } else {
                let i = choose|i: int| 0 <= i < pre.len() && (#[trigger] pre[i]).1 > 0;
                assert(entries[i].1 > 0);
            }
        }
        if exists|i: int| 0 <= i < entries.len() && (#[trigger] entries[i]).1 > 0 {
            let i = choose|i: int| 0 <= i < entries.len() && (#[trigger] entries[i]).1 > 0;
            if i < entries.len() - 1 {
                assert(pre[i].1 > 0);
            }
        }
    }
}

/// Splitting the total weight at the front entry.
pub proof fn lemma_total_front_split<T>(entries: Seq<(T, i32)>)
    requires
        entries.len() > 0,
    ensures
        total_weight(entries) == entries[0].1 + total_weight(entries.drop_first()),
    decreases entries.len(),
{
    assert(total_weight(entries) == total_weight(entries.drop_last()) + entries.last().1);
    if entries.len() == 1 {
        assert(total_weight(entries.drop_last()) == 0) by {
            assert(entries.drop_last().len() == 0);
        }
        assert(total_weight(entries.drop_first()) == 0) by {
            assert(entries.drop_first().len() == 0);
        }
        assert(entries.last() == entries[0]);
    } else {
        lemma_total_front_split(entries.drop_last());
        assert(entries.drop_last().drop_first() =~= entries.drop_first().drop_last());
        assert(entries.drop_last()[0] == entries[0]);
        assert(entries.drop_first().last() == entries.last());
        assert(total_weight(entries.drop_first()) == total_weight(
            entries.drop_first().drop_last(),
        ) + entries.drop_first().last().1);
    }
}

/// A weighted table of outcomes.  Built incrementally with `insert`, which
/// returns the extended table, so per-call tables with computed weights can
/// be assembled in one expression.
pub struct RandomTable<T> {
    pub entries: Vec<(T, i32)>,
}

impl<T: Copy> RandomTable<T> {
    /// Non-negative weights whose total fits the roll arithmetic.
    pub open spec fn wf(self) -> bool {
        weights_nonneg(self.entries@) && total_weight(self.entries@) < 0x7fff_ffff
    }

    pub fn new() -> (t: RandomTable<T>)
        ensures
            t.entries@.len() == 0,
            t.wf(),
    {
        RandomTable { entries: Vec::new() }
    }

    /// The summed weight of all outcomes.
    #[verifier::loop_isolation(false)]
    pub fn total(&self) -> (t: i32)
        requires
            self.wf(),
        ensures
            t == total_weight(self.entries@),
    {
        let mut cum: i32 = 0;
        let mut i: usize = 0;
        while i < self.entries.len()
            invariant
                0 <= i <= self.entries@.len(),
                cum == total_weight(self.entries@.take(i as int)),
            decreases self.entries@.len() - i,
        {
            proof {
                lemma_total_take_le(self.entries@, i + 1);
                assert(self.entries@.take(i + 1).drop_last() =~= self.entries@.take(i as int));
            }
            cum = cum + self.entries[i].1;
            i += 1;
        }
        proof {
            assert(self.entries@.take(i as int) =~= self.entries@);
        }
        cum
    }

    /// Adds an outcome with the given relative weight, returning the
    /// extended table.
    pub fn insert(self, outcome: T, weight: i32) -> (t: RandomTable<T>)
        requires
            self.wf(),
            0 <= weight,
            total_weight(self.entries@) + weight < 0x7fff_ffff,
        ensures
            t.entries@ == self.entries@.push((outcome, weight)),
            t.wf(),
            total_weight(t.entries@) == total_weight(self.entries@) + weight,
    {
        let mut entries = self.entries;
        entries.push((outcome, weight));
        proof {
            assert(entries@.drop_last() =~= self.entries@);
        }
        RandomTable { entries }
    }

    /// The outcome a concrete in-range draw selects: the first entry whose
    /// cumulative weight reaches the draw.
    #[verifier::loop_isolation(false)]
    pub fn roll_at(&self, draw: i32) -> (r: T)
        requires
            self.wf(),
            1 <= draw <= total_weight(self.entries@),
        ensures
            r == spec_chosen(self.entries@, draw as int),
            exists|i: int|
                0 <= i < self.entries@.len() && (#[trigger] self.entries@[i]).0 == r
                    && self.entries@[i].1 > 0,
    {
        proof {
            lemma_chosen_weight_positive(self.entries@, draw as int);
            assert(self.entries@.skip(0) =~= self.entries@);
        }
        let mut i: usize = 0;
        let mut cum: i32 = 0;
        while i < self.entries.len()
            invariant
                0 <= i <= self.entries@.len(),
                cum == total_weight(self.entries@.take(i as int)),
                cum < draw,
                spec_chosen(self.entries@, draw as int) == spec_chosen(
                    self.entries@.skip(i as int),
                    draw - cum,
                ),
            decreases self.entries@.len() - i,
        {
            proof {
                lemma_total_take_le(self.entries@, i + 1);
                assert(self.entries@.take(i + 1).drop_last() =~= self.entries@.take(i as int));
                assert(self.entries@.skip(i as int)[0] == self.entries@[i as int]);
            }
            let w = self.entries[i].1;
            if draw <= cum + w {
                return self.entries[i].0;
            }
            proof {
                assert(self.entries@.skip(i as int).drop_first() =~= self.entries@.skip(i + 1));
            }
            cum = cum + w;
            i += 1;
        }
        proof {
            assert(self.entries@.take(i as int) =~= self.entries@);
            assert(false);
        }
        self.entries[0].0
    }

    /// Rolls the table: no outcome when the table is empty or all weights
    /// are zero, otherwise an outcome whose probability is proportional to
    /// its weight.  Every returned outcome carries a positive weight.
    pub fn roll(&self, rng: &mut rltk::RandomNumberGenerator) -> (r: Option<T>)
        requires
            self.wf(),
        ensures
            (r is None) <==> total_weight(self.entries@) == 0,
            r matches Some(t) ==> exists|d: int|
                1 <= d <= total_weight(self.entries@) && t == spec_chosen(self.entries@, d),
            r matches Some(t) ==> exists|i: int|
                0 <= i < self.entries@.len() && (#[trigger] self.entries@[i]).0 == t
                    && self.entries@[i].1 > 0,
    {
        proof {
            lemma_total_take_nonneg(self.entries@, self.entries@.len() as int);
            assert(self.entries@.take(self.entries@.len() as int) =~= self.entries@);
        }
        let total = self.total();
        if total <= 0 {
            return None;
        }
        let draw = rng_roll_dice(rng, 1, total);
        Some(self.roll_at(draw))
    }
}

} // verus!
