//! Attempt counters and burst thresholds for speculative metadata prefetch.
//!
//! The resolver reports every attempted version of a base package; at the
//! escalating thresholds 5, 10 and 20 tried versions, and afterwards every 20
//! attempts beyond the count recorded at the last burst, a prefetch burst
//! fires. Counts deliberately include backtracked re-attempts: repeated
//! failure is itself a signal that broader prefetching is warranted.

use vstd::prelude::*;

use crate::identity::PackageIdentity;

verus! {

/// The count stored for a handle in a counter sequence; handles beyond the
/// end of the sequence have count zero.
pub open spec fn count_at(counts: Seq<usize>, id: usize) -> usize {
    if id < counts.len() {
        counts[id as int]
    } else {
        0
    }
}

/// When a prefetch burst fires: at the escalating thresholds 5, 10 and 20
/// tried versions, and in the steady state every 20 attempts past the count
/// recorded at the last burst.
pub open spec fn prefetch_fires(tried: int, last: int) -> bool {
    ||| (tried >= 5 && last < 5)
    ||| (tried >= 10 && last < 10)
    ||| (tried >= 20 && last < 20)
    ||| (tried >= 20 && tried - last >= 20)
}

/// The least tried-count at which a burst fires once `last` is recorded.
pub open spec fn next_fire_point(last: int) -> int {
    if last < 5 {
        5
    } else if last < 10 {
        10
    } else if last < 20 {
        20
    } else {
        last + 20
    }
}

/// Firing is exactly "the tried count has reached the next fire point".
/// In particular it is monotone in the tried count, and right after a burst
/// is committed at count `t` (so `last == tried == t`) it does not fire
/// again before the count grows to `next_fire_point(t)`.
pub proof fn lemma_fires_iff_at_fire_point(tried: int, last: int)
    requires
        0 <= last,
    ensures
        prefetch_fires(tried, last) <==> tried >= next_fire_point(last),
{
}

/// Once a burst fires at some tried count, it keeps firing at every larger
/// count until a burst is committed (which moves `last`).
pub proof fn lemma_should_prefetch_monotone(tried1: int, tried2: int, last: int)
    requires
        prefetch_fires(tried1, last),
        tried1 <= tried2,
    ensures
        prefetch_fires(tried2, last),
{
}

/// Right after a burst is committed at count `t`, nothing fires until the
/// tried count either passes the next threshold or reaches `t + 20`.
pub proof fn lemma_quiet_after_commit(t: int, tried: int)
    requires
        0 <= t <= tried,
        tried < next_fire_point(t),
    ensures
        !prefetch_fires(tried, t),
{
}

/// Per-package attempt bookkeeping for the batch prefetcher: how many
/// versions of each base package the resolver has tried, and the tried-count
/// snapshot taken at each package's last prefetch burst. Both are keyed by
/// the package's interner handle.
pub struct BatchPrefetcher {
    tried_versions: Vec<usize>,
    last_prefetch: Vec<usize>,
}

/// Grow a counter vector with zeroes until it has an entry for `id`. Counts
/// are unchanged: absent entries already counted as zero.
fn ensure_entry(counts: &mut Vec<usize>, id: usize)
    requires
        id < usize::MAX,
    ensures
        id < final(counts)@.len(),
        forall|k: usize| #[trigger] count_at(final(counts)@, k) == count_at(old(counts)@, k),
{
    while counts.len() <= id
        invariant
            id < usize::MAX,
            forall|k: usize| #[trigger] count_at(counts@, k) == count_at(old(counts)@, k),
        decreases id + 1 - counts.len(),
    {
        let ghost prev = counts@;
        counts.push(0);
        proof {
            assert forall|k: usize| #[trigger] count_at(counts@, k) == count_at(
                old(counts)@,
                k,
            ) by {
                assert(count_at(prev, k) == count_at(old(counts)@, k));
                if (k as int) < prev.len() {
                    assert(counts@[k as int] == prev[k as int]);
                } else if (k as int) == prev.len() {
                    assert(count_at(counts@, k) == 0);
                }
            }
        }
    }
}

/// The count stored for `id`, zero when no entry exists yet.
fn read_entry(counts: &Vec<usize>, id: usize) -> (r: usize)
    ensures
        r == count_at(counts@, id),
{
    if id < counts.len() {
        counts[id]
    } else {
        0
    }
}

impl BatchPrefetcher {
    /// How many versions of the package with handle `id` have been tried.
    pub closed spec fn tried_of(self, id: usize) -> usize {
        count_at(self.tried_versions@, id)
    }

    /// The tried-count recorded at the last committed burst for handle `id`.
    pub closed spec fn last_of(self, id: usize) -> usize {
        count_at(self.last_prefetch@, id)
    }

    /// A burst is only ever committed at a count that was reached, so the
    /// recorded snapshot never runs ahead of the tried count.
    pub closed spec fn wf(self) -> bool {
        forall|id: usize| #[trigger] self.last_of(id) <= self.tried_of(id)
    }

    /// A fresh prefetcher: nothing tried, nothing committed.
    pub fn new() -> (r: Self)
        ensures
            r.wf(),
            forall|id: usize| #[trigger] r.tried_of(id) == 0,
            forall|id: usize| #[trigger] r.last_of(id) == 0,
    {
        BatchPrefetcher { tried_versions: Vec::new(), last_prefetch: Vec::new() }
    }

    /// Record that the resolver tried one more version of this package.
    /// Only base packages are tracked; for the virtual variants (extras, dev
    /// groups, markers) and the root this is a no-op.
    pub fn version_tried(&mut self, id: usize, package: &PackageIdentity)
        requires
            old(self).wf(),
            id < usize::MAX,
            old(self).tried_of(id) < usize::MAX,
        ensures
            final(self).wf(),
            package@.is_base() ==> final(self).tried_of(id) == old(self).tried_of(id) + 1,
            !package@.is_base() ==> *final(self) == *old(self),
            forall|k: usize| k != id ==> #[trigger] final(self).tried_of(k) == old(self).tried_of(k),
            forall|k: usize| #[trigger] final(self).last_of(k) == old(self).last_of(k),
    {
        if !crate::identity::is_base_package(package) {
            return;
        }
        ensure_entry(&mut self.tried_versions, id);
        let ghost mid = self.tried_versions@;
        let current = self.tried_versions[id];
        proof {
            assert(current == count_at(mid, id));
            assert(count_at(mid, id) == count_at(old(self).tried_versions@, id));
        }
        self.tried_versions.set(id, current + 1);
        proof {
            assert forall|k: usize| k != id implies #[trigger] count_at(self.tried_versions@, k)
                == count_at(old(self).tried_versions@, k) by {
                assert(count_at(mid, k) == count_at(old(self).tried_versions@, k));
            }
            assert(count_at(self.tried_versions@, id) == old(self).tried_of(id) + 1);
            assert forall|k: usize| #[trigger] self.last_of(k) <= self.tried_of(k) by {
                assert(old(self).last_of(k) <= old(self).tried_of(k));
            }
        }
    }

    /// Whether a prefetch burst should fire for this package now, together
    /// with the current tried count (the burst size is derived from it).
    pub fn should_prefetch(&self, id: usize) -> (r: (usize, bool))
        requires
            self.wf(),
        ensures
            r.0 == self.tried_of(id),
            r.1 == prefetch_fires(self.tried_of(id) as int, self.last_of(id) as int),
    {
        let num_tried = read_entry(&self.tried_versions, id);
        let previous_prefetch = read_entry(&self.last_prefetch, id);
        assert(previous_prefetch <= num_tried) by {
            assert(self.last_of(id) <= self.tried_of(id));
        }
        let do_prefetch = (num_tried >= 5 && previous_prefetch < 5) || (num_tried >= 10
            && previous_prefetch < 10) || (num_tried >= 20 && previous_prefetch < 20) || (num_tried
            >= 20 && num_tried - previous_prefetch >= 20);
        (num_tried, do_prefetch)
    }

    /// Record that a burst was committed for this package at tried-count
    /// `tried`. Until the tried count grows past the next threshold, or
    /// reaches `tried + 20`, no further burst fires for it.
    pub fn commit_prefetch(&mut self, id: usize, tried: usize)
        requires
            old(self).wf(),
            id < usize::MAX,
            tried <= old(self).tried_of(id),
        ensures
            final(self).wf(),
            final(self).last_of(id) == tried,
            forall|k: usize| k != id ==> #[trigger] final(self).last_of(k) == old(self).last_of(k),
            forall|k: usize| #[trigger] final(self).tried_of(k) == old(self).tried_of(k),
    {
        ensure_entry(&mut self.last_prefetch, id);
        let ghost mid = self.last_prefetch@;
        self.last_prefetch.set(id, tried);
        proof {
            assert forall|k: usize| k != id implies #[trigger] count_at(self.last_prefetch@, k)
                == count_at(old(self).last_prefetch@, k) by {
                assert(count_at(mid, k) == count_at(old(self).last_prefetch@, k));
            }
            assert(count_at(self.last_prefetch@, id) == tried);
            assert forall|k: usize| #[trigger] self.last_of(k) <= self.tried_of(k) by {
                assert(old(self).last_of(k) <= old(self).tried_of(k));
            }
        }
    }

    /// The total number of version attempts over all packages.
    pub fn total_tried(&self) -> (r: usize)
        requires
            self.total_spec() <= usize::MAX,
        ensures
            r == self.total_spec(),
    {
        let mut total: usize = 0;
        let n = self.tried_versions.len();
        for i in 0..n
            invariant
                n == self.tried_versions@.len(),
                total == sum_of(self.tried_versions@.take(i as int)),
                sum_of(self.tried_versions@) <= usize::MAX,
        {
            proof {
                lemma_sum_take_step(self.tried_versions@, i as int);
                lemma_sum_take_bound(self.tried_versions@, i + 1);
            }
            total = total + self.tried_versions[i];
        }
        proof {
            assert(self.tried_versions@.take(n as int) =~= self.tried_versions@);
        }
        total
    }

    /// The total number of version attempts, as a mathematical sum.
    pub closed spec fn total_spec(self) -> int {
        sum_of(self.tried_versions@)
    }

    /// Every handle with a nonzero tried count, with its count, in handle
    /// order. The caller renders and sorts these for its own reporting.
    pub fn tried_counts(&self) -> (r: Vec<(usize, usize)>)
        ensures
            forall|i: int|
                0 <= i < r@.len() ==> (#[trigger] r@[i]).1 == self.tried_of(r@[i].0) && r@[i].1 > 0,
            forall|i: int, j: int| 0 <= i < j < r@.len() ==> r@[i].0 < r@[j].0,
            forall|id: usize|
                #[trigger] self.tried_of(id) > 0 ==> exists|i: int|
                    0 <= i < r@.len() && (#[trigger] r@[i]).0 == id,
    {
        let mut out: Vec<(usize, usize)> = Vec::new();
        let n = self.tried_versions.len();
        for id in 0..n
            invariant
                n == self.tried_versions@.len(),
                forall|i: int|
                    0 <= i < out@.len() ==> (#[trigger] out@[i]).1 == self.tried_of(out@[i].0)
                        && out@[i].1 > 0 && out@[i].0 < id,
                forall|i: int, j: int| 0 <= i < j < out@.len() ==> out@[i].0 < out@[j].0,
                forall|k: usize|
                    k < id && #[trigger] self.tried_of(k) > 0 ==> exists|i: int|
                        0 <= i < out@.len() && (#[trigger] out@[i]).0 == k,
        {
            let ghost prev_out = out@;
            let count = self.tried_versions[id];
            proof {
                assert(count == self.tried_of(id));
            }
            if count > 0 {
                out.push((id, count));
            }
            proof {
                assert forall|k: usize|
                    k < id + 1 && #[trigger] self.tried_of(k) > 0 implies exists|i: int|
                        0 <= i < out@.len() && (#[trigger] out@[i]).0 == k by {
                    if k == id {
                        assert(out@[out@.len() - 1].0 == id);
                    } else {
                        let i = choose|i: int| 0 <= i < prev_out.len() && (#[trigger] prev_out[i]).0 == k;
                        assert(out@[i].0 == k);
                    }
                }
            }
        }
        out
    }
}

/// The sum of a sequence of counts.
pub open spec fn sum_of(counts: Seq<usize>) -> int
    decreases counts.len(),
{
    if counts.len() == 0 {
        0
    } else {
        sum_of(counts.drop_last()) + counts.last()
    }
}

/// One more element moves the sum by exactly that element.
proof fn lemma_sum_take_step(counts: Seq<usize>, i: int)
    requires
        0 <= i < counts.len(),
    ensures
        sum_of(counts.take(i + 1)) == sum_of(counts.take(i)) + counts[i],
{
    assert(counts.take(i + 1).drop_last() =~= counts.take(i));
    assert(counts.take(i + 1).last() == counts[i]);
}

/// Sums of counts only grow with more entries.
proof fn lemma_sum_take_bound(counts: Seq<usize>, i: int)
    requires
        0 <= i <= counts.len(),
    ensures
        sum_of(counts.take(i)) <= sum_of(counts),
        0 <= sum_of(counts.take(i)),
    decreases counts.len() - i,
{
    lemma_sum_nonneg(counts.take(i));
    if i < counts.len() {
        lemma_sum_take_step(counts, i);
        lemma_sum_take_bound(counts, i + 1);
    } else {
        assert(counts.take(i) =~= counts);
    }
}

/// A sum of counts is never negative.
proof fn lemma_sum_nonneg(counts: Seq<usize>)
    ensures
        0 <= sum_of(counts),
    decreases counts.len(),
{
    if counts.len() > 0 {
        lemma_sum_nonneg(counts.drop_last());
    }
}

} // verus!
