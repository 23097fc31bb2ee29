//! A fixed memory layout for the intermediate buffers of one run: each buffer
//! claims a sub-region of one shared scratch region, planned once, in order,
//! so that no two buffers overlap and all fit.
use vstd::prelude::*;

verus! {

/// `sizes[0] + ... + sizes[k-1]`.
pub open spec fn prefix_sum(sizes: Seq<usize>, k: int) -> int
    decreases k,
{
    if k <= 0 {
        0
    } else {
        prefix_sum(sizes, k - 1) + sizes[k - 1]
    }
}

/// Where each buffer lies in the shared region.
pub struct ArenaPlan {
    pub sizes: Vec<usize>,
    pub offsets: Vec<usize>,
    pub total: usize,
}

impl ArenaPlan {
    /// Buffer `k` starts where buffer `k - 1` ends; the region ends after the last.
    pub open spec fn wf(&self) -> bool {
        &&& self.offsets@.len() == self.sizes@.len()
        &&& forall|k: int|
            0 <= k < self.sizes@.len() ==> #[trigger] self.offsets@[k] == prefix_sum(
                self.sizes@,
                k,
            )
        &&& self.total == prefix_sum(self.sizes@, self.sizes@.len() as int)
    }

    /// Plans buffers of the given sizes, in order. Fails when they do not fit
    /// in the address space together.
    pub fn plan(sizes: &Vec<usize>) -> (r: Option<ArenaPlan>)
        ensures
            r is None <==> prefix_sum(sizes@, sizes@.len() as int) > usize::MAX,
            r matches Some(p) ==> p.wf() && p.sizes@ == sizes@,
    {
        let mut offsets: Vec<usize> = Vec::with_capacity(sizes.len());
        let mut end: usize = 0;
        let mut k: usize = 0;
        while k < sizes.len()
            invariant
                k <= sizes@.len(),
                offsets@.len() == k,
                end == prefix_sum(sizes@, k as int),
                forall|j: int| 0 <= j < k ==> #[trigger] offsets@[j] == prefix_sum(sizes@, j),
            decreases sizes@.len() - k,
        {
            offsets.push(end);
            if sizes[k] > usize::MAX - end {
                proof {
                    lemma_prefix_sum_monotone(sizes@, k + 1, sizes@.len() as int);
                }
                return None;
            }
            end = end + sizes[k];
            k = k + 1;
        }
        Some(ArenaPlan { sizes: sizes.clone(), offsets, total: end })
    }

    /// The sub-region `[start, end)` of buffer `k`.
    pub fn region(&self, k: usize) -> (r: (usize, usize))
        requires
            self.wf(),
            k < self.sizes@.len(),
        ensures
            r.0 == prefix_sum(self.sizes@, k as int),
            r.1 == prefix_sum(self.sizes@, k + 1),
            r.1 == r.0 + self.sizes@[k as int],
            r.1 <= self.total,
    {
        proof {
            lemma_prefix_sum_monotone(self.sizes@, k + 1, self.sizes@.len() as int);
        }
        (self.offsets[k], self.offsets[k] + self.sizes[k])
    }
}

proof fn lemma_prefix_sum_monotone(sizes: Seq<usize>, a: int, b: int)
    requires
        0 <= a <= b <= sizes.len(),
    ensures
        prefix_sum(sizes, a) <= prefix_sum(sizes, b),
    decreases b - a,
{
    if a < b {
        lemma_prefix_sum_monotone(sizes, a, b - 1);
    }
}

/// No two buffers of a plan overlap, and each lies within the shared region:
/// buffer `a` ends no later than any later buffer `b` starts.
pub proof fn lemma_regions_disjoint(plan: &ArenaPlan, a: int, b: int)
    requires
        plan.wf(),
        0 <= a < b < plan.sizes@.len(),
    ensures
        plan.offsets@[a] + plan.sizes@[a] <= plan.offsets@[b],
        plan.offsets@[b] + plan.sizes@[b] <= plan.total,
{
    lemma_prefix_sum_monotone(plan.sizes@, a + 1, b);
    lemma_prefix_sum_monotone(plan.sizes@, b + 1, plan.sizes@.len() as int);
}

} // verus!
