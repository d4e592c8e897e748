//! Distance-bucketed aggregation of cost samples: per integer distance, an
//! ordered sequence of observations, appended to throughout a run and read
//! at export time.

use vstd::prelude::*;

verus! {

/// One observation: a Hamming distance and the cost measured for it, in
/// microseconds of wall-clock time or in energy units. An annealer's
/// residual energy is carried quantized to whole integer units, a
/// modeling choice of this library: its contracts speak over integers
/// only, and the caller picks the unit scale when converting. Immutable
/// once recorded.
#[derive(Clone, Copy, PartialEq, Eq, Structural, Debug)]
pub struct CostSample {
    pub distance: usize,
    pub cost: u64,
}

/// One ordered sequence of samples per distance key `0..n-1`, each in the
/// temporal order of observation.
pub struct Buckets {
    pub data: Vec<Vec<CostSample>>,
}

impl Buckets {
    /// `n` empty buckets.
    pub fn new(n: usize) -> (b: Buckets)
        ensures
            b.data@.len() == n,
            forall|k: int| 0 <= k < n ==> (#[trigger] b.data@[k])@.len() == 0,
    {
        let mut data: Vec<Vec<CostSample>> = Vec::new();
        let mut i: usize = 0;
        while i < n
            invariant
                0 <= i <= n,
                data@.len() == i,
                forall|k: int| 0 <= k < i ==> (#[trigger] data@[k])@.len() == 0,
            decreases n - i,
        {
            data.push(Vec::new());
            i = i + 1;
        }
        Buckets { data }
    }

    /// Number of buckets.
    pub fn len(&self) -> (r: usize)
        ensures
            r == self.data@.len(),
    {
        self.data.len()
    }

    /// Appends one sample to the bucket keyed `d`: that bucket grows by
    /// exactly this sample at its end, every other bucket is untouched.
    pub fn record(&mut self, d: usize, s: CostSample)
        requires
            d < old(self).data@.len(),
        ensures
            final (self).data@.len() == old(self).data@.len(),
            final (self).data@[d as int]@ == old(self).data@[d as int]@.push(s),
            forall|k: int|
                0 <= k < old(self).data@.len() && k != d ==> final (self).data@[k] == old(
                    self,
                ).data@[k],
    {
        let bucket: &mut Vec<CostSample> = &mut self.data[d];
        bucket.push(s);
    }

    /// Number of samples recorded for distance `d`.
    pub fn count(&self, d: usize) -> (r: usize)
        requires
            d < self.data@.len(),
        ensures
            r == self.data@[d as int]@.len(),
    {
        self.data[d].len()
    }
}

/// Number of samples held in the first `i` buckets together.
pub open spec fn total_samples(data: Seq<Vec<CostSample>>, i: int) -> int
    decreases i,
{
    if i <= 0 {
        0
    } else {
        total_samples(data, i - 1) + data[i - 1]@.len()
    }
}

/// Bucket tables that agree below `i` hold the same number of samples.
pub proof fn lemma_total_agree(s1: Seq<Vec<CostSample>>, s2: Seq<Vec<CostSample>>, i: int)
    requires
        forall|k: int| 0 <= k < i ==> s1[k] == s2[k],
    ensures
        total_samples(s1, i) == total_samples(s2, i),
    decreases i,
{
    if i > 0 {
        lemma_total_agree(s1, s2, i - 1);
    }
}

/// Growing one bucket by one sample grows the total by one.
pub proof fn lemma_total_bump(s1: Seq<Vec<CostSample>>, s2: Seq<Vec<CostSample>>, d: int, i: int)
    requires
        0 <= d < i,
        s2[d]@.len() == s1[d]@.len() + 1,
        forall|k: int| 0 <= k < i && k != d ==> s1[k] == s2[k],
    ensures
        total_samples(s2, i) == total_samples(s1, i) + 1,
    decreases i,
{
    if i - 1 == d {
        lemma_total_agree(s1, s2, i - 1);
    } else {
        lemma_total_bump(s1, s2, d, i - 1);
    }
}

/// The sum, saturated at the largest representable value.
pub fn sat_add(a: u64, b: u64) -> (r: u64)
    ensures
        r == if a + b <= u64::MAX {
            a + b
        } else {
            u64::MAX as int
        },
{
    match a.checked_add(b) {
        Some(v) => v,
        None => u64::MAX,
    }
}

} // verus!
