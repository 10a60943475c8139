//! Intensity buckets: the discrete classes a day's commit count falls into.

use vstd::prelude::*;

verus! {

/// The five intensity classes, from no activity to very high activity.
#[derive(Clone, Copy, Debug, PartialEq, Eq, PartialOrd, Ord, Hash)]
pub enum IntensityBucket {
    Zero,
    Low,
    Medium,
    High,
    VeryHigh,
}

impl IntensityBucket {
    /// Position of the bucket in the order Zero < Low < Medium < High < VeryHigh.
    pub open spec fn rank(self) -> int {
        match self {
            IntensityBucket::Zero => 0,
            IntensityBucket::Low => 1,
            IntensityBucket::Medium => 2,
            IntensityBucket::High => 3,
            IntensityBucket::VeryHigh => 4,
        }
    }

    /// The bucket's position in the order, from 0 (Zero) to 4 (VeryHigh).
    pub fn level(&self) -> (n: u8)
        ensures
            n == self.rank(),
    {
        match self {
            IntensityBucket::Zero => 0,
            IntensityBucket::Low => 1,
            IntensityBucket::Medium => 2,
            IntensityBucket::High => 3,
            IntensityBucket::VeryHigh => 4,
        }
    }
}

/// The bucket of a commit count: 0 is Zero, 1 is Low, 2 and 3 are Medium,
/// 4 and 5 are High, and everything from 6 upwards is VeryHigh.
pub open spec fn bucket_of(count: nat) -> IntensityBucket {
    if count == 0 {
        IntensityBucket::Zero
    } else if count == 1 {
        IntensityBucket::Low
    } else if count <= 3 {
        IntensityBucket::Medium
    } else if count <= 5 {
        IntensityBucket::High
    } else {
        IntensityBucket::VeryHigh
    }
}

/// Classifies a day's commit count.
pub fn classify(count: u64) -> (bucket: IntensityBucket)
    ensures
        bucket == bucket_of(count as nat),
{
    match count {
        0 => IntensityBucket::Zero,
        1 => IntensityBucket::Low,
        2..=3 => IntensityBucket::Medium,
        4..=5 => IntensityBucket::High,
        _ => IntensityBucket::VeryHigh,
    }
}

/// A larger count never falls into a lower bucket.
pub proof fn lemma_bucket_monotonic(a: nat, b: nat)
    requires
        a <= b,
    ensures
        bucket_of(a).rank() <= bucket_of(b).rank(),
{
}

} // verus!
