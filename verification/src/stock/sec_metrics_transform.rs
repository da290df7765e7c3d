use vstd::prelude::*;
use crate::dates::Date;

verus! {

/// One annual reporting bucket of one entity and metric: the date range
/// that its 10-K filing covers.
#[derive(Clone, Copy, Debug, PartialEq, Eq, Structural)]
pub struct AnnualMetric {
    pub start_date: Date,
    pub end_date: Date,
}

/// One same-metric observation to be bucketed: the date range it was
/// reported for. A missing start date marks a row that storage handed
/// back incomplete; it belongs to no bucket.
#[derive(Clone, Copy, Debug, PartialEq, Eq, Structural)]
pub struct Observation {
    pub start_date: Option<Date>,
    pub end_date: Date,
}

impl AnnualMetric {
    /// Date-range containment: the observation starts no earlier and
    /// ends no later than the bucket.
    pub open spec fn spec_check(self, obs: Observation) -> bool {
        match obs.start_date {
            Some(start) => self.start_date.spec_le(start) && obs.end_date.spec_le(self.end_date),
            None => false,
        }
    }

    /// Check if an observation falls within this bucket's date range.
    pub fn check(&self, obs: &Observation) -> (r: bool)
        ensures
            r == self.spec_check(*obs),
    {
        match &obs.start_date {
            Some(start) => self.start_date.le(start) && obs.end_date.le(&self.end_date),
            None => false,
        }
    }
}

/// Build an observation's date range from the unix timestamps storage
/// hands back; a missing start timestamp stays a missing start date.
pub fn observation_from_timestamps(start: Option<u32>, end: u32) -> (obs: Observation)
    ensures
        obs.end_date == crate::stock::common::civil_date_of(end as int),
        obs.end_date.wf(),
        match (start, obs.start_date) {
            (Some(s), Some(d)) => d == crate::stock::common::civil_date_of(s as int) && d.wf(),
            (None, None) => true,
            _ => false,
        },
{
    let start_date = match start {
        Some(s) => Some(crate::stock::common::convert_timestamp(s)),
        None => None,
    };
    Observation { start_date, end_date: crate::stock::common::convert_timestamp(end) }
}

/// The first bucket whose date range contains the observation, if any.
pub fn bucket_of(buckets: &Vec<AnnualMetric>, obs: &Observation) -> (r: Option<usize>)
    ensures
        match r {
            Some(i) => {
                &&& i < buckets@.len()
                &&& buckets@[i as int].spec_check(*obs)
                &&& forall|j: int| 0 <= j < i ==> !(#[trigger] buckets@[j]).spec_check(*obs)
            },
            None => forall|j: int|
                0 <= j < buckets@.len() ==> !(#[trigger] buckets@[j]).spec_check(*obs),
        },
{
    let n = buckets.len();
    let mut i: usize = 0;
    while i < n
        invariant
            i <= n,
            n == buckets@.len(),
            forall|j: int| 0 <= j < i ==> !(#[trigger] buckets@[j]).spec_check(*obs),
        decreases n - i,
    {
        if buckets[i].check(obs) {
            return Some(i);
        }
        i = i + 1;
    }
    None
}

} // verus!
