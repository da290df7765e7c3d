use vstd::prelude::*;

verus! {

/// One fetched measurement in the warehouse's row shape: an entity
/// surrogate, the secondary key columns (metric surrogate, period
/// surrogate, date), the measured value, and the provenance surrogate.
///
/// The measured value is carried opaquely as the bit pattern of the
/// source's numeric value; the pipeline never interprets it, it only
/// stores it alongside the key columns.
#[derive(Clone, Copy, Debug, PartialEq, Eq, Hash, Structural)]
pub struct ObservationRow {
    pub entity_pk: i32,
    pub metric_pk: i32,
    pub period_pk: i32,
    pub date: i64,
    pub value_bits: u64,
    pub source_pk: i32,
}

/// The composite identity of one stored observation: every column of
/// the row except the measured value. Storage must hold at most one
/// row per composite identity.
#[derive(Clone, Copy, Debug, PartialEq, Eq, Hash, Structural)]
pub struct CompositeKey {
    pub entity_pk: i32,
    pub metric_pk: i32,
    pub period_pk: i32,
    pub date: i64,
    pub source_pk: i32,
}

impl ObservationRow {
    /// The composite identity of this row.
    pub open spec fn spec_pk(self) -> CompositeKey {
        CompositeKey {
            entity_pk: self.entity_pk,
            metric_pk: self.metric_pk,
            period_pk: self.period_pk,
            date: self.date,
            source_pk: self.source_pk,
        }
    }

    /// Project the row onto its composite identity.
    pub fn pk(&self) -> (k: CompositeKey)
        ensures
            k == self.spec_pk(),
    {
        CompositeKey {
            entity_pk: self.entity_pk,
            metric_pk: self.metric_pk,
            period_pk: self.period_pk,
            date: self.date,
            source_pk: self.source_pk,
        }
    }
}

} // verus!
