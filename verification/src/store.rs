use vstd::prelude::*;
use crate::errors::IngestError;
use crate::rows::CompositeKey;
use crate::rows::ObservationRow;

verus! {

/// One row of the reference listing table: an entity's surrogate key
/// and its natural key.
#[derive(Clone, Debug)]
pub struct ListingEntry {
    pub pk: i32,
    pub symbol: String,
}

/// Whether `rows` holds a row with composite identity `k`.
pub open spec fn contains_pk(rows: Seq<ObservationRow>, k: CompositeKey) -> bool {
    exists|i: int| 0 <= i < rows.len() && rows[i].spec_pk() == k
}

/// No two rows share a composite identity.
pub open spec fn rows_unique(rows: Seq<ObservationRow>) -> bool {
    forall|i: int, j: int|
        #![trigger rows[i].spec_pk(), rows[j].spec_pk()]
        0 <= i < j < rows.len() ==> rows[i].spec_pk() != rows[j].spec_pk()
}

/// Whether the listing holds an entry for the natural key `s`.
pub open spec fn listing_contains_symbol(listing: Seq<ListingEntry>, s: Seq<char>) -> bool {
    exists|i: int| 0 <= i < listing.len() && listing[i].symbol@ == s
}

/// No two listing entries share a natural key.
pub open spec fn listing_unique(listing: Seq<ListingEntry>) -> bool {
    forall|i: int, j: int|
        #![trigger listing[i].symbol, listing[j].symbol]
        0 <= i < j < listing.len() ==> listing[i].symbol@ != listing[j].symbol@
}

/// A batch can go through the all-or-nothing bulk path only when no two
/// of its rows share a composite identity and none of its identities is
/// already stored.
pub open spec fn batch_loadable(rows: Seq<ObservationRow>, batch: Seq<ObservationRow>) -> bool {
    &&& rows_unique(batch)
    &&& forall|i: int| 0 <= i < batch.len() ==> !contains_pk(rows, #[trigger] batch[i].spec_pk())
}

/// The warehouse as the pipeline sees it: a reference listing keyed by
/// natural key, and an observation table keyed by composite identity.
pub struct Store {
    pub listing: Vec<ListingEntry>,
    pub rows: Vec<ObservationRow>,
}

impl Store {
    /// The storage invariant: both tables respect their uniqueness keys.
    pub open spec fn wf(self) -> bool {
        &&& listing_unique(self.listing@)
        &&& rows_unique(self.rows@)
    }

    /// An empty warehouse.
    pub fn new() -> (s: Store)
        ensures
            s.listing@ =~= Seq::<ListingEntry>::empty(),
            s.rows@ =~= Seq::<ObservationRow>::empty(),
            s.wf(),
    {
        Store { listing: Vec::new(), rows: Vec::new() }
    }

    /// Insert a listing entry unless its natural key is already listed,
    /// mirroring an ignore-on-conflict upsert. The observation table is
    /// untouched.
    pub fn upsert_listing(&mut self, pk: i32, symbol: String)
        requires
            old(self).wf(),
        ensures
            final(self).wf(),
            final(self).rows == old(self).rows,
            listing_contains_symbol(old(self).listing@, symbol@) ==> final(self).listing
                == old(self).listing,
            !listing_contains_symbol(old(self).listing@, symbol@) ==> final(self).listing@
                =~= old(self).listing@.push(ListingEntry { pk, symbol }),
    {
        let n = self.listing.len();
        let mut i: usize = 0;
        while i < n
            invariant
                i <= n,
                n == self.listing@.len(),
                *self == *old(self),
                self.wf(),
                forall|j: int| 0 <= j < i ==> self.listing@[j].symbol@ != symbol@,
            decreases n - i,
        {
            if self.listing[i].symbol == symbol {
                return ;
            }
            i = i + 1;
        }
        self.listing.push(ListingEntry { pk, symbol });
    }

    /// Look up the surrogate key listed for a natural key.
    pub fn listed_pk(&self, symbol: &String) -> (r: Option<i32>)
        ensures
            match r {
                Some(pk) => exists|i: int|
                    0 <= i < self.listing@.len() && self.listing@[i].symbol@ == symbol@
                        && #[trigger] self.listing@[i].pk == pk,
                None => !listing_contains_symbol(self.listing@, symbol@),
            },
    {
        let n = self.listing.len();
        let mut i: usize = 0;
        while i < n
            invariant
                i <= n,
                n == self.listing@.len(),
                forall|j: int| 0 <= j < i ==> self.listing@[j].symbol@ != symbol@,
            decreases n - i,
        {
            if self.listing[i].symbol == *symbol {
                return Some(self.listing[i].pk);
            }
            i = i + 1;
        }
        None
    }

    /// Whether the observation table already holds identity `k`.
    fn contains_row_key(&self, k: &CompositeKey) -> (r: bool)
        ensures
            r == contains_pk(self.rows@, *k),
    {
        let n = self.rows.len();
        let mut i: usize = 0;
        while i < n
            invariant
                i <= n,
                n == self.rows@.len(),
                forall|j: int| 0 <= j < i ==> self.rows@[j].spec_pk() != *k,
            decreases n - i,
        {
            if self.rows[i].pk() == *k {
                return true;
            }
            i = i + 1;
        }
        false
    }

    /// The set of composite identities already stored for one entity,
    /// fetched fresh for that entity's reconciliation step. The result
    /// holds each such identity exactly once.
    pub fn fetch_existing(&self, entity_pk: i32) -> (r: Vec<CompositeKey>)
        requires
            self.wf(),
        ensures
            forall|k: CompositeKey| #[trigger]
                r@.contains(k) <==> contains_pk(self.rows@, k) && k.entity_pk == entity_pk,
            forall|a: int, b: int| 0 <= a < b < r@.len() ==> r@[a] != r@[b],
    {
        broadcast use vstd::seq_lib::lemma_seq_contains_after_push;

        let n = self.rows.len();
        let mut r: Vec<CompositeKey> = Vec::new();
        let mut i: usize = 0;
        while i < n
            invariant
                i <= n,
                n == self.rows@.len(),
                self.wf(),
                forall|a: int|
                    0 <= a < r@.len() ==> (#[trigger] r@[a]).entity_pk == entity_pk
                        && exists|j: int| 0 <= j < i && self.rows@[j].spec_pk() == r@[a],
                forall|j: int|
                    0 <= j < i && (#[trigger] self.rows@[j]).entity_pk == entity_pk
                        ==> r@.contains(self.rows@[j].spec_pk()),
                forall|a: int, b: int| 0 <= a < b < r@.len() ==> r@[a] != r@[b],
            decreases n - i,
        {
            let row = self.rows[i];
            if row.entity_pk == entity_pk {
                let k = row.pk();
                proof {
                    if r@.contains(k) {
                        let a = choose|a: int| 0 <= a < r@.len() && r@[a] == k;
                        let j = choose|j: int| 0 <= j < i && self.rows@[j].spec_pk() == r@[a];
                        assert(self.rows@[j].spec_pk() == self.rows@[i as int].spec_pk());
                        assert(false);
                    }
                }
                let ghost r0 = r@;
                r.push(k);
                proof {
                    assert forall|j: int|
                        0 <= j < i + 1 && (#[trigger] self.rows@[j]).entity_pk
                        == entity_pk implies r@.contains(self.rows@[j].spec_pk()) by {
                        if j < i {
                            assert(r0.contains(self.rows@[j].spec_pk()));
                            vstd::seq_lib::lemma_seq_contains_after_push(
                                r0,
                                k,
                                self.rows@[j].spec_pk(),
                            );
                        } else {
                            assert(r@.len() == r0.len() + 1);
                            assert(r@[r0.len() as int] == k);
                            assert(r@.contains(k));
                        }
                    }
                }
            }
            i = i + 1;
        }
        proof {
            assert forall|k: CompositeKey| #[trigger]
                r@.contains(k) implies contains_pk(self.rows@, k) && k.entity_pk
                == entity_pk by {
                let a = choose|a: int| 0 <= a < r@.len() && r@[a] == k;
                let j = choose|j: int| 0 <= j < n && self.rows@[j].spec_pk() == r@[a];
                assert(self.rows@[j].spec_pk() == k);
            }
            assert forall|k: CompositeKey|
                contains_pk(self.rows@, k) && k.entity_pk == entity_pk implies #[trigger] r@
                .contains(k) by {
                let j = choose|j: int|
                    0 <= j < self.rows@.len() && self.rows@[j].spec_pk() == k;
                assert(self.rows@[j].entity_pk == k.entity_pk);
            }
        }
        r
    }

    /// The all-or-nothing bulk write. When the batch is loadable its
    /// rows are appended in order and the row count is returned; when
    /// any row conflicts, storage is left exactly as it was and the
    /// whole batch is reported failed.
    pub fn bulk_load(&mut self, batch: Vec<ObservationRow>) -> (r: Result<usize, IngestError>)
        requires
            old(self).wf(),
        ensures
            final(self).wf(),
            final(self).listing == old(self).listing,
            match r {
                Ok(n) => {
                    &&& batch_loadable(old(self).rows@, batch@)
                    &&& n == batch@.len()
                    &&& final(self).rows@ =~= old(self).rows@ + batch@
                },
                Err(e) => {
                    &&& e == IngestError::LoadError
                    &&& !batch_loadable(old(self).rows@, batch@)
                    &&& *final(self) == *old(self)
                },
            },
    {
        let n = batch.len();
        let mut i: usize = 0;
        while i < n
            invariant
                i <= n,
                n == batch@.len(),
                *self == *old(self),
                self.wf(),
                forall|a: int, b: int|
                    #![trigger batch@[a].spec_pk(), batch@[b].spec_pk()]
                    0 <= a < b < i ==> batch@[a].spec_pk() != batch@[b].spec_pk(),
                forall|a: int|
                    0 <= a < i ==> !contains_pk(self.rows@, #[trigger] batch@[a].spec_pk()),
            decreases n - i,
        {
            let k = batch[i].pk();
            if self.contains_row_key(&k) {
                return Err(IngestError::LoadError);
            }
            let mut j: usize = 0;
            while j < i
                invariant
                    j <= i < n,
                    n == batch@.len(),
                    *self == *old(self),
                    self.wf(),
                    k == batch@[i as int].spec_pk(),
                    forall|b: int| 0 <= b < j ==> batch@[b].spec_pk() != k,
                decreases i - j,
            {
                if batch[j].pk() == k {
                    proof {
                        assert(batch@[j as int].spec_pk() == batch@[i as int].spec_pk());
                        assert(!rows_unique(batch@));
                    }
                    return Err(IngestError::LoadError);
                }
                j = j + 1;
            }
            i = i + 1;
        }
        let count = batch.len();
        proof {
            lemma_loadable_append_unique(self.rows@, batch@);
        }
        let mut batch = batch;
        self.rows.append(&mut batch);
        Ok(count)
    }
}

/// Appending a loadable batch to a conflict-free observation table
/// leaves it conflict-free.
proof fn lemma_loadable_append_unique(rows: Seq<ObservationRow>, batch: Seq<ObservationRow>)
    requires
        rows_unique(rows),
        batch_loadable(rows, batch),
    ensures
        rows_unique(rows + batch),
{
    let all = rows + batch;
    assert forall|i: int, j: int|
        #![trigger all[i].spec_pk(), all[j].spec_pk()]
        0 <= i < j < all.len() implies all[i].spec_pk() != all[j].spec_pk() by {
        if j < rows.len() {
            assert(all[i] == rows[i] && all[j] == rows[j]);
        } else if i < rows.len() {
            assert(all[i] == rows[i] && all[j] == batch[j - rows.len()]);
            if all[i].spec_pk() == all[j].spec_pk() {
                assert(contains_pk(rows, batch[j - rows.len()].spec_pk()));
                assert(false);
            }
        } else {
            assert(all[i] == batch[i - rows.len()] && all[j] == batch[j - rows.len()]);
        }
    }
}

} // verus!
