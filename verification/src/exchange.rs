use vstd::prelude::*;

verus! {

/// Mark what is considered as metadata within a process; for example,
/// if a loading process requires Primary Keys, those PKs would be
/// metadata.
pub trait Metadata {
}

/// Metadata needed for database operations.
///
/// Primary Keys (PKs) are retrieved from the database first, in order
/// to improve fetching speeds.
pub struct ExchangeMetadata {
    pub source_pk: i16,
    pub symbol_pks: Vec<(String, i32)>,
}

impl Metadata for ExchangeMetadata {
}

impl ExchangeMetadata {
    /// The surrogate key fetched for a symbol, if the metadata holds it.
    pub fn symbol_pk(&self, symbol: &String) -> (r: Option<i32>)
        ensures
            match r {
                Some(pk) => exists|i: int|
                    0 <= i < self.symbol_pks@.len() && self.symbol_pks@[i].0@ == symbol@
                        && #[trigger] self.symbol_pks@[i].1 == pk,
                None => forall|i: int|
                    0 <= i < self.symbol_pks@.len() ==> (#[trigger] self.symbol_pks@[i]).0@
                        != symbol@,
            },
    {
        let n = self.symbol_pks.len();
        let mut i: usize = 0;
        while i < n
            invariant
                i <= n,
                n == self.symbol_pks@.len(),
                forall|j: int| 0 <= j < i ==> (#[trigger] self.symbol_pks@[j]).0@ != symbol@,
            decreases n - i,
        {
            if self.symbol_pks[i].0 == *symbol {
                return Some(self.symbol_pks[i].1);
            }
            i = i + 1;
        }
        None
    }
}

} // verus!
