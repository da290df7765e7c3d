use vstd::prelude::*;

verus! {

/// The SEC company listing, as fetched once per run.
pub struct Tickers(pub Vec<Ticker>);

/// One listed company: its CIK code (ten digits, zero padded), its
/// ticker symbol and its title.
#[derive(Clone, Debug)]
pub struct Ticker {
    pub pk: String,
    pub ticker: String,
    pub title: String,
}

} // verus!
