use vstd::prelude::*;

verus! {

/// Stock symbol, as the dashboard's symbol listing endpoint reports it.
#[derive(Clone, Debug)]
pub struct StockSymbols {
    pub symbol: String,
    pub title: String,
    pub industry: String,
}

} // verus!
