use vstd::prelude::*;

verus! {

/// The command line as parsed: a command, and an optional trace level.
#[derive(Clone, Debug)]
pub struct Cli {
    pub command: Commands,
    pub trace: Option<TraceLevel>,
}

/// What the program was asked to do.
#[derive(Clone, Debug)]
pub enum Commands {
    /// Webscrape data and collect it to the warehouse; with no
    /// endpoints given, collect all.
    Spider { endpoints: Option<Vec<Endpoint>> },
    /// Test suite.
    Test,
}

/// Sets the level of tracing.
#[derive(Clone, Copy, Debug, PartialEq, Eq, Structural)]
pub enum TraceLevel {
    DEBUG,
    ERROR,
    INFO,
    TRACE,
    WARN,
}

/// A family of endpoints to webscrape.
#[derive(Clone, Copy, Debug, PartialEq, Eq, Structural)]
pub enum Endpoint {
    /// Cryptocurrency price data.
    Crypto,
    /// Economic data.
    Econ,
    /// Stock price & filings data.
    Stocks,
}

} // verus!
