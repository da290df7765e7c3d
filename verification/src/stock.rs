pub mod common;
pub mod sec_tickers;
pub mod sec_metrics_transform;
