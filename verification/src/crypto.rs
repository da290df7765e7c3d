pub mod kucoin;
