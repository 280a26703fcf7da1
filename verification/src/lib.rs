//! Verified logic of a Binance market-data collector and of the service that
//! ships its date-partitioned CSV files to an object store.
pub mod collector;
pub mod models;
pub mod text;
pub mod writer;
pub mod uploader;
