//! Per-sender mail statistics: the rules of an incremental ingestion pass over
//! a paginated mailbox listing, with every decision stated and proved.

pub mod ingest;
pub mod ledger;
pub mod sender;
pub mod unit;
