//! Online item recommendation: candidate selection, decaying ranked
//! lists, training bookkeeping and storage layout, with their contracts.
pub mod ord;
pub mod learn;
pub mod storage;
pub mod recommend;
pub mod http;
