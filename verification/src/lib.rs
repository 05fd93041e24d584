pub mod contract;
pub mod error;
pub mod execute;
pub mod fees;
pub mod invariants;
pub mod keys;
pub mod laws;
pub mod math;
pub mod models;
pub mod msg;
pub mod paging;
pub mod query;
pub mod records;
pub mod state;
pub mod store;
pub mod text;
