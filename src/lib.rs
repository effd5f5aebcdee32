pub mod chef;
pub mod laws;
pub mod ledger;
pub mod reward;
pub mod types;
pub mod word;
