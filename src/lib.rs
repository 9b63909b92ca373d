pub mod types;
pub mod text;
pub mod order;
pub mod balance;
pub mod split;
pub mod state;
pub mod distribute;
pub mod registry;
pub mod governance;
pub mod reconcile;
pub mod migrate;
pub mod laws;
pub mod contract;
