//! Event-sourced double-entry bookkeeping: an append-only journal of actions,
//! a validated per-organization ledger built from it, and reports that total
//! debits and credits per currency up the account hierarchy.
pub mod decimal;
mod ids;
pub mod journal;
pub mod ledger;
pub mod organizations;
pub mod report;
