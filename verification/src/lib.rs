//! A proxy account whose admins relay any message, and let other accounts, the
//! subkeys, relay some: an allowance of native coins covers bank sends, and a
//! set of permissions covers staking and distribution messages.

pub mod text;
pub mod types;
pub mod balance;
pub mod error;
pub mod pages;
pub mod json;
pub mod state;
pub mod msg;
pub mod admin;
pub mod keys;
pub mod contract;
pub mod laws;
pub mod behaviour;
