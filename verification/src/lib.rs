//! Verified core of a fuel-card network: the byte protocol spoken between
//! the company administrator, the replicated central servers and the
//! regional servers, and the decision logic of the central servers' ring.

pub mod bytes;
pub mod messages;
pub mod fmt;
pub mod election;
pub mod text;
pub mod regional_registry;
pub mod transaction;
pub mod cli;
pub mod client_listener;
pub mod regional;
pub mod commands;
pub mod gas_station;
pub mod pump;
pub mod book;
pub mod account_data;
pub mod account_db;
pub mod replication;
pub mod ranking;
