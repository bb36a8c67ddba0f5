//! Messages exchanged between the company administrator, the central
//! servers and the regional servers, with their byte encodings.

pub mod account_details;
pub mod data;
pub mod data_response;
pub mod probe_response;
pub mod protocol;
pub mod query_data;
pub mod register_account;
pub mod register_card;
pub mod remove_regions;
pub mod update_data;
pub mod update_regions;
