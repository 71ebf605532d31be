//! p2ptokens: the verified core of a peer-to-peer inference exchange.

pub mod adapters;
pub mod api;
pub mod auth;
pub mod client;
pub mod clock;
pub mod config;
pub mod coordinator;
pub mod crypto;
pub mod files;
pub mod http;
pub mod leecher;
pub mod node;
pub mod tables;
pub mod protocol;
pub mod receipts;
pub mod seeder;
pub mod text;
pub mod threads;
pub mod types;
