//! The coordinator's tracker API messages, shared by client and coordinator.

use vstd::prelude::*;

use crate::receipts::SignedReceipt;
use crate::types::{Match, ModelId};

verus! {

/// Provider submits the final consumer-signed receipt to settle a job.
#[derive(Debug, Clone)]
pub struct SettleRequest {
    pub receipt: SignedReceipt,
    /// consumer's public key (base64 protobuf) so the coordinator can verify
    pub consumer_pubkey: String,
    /// whether the job streamed to completion (feeds audit pass/fail)
    pub completed: bool,
}

#[derive(Debug, Clone)]
pub struct SettleResponse {
    pub accepted: bool,
    pub provider_served_total: u64,
    pub consumer_consumed_total: u64,
}

#[derive(Debug, Clone)]
pub struct ErrorResponse {
    pub error: String,
}

/// Ask for up to `count` distinct providers for the same model (fan-out).
#[derive(Debug, Clone)]
pub struct MatchManyRequest {
    pub consumer: String,
    pub model: ModelId,
    pub count: u32,
}

/// Answer to a fan-out request; `matches` may be shorter than asked.
#[derive(Debug, Clone)]
pub enum MatchManyResponse {
    Matched { matches: Vec<Match> },
    RatioExceeded,
}

/// Answer to a match request: a match, or why none was given.
#[derive(Debug, Clone)]
pub enum MatchResponse {
    Matched(Match),
    /// no live seeder for the requested model
    NoProvider,
    /// the consumer must serve more to restore its ratio before leeching
    RatioExceeded,
}

} // verus!
