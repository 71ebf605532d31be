//! The peer-to-peer completion protocol between a consumer and a provider:
//! length-prefixed messages (a big-endian `u32` length, then the body).

use vstd::prelude::*;

use crate::receipts::SignedReceipt;
use crate::types::{ChatCompletionParams, ChatMessage};

verus! {

/// Protocol id negotiated on the stream.
pub const COMPLETION_PROTOCOL: &'static str = "/p2ptokens/completion/1.0.0";

/// Largest accepted message body, in bytes.
pub const MAX_FRAME: usize = 8 * 1024 * 1024;

/// A message of the completion protocol.
#[derive(Debug, Clone)]
pub enum Wire {
    /// consumer -> provider: opens the job
    Request {
        job_id: String,
        model: String,
        /// consumer's public key (base64 protobuf) for verifying receipts
        consumer_pubkey: String,
        messages: Vec<ChatMessage>,
        params: ChatCompletionParams,
    },
    /// provider -> consumer: a streamed chunk of output
    Chunk { seq: u64, text: String, cumulative_tokens: u64 },
    /// provider -> consumer: generation finished
    Done { finish_reason: String, cumulative_tokens: u64 },
    /// provider -> consumer: fatal error serving the job
    Error { message: String },
    /// consumer -> provider: signed acknowledgement of tokens received
    Receipt { receipt: SignedReceipt },
}

/// The 4-byte big-endian encoding of `n`.
pub open spec fn be32(n: u32) -> Seq<u8> {
    seq![
        (n / 0x100_0000) as u8,
        ((n / 0x1_0000) % 0x100) as u8,
        ((n / 0x100) % 0x100) as u8,
        (n % 0x100) as u8,
    ]
}

/// The value of a 4-byte big-endian header.
pub open spec fn be32_value(h: Seq<u8>) -> nat {
    ((h[0] as nat * 0x100 + h[1] as nat) * 0x100 + h[2] as nat) * 0x100 + h[3] as nat
}

/// A framed message: the body's length (truncated to 32 bits, as the sender
/// writes it) in big-endian, then the body.
pub open spec fn frame(body: Seq<u8>) -> Seq<u8> {
    be32((body.len() % 0x1_0000_0000) as u32) + body
}

/// Frame a message body for the wire.
pub fn encode_frame(body: &[u8]) -> (r: Vec<u8>)
    ensures
        r@ == frame(body@),
{
    let len: u64 = body.len() as u64;
    let n: u32 = #[verifier::truncate] (len as u32);
    assert(n == len % 0x1_0000_0000u64) by (bit_vector)
        requires
            n == (len as u32),
    ;
    let mut r: Vec<u8> = Vec::new();
    r.push((n / 0x100_0000) as u8);
    r.push(((n / 0x1_0000) % 0x100) as u8);
    r.push(((n / 0x100) % 0x100) as u8);
    r.push((n % 0x100) as u8);
    let mut i: usize = 0;
    while i < body.len()
        invariant
            i <= body@.len(),
            r@ == be32(n) + body@.subrange(0, i as int),
        decreases body@.len() - i,
    {
        r.push(body[i]);
        i = i + 1;
        assert(r@ =~= be32(n) + body@.subrange(0, i as int));
    }
    assert(body@.subrange(0, body@.len() as int) =~= body@);
    r
}

/// Why a frame header is refused.
#[derive(Debug, Clone, Copy, PartialEq, Eq, Structural)]
pub enum FrameError {
    /// the announced body is larger than `MAX_FRAME`
    TooLarge { len: u32 },
}

/// The body length a frame header announces, refused above `MAX_FRAME`.
pub fn frame_len(header: [u8; 4]) -> (r: Result<usize, FrameError>)
    ensures
        be32_value(header@) <= MAX_FRAME ==> r == Ok::<usize, FrameError>(
            be32_value(header@) as usize,
        ),
        be32_value(header@) > MAX_FRAME ==> r == Err::<usize, FrameError>(
            FrameError::TooLarge { len: be32_value(header@) as u32 },
        ),
{
    let n: u32 = ((header[0] as u32 * 0x100 + header[1] as u32) * 0x100 + header[2] as u32)
        * 0x100 + header[3] as u32;
    if n as usize > MAX_FRAME {
        Err(FrameError::TooLarge { len: n })
    } else {
        Ok(n as usize)
    }
}

proof fn lemma_be32_value(n: u32)
    ensures
        be32_value(be32(n)) == n,
{
    let b0 = n / 0x100_0000;
    let b1 = (n / 0x1_0000) % 0x100;
    let b2 = (n / 0x100) % 0x100;
    let b3 = n % 0x100;
    assert(((b0 * 0x100 + b1) * 0x100 + b2) * 0x100 + b3 == n) by (bit_vector)
        requires
            b0 == n / 0x100_0000,
            b1 == (n / 0x1_0000) % 0x100,
            b2 == (n / 0x100) % 0x100,
            b3 == n % 0x100,
    ;
    assert(b0 < 0x100) by (bit_vector)
        requires
            b0 == n / 0x100_0000,
    ;
}

/// Framing round-trips: the header of a framed body announces the body's
/// length, and the body follows the header unchanged.
pub proof fn lemma_frame_roundtrip(body: Seq<u8>)
    requires
        body.len() < 0x1_0000_0000,
    ensures
        frame(body).len() == body.len() + 4,
        be32_value(frame(body).take(4)) == body.len(),
        frame(body).skip(4) == body,
{
    let n = (body.len() % 0x1_0000_0000) as u32;
    assert(n == body.len());
    lemma_be32_value(n);
    assert(frame(body).take(4) =~= be32(n));
    assert(frame(body).skip(4) =~= body);
}

} // verus!
