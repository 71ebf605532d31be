//! Co-receipts: the trustless metering mechanism. After each streamed chunk
//! the consumer signs a receipt acknowledging the cumulative output-token
//! count; the provider settles the highest one with the coordinator.

use vstd::prelude::*;
use vstd::string::{StrSliceExecFns, StringExecFns};

use crate::crypto::{
    base64_decoding, base64_encoding, decode_signature, ed25519_signature, ed25519_valid,
    encode_signature, peer_id_text_valid, peer_text_of, public_of, sign, verify, CryptoError,
    Identity, PubKey,
};
use crate::text::{decimal, lemma_decimal_digits, lemma_decimal_injective, lemma_split_at_newline, push_char, string_of, u64_to_decimal};

verus! {

/// The signed content of a receipt.
#[derive(Debug, Clone)]
pub struct ReceiptBody {
    pub job_id: String,
    /// consumer peer id
    pub consumer: String,
    /// provider peer id
    pub provider: String,
    /// the model key served
    pub model: String,
    pub seq: u64,
    pub cumulative_tokens: u64,
    /// consumer-provided timestamp (ms)
    pub ts: u64,
}

/// A receipt with the consumer's signature over its canonical body.
#[derive(Debug, Clone)]
pub struct SignedReceipt {
    pub body: ReceiptBody,
    pub consumer_sig: String,
    pub provider_sig: Option<String>,
}

/// The canonical text of a receipt body: its fields, one per line.
pub open spec fn receipt_text(b: ReceiptBody) -> Seq<char> {
    b.job_id@ + seq!['\n'] + b.consumer@ + seq!['\n'] + b.provider@ + seq!['\n'] + b.model@
        + seq!['\n'] + decimal(b.seq as nat) + seq!['\n'] + decimal(b.cumulative_tokens as nat)
        + seq!['\n'] + decimal(b.ts as nat)
}

fn push_line(s: &mut String, field: &[char])
    ensures
        final(s)@ == old(s)@ + seq!['\n'] + field@,
{
    push_char(s, '\n');
    let t = string_of(field);
    s.append(t.as_str());
}

impl ReceiptBody {
    /// Deterministic byte encoding for signing and verification: the UTF-8
    /// bytes of the canonical text.
    pub fn canonical(&self) -> (r: Vec<u8>)
        ensures
            r@ == vstd::utf8::encode_utf8(receipt_text(*self)),
    {
        let mut s = self.job_id.clone();
        let consumer = crate::text::chars_of(self.consumer.as_str());
        push_line(&mut s, consumer.as_slice());
        let provider = crate::text::chars_of(self.provider.as_str());
        push_line(&mut s, provider.as_slice());
        let model = crate::text::chars_of(self.model.as_str());
        push_line(&mut s, model.as_slice());
        push_line(&mut s, u64_to_decimal(self.seq).as_slice());
        push_line(&mut s, u64_to_decimal(self.cumulative_tokens).as_slice());
        push_line(&mut s, u64_to_decimal(self.ts).as_slice());
        assert(s@ =~= receipt_text(*self));
        s.as_str().as_bytes_vec()
    }
}

/// The canonical bytes of a receipt body, which the consumer signs.
pub open spec fn receipt_bytes(b: ReceiptBody) -> Seq<u8> {
    vstd::utf8::encode_utf8(receipt_text(b))
}

/// The canonical text of a body written as its first field, a newline and
/// the rest.
proof fn lemma_text_shape(b: ReceiptBody)
    ensures
        receipt_text(b) == b.job_id@ + seq!['\n'] + (b.consumer@ + seq!['\n'] + (b.provider@
            + seq!['\n'] + (b.model@ + seq!['\n'] + (decimal(b.seq as nat) + seq!['\n'] + (
        decimal(b.cumulative_tokens as nat) + seq!['\n'] + decimal(b.ts as nat)))))),
{
    assert(receipt_text(b) =~= b.job_id@ + seq!['\n'] + (b.consumer@ + seq!['\n'] + (b.provider@
        + seq!['\n'] + (b.model@ + seq!['\n'] + (decimal(b.seq as nat) + seq!['\n'] + (
    decimal(b.cumulative_tokens as nat) + seq!['\n'] + decimal(b.ts as nat)))))));
}

#[verifier::spinoff_prover]
proof fn lemma_text_injective(a: ReceiptBody, b: ReceiptBody)
    requires
        receipt_text(a) == receipt_text(b),
        !a.job_id@.contains('\n'),
        !a.consumer@.contains('\n'),
        !a.provider@.contains('\n'),
        !a.model@.contains('\n'),
        !b.job_id@.contains('\n'),
        !b.consumer@.contains('\n'),
        !b.provider@.contains('\n'),
        !b.model@.contains('\n'),
    ensures
        a.job_id@ == b.job_id@ && a.consumer@ == b.consumer@ && a.provider@ == b.provider@
            && a.model@ == b.model@ && a.seq == b.seq && a.cumulative_tokens == b.cumulative_tokens
            && a.ts == b.ts,
{
    let nl = seq!['\n'];
    let (sa, ca, ta) = (decimal(a.seq as nat), decimal(a.cumulative_tokens as nat), decimal(a.ts as nat));
    let (sb, cb, tb) = (decimal(b.seq as nat), decimal(b.cumulative_tokens as nat), decimal(b.ts as nat));
    lemma_decimal_digits(a.seq as nat);
    lemma_decimal_digits(a.cumulative_tokens as nat);
    lemma_decimal_digits(b.seq as nat);
    lemma_decimal_digits(b.cumulative_tokens as nat);
    let ra5 = ca + nl + ta;
    let rb5 = cb + nl + tb;
    let ra4 = sa + nl + ra5;
    let rb4 = sb + nl + rb5;
    let ra3 = a.model@ + nl + ra4;
    let rb3 = b.model@ + nl + rb4;
    let ra2 = a.provider@ + nl + ra3;
    let rb2 = b.provider@ + nl + rb3;
    let ra1 = a.consumer@ + nl + ra2;
    let rb1 = b.consumer@ + nl + rb2;
    lemma_text_shape(a);
    lemma_text_shape(b);
    lemma_split_at_newline(a.job_id@, ra1, b.job_id@, rb1);
    lemma_split_at_newline(a.consumer@, ra2, b.consumer@, rb2);
    lemma_split_at_newline(a.provider@, ra3, b.provider@, rb3);
    lemma_split_at_newline(a.model@, ra4, b.model@, rb4);
    lemma_split_at_newline(sa, ra5, sb, rb5);
    lemma_split_at_newline(ca, ta, cb, tb);
    lemma_decimal_injective(a.seq as nat, b.seq as nat);
    lemma_decimal_injective(a.cumulative_tokens as nat, b.cumulative_tokens as nat);
    lemma_decimal_injective(a.ts as nat, b.ts as nat);
}

/// Distinct bodies sign distinct bytes: on bodies whose text fields hold no
/// newline, equal canonical bytes mean equal fields, so changing any signed
/// field changes what is signed.
pub proof fn lemma_canonical_injective(a: ReceiptBody, b: ReceiptBody)
    requires
        !a.job_id@.contains('\n'),
        !a.consumer@.contains('\n'),
        !a.provider@.contains('\n'),
        !a.model@.contains('\n'),
        !b.job_id@.contains('\n'),
        !b.consumer@.contains('\n'),
        !b.provider@.contains('\n'),
        !b.model@.contains('\n'),
    ensures
        receipt_bytes(a) == receipt_bytes(b) <==> (a.job_id@ == b.job_id@ && a.consumer@
            == b.consumer@ && a.provider@ == b.provider@ && a.model@ == b.model@ && a.seq == b.seq
            && a.cumulative_tokens == b.cumulative_tokens && a.ts == b.ts),
{
    if receipt_bytes(a) == receipt_bytes(b) {
        vstd::utf8::encode_utf8_decode_utf8(receipt_text(a));
        vstd::utf8::encode_utf8_decode_utf8(receipt_text(b));
        lemma_text_injective(a, b);
    }
}

/// The receipt is authentic: the signature text is base64 of a valid
/// signature over the body's canonical bytes by the key `pk`, and `pk` is the
/// key of the consumer the body names.
pub open spec fn receipt_authentic(b: ReceiptBody, sig_text: Seq<char>, pk: Seq<u8>) -> bool {
    &&& base64_decoding(sig_text) matches Some(s) && ed25519_valid(pk, receipt_bytes(b), s)
    &&& b.consumer@ == peer_text_of(pk)
}

/// The consumer signs a receipt body: the base64 signature over its
/// canonical bytes. A body naming the signer as consumer is then authentic.
pub fn sign_receipt(kp: &Identity, body: &ReceiptBody) -> (r: Result<String, CryptoError>)
    ensures
        r matches Ok(s) && s@ == base64_encoding(ed25519_signature(kp@, receipt_bytes(*body)))
            && base64_decoding(s@) == Some(ed25519_signature(kp@, receipt_bytes(*body))),
        r matches Ok(s) && (body.consumer@ == peer_text_of(public_of(kp@)) ==> receipt_authentic(
            *body,
            s@,
            public_of(kp@),
        )),
{
    let sig = match sign(kp, body.canonical().as_slice()) {
        Ok(sig) => sig,
        Err(e) => return Err(e),
    };
    encode_signature(sig.as_slice())
}

/// Verify the consumer signature on a receipt, given the consumer's public
/// key: the signature must be base64, valid over the canonical bytes, and
/// made by the key of the consumer the body names. False on any malformed
/// field.
pub fn verify_receipt(body: &ReceiptBody, sig_b64: &str, consumer_pk: &PubKey) -> (r: bool)
    ensures
        r == receipt_authentic(*body, sig_b64@, consumer_pk@),
        r ==> peer_id_text_valid(body.consumer@),
{
    let sig = match decode_signature(sig_b64) {
        Some(s) => s,
        None => return false,
    };
    verify(body.consumer.as_str(), consumer_pk, body.canonical().as_slice(), sig.as_slice())
}

fn same_text(a: &String, b: &str) -> (r: bool)
    ensures
        r == (a@ == b@),
{
    let x = crate::text::chars_of(a.as_str());
    let y = crate::text::chars_of(b);
    crate::text::chars_eq(x.as_slice(), y.as_slice())
}

/// Full settlement validation: the participants and job id match what is
/// expected and the consumer signature verifies.
pub fn verify_settlement(
    r: &SignedReceipt,
    consumer_pk: &PubKey,
    expect_job: &str,
    expect_consumer: &str,
    expect_provider: &str,
) -> (ok: bool)
    ensures
        ok == (r.body.job_id@ == expect_job@ && r.body.consumer@ == expect_consumer@
            && r.body.provider@ == expect_provider@ && receipt_authentic(
            r.body,
            r.consumer_sig@,
            consumer_pk@,
        )),
        ok ==> peer_id_text_valid(r.body.consumer@),
{
    same_text(&r.body.job_id, expect_job) && same_text(&r.body.consumer, expect_consumer)
        && same_text(&r.body.provider, expect_provider) && verify_receipt(
        &r.body,
        r.consumer_sig.as_str(),
        consumer_pk,
    )
}

} // verus!
