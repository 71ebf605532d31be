//! Identity and signing. One ed25519 keypair is a peer's single identity, for
//! transport (its peer id) and for application-level signatures. Keys travel
//! as the base64 text of their protobuf encoding.

use base64::engine::general_purpose::STANDARD as B64;
use base64::{DecodeError, Engine};
use libp2p_identity::{DecodingError, Keypair, ParseError, PeerId, PublicKey};
use vstd::prelude::*;

use crate::text::{is_ws, str_eq, string_of, trim, trim_end, trim_start, trimmed};

verus! {

#[verifier::external_type_specification]
#[verifier::external_body]
pub struct ExKeypair(Keypair);

#[verifier::external_type_specification]
#[verifier::external_body]
pub struct ExPublicKey(PublicKey);

#[verifier::external_type_specification]
#[verifier::external_body]
pub struct ExPeerId(PeerId);

#[verifier::external_type_specification]
#[verifier::external_body]
pub struct ExDecodingError(DecodingError);

#[verifier::external_type_specification]
#[verifier::external_body]
pub struct ExParseError(ParseError);

#[verifier::external_type_specification]
#[verifier::external_body]
pub struct ExDecodeError(DecodeError);

// ---- base64 (standard alphabet, padded) ----

/// The base64 symbol for a 6-bit value.
pub open spec fn b64_symbol(v: int) -> char {
    if v < 26 {
        (65 + v) as char
    } else if v < 52 {
        (97 + (v - 26)) as char
    } else if v < 62 {
        (48 + (v - 52)) as char
    } else if v == 62 {
        '+'
    } else {
        '/'
    }
}

/// Standard padded base64 encoding of a byte string.
pub open spec fn base64_encoding(b: Seq<u8>) -> Seq<char>
    decreases b.len(),
{
    if b.len() == 0 {
        Seq::empty()
    } else if b.len() == 1 {
        seq![b64_symbol(b[0] as int / 4), b64_symbol((b[0] as int % 4) * 16), '=', '=']
    } else if b.len() == 2 {
        seq![
            b64_symbol(b[0] as int / 4),
            b64_symbol((b[0] as int % 4) * 16 + b[1] as int / 16),
            b64_symbol((b[1] as int % 16) * 4),
            '=',
        ]
    } else {
        seq![
            b64_symbol(b[0] as int / 4),
            b64_symbol((b[0] as int % 4) * 16 + b[1] as int / 16),
            b64_symbol((b[1] as int % 16) * 4 + b[2] as int / 64),
            b64_symbol(b[2] as int % 64),
        ] + base64_encoding(b.skip(3))
    }
}

/// What standard padded base64 decoding yields for a text: the bytes whose
/// encoding it is, or `None` when it is the encoding of none (the standard
/// engine requires padding and rejects stray trailing bits, so it accepts
/// exactly the texts `base64_encoding` produces).
pub open spec fn base64_decoding(text: Seq<char>) -> Option<Seq<u8>> {
    if exists|b: Seq<u8>| #[trigger] base64_encoding(b) == text {
        Some(choose|b: Seq<u8>| #[trigger] base64_encoding(b) == text)
    } else {
        None
    }
}

/// The base64 encoder does not overflow its length computation.
pub open spec fn encodable_len(n: nat) -> bool {
    (n + 2) / 3 * 4 <= usize::MAX
}

/// Whether `n` bytes can be base64-encoded without overflowing the length.
pub fn fits_base64(n: usize) -> (r: bool)
    ensures
        r == encodable_len(n as nat),
{
    let chunks: usize = n / 3 + if n % 3 > 0 { 1 } else { 0 };
    assert(chunks == (n + 2) / 3);
    chunks <= usize::MAX / 4
}

/// `Engine::encode` with the standard engine: the padded base64 text of the
/// bytes.
#[verifier::external_body]
fn b64_encode(bytes: &[u8]) -> (r: String)
    requires
        encodable_len(bytes@.len()),
    ensures
        r@ == base64_encoding(bytes@),
{
    B64.encode(bytes)
}

/// `Engine::decode` with the standard engine.
#[verifier::external_body]
pub(crate) fn b64_decode(text: &str) -> (r: Result<Vec<u8>, DecodeError>)
    ensures
        match r {
            Ok(v) => base64_decoding(text@) == Some(v@),
            Err(_) => base64_decoding(text@) is None,
        },
{
    B64.decode(text)
}

/// Distinct 6-bit values get distinct symbols, none of them the pad `=`.
proof fn lemma_symbol_injective(v: int, w: int)
    requires
        0 <= v < 64,
        0 <= w < 64,
    ensures
        b64_symbol(v) != '=',
        b64_symbol(v) == b64_symbol(w) ==> v == w,
{
    broadcast use vstd::utf8::char_u32_cast;

    let c = b64_symbol(v);
    let d = b64_symbol(w);
    if v < 26 {
        assert(c as u32 == 65 + v);
    } else if v < 52 {
        assert(c as u32 == 97 + (v - 26));
    } else if v < 62 {
        assert(c as u32 == 48 + (v - 52));
    }
    if w < 26 {
        assert(d as u32 == 65 + w);
    } else if w < 52 {
        assert(d as u32 == 97 + (w - 26));
    } else if w < 62 {
        assert(d as u32 == 48 + (w - 52));
    }
}

/// The symbols of a full group determine its three bytes.
proof fn lemma_group_injective(a0: u8, a1: u8, a2: u8, b0: u8, b1: u8, b2: u8)
    requires
        a0 / 4 == b0 / 4,
        (a0 % 4) * 16 + a1 / 16 == (b0 % 4) * 16 + b1 / 16,
        (a1 % 16) * 4 + a2 / 64 == (b1 % 16) * 4 + b2 / 64,
        a2 % 64 == b2 % 64,
    ensures
        a0 == b0 && a1 == b1 && a2 == b2,
{
    assert(a0 == b0 && a1 == b1 && a2 == b2) by (nonlinear_arith)
        requires
            a0 / 4 == b0 / 4,
            (a0 % 4) * 16 + a1 / 16 == (b0 % 4) * 16 + b1 / 16,
            (a1 % 16) * 4 + a2 / 64 == (b1 % 16) * 4 + b2 / 64,
            a2 % 64 == b2 % 64,
            a0 < 256,
            a1 < 256,
            a2 < 256,
            b0 < 256,
            b1 < 256,
            b2 < 256,
    ;
}

proof fn lemma_encoding_len(b: Seq<u8>)
    ensures
        b.len() == 0 <==> base64_encoding(b).len() == 0,
        1 <= b.len() <= 3 ==> base64_encoding(b).len() == 4,
        b.len() > 3 ==> base64_encoding(b).len() > 4,
    decreases b.len(),
{
    if b.len() >= 3 {
        lemma_encoding_len(b.skip(3));
    }
}

/// Base64 encoding is injective: a text is the encoding of at most one byte
/// string, so decoding gives back exactly what was encoded.
pub proof fn lemma_base64_injective(a: Seq<u8>, b: Seq<u8>)
    requires
        base64_encoding(a) == base64_encoding(b),
    ensures
        a == b,
    decreases a.len(),
{
    let e = base64_encoding(a);
    lemma_encoding_len(a);
    lemma_encoding_len(b);
    if a.len() == 0 || b.len() == 0 {
        return;
    }
    let (x0, y0) = (a[0] as int / 4, b[0] as int / 4);
    assert(e[0] == b64_symbol(x0) && e[0] == b64_symbol(y0));
    lemma_symbol_injective(x0, y0);
    if a.len() >= 3 && b.len() >= 3 {
        let f = base64_encoding(b);
        let (x1, y1) = ((a[0] as int % 4) * 16 + a[1] as int / 16, (b[0] as int % 4) * 16 + b[1] as int / 16);
        let (x2, y2) = ((a[1] as int % 16) * 4 + a[2] as int / 64, (b[1] as int % 16) * 4 + b[2] as int / 64);
        let (x3, y3) = (a[2] as int % 64, b[2] as int % 64);
        assert(e[1] == b64_symbol(x1) && f[1] == b64_symbol(y1));
        assert(e[2] == b64_symbol(x2) && f[2] == b64_symbol(y2));
        assert(e[3] == b64_symbol(x3) && f[3] == b64_symbol(y3));
        lemma_symbol_injective(x1, y1);
        lemma_symbol_injective(x2, y2);
        lemma_symbol_injective(x3, y3);
        lemma_group_injective(a[0], a[1], a[2], b[0], b[1], b[2]);
        assert(base64_encoding(a.skip(3)) =~= e.skip(4));
        assert(base64_encoding(b.skip(3)) =~= base64_encoding(b).skip(4));
        lemma_base64_injective(a.skip(3), b.skip(3));
        assert(a =~= a.take(3) + a.skip(3));
        assert(b =~= b.take(3) + b.skip(3));
        assert(a.take(3) =~= b.take(3));
    } else if a.len() >= 3 || b.len() >= 3 {
        // a short group ends in padding, a full one in a symbol
        if a.len() >= 3 {
            lemma_symbol_injective(a[2] as int % 64, 0);
            assert(e[3] == b64_symbol(a[2] as int % 64));
            assert(base64_encoding(b)[3] == '=');
        } else {
            lemma_symbol_injective(b[2] as int % 64, 0);
            assert(base64_encoding(b)[3] == b64_symbol(b[2] as int % 64));
            assert(e[3] == '=');
        }
    } else if a.len() != b.len() {
        if a.len() == 2 {
            lemma_symbol_injective((a[1] as int % 16) * 4, 0);
            assert(e[2] == b64_symbol((a[1] as int % 16) * 4));
            assert(base64_encoding(b)[2] == '=');
        } else {
            lemma_symbol_injective((b[1] as int % 16) * 4, 0);
            assert(base64_encoding(b)[2] == b64_symbol((b[1] as int % 16) * 4));
            assert(e[2] == '=');
        }
    } else if a.len() == 1 {
        let f = base64_encoding(b);
        assert(e[1] == b64_symbol((a[0] as int % 4) * 16) && f[1] == b64_symbol((b[0] as int % 4) * 16));
        lemma_symbol_injective((a[0] as int % 4) * 16, (b[0] as int % 4) * 16);
        assert(a[0] == b[0]) by (nonlinear_arith)
            requires
                a[0] / 4 == b[0] / 4,
                (a[0] % 4) * 16 == (b[0] % 4) * 16,
        ;
        assert(a =~= b);
    } else {
        let f = base64_encoding(b);
        let (x1, y1) = ((a[0] as int % 4) * 16 + a[1] as int / 16, (b[0] as int % 4) * 16 + b[1] as int / 16);
        assert(e[1] == b64_symbol(x1) && f[1] == b64_symbol(y1));
        assert(e[2] == b64_symbol((a[1] as int % 16) * 4) && f[2] == b64_symbol((b[1] as int % 16) * 4));
        lemma_symbol_injective(x1, y1);
        lemma_symbol_injective((a[1] as int % 16) * 4, (b[1] as int % 16) * 4);
        lemma_group_injective(a[0], a[1], 0, b[0], b[1], 0);
        assert(a =~= b);
    }
}

/// A text that is the encoding of `b` decodes to `b`.
pub proof fn lemma_base64_roundtrip(b: Seq<u8>)
    ensures
        base64_decoding(base64_encoding(b)) == Some(b),
{
    let t = base64_encoding(b);
    assert(exists|x: Seq<u8>| #[trigger] base64_encoding(x) == t);
    let c = choose|x: Seq<u8>| #[trigger] base64_encoding(x) == t;
    lemma_base64_injective(c, b);
}

proof fn lemma_symbol_not_ws(v: int)
    requires
        0 <= v < 64,
    ensures
        !is_ws(b64_symbol(v)),
{
    broadcast use vstd::utf8::char_u32_cast;

    let c = b64_symbol(v);
    if v < 26 {
        assert(c as u32 == 65 + v);
    } else if v < 52 {
        assert(c as u32 == 97 + (v - 26));
    } else if v < 62 {
        assert(c as u32 == 48 + (v - 52));
    }
}

proof fn lemma_base64_symbols_not_ws(b: Seq<u8>)
    ensures
        forall|i: int| 0 <= i < base64_encoding(b).len() ==> !is_ws(#[trigger] base64_encoding(b)[i]),
    decreases b.len(),
{
    let e = base64_encoding(b);
    if b.len() == 1 {
        lemma_symbol_not_ws(b[0] as int / 4);
        lemma_symbol_not_ws((b[0] as int % 4) * 16);
    } else if b.len() == 2 {
        lemma_symbol_not_ws(b[0] as int / 4);
        lemma_symbol_not_ws((b[0] as int % 4) * 16 + b[1] as int / 16);
        lemma_symbol_not_ws((b[1] as int % 16) * 4);
    } else if b.len() >= 3 {
        lemma_symbol_not_ws(b[0] as int / 4);
        lemma_symbol_not_ws((b[0] as int % 4) * 16 + b[1] as int / 16);
        lemma_symbol_not_ws((b[1] as int % 16) * 4 + b[2] as int / 64);
        lemma_symbol_not_ws(b[2] as int % 64);
        lemma_base64_symbols_not_ws(b.skip(3));
        let head = seq![
            b64_symbol(b[0] as int / 4),
            b64_symbol((b[0] as int % 4) * 16 + b[1] as int / 16),
            b64_symbol((b[1] as int % 16) * 4 + b[2] as int / 64),
            b64_symbol(b[2] as int % 64),
        ];
        assert(e == head + base64_encoding(b.skip(3)));
        assert forall|i: int| 0 <= i < e.len() implies !is_ws(#[trigger] e[i]) by {
            if i >= 4 {
                assert(e[i] == base64_encoding(b.skip(3))[i - 4]);
            }
        }
    }
}

/// Base64 text carries no whitespace, so trimming leaves it unchanged.
pub proof fn lemma_base64_trim(b: Seq<u8>)
    ensures
        trim(base64_encoding(b)) == base64_encoding(b),
{
    let e = base64_encoding(b);
    lemma_base64_symbols_not_ws(b);
    if e.len() > 0 {
        assert(!is_ws(e[0]));
        assert(trim_start(e) == e);
        assert(!is_ws(e.last()));
        assert(trim_end(e) == e);
    } else {
        assert(trim_start(e) == e);
        assert(trim_end(e) == e);
    }
}

// ---- keys ----

/// Whether `PublicKey::try_decode_protobuf` accepts these bytes.
pub uninterp spec fn pubkey_bytes_valid(bytes: Seq<u8>) -> bool;

/// Whether `Keypair::from_protobuf_encoding` accepts these bytes.
pub uninterp spec fn keypair_bytes_valid(bytes: Seq<u8>) -> bool;

/// Whether `PeerId::from_str` accepts this text.
pub uninterp spec fn peer_id_text_valid(text: Seq<char>) -> bool;

/// The signature `Keypair::sign` makes over `msg` with the keypair whose
/// protobuf encoding is `secret`.
pub uninterp spec fn ed25519_signature(secret: Seq<u8>, msg: Seq<u8>) -> Seq<u8>;

/// Whether `PublicKey::verify` accepts `sig` over `msg` for the public key whose
/// protobuf encoding is `pk`.
pub uninterp spec fn ed25519_valid(pk: Seq<u8>, msg: Seq<u8>, sig: Seq<u8>) -> bool;

/// The protobuf encoding of the public key of the keypair encoded as `secret`
/// (`Keypair::public`, then `PublicKey::encode_protobuf`).
pub uninterp spec fn public_of(secret: Seq<u8>) -> Seq<u8>;

/// The base58 text of the peer id of the public key encoded as `pk`
/// (`PublicKey::to_peer_id`, then `PeerId`'s `Display`).
pub uninterp spec fn peer_text_of(pk: Seq<u8>) -> Seq<char>;

/// `Keypair::generate_ed25519`, then `Keypair::to_protobuf_encoding`: the
/// encoding of a fresh random keypair. With the Ed25519 key type alone built
/// in, the encoding succeeds and is the `PrivateKey` message with the type tag
/// (2 bytes) and the 64-byte key data (2 bytes of header): 68 bytes, which
/// decode back to the keypair. Which key comes out is left to chance.
#[verifier::external_body]
fn fresh_keypair_bytes() -> (r: Vec<u8>)
    ensures
        keypair_bytes_valid(r@),
        r@.len() == 68,
{
    match Keypair::generate_ed25519().to_protobuf_encoding() {
        Ok(v) => v,
        Err(_) => Vec::new(),
    }
}

/// `Keypair::from_protobuf_encoding`.
#[verifier::external_body]
fn keypair_decode(bytes: &[u8]) -> (r: Result<Keypair, DecodingError>)
    ensures
        r is Ok <==> keypair_bytes_valid(bytes@),
{
    Keypair::from_protobuf_encoding(bytes)
}

/// `Keypair::sign` with the keypair encoded as `secret` (decoded with
/// `Keypair::from_protobuf_encoding`, which accepts it by `requires`). The
/// key is an Ed25519 one, the only type built in, so signing cannot fail and
/// gives 64 bytes. The crate's documentation promises that the keypair's own
/// public key accepts the signature over the same message: the last clause.
#[verifier::external_body]
fn keypair_sign(secret: &[u8], msg: &[u8]) -> (r: Vec<u8>)
    requires
        keypair_bytes_valid(secret@),
    ensures
        r@ == ed25519_signature(secret@, msg@),
        r@.len() == 64,
        ed25519_valid(public_of(secret@), msg@, r@),
{
    match Keypair::from_protobuf_encoding(secret) {
        Ok(kp) => match kp.sign(msg) {
            Ok(sig) => sig,
            Err(_) => Vec::new(),
        },
        Err(_) => Vec::new(),
    }
}

/// `Keypair::public`, then `PublicKey::encode_protobuf`, for the keypair
/// encoded as `secret`. The encoding decodes back to the public key; with the
/// Ed25519 key type alone it is the type tag (2 bytes) and the 32-byte key
/// (2 bytes of header): 36 bytes.
#[verifier::external_body]
fn keypair_public(secret: &[u8]) -> (r: Vec<u8>)
    requires
        keypair_bytes_valid(secret@),
    ensures
        r@ == public_of(secret@),
        pubkey_bytes_valid(r@),
        r@.len() == 36,
{
    match Keypair::from_protobuf_encoding(secret) {
        Ok(kp) => kp.public().encode_protobuf(),
        Err(_) => Vec::new(),
    }
}

/// `PublicKey::try_decode_protobuf`.
#[verifier::external_body]
fn pubkey_decode(bytes: &[u8]) -> (r: Result<PublicKey, DecodingError>)
    ensures
        r is Ok <==> pubkey_bytes_valid(bytes@),
{
    PublicKey::try_decode_protobuf(bytes)
}

/// `PublicKey::verify` for the public key encoded as `pk`.
#[verifier::external_body]
fn pubkey_verify(pk: &[u8], msg: &[u8], sig: &[u8]) -> (r: bool)
    requires
        pubkey_bytes_valid(pk@),
    ensures
        r == ed25519_valid(pk@, msg@, sig@),
{
    match PublicKey::try_decode_protobuf(pk) {
        Ok(k) => k.verify(msg, sig),
        Err(_) => false,
    }
}

/// `PublicKey::to_peer_id`, then `PeerId::to_string` (base58), for the public
/// key encoded as `pk`: text that parses back as a peer id.
#[verifier::external_body]
fn pubkey_peer_text(pk: &[u8]) -> (r: String)
    requires
        pubkey_bytes_valid(pk@),
    ensures
        r@ == peer_text_of(pk@),
        peer_id_text_valid(r@),
{
    match PublicKey::try_decode_protobuf(pk) {
        Ok(k) => k.to_peer_id().to_string(),
        Err(_) => String::new(),
    }
}

/// `PeerId::from_str`: parse the base58 text form of a peer id.
#[verifier::external_body]
pub(crate) fn parse_peer_id(text: &str) -> (r: Result<PeerId, ParseError>)
    ensures
        r is Ok <==> peer_id_text_valid(text@),
{
    text.parse::<PeerId>()
}

/// A peer's identity: the protobuf encoding of its Ed25519 keypair, secret
/// included.
pub struct Identity {
    secret: Vec<u8>,
}

impl View for Identity {
    type V = Seq<u8>;

    closed spec fn view(&self) -> Seq<u8> {
        self.secret@
    }
}

impl Identity {
    #[verifier::type_invariant]
    closed spec fn well_formed(self) -> bool {
        keypair_bytes_valid(self.secret@)
    }

    /// The protobuf encoding of the keypair, for the transport layer.
    pub fn secret_bytes(&self) -> (r: Vec<u8>)
        ensures
            r@ == self@,
            keypair_bytes_valid(r@),
    {
        proof {
            use_type_invariant(self);
        }
        copy_bytes(self.secret.as_slice())
    }
}

/// A public key: its protobuf encoding.
#[derive(Debug)]
pub struct PubKey {
    bytes: Vec<u8>,
}

impl View for PubKey {
    type V = Seq<u8>;

    closed spec fn view(&self) -> Seq<u8> {
        self.bytes@
    }
}

impl PubKey {
    #[verifier::type_invariant]
    closed spec fn well_formed(self) -> bool {
        pubkey_bytes_valid(self.bytes@)
    }

    /// The protobuf encoding of the key.
    pub fn as_bytes(&self) -> (r: &[u8])
        ensures
            r@ == self@,
            pubkey_bytes_valid(r@),
    {
        proof {
            use_type_invariant(self);
        }
        self.bytes.as_slice()
    }

    /// A copy of the key.
    pub fn duplicate(&self) -> (r: PubKey)
        ensures
            r@ == self@,
    {
        proof {
            use_type_invariant(self);
        }
        PubKey { bytes: copy_bytes(self.bytes.as_slice()) }
    }
}

fn copy_bytes(v: &[u8]) -> (r: Vec<u8>)
    ensures
        r@ == v@,
{
    let mut r: Vec<u8> = Vec::new();
    let mut i: usize = 0;
    while i < v.len()
        invariant
            i <= v@.len(),
            r@ == v@.subrange(0, i as int),
        decreases v@.len() - i,
    {
        r.push(v[i]);
        i = i + 1;
        assert(r@ =~= v@.subrange(0, i as int));
    }
    assert(r@ =~= v@);
    r
}

/// A fresh random identity.
pub fn generate_identity() -> (r: Identity)
    ensures
        r@.len() == 68,
{
    Identity { secret: fresh_keypair_bytes() }
}

/// Why a key or signature operation failed.
#[derive(Debug, Clone, Copy, PartialEq, Eq, Structural)]
pub enum CryptoError {
    /// the text is not valid base64
    Base64,
    /// the bytes are not a valid protobuf key
    Protobuf,
    /// the encoded key is too long to base64-encode
    TooLong,
}

/// Serialize a keypair (secret included) to base64 for on-disk storage.
pub fn export_secret(kp: &Identity) -> (r: Result<String, CryptoError>)
    ensures
        r is Ok <==> encodable_len(kp@.len()),
        r matches Ok(s) ==> s@ == base64_encoding(kp@) && base64_decoding(s@) == Some(kp@),
        keypair_bytes_valid(kp@),
        r matches Err(e) ==> e == CryptoError::TooLong,
{
    proof {
        use_type_invariant(kp);
        lemma_base64_roundtrip(kp@);
    }
    if !fits_base64(kp.secret.len()) {
        return Err(CryptoError::TooLong);
    }
    Ok(b64_encode(kp.secret.as_slice()))
}

/// Restore a keypair from its base64 protobuf encoding (surrounding
/// whitespace ignored).
pub fn import_secret(s: &str) -> (r: Result<Identity, CryptoError>)
    ensures
        match base64_decoding(trim(s@)) {
            None => r == Err::<Identity, CryptoError>(CryptoError::Base64),
            Some(b) => if keypair_bytes_valid(b) {
                r matches Ok(id) && id@ == b
            } else {
                r == Err::<Identity, CryptoError>(CryptoError::Protobuf)
            },
        },
{
    let t = string_of(trimmed(s).as_slice());
    match b64_decode(t.as_str()) {
        Ok(bytes) => match keypair_decode(bytes.as_slice()) {
            Ok(_) => Ok(Identity { secret: bytes }),
            Err(_) => Err(CryptoError::Protobuf),
        },
        Err(_) => Err(CryptoError::Base64),
    }
}

/// The peer id of a keypair (its public key's peer id), in base58 text.
pub fn peer_id(kp: &Identity) -> (r: String)
    ensures
        r@ == peer_text_of(public_of(kp@)),
        peer_id_text_valid(r@),
{
    proof {
        use_type_invariant(kp);
    }
    let pk = keypair_public(kp.secret.as_slice());
    pubkey_peer_text(pk.as_slice())
}

/// The public key of a keypair.
pub fn public_key(kp: &Identity) -> (r: PubKey)
    ensures
        r@ == public_of(kp@),
        pubkey_bytes_valid(r@),
        r@.len() == 36,
{
    proof {
        use_type_invariant(kp);
    }
    PubKey { bytes: keypair_public(kp.secret.as_slice()) }
}

/// Base64 protobuf encoding of a public key, as carried on the wire.
pub fn export_pubkey(pk: &PubKey) -> (r: Result<String, CryptoError>)
    ensures
        r is Ok <==> encodable_len(pk@.len()),
        r matches Ok(s) ==> s@ == base64_encoding(pk@) && base64_decoding(s@) == Some(pk@),
        pubkey_bytes_valid(pk@),
        r matches Err(e) ==> e == CryptoError::TooLong,
{
    proof {
        use_type_invariant(pk);
        lemma_base64_roundtrip(pk@);
    }
    if !fits_base64(pk.bytes.len()) {
        return Err(CryptoError::TooLong);
    }
    Ok(b64_encode(pk.bytes.as_slice()))
}

/// Decode a public key from its base64 protobuf text (surrounding whitespace
/// ignored).
pub fn import_pubkey(s: &str) -> (r: Result<PubKey, CryptoError>)
    ensures
        match base64_decoding(trim(s@)) {
            None => r == Err::<PubKey, CryptoError>(CryptoError::Base64),
            Some(b) => if pubkey_bytes_valid(b) {
                r matches Ok(pk) && pk@ == b
            } else {
                r == Err::<PubKey, CryptoError>(CryptoError::Protobuf)
            },
        },
{
    let t = string_of(trimmed(s).as_slice());
    match b64_decode(t.as_str()) {
        Ok(bytes) => match pubkey_decode(bytes.as_slice()) {
            Ok(_) => Ok(PubKey { bytes }),
            Err(_) => Err(CryptoError::Protobuf),
        },
        Err(_) => Err(CryptoError::Base64),
    }
}

/// Whether `pk` is the key of `peer`: the peer id derived from it is `peer`.
/// Peer ids are compared by their base58 text, which is canonical: the text
/// that `PeerId::from_str` accepts is exactly `PeerId`'s own `Display`.
pub fn owns_peer(pk: &PubKey, peer: &str) -> (r: bool)
    ensures
        r == (peer_text_of(pk@) == peer@),
        r ==> peer_id_text_valid(peer@),
{
    proof {
        use_type_invariant(pk);
    }
    let own = pubkey_peer_text(pk.bytes.as_slice());
    str_eq(own.as_str(), peer)
}

/// Sign `data` with the keypair: its 64-byte Ed25519 signature.
pub fn sign(kp: &Identity, data: &[u8]) -> (r: Result<Vec<u8>, CryptoError>)
    ensures
        r matches Ok(sig) && sig@ == ed25519_signature(kp@, data@) && sig@.len() == 64
            && ed25519_valid(public_of(kp@), data@, sig@),
{
    proof {
        use_type_invariant(kp);
    }
    Ok(keypair_sign(kp.secret.as_slice(), data))
}

/// Verify a signature and confirm the signer's public key hashes to
/// `expected`.
pub fn verify(expected: &str, pubkey: &PubKey, data: &[u8], sig: &[u8]) -> (r: bool)
    ensures
        r == (peer_text_of(pubkey@) == expected@ && ed25519_valid(pubkey@, data@, sig@)),
        r ==> peer_id_text_valid(expected@),
{
    proof {
        use_type_invariant(pubkey);
    }
    owns_peer(pubkey, expected) && pubkey_verify(pubkey.bytes.as_slice(), data, sig)
}

/// Base64-encode a signature for the wire.
pub fn encode_signature(sig: &[u8]) -> (r: Result<String, CryptoError>)
    ensures
        match r {
            Ok(s) => s@ == base64_encoding(sig@) && base64_decoding(s@) == Some(sig@),
            Err(e) => e == CryptoError::TooLong && !encodable_len(sig@.len()),
        },
{
    if !fits_base64(sig.len()) {
        return Err(CryptoError::TooLong);
    }
    proof {
        lemma_base64_roundtrip(sig@);
    }
    Ok(b64_encode(sig))
}

/// Base64-decode a signature from the wire.
pub fn decode_signature(text: &str) -> (r: Option<Vec<u8>>)
    ensures
        match r {
            Some(v) => base64_decoding(text@) == Some(v@),
            None => base64_decoding(text@) is None,
        },
{
    match b64_decode(text) {
        Ok(v) => Some(v),
        Err(_) => None,
    }
}

/// Exported secrets import again: the text `export_secret` yields for a
/// keypair decodes, whitespace around it or not, to that keypair's bytes,
/// which are a valid keypair encoding.
pub proof fn lemma_secret_roundtrip(b: Seq<u8>)
    requires
        keypair_bytes_valid(b),
    ensures
        base64_decoding(trim(base64_encoding(b))) == Some(b),
{
    lemma_base64_trim(b);
    lemma_base64_roundtrip(b);
}

/// Exported public keys import again, to the same key bytes.
pub proof fn lemma_pubkey_roundtrip(b: Seq<u8>)
    requires
        pubkey_bytes_valid(b),
    ensures
        base64_decoding(trim(base64_encoding(b))) == Some(b),
{
    lemma_base64_trim(b);
    lemma_base64_roundtrip(b);
}

} // verus!
