//! Signed usage-evidence export.
//!
//! An evidence export is a self-verifying artifact over a time window of usage
//! events: the daily aggregate rows, a BLAKE3 digest of their canonical bytes
//! and an Ed25519 signature over the canonical bytes of the whole artifact.
//! Verification is offline: recompute the digest, check the row count, then
//! check the signature with the embedded public key.
//!
//! The canonical bytes of the whole artifact are its JSON serialization with
//! both signature fields cleared; they are produced outside this module and
//! handed to `sign_with_key` and `verify`.

use crate::hex::{hex_bytes, hex_decode, hex_encode, hex_text, is_lower_hex, lemma_hex_roundtrip};
use crate::text::same_text;
use vstd::prelude::*;

verus! {

/// Schema discriminator for evidence exports.
pub const EVIDENCE_SCHEMA_V1: &'static str = "leanctx.evidence.v1";

/// What `blake3::hash` followed by `Hash::to_hex` gives for `data`.
pub uninterp spec fn blake3_hex(data: Seq<u8>) -> Seq<char>;

/// The public key bytes `ed25519_dalek` derives from a 32-byte secret key.
pub uninterp spec fn ed25519_public_key(secret: Seq<u8>) -> Seq<u8>;

/// The signature bytes `ed25519_dalek` produces for `msg` under a secret key.
pub uninterp spec fn ed25519_signature(secret: Seq<u8>, msg: Seq<u8>) -> Seq<u8>;

/// Whether 32 bytes decompress to an Ed25519 public key.
pub uninterp spec fn ed25519_key_decodes(public: Seq<u8>) -> bool;

/// Whether `ed25519_dalek` accepts `sig` as a signature of `msg` under `public`.
pub uninterp spec fn ed25519_accepts(public: Seq<u8>, msg: Seq<u8>, sig: Seq<u8>) -> bool;

/// The RFC 3339 UTC text (whole seconds, `Z` suffix) that `chrono` gives for a
/// Unix timestamp, or `None` when it is outside chrono's range.
pub uninterp spec fn rfc3339_utc_secs(secs: i64) -> Option<Seq<char>>;

/// `blake3::hash(data).to_hex()`: the lowercase hex BLAKE3 digest of `data`.
/// Hashing the concatenation equals feeding the pieces to one `Hasher`.
/// The digest itself is named; what is stated is that `to_hex` writes its 32
/// bytes as 64 lowercase hex digits.
#[verifier::external_body]
fn blake3_hex_digest(data: &[u8]) -> (h: String)
    ensures
        h@ == blake3_hex(data@),
        h@.len() == 64,
        is_lower_hex(h@),
{
    blake3::hash(data).to_hex().to_string()
}

/// `SigningKey::from_bytes(secret).verifying_key().to_bytes()`: the public key
/// of a secret key. The key is named; what is stated is that it is 32 bytes and
/// that `VerifyingKey::from_bytes` accepts it again, as the crate documentation's
/// key round-trip example shows.
#[verifier::external_body]
fn ed25519_public(secret: &[u8; 32]) -> (pk: Vec<u8>)
    ensures
        pk@ == ed25519_public_key(secret@),
        pk@.len() == 32,
        ed25519_key_decodes(pk@),
{
    ed25519_dalek::SigningKey::from_bytes(secret).verifying_key().to_bytes().to_vec()
}

/// `Signer::sign` of `SigningKey::from_bytes(secret)` on `msg`, as its 64 bytes.
/// Ed25519 signing is deterministic; the signature is named, and stated to be
/// accepted by verification under the key's own public key, as the crate
/// documentation's sign-then-verify example shows. Nothing is stated of
/// other signatures (unforgeability is not modelled).
#[verifier::external_body]
fn ed25519_sign(secret: &[u8; 32], msg: &[u8]) -> (sig: Vec<u8>)
    ensures
        sig@ == ed25519_signature(secret@, msg@),
        sig@.len() == 64,
        ed25519_accepts(ed25519_public_key(secret@), msg@, sig@),
{
    let key = ed25519_dalek::SigningKey::from_bytes(secret);
    ed25519_dalek::Signer::sign(&key, msg).to_bytes().to_vec()
}

/// Whether `VerifyingKey::from_bytes` accepts 32 public key bytes.
#[verifier::external_body]
fn ed25519_key_is_valid(public: &[u8]) -> (ok: bool)
    requires
        public@.len() == 32,
    ensures
        ok == ed25519_key_decodes(public@),
{
    let pk: [u8; 32] = public.try_into().unwrap();
    ed25519_dalek::VerifyingKey::from_bytes(&pk).is_ok()
}

/// `Verifier::verify` of `VerifyingKey::from_bytes(public)` on `msg` and
/// `Signature::from_bytes(sig)`: whether the signature is accepted.
#[verifier::external_body]
fn ed25519_verify(public: &[u8], msg: &[u8], sig: &[u8]) -> (ok: bool)
    requires
        public@.len() == 32,
        sig@.len() == 64,
        ed25519_key_decodes(public@),
    ensures
        ok == ed25519_accepts(public@, msg@, sig@),
{
    let pk: [u8; 32] = public.try_into().unwrap();
    let sig: [u8; 64] = sig.try_into().unwrap();
    match ed25519_dalek::VerifyingKey::from_bytes(&pk) {
        Ok(vk) => ed25519_dalek::Verifier::verify(
            &vk,
            msg,
            &ed25519_dalek::Signature::from_bytes(&sig),
        ).is_ok(),
        Err(_) => false,
    }
}

/// `DateTime::<Utc>::from_timestamp(secs, 0)` formatted by
/// `to_rfc3339_opts(SecondsFormat::Secs, true)`; `None` when chrono rejects
/// the timestamp. The text is named, not stated.
#[verifier::external_body]
fn rfc3339_secs(secs: i64) -> (r: Option<String>)
    ensures
        match r {
            Some(s) => rfc3339_utc_secs(secs) == Some(s@),
            None => rfc3339_utc_secs(secs) is None,
        },
{
    match chrono::DateTime::from_timestamp(secs, 0) {
        Some(d) => Some(d.to_rfc3339_opts(chrono::SecondsFormat::Secs, true)),
        None => None,
    }
}

/// The bytes the row digest is taken over: each row's canonical bytes
/// followed by a newline, in order (the order is part of the contract).
pub open spec fn row_frames(rows: Seq<Seq<u8>>) -> Seq<u8>
    decreases rows.len(),
{
    if rows.len() == 0 {
        Seq::empty()
    } else {
        row_frames(rows.drop_last()) + rows.last().push(10u8)
    }
}

/// The views of a list of byte vectors.
pub open spec fn byte_views(rows: Seq<Vec<u8>>) -> Seq<Seq<u8>> {
    rows.map_values(|r: Vec<u8>| r@)
}

/// BLAKE3 hex over the concatenated canonical row bytes.
pub fn rows_digest(rows: &Vec<Vec<u8>>) -> (d: String)
    ensures
        d@ == blake3_hex(row_frames(byte_views(rows@))),
        d@.len() == 64,
        is_lower_hex(d@),
{
    let mut data: Vec<u8> = Vec::new();
    let mut i: usize = 0;
    while i < rows.len()
        invariant
            i <= rows.len(),
            data@ == row_frames(byte_views(rows@.take(i as int))),
        decreases rows.len() - i,
    {
        let row = &rows[i];
        let ghost start = data@;
        let mut j: usize = 0;
        while j < row.len()
            invariant
                j <= row.len(),
                data@ == start + row@.take(j as int),
            decreases row.len() - j,
        {
            data.push(row[j]);
            assert(data@ =~= start + row@.take(j + 1));
            j = j + 1;
        }
        data.push(10u8);
        proof {
            assert(row@.take(row.len() as int) =~= row@);
            assert(byte_views(rows@.take(i + 1)).drop_last() =~= byte_views(rows@.take(i as int)));
            assert(byte_views(rows@.take(i + 1)).last() == rows@[i as int]@);
            assert(data@ =~= row_frames(byte_views(rows@.take(i + 1))));
        }
        i = i + 1;
    }
    assert(rows@.take(rows.len() as int) =~= rows@);
    blake3_hex_digest(data.as_slice())
}

/// Outcome of verifying an evidence export.
#[derive(Debug, Clone)]
pub struct EvidenceVerifyResult {
    pub signature_valid: bool,
    pub digest_valid: bool,
    pub signer_public_key: Option<String>,
    pub error: Option<String>,
}

/// The view of an optional text.
pub open spec fn opt_view(o: Option<String>) -> Option<Seq<char>> {
    match o {
        Some(s) => Some(s@),
        None => None,
    }
}

/// The view of canonical bytes, or of the error that prevented producing them.
pub open spec fn canonical_view(c: Result<Vec<u8>, String>) -> Result<Seq<u8>, Seq<char>> {
    match c {
        Ok(b) => Ok(b@),
        Err(e) => Err(e@),
    }
}

/// Whether the schema is known, the digest matches the rows and the row count
/// matches their number.
pub open spec fn digest_checks(
    schema: Seq<char>,
    rows: Seq<Seq<u8>>,
    row_count: u64,
    digest: Seq<char>,
) -> bool {
    &&& schema == EVIDENCE_SCHEMA_V1@
    &&& blake3_hex(row_frames(rows)) == digest
    &&& row_count == rows.len()
}

/// The error verification reports, checked in this order: unknown schema;
/// rows digest or count mismatch; missing signature or key; key hex, length
/// and point; signature hex and length; no canonical bytes; signature not
/// accepted. `None` when the signature verifies.
pub open spec fn verification_error(
    schema: Seq<char>,
    rows: Seq<Seq<u8>>,
    row_count: u64,
    digest: Seq<char>,
    public_key: Option<Seq<char>>,
    signature: Option<Seq<char>>,
    canonical: Result<Seq<u8>, Seq<char>>,
) -> Option<Seq<char>> {
    if schema != EVIDENCE_SCHEMA_V1@ {
        Some("unknown schema"@)
    } else if !digest_checks(schema, rows, row_count, digest) {
        Some("rows digest mismatch — rows were altered"@)
    } else {
        match (signature, public_key) {
            (Some(sig_hex), Some(pk_hex)) => match hex_bytes(pk_hex) {
                None => Some("invalid public key hex"@),
                Some(pk) => if pk.len() != 32 {
                    Some("public key must be 32 bytes"@)
                } else if !ed25519_key_decodes(pk) {
                    Some("invalid Ed25519 public key"@)
                } else {
                    match hex_bytes(sig_hex) {
                        None => Some("invalid signature hex"@),
                        Some(sig) => if sig.len() != 64 {
                            Some("signature must be 64 bytes"@)
                        } else {
                            match canonical {
                                Err(e) => Some(e),
                                Ok(c) => if ed25519_accepts(pk, c, sig) {
                                    None
                                } else {
                                    Some("signature does not match canonical payload"@)
                                },
                            }
                        },
                    }
                },
            },
            _ => Some("artifact is not signed"@),
        }
    }
}

/// The signed part of an evidence export: everything but the window totals,
/// with each row held as its canonical JSON bytes.
pub struct EvidenceSeal {
    /// Discriminator so a verifier can refuse unrelated signed JSON.
    pub schema: String,
    /// Window bounds (inclusive), RFC 3339 UTC.
    pub from: String,
    pub to: String,
    /// The canonical bytes of each daily aggregate row, in export order.
    pub rows: Vec<Vec<u8>>,
    /// Row count (redundant with the rows, part of the signed payload).
    pub row_count: u64,
    /// BLAKE3 hex digest of the canonical row bytes.
    pub rows_digest_blake3: String,
    /// Ed25519 public key (hex); `None` until signed.
    pub signer_public_key: Option<String>,
    /// Ed25519 signature over the canonical bytes (hex); `None` until signed.
    pub signature: Option<String>,
}

impl EvidenceSeal {
    /// Whether the schema, the digest and the row count check out.
    pub open spec fn digest_matches(&self) -> bool {
        digest_checks(self.schema@, byte_views(self.rows@), self.row_count, self.rows_digest_blake3@)
    }

    /// The error verification reports against the given canonical bytes.
    pub open spec fn verify_error(&self, canonical: Result<Seq<u8>, Seq<char>>) -> Option<
        Seq<char>,
    > {
        verification_error(
            self.schema@,
            byte_views(self.rows@),
            self.row_count,
            self.rows_digest_blake3@,
            opt_view(self.signer_public_key),
            opt_view(self.signature),
            canonical,
        )
    }

    /// Builds the unsigned seal for the window `[from_secs, to_secs]` (Unix
    /// seconds) over already-aggregated rows; `None` when a bound is outside
    /// the range chrono can format.
    pub fn build(from_secs: i64, to_secs: i64, rows: Vec<Vec<u8>>) -> (r: Option<Self>)
        ensures
            match r {
                Some(s) => {
                    &&& rfc3339_utc_secs(from_secs) == Some(s.from@)
                    &&& rfc3339_utc_secs(to_secs) == Some(s.to@)
                    &&& s.schema@ == EVIDENCE_SCHEMA_V1@
                    &&& s.rows@ == rows@
                    &&& s.row_count == rows@.len()
                    &&& s.rows_digest_blake3@ == blake3_hex(row_frames(byte_views(rows@)))
                    &&& s.signer_public_key is None
                    &&& s.signature is None
                    &&& s.digest_matches()
                },
                None => rfc3339_utc_secs(from_secs) is None || rfc3339_utc_secs(to_secs) is None,
            },
    {
        let from = match rfc3339_secs(from_secs) {
            Some(f) => f,
            None => return None,
        };
        let to = match rfc3339_secs(to_secs) {
            Some(t) => t,
            None => return None,
        };
        let digest = rows_digest(&rows);
        let row_count = rows.len() as u64;
        Some(
            EvidenceSeal {
                schema: EVIDENCE_SCHEMA_V1.to_owned(),
                from,
                to,
                rows,
                row_count,
                rows_digest_blake3: digest,
                signer_public_key: None,
                signature: None,
            },
        )
    }

    /// Signs with an explicit secret key. Both signature fields are cleared
    /// first; `canonical` must be the canonical bytes of the export in that
    /// cleared state. On success the public key and the signature over
    /// `canonical` are embedded, as lowercase hex.
    pub fn sign_with_key(&mut self, secret: &[u8; 32], canonical: Result<Vec<u8>, String>) -> (r:
        Result<(), String>)
        ensures
            final(self).schema == old(self).schema,
            final(self).from == old(self).from,
            final(self).to == old(self).to,
            final(self).rows == old(self).rows,
            final(self).row_count == old(self).row_count,
            final(self).rows_digest_blake3 == old(self).rows_digest_blake3,
            match canonical {
                Ok(c) => {
                    &&& r is Ok
                    &&& opt_view(final(self).signer_public_key) == Some(
                        hex_text(ed25519_public_key(secret@)),
                    )
                    &&& opt_view(final(self).signature) == Some(
                        hex_text(ed25519_signature(secret@, c@)),
                    )
                    &&& final(self).signer_public_key matches Some(k) && k@.len() == 64
                        && is_lower_hex(k@)
                    &&& final(self).signature matches Some(g) && g@.len() == 128 && is_lower_hex(
                        g@,
                    )
                },
                Err(e) => {
                    &&& r == Err::<(), String>(e)
                    &&& final(self).signer_public_key is None
                    &&& final(self).signature is None
                },
            },
            // a seal whose digest checks out verifies against the bytes it was signed over
            canonical is Ok && old(self).digest_matches() ==> final(self).verify_error(
                canonical_view(canonical),
            ) is None,
    {
        self.signature = None;
        self.signer_public_key = None;
        let c = match canonical {
            Ok(c) => c,
            Err(e) => return Err(e),
        };
        let sig = ed25519_sign(secret, c.as_slice());
        let pk = ed25519_public(secret);
        self.signer_public_key = Some(hex_encode(pk.as_slice()));
        self.signature = Some(hex_encode(sig.as_slice()));
        proof {
            lemma_hex_roundtrip(pk@);
            lemma_hex_roundtrip(sig@);
        }
        Ok(())
    }

    /// Offline verification: the digest over the rows and the row count, then
    /// the Ed25519 signature over `canonical` with the embedded public key.
    pub fn verify(&self, canonical: Result<Vec<u8>, String>) -> (r: EvidenceVerifyResult)
        ensures
            r.digest_valid == self.digest_matches(),
            r.signature_valid == (self.verify_error(canonical_view(canonical)) is None),
            opt_view(r.error) == self.verify_error(canonical_view(canonical)),
            r.signer_public_key == self.signer_public_key,
    {
        if !same_text(self.schema.as_str(), EVIDENCE_SCHEMA_V1) {
            return self.failure(false, "unknown schema");
        }
        let digest_valid = same_text(rows_digest(&self.rows).as_str(), self.rows_digest_blake3.as_str())
            && self.row_count == self.rows.len() as u64;
        if !digest_valid {
            return self.failure(false, "rows digest mismatch — rows were altered");
        }
        let (sig_hex, pk_hex) = match (&self.signature, &self.signer_public_key) {
            (Some(s), Some(p)) => (s, p),
            _ => return self.failure(true, "artifact is not signed"),
        };
        let pk = match hex_decode(pk_hex.as_str()) {
            Some(b) => b,
            None => return self.failure(true, "invalid public key hex"),
        };
        if pk.len() != 32 {
            return self.failure(true, "public key must be 32 bytes");
        }
        if !ed25519_key_is_valid(pk.as_slice()) {
            return self.failure(true, "invalid Ed25519 public key");
        }
        let sig = match hex_decode(sig_hex.as_str()) {
            Some(b) => b,
            None => return self.failure(true, "invalid signature hex"),
        };
        if sig.len() != 64 {
            return self.failure(true, "signature must be 64 bytes");
        }
        let c = match canonical {
            Ok(b) => b,
            Err(e) => {
                return EvidenceVerifyResult {
                    signature_valid: false,
                    digest_valid: true,
                    signer_public_key: self.signer_public_key.clone(),
                    error: Some(e),
                };
            },
        };
        if ed25519_verify(pk.as_slice(), c.as_slice(), sig.as_slice()) {
            EvidenceVerifyResult {
                signature_valid: true,
                digest_valid: true,
                signer_public_key: self.signer_public_key.clone(),
                error: None,
            }
        } else {
            self.failure(true, "signature does not match canonical payload")
        }
    }

    fn failure(&self, digest_valid: bool, msg: &str) -> (r: EvidenceVerifyResult)
        ensures
            r.signature_valid == false,
            r.digest_valid == digest_valid,
            r.signer_public_key == self.signer_public_key,
            opt_view(r.error) == Some(msg@),
    {
        EvidenceVerifyResult {
            signature_valid: false,
            digest_valid,
            signer_public_key: self.signer_public_key.clone(),
            error: Some(msg.to_owned()),
        }
    }
}

} // verus!
