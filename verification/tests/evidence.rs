use lean_ctx::evidence::{rows_digest, EvidenceSeal, EVIDENCE_SCHEMA_V1};
use lean_ctx::hex::{hex_decode, hex_encode};
use serde_json::Value;

fn row(date: &str, model: &str, provider: &str, requests: u64, cost: f64) -> Value {
    let mut m = serde_json::Map::new();
    m.insert("date".to_string(), Value::from(date));
    m.insert("person".to_string(), Value::from("p:abc"));
    m.insert("project".to_string(), Value::from("web"));
    m.insert("model".to_string(), Value::from(model));
    m.insert("provider".to_string(), Value::from(provider));
    m.insert("requests".to_string(), Value::from(requests));
    m.insert("cost_usd".to_string(), Value::from(cost));
    Value::Object(m)
}

fn sample_rows() -> Vec<Value> {
    vec![
        row("2026-06-01", "sonnet-4-5", "Anthropic", 12, 1.25),
        row("2026-06-02", "mini-4o", "foundry", 30, 0.42),
    ]
}

fn row_bytes(rows: &[Value]) -> Vec<Vec<u8>> {
    rows.iter().map(|r| serde_json::to_vec(r).unwrap()).collect()
}

fn ts(s: &str) -> i64 {
    chrono::DateTime::parse_from_rfc3339(s).unwrap().timestamp()
}

fn sample() -> EvidenceSeal {
    EvidenceSeal::build(
        ts("2026-06-01T00:00:00Z"),
        ts("2026-06-30T23:59:59Z"),
        row_bytes(&sample_rows()),
    )
    .unwrap()
}

/// The canonical payload: the whole export (with its totals) with both
/// signature fields cleared.
fn canonical(seal: &EvidenceSeal, rows: &[Value], cost_usd: f64) -> Result<Vec<u8>, String> {
    let mut totals = serde_json::Map::new();
    totals.insert("requests".to_string(), Value::from(42u64));
    totals.insert("cost_usd".to_string(), Value::from(cost_usd));
    totals.insert("saved_usd".to_string(), Value::from(0.9));
    totals.insert("reference_cost_usd".to_string(), Value::from(3.1));
    totals.insert("persons".to_string(), Value::from(1u64));
    let mut m = serde_json::Map::new();
    m.insert("schema".to_string(), Value::from(seal.schema.as_str()));
    m.insert("from".to_string(), Value::from(seal.from.as_str()));
    m.insert("to".to_string(), Value::from(seal.to.as_str()));
    m.insert("rows".to_string(), Value::Array(rows.to_vec()));
    m.insert("row_count".to_string(), Value::from(seal.row_count));
    m.insert("totals".to_string(), Value::Object(totals));
    m.insert(
        "rows_digest_blake3".to_string(),
        Value::from(seal.rows_digest_blake3.as_str()),
    );
    m.insert("signer_public_key".to_string(), Value::Null);
    m.insert("signature".to_string(), Value::Null);
    serde_json::to_vec(&Value::Object(m)).map_err(|e| format!("serialize for signing: {e}"))
}

fn test_key() -> [u8; 32] {
    [7u8; 32]
}

#[test]
fn sign_then_verify_roundtrips() {
    let mut artifact = sample();
    let c = canonical(&artifact, &sample_rows(), 1.67);
    artifact.sign_with_key(&test_key(), c).unwrap();
    let result = artifact.verify(canonical(&artifact, &sample_rows(), 1.67));
    assert!(result.digest_valid);
    assert!(result.signature_valid, "{:?}", result.error);
    assert_eq!(
        result.signer_public_key, artifact.signer_public_key,
        "verify must report the embedded signer"
    );
}

#[test]
fn any_tamper_breaks_verification() {
    let mut artifact = sample();
    let c = canonical(&artifact, &sample_rows(), 1.67);
    artifact.sign_with_key(&test_key(), c).unwrap();

    // Row tampering breaks the digest.
    let mut rows = sample_rows();
    rows[0]["cost_usd"] = Value::from(0.01);
    let tampered = EvidenceSeal {
        schema: artifact.schema.clone(),
        from: artifact.from.clone(),
        to: artifact.to.clone(),
        rows: row_bytes(&rows),
        row_count: artifact.row_count,
        rows_digest_blake3: artifact.rows_digest_blake3.clone(),
        signer_public_key: artifact.signer_public_key.clone(),
        signature: artifact.signature.clone(),
    };
    let r = tampered.verify(canonical(&tampered, &rows, 1.67));
    assert!(!r.digest_valid && !r.signature_valid);

    // Totals tampering keeps the digest but breaks the signature.
    let r = artifact.verify(canonical(&artifact, &sample_rows(), 0.0));
    assert!(r.digest_valid);
    assert!(!r.signature_valid);

    // Unsigned artifacts are refused.
    let unsigned = sample();
    assert!(!unsigned.verify(canonical(&unsigned, &sample_rows(), 1.67)).signature_valid);
}

#[test]
fn export_is_deterministic_for_same_rows() {
    let a = sample();
    let b = sample();
    assert_eq!(a.rows_digest_blake3, b.rows_digest_blake3);
    assert_eq!(
        canonical(&a, &sample_rows(), 1.67).unwrap(),
        canonical(&b, &sample_rows(), 1.67).unwrap(),
        "same inputs must produce byte-identical canonical payloads"
    );
}

#[test]
fn build_formats_the_window_and_counts_rows() {
    let s = sample();
    assert_eq!(s.schema, EVIDENCE_SCHEMA_V1);
    assert_eq!(s.from, "2026-06-01T00:00:00Z");
    assert_eq!(s.to, "2026-06-30T23:59:59Z");
    assert_eq!(s.row_count, 2);
    assert_eq!(s.signer_public_key, None);
    assert_eq!(s.signature, None);
    assert!(EvidenceSeal::build(i64::MAX, 0, vec![]).is_none());
}

#[test]
fn rows_digest_hashes_newline_framed_rows() {
    // BLAKE3 of the empty input.
    assert_eq!(
        rows_digest(&vec![]),
        "af1349b9f5f9a1a6a0404dea36dcc9499bcb25c9adc112b7cc9a93cae41f3262"
    );
    let rows = vec![b"a".to_vec(), b"bc".to_vec()];
    assert_eq!(rows_digest(&rows), blake3::hash(b"a\nbc\n").to_hex().to_string());
    assert_ne!(rows_digest(&rows), rows_digest(&vec![b"bc".to_vec(), b"a".to_vec()]));
}

#[test]
fn verify_reports_each_failure() {
    let mut artifact = sample();
    let c = canonical(&artifact, &sample_rows(), 1.67);
    artifact.sign_with_key(&test_key(), c).unwrap();
    let good = canonical(&artifact, &sample_rows(), 1.67);

    let with = |f: &dyn Fn(&mut EvidenceSeal)| {
        let mut s = EvidenceSeal {
            schema: artifact.schema.clone(),
            from: artifact.from.clone(),
            to: artifact.to.clone(),
            rows: artifact.rows.clone(),
            row_count: artifact.row_count,
            rows_digest_blake3: artifact.rows_digest_blake3.clone(),
            signer_public_key: artifact.signer_public_key.clone(),
            signature: artifact.signature.clone(),
        };
        f(&mut s);
        s.verify(good.clone())
    };

    let r = with(&|s| s.schema = "other".to_string());
    assert_eq!(r.error.as_deref(), Some("unknown schema"));
    assert!(!r.digest_valid);
    let r = with(&|s| s.row_count = 3);
    assert_eq!(r.error.as_deref(), Some("rows digest mismatch — rows were altered"));
    let r = with(&|s| s.signature = None);
    assert_eq!(r.error.as_deref(), Some("artifact is not signed"));
    assert!(r.digest_valid);
    let r = with(&|s| s.signer_public_key = Some("zz".to_string()));
    assert_eq!(r.error.as_deref(), Some("invalid public key hex"));
    let r = with(&|s| s.signer_public_key = Some("abcd".to_string()));
    assert_eq!(r.error.as_deref(), Some("public key must be 32 bytes"));
    let r = with(&|s| s.signature = Some("0g".repeat(64)));
    assert_eq!(r.error.as_deref(), Some("invalid signature hex"));
    let r = with(&|s| s.signature = Some("00".repeat(63)));
    assert_eq!(r.error.as_deref(), Some("signature must be 64 bytes"));
    let r = artifact.verify(Err("serialize for signing: boom".to_string()));
    assert_eq!(r.error.as_deref(), Some("serialize for signing: boom"));
    let r = with(&|s| s.signature = Some("00".repeat(64)));
    assert_eq!(r.error.as_deref(), Some("signature does not match canonical payload"));
    assert!(!r.signature_valid && r.digest_valid);
}

#[test]
fn signing_embeds_the_keys_hex() {
    let mut artifact = sample();
    let c = canonical(&artifact, &sample_rows(), 1.67).unwrap();
    artifact.sign_with_key(&test_key(), Ok(c.clone())).unwrap();
    let key = ed25519_dalek::SigningKey::from_bytes(&test_key());
    assert_eq!(
        artifact.signer_public_key,
        Some(hex_encode(&key.verifying_key().to_bytes()))
    );
    let sig = ed25519_dalek::Signer::sign(&key, &c);
    assert_eq!(artifact.signature, Some(hex_encode(&sig.to_bytes())));
    // a serialization error leaves the artifact unsigned
    assert_eq!(
        artifact.sign_with_key(&test_key(), Err("boom".to_string())),
        Err("boom".to_string())
    );
    assert_eq!(artifact.signature, None);
    assert_eq!(artifact.signer_public_key, None);
}

#[test]
fn hex_roundtrip_and_rejects() {
    assert_eq!(hex_encode(&[0x00, 0xab, 0xff, 0x10]), "00abff10");
    assert_eq!(hex_decode("00abFF10"), Some(vec![0x00, 0xab, 0xff, 0x10]));
    assert_eq!(hex_decode(""), Some(vec![]));
    assert_eq!(hex_decode("abc"), None);
    assert_eq!(hex_decode("zz"), None);
}
