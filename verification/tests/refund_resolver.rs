use bitcoin::hashes::sha256;
use bitcoin::secp256k1::{Secp256k1, SecretKey};
use lightning_invoice::{Bolt11Invoice, Currency, InvoiceBuilder, PaymentSecret};
use lnrentd::addresses::{embedded_ipv4, ip_blocked, ipv4_blocked, ipv6_blocked, Address, Ip};
use lnrentd::refund_resolver::{
    classify_http_status, decode_lnurl, detect_form, redirect_target, validate_dest_format,
    validate_invoice, vet_addresses, BodyRead, BodyReader, DestForm, Fetched, LnurlCallbackResponse,
    LnurlDocument, LnurlErrorEnvelope, LnurlPayResponse, LookedUp, PassThroughResolver,
    RefundResolver, ResolveError, Resolved, Resolver, Stage, MAX_BODY_BYTES,
};
use serde_json::Value;
use std::str::FromStr;
use std::time::Duration;

const METADATA: &str = r#"[["text/plain","lnrent refund"]]"#;

fn digest(bytes: &[u8]) -> sha256::Hash {
    <sha256::Hash as bitcoin::hashes::Hash>::hash(bytes)
}

fn mint_bolt11(amount_msat: u64, metadata: &str, ts_secs: u64, expiry_s: u64) -> String {
    let sk = SecretKey::from_slice(&[0x11u8; 32]).unwrap();
    let payment_hash = digest(&[0u8; 32]);
    let desc_hash = digest(metadata.as_bytes());
    InvoiceBuilder::new(Currency::Regtest)
        .amount_milli_satoshis(amount_msat)
        .description_hash(desc_hash)
        .payment_hash(payment_hash)
        .payment_secret(PaymentSecret([42u8; 32]))
        .duration_since_epoch(Duration::from_secs(ts_secs))
        .min_final_cltv_expiry_delta(144)
        .expiry_time(Duration::from_secs(expiry_s))
        .build_signed(|h| Secp256k1::new().sign_ecdsa_recoverable(h, &sk))
        .expect("test bolt11 builds")
        .to_string()
}

fn mint_described(amount_msat: u64, description: &str) -> String {
    let sk = SecretKey::from_slice(&[0x11u8; 32]).unwrap();
    InvoiceBuilder::new(Currency::Regtest)
        .amount_milli_satoshis(amount_msat)
        .description(description.to_string())
        .payment_hash(digest(&[0u8; 32]))
        .payment_secret(PaymentSecret([42u8; 32]))
        .duration_since_epoch(Duration::from_secs(1_000))
        .min_final_cltv_expiry_delta(144)
        .build_signed(|h| Secp256k1::new().sign_ecdsa_recoverable(h, &sk))
        .unwrap()
        .to_string()
}

fn structural(e: &ResolveError) -> bool {
    matches!(e, ResolveError::Permanent(_))
}

fn lnurl_of(payload: &str) -> String {
    bech32::encode::<bech32::Bech32>(bech32::Hrp::parse("lnurl").unwrap(), payload.as_bytes())
        .unwrap()
}

// ---- form detection ---------------------------------------------------------

#[test]
fn detects_bolt11_pass_through() {
    let b = mint_bolt11(1000, METADATA, 1000, 3600);
    assert!(matches!(detect_form(&b), Ok(DestForm::Bolt11)));
}

#[test]
fn detects_lightning_address() {
    match detect_form("alice@example.com") {
        Ok(DestForm::LnAddress { user, domain }) => {
            assert_eq!(user, "alice");
            assert_eq!(domain, "example.com");
        }
        other => panic!(
            "expected LnAddress, got a different form: {:?}",
            other.is_ok()
        ),
    }
}

#[test]
fn detects_lnurl_bech32() {
    let encoded = bech32::encode::<bech32::Bech32>(
        bech32::Hrp::parse("lnurl").unwrap(),
        "https://example.com/lnurl/pay".as_bytes(),
    )
    .unwrap();
    match detect_form(&encoded) {
        Ok(DestForm::Lnurl(url)) => assert_eq!(url, "https://example.com/lnurl/pay"),
        _ => panic!("expected an Lnurl form"),
    }
}

#[test]
fn bolt12_offer_is_structural() {
    let e = detect_form(
        "lno1qcp4256ypqpq86q2pucnq42ngssx2an9wfujqerp0y2pqun4wd68jtn00fkxzcnn9ehhyec6",
    )
    .unwrap_err();
    assert!(structural(&e), "BOLT12 must be a structural failure");
    assert!(e.message().contains("BOLT12"));
}

#[test]
fn garbage_and_empty_are_structural() {
    assert!(structural(&detect_form("not-a-destination").unwrap_err()));
    assert!(structural(&detect_form("").unwrap_err()));
    assert!(structural(&detect_form("  ").unwrap_err()));
    assert!(structural(&detect_form("bad@@addr").unwrap_err()));
}

#[test]
fn order_time_validation_rejects_unresolvable_lnurl() {
    let http_lnurl = lnurl_of("http://example.com/lnurlp/u");
    assert!(matches!(detect_form(&http_lnurl), Ok(DestForm::Lnurl(_))));
    assert!(
        structural(&validate_dest_format(&http_lnurl).unwrap_err()),
        "an lnurl1 decoding to http:// is rejected at order time"
    );

    let junk_lnurl = lnurl_of("not a url at all");
    assert!(matches!(detect_form(&junk_lnurl), Ok(DestForm::Lnurl(_))));
    assert!(
        structural(&validate_dest_format(&junk_lnurl).unwrap_err()),
        "an lnurl1 decoding to non-URL bytes is rejected at order time"
    );

    let https_lnurl = lnurl_of("https://example.com/lnurlp/u");
    assert!(validate_dest_format(&https_lnurl).is_ok());
    assert!(validate_dest_format("alice@example.com").is_ok());
    assert!(validate_dest_format(&mint_bolt11(1000, METADATA, 1000, 3600)).is_ok());

    assert!(structural(
        &validate_dest_format("lno1pqps7sjqpgz").unwrap_err()
    ));
    assert!(structural(
        &validate_dest_format("not-a-destination").unwrap_err()
    ));
}

#[test]
fn order_time_validation_rejects_bad_ln_address_port() {
    assert!(matches!(
        detect_form("alice@host:abc"),
        Ok(DestForm::LnAddress { .. })
    ));
    assert!(
        structural(&validate_dest_format("alice@host:abc").unwrap_err()),
        "a LN-address with a non-numeric port is rejected at order time"
    );
    assert!(validate_dest_format("alice@host.example:8443").is_ok());
}

#[test]
fn lnurl_of_another_kind_or_of_no_text_is_refused() {
    let other = bech32::encode::<bech32::Bech32>(bech32::Hrp::parse("npub").unwrap(), b"x").unwrap();
    assert_eq!(
        decode_lnurl(&other).unwrap_err().message(),
        "LNURL has an unexpected hrp 'npub'"
    );
    let bytes =
        bech32::encode::<bech32::Bech32>(bech32::Hrp::parse("lnurl").unwrap(), &[0xff, 0xfe]).unwrap();
    assert!(decode_lnurl(&bytes).unwrap_err().message().starts_with("LNURL is not valid UTF-8: "));
    assert!(decode_lnurl("lnurl1x").unwrap_err().message().starts_with("invalid LNURL bech32: "));
    assert_eq!(
        decode_lnurl(&lnurl_of("https://x/y").to_uppercase()).unwrap(),
        "https://x/y"
    );
}

#[test]
fn order_time_messages_name_the_url() {
    assert_eq!(
        validate_dest_format(&lnurl_of("ftp://h/p")).unwrap_err().message(),
        "refund destination must use HTTPS, got 'ftp' (ftp://h/p)"
    );
    assert_eq!(
        validate_dest_format("a@h:x").unwrap_err().message(),
        "refund destination yields an invalid URL 'https://h:x/.well-known/lnurlp/a': invalid port number"
    );
    assert_eq!(
        validate_dest_format("bad@@addr").unwrap_err().message(),
        "malformed Lightning address 'bad@@addr'"
    );
}

// ---- the exchange -----------------------------------------------------------

fn text(v: &Value, key: &str) -> Result<Option<String>, String> {
    match v.get(key) {
        None | Some(Value::Null) => Ok(None),
        Some(Value::String(s)) => Ok(Some(s.clone())),
        Some(_) => Err(format!("{key} is no text")),
    }
}

fn needed(v: &Value, key: &str) -> Result<String, String> {
    text(v, key)?.ok_or(format!("missing field `{key}`"))
}

fn amount(v: &Value, key: &str) -> Result<u64, String> {
    v.get(key).and_then(|x| x.as_u64()).ok_or(format!("missing field `{key}`"))
}

fn pay(v: &Value) -> Result<LnurlPayResponse, String> {
    Ok(LnurlPayResponse {
        tag: text(v, "tag")?,
        callback: needed(v, "callback")?,
        min_sendable: amount(v, "minSendable")?,
        max_sendable: amount(v, "maxSendable")?,
        metadata: needed(v, "metadata")?,
    })
}

fn document(body: &str) -> LnurlDocument {
    let v: Value = match serde_json::from_str(body) {
        Ok(v) => v,
        Err(e) => {
            return LnurlDocument {
                envelope: None,
                pay: Err(e.to_string()),
                callback: Err(e.to_string()),
            }
        }
    };
    LnurlDocument {
        envelope: match (text(&v, "status"), text(&v, "reason")) {
            (Ok(status), Ok(reason)) => Some(LnurlErrorEnvelope { status, reason }),
            _ => None,
        },
        pay: pay(&v),
        callback: needed(&v, "pr").map(|pr| LnurlCallbackResponse { pr }),
    }
}

/// Resolves against a network that answers each URL with a status, a `Location` and a body, and
/// that knows the address of every host. Returns the outcome and what was fetched.
fn resolve(
    resolver: &Resolver,
    dest: &str,
    owed: u64,
    net: &dyn Fn(&str) -> (u16, Option<String>, String),
) -> (Result<Resolved, ResolveError>, Vec<String>) {
    let mut seen = Vec::new();
    let mut body = String::new();
    let mut r = resolver.resolve(dest, owed, 1_000);
    loop {
        r = match &r.stage {
            Stage::Lookup { .. } => r.looked_up(LookedUp::Found(vec![Address {
                ip: Ip::V4([93, 184, 216, 34]),
                text: "93.184.216.34".into(),
            }])),
            Stage::Fetch { url, .. } => {
                seen.push(url.text.clone());
                let (code, location, b) = net(&url.text);
                body = b;
                r.fetched(Fetched::Response { code, location })
            }
            Stage::Read { .. } => r.read(BodyRead::Document(document(&body))),
            Stage::Done(_) => break,
        };
    }
    match r.stage {
        Stage::Done(done) => (done, seen),
        _ => unreachable!(),
    }
}

fn open_resolver() -> Resolver {
    Resolver {
        allow_private_hosts: true,
    }
}

fn terms(callback: &str, min: u64, max: u64, metadata: &str) -> String {
    let metadata = Value::from(metadata).to_string();
    format!(
        r#"{{"tag":"payRequest","callback":"{callback}","minSendable":{min},"maxSendable":{max},"metadata":{metadata}}}"#
    )
}

fn ok_net(
    bolt11: String,
    min: u64,
    max: u64,
    metadata: &str,
) -> impl Fn(&str) -> (u16, Option<String>, String) {
    let meta = terms("http://h:9/cb", min, max, metadata);
    move |url: &str| {
        if url.starts_with("http://h:9/.well-known/lnurlp/") {
            (200, None, meta.clone())
        } else if url.starts_with("http://h:9/cb") {
            (200, None, format!(r#"{{"pr":"{bolt11}"}}"#))
        } else {
            (404, None, "{}".to_string())
        }
    }
}

#[test]
fn lnurl_pay_happy_path_returns_bolt11() {
    let owed = 500_000u64;
    let net = ok_net(mint_bolt11(owed, METADATA, 1_000, 86_400), 1, 1_000_000, METADATA);
    let (r, seen) = resolve(&open_resolver(), "refunduser@h:9", owed, &net);
    let resolved = r.unwrap();
    assert_eq!(resolved.expiry, 1_000 + 86_400);
    let inv = Bolt11Invoice::from_str(&resolved.bolt11).unwrap();
    assert_eq!(inv.amount_milli_satoshis(), Some(owed));
    assert_eq!(
        seen,
        vec![
            "http://h:9/.well-known/lnurlp/refunduser",
            "http://h:9/cb?amount=500000"
        ]
    );
}

#[test]
fn lnurl_via_bech32_resolves() {
    let owed = 500_000u64;
    let net = ok_net(mint_bolt11(owed, METADATA, 1_000, 86_400), 1, 1_000_000, METADATA);
    let lnurl = lnurl_of("http://h:9/.well-known/lnurlp/u");
    let resolved = resolve(&open_resolver(), &lnurl, owed, &net).0.unwrap();
    assert_eq!(resolved.expiry, 1_000 + 86_400);
}

#[test]
fn amount_out_of_range_is_structural() {
    let owed = 500_000u64;
    let net = ok_net(mint_bolt11(owed, METADATA, 1_000, 86_400), 1, 1_000, METADATA);
    let e = resolve(&open_resolver(), "u@h:9", owed, &net).0.unwrap_err();
    assert!(structural(&e), "amount out of range must be structural: {e:?}");
    assert_eq!(
        e.message(),
        "owed 500000 msat is outside the LNURL range [1, 1000]"
    );
}

#[test]
fn amounts_at_the_edges_of_the_range_are_taken() {
    let owed = 500_000u64;
    let b = mint_bolt11(owed, METADATA, 1_000, 86_400);
    let net = ok_net(b.clone(), owed, owed, METADATA);
    assert!(resolve(&open_resolver(), "u@h:9", owed, &net).0.is_ok());
    let net = ok_net(b, owed + 1, owed + 2, METADATA);
    assert!(structural(&resolve(&open_resolver(), "u@h:9", owed, &net).0.unwrap_err()));
}

#[test]
fn description_hash_mismatch_is_structural() {
    let owed = 500_000u64;
    let net = ok_net(
        mint_bolt11(owed, METADATA, 1_000, 86_400),
        1,
        1_000_000,
        r#"[["text/plain","tampered"]]"#,
    );
    let e = resolve(&open_resolver(), "u@h:9", owed, &net).0.unwrap_err();
    assert!(structural(&e), "desc-hash mismatch must be structural: {e:?}");
    assert!(e.message().contains("description_hash"));
}

#[test]
fn invoice_amount_mismatch_is_structural() {
    let owed = 500_000u64;
    let net = ok_net(mint_bolt11(999_000, METADATA, 1_000, 86_400), 1, 1_000_000, METADATA);
    let e = resolve(&open_resolver(), "u@h:9", owed, &net).0.unwrap_err();
    assert!(
        structural(&e),
        "invoice amount mismatch must be structural: {e:?}"
    );
    assert_eq!(
        e.message(),
        "bolt11 amount Some(999000) msat != owed 500000 msat"
    );
}

#[test]
fn unparseable_callback_pr_is_structural() {
    let owed = 500_000u64;
    let net = ok_net("not-a-bolt11".to_string(), 1, 1_000_000, METADATA);
    let e = resolve(&open_resolver(), "u@h:9", owed, &net).0.unwrap_err();
    assert!(
        structural(&e),
        "an unparseable callback pr must be structural: {e:?}"
    );
}

#[test]
fn direct_description_is_refused() {
    let b = mint_described(500_000, "refund");
    assert_eq!(
        validate_invoice(&b, 500_000, METADATA, 1_000).unwrap_err().message(),
        "bolt11 carries a direct description, not the required description_hash"
    );
}

#[test]
fn ssrf_private_host_is_rejected_without_http() {
    let net = |_: &str| (200, None, "{}".to_string());
    let (r, seen) = resolve(&Resolver::new(), "u@127.0.0.1", 500_000, &net);
    let e = r.unwrap_err();
    assert!(structural(&e), "loopback target must be structural: {e:?}");
    assert_eq!(
        e.message(),
        "LNURL target resolves to a private/loopback address: 127.0.0.1 (SSRF guard)"
    );
    assert!(seen.is_empty());
    for dest in ["u@localhost", "u@api.LOCALHOST", "u@10.0.0.7:8443"] {
        let (r, seen) = resolve(&Resolver::default(), dest, 500_000, &net);
        assert!(structural(&r.unwrap_err()), "{dest}");
        assert!(seen.is_empty());
    }
}

#[test]
fn non_https_endpoint_is_rejected() {
    let lnurl = lnurl_of("http://example.com/lnurl/pay");
    let net = |_: &str| (200, None, "{}".to_string());
    let (r, seen) = resolve(&Resolver::new(), &lnurl, 500_000, &net);
    let e = r.unwrap_err();
    assert!(structural(&e), "non-https must be structural: {e:?}");
    assert!(e.message().contains("HTTPS"));
    assert!(seen.is_empty());
}

#[test]
fn http_5xx_is_transient() {
    let net = |_: &str| (503, None, "{}".to_string());
    let e = resolve(&open_resolver(), "u@h:9", 500_000, &net).0.unwrap_err();
    assert!(
        matches!(e, ResolveError::Transient(_)),
        "a 5xx must be transient (retryable): {e:?}"
    );
    assert_eq!(
        e.message(),
        "LNURL endpoint http://h:9/.well-known/lnurlp/u returned status 503 Service Unavailable"
    );
}

#[test]
fn http_4xx_is_structural() {
    let net = |_: &str| (404, None, "{}".to_string());
    let e = resolve(&open_resolver(), "ghost@h:9", 500_000, &net).0.unwrap_err();
    assert!(
        structural(&e),
        "a permanent 404 must be structural (parks FAILED, not retried forever): {e:?}"
    );
}

#[test]
fn http_429_is_transient() {
    let net = |_: &str| (429, None, "{}".to_string());
    let e = resolve(&open_resolver(), "u@h:9", 500_000, &net).0.unwrap_err();
    assert!(
        matches!(e, ResolveError::Transient(_)),
        "a 429 must stay transient (retryable): {e:?}"
    );
    assert!(!structural(&classify_http_status(408, "u")));
    assert!(!structural(&classify_http_status(599, "u")));
    assert!(structural(&classify_http_status(410, "u")));
    assert!(structural(&classify_http_status(600, "u")));
}

#[test]
fn redirect_to_valid_target_is_followed() {
    let owed = 500_000u64;
    let bolt11 = mint_bolt11(owed, METADATA, 1_000, 86_400);
    let net = move |url: &str| {
        if url == "http://h:9/.well-known/lnurlp/u" {
            (302, Some("/lnurlp2".to_string()), String::new())
        } else if url == "http://h:9/lnurlp2" {
            (200, None, terms("http://h:9/cb", 1, 1_000_000, METADATA))
        } else if url.starts_with("http://h:9/cb") {
            (200, None, format!(r#"{{"pr":"{bolt11}"}}"#))
        } else {
            (200, None, "{}".to_string())
        }
    };
    let resolved = resolve(&open_resolver(), "u@h:9", owed, &net).0.unwrap();
    assert_eq!(resolved.expiry, 1_000 + 86_400);
    let inv = Bolt11Invoice::from_str(&resolved.bolt11).unwrap();
    assert_eq!(inv.amount_milli_satoshis(), Some(owed));
}

#[test]
fn redirect_loop_is_structural() {
    let net = |_: &str| (302, Some("http://h:9/loop".to_string()), String::new());
    let (r, seen) = resolve(&open_resolver(), "u@h:9", 500_000, &net);
    let e = r.unwrap_err();
    assert!(
        structural(&e),
        "an unbounded redirect loop must be structural: {e:?}"
    );
    assert_eq!(
        e.message(),
        "LNURL fetch exceeded 4 redirects (last http://h:9/loop)"
    );
    assert_eq!(seen.len(), 5);
}

#[test]
fn redirect_to_a_private_or_plain_target_is_refused() {
    for (to, want) in [
        ("http://example.com/", "LNURL endpoint must be HTTPS, got 'http' (http://example.com/)"),
        (
            "https://169.254.169.254/latest",
            "LNURL target resolves to a private/loopback address: 169.254.169.254 (SSRF guard)",
        ),
        (
            "https://[::ffff:10.0.0.1]/",
            "LNURL target resolves to a private/loopback address: ::ffff:10.0.0.1 (SSRF guard)",
        ),
        ("https://localhost/x", "LNURL host is localhost (SSRF guard)"),
    ] {
        let net = move |_: &str| (301, Some(to.to_string()), String::new());
        let (r, seen) = resolve(&Resolver::new(), "u@example.com", 500_000, &net);
        let e = r.unwrap_err();
        assert!(structural(&e));
        assert_eq!(e.message(), want);
        assert_eq!(seen, vec!["https://example.com/.well-known/lnurlp/u"]);
    }
}

#[test]
fn redirect_without_a_usable_location_is_refused() {
    assert_eq!(
        redirect_target("https://h/", &None).unwrap_err().message(),
        "LNURL redirect from https://h/ has no Location header"
    );
    assert_eq!(
        redirect_target("https://h/a/b", &Some("../c".into())).unwrap(),
        "https://h/c"
    );
    assert!(redirect_target("https://h/", &Some("https://[".into()))
        .unwrap_err()
        .message()
        .starts_with("invalid LNURL redirect target 'https://[': "));
}

#[test]
fn about_to_expire_bolt11_is_transient() {
    let owed = 500_000u64;
    let net = ok_net(mint_bolt11(owed, METADATA, 1_000, 100), 1, 1_000_000, METADATA);
    let e = resolve(&open_resolver(), "u@h:9", owed, &net).0.unwrap_err();
    assert!(
        matches!(e, ResolveError::Transient(_)),
        "an about-to-expire bolt11 is transient (a fresh resolve next drive may help): {e:?}"
    );
    assert_eq!(
        e.message(),
        "bolt11 expires at 1100, within 600s of now 1000"
    );
}

#[test]
fn invoice_with_just_enough_time_left_is_taken() {
    let b = mint_bolt11(7_000, METADATA, 1_000, 3_600);
    let r = validate_invoice(&b, 7_000, METADATA, 4_000).unwrap();
    assert_eq!((r.bolt11, r.expiry), (b.clone(), 4_600));
    assert!(!structural(&validate_invoice(&b, 7_000, METADATA, 4_001).unwrap_err()));
}

#[test]
fn bolt11_pass_through_resolves_to_itself() {
    let b = mint_bolt11(500_000, METADATA, 1_000, 86_400);
    let net = |_: &str| (404, None, String::new());
    let (r, seen) = resolve(&open_resolver(), &b, 500_000, &net);
    let resolved = r.unwrap();
    assert_eq!(resolved.bolt11, b, "a bolt11 dest passes through unchanged");
    assert_eq!(resolved.expiry, 1_000 + 86_400);
    assert!(seen.is_empty());
}

#[test]
fn wrong_tag_is_structural() {
    let body = terms("https://example.com/cb", 1, 1_000_000, METADATA)
        .replace("payRequest", "withdrawRequest");
    let net = move |url: &str| {
        if url.starts_with("http://h:9/.well-known/lnurlp/") {
            (200, None, body.clone())
        } else {
            (404, None, "{}".to_string())
        }
    };
    let e = resolve(&open_resolver(), "u@h:9", 500_000, &net).0.unwrap_err();
    assert!(
        structural(&e),
        "a non-payRequest tag must be structural: {e:?}"
    );
    assert_eq!(
        e.message(),
        "LNURL response tag is not 'payRequest' (got Some(\"withdrawRequest\"))"
    );
}

#[test]
fn lnurl_error_response_is_structural() {
    let net = |url: &str| {
        if url.starts_with("http://h:9/.well-known/lnurlp/") {
            (200, None, r#"{"status":"ERROR","reason":"unknown user"}"#.to_string())
        } else {
            (404, None, "{}".to_string())
        }
    };
    let e = resolve(&open_resolver(), "ghost@h:9", 500_000, &net).0.unwrap_err();
    assert!(
        structural(&e),
        "an LNURL ERROR response must be structural (parks FAILED, not retried forever): {e:?}"
    );
    assert!(e.message().contains("unknown user"));

    let net = |_: &str| (200, None, r#"{"status":"ERROR"}"#.to_string());
    let e = resolve(&open_resolver(), "ghost@h:9", 500_000, &net).0.unwrap_err();
    assert!(e.message().ends_with("returned a protocol error: (no reason given)"));
}

#[test]
fn body_that_is_no_terms_is_transient() {
    let net = |_: &str| (200, None, r#"{"status":"OK"}"#.to_string());
    let e = resolve(&open_resolver(), "u@h:9", 500_000, &net).0.unwrap_err();
    assert!(!structural(&e));
    assert_eq!(
        e.message(),
        "invalid LNURL JSON from http://h:9/.well-known/lnurlp/u: missing field `callback`"
    );
}

#[test]
fn callback_that_is_no_url_is_structural() {
    let net = |_: &str| (200, None, terms("cb", 1, 1_000_000, METADATA));
    let e = resolve(&open_resolver(), "u@h:9", 500_000, &net).0.unwrap_err();
    assert_eq!(
        e.message(),
        "invalid LNURL callback 'cb': relative URL without a base"
    );
    assert!(structural(&e));
}

#[test]
fn failed_requests_and_bodies_are_transient() {
    let start = || open_resolver().resolve("u@h:9", 5, 1_000);
    let done = |s: Stage| match s {
        Stage::Done(Err(ResolveError::Transient(m))) => m,
        other => panic!("{other:?}"),
    };
    assert_eq!(
        done(start().fetched(Fetched::Failed("refused".into())).stage),
        "LNURL request to http://h:9/.well-known/lnurlp/u failed: refused"
    );
    assert_eq!(
        done(start().fetched(Fetched::ClientFailed("tls".into())).stage),
        "building IP-pinned LNURL client: tls"
    );
    let ok = || start().fetched(Fetched::Response { code: 200, location: None });
    assert_eq!(
        done(ok().read(BodyRead::Failed("reset".into())).stage),
        "reading LNURL body: reset"
    );
    let too_long = BodyReader::begin(Some(MAX_BODY_BYTES + 1)).unwrap_err();
    assert_eq!(
        done(ok().read(BodyRead::Refused(too_long)).stage),
        "LNURL response too large: 65537 bytes"
    );
}

#[test]
fn body_reader_stops_at_the_cap() {
    let mut r = BodyReader::begin(None).unwrap();
    assert!(r.push(&vec![1; MAX_BODY_BYTES as usize - 1]).is_ok());
    assert_eq!(
        r.push(&[2, 3]).unwrap_err().message(),
        "LNURL response exceeded the size cap"
    );
    assert!(r.push(&[2]).is_ok());
    let bytes = r.into_bytes();
    assert_eq!((bytes.len() as u64, bytes[0], *bytes.last().unwrap()), (MAX_BODY_BYTES, 1, 2));
    assert!(BodyReader::begin(Some(MAX_BODY_BYTES)).is_ok());
}

#[test]
fn lookups_are_vetted_and_pinned() {
    let public = Address { ip: Ip::V4([8, 8, 8, 8]), text: "8.8.8.8".into() };
    let private = Address { ip: Ip::V4([192, 168, 0, 1]), text: "192.168.0.1".into() };
    let r = Resolver::new().resolve("u@example.com:8443", 5, 1_000);
    match &r.stage {
        Stage::Lookup { host, port, .. } => assert_eq!((host.as_str(), *port), ("example.com", 8443)),
        other => panic!("{other:?}"),
    }
    match r.looked_up(LookedUp::Found(vec![public.clone()])).stage {
        Stage::Fetch { url, pin: Some(pin) } => {
            assert_eq!(url.text, "https://example.com:8443/.well-known/lnurlp/u");
            assert_eq!((pin.host.as_str(), pin.port, pin.addresses.len()), ("example.com", 8443, 1));
        }
        other => panic!("{other:?}"),
    }
    // One private address among public ones is enough to refuse.
    let e = vet_addresses("h", LookedUp::Found(vec![public, private])).unwrap_err();
    assert!(structural(&e));
    assert!(e.message().contains("192.168.0.1"));
    for (looked, want) in [
        (LookedUp::Found(vec![]), "DNS lookup for 'h' returned no addresses"),
        (LookedUp::Failed("nxdomain".into()), "DNS lookup for 'h' failed: nxdomain"),
        (LookedUp::TimedOut, "DNS lookup for 'h' timed out after 10s"),
    ] {
        let e = vet_addresses("h", looked).unwrap_err();
        assert!(!structural(&e));
        assert_eq!(e.message(), want);
    }
}

#[test]
fn answers_that_are_not_waited_for_change_nothing() {
    let r = Resolver::new().resolve("u@example.com", 5, 1_000);
    let r = r.fetched(Fetched::Failed("x".into()));
    let r = r.read(BodyRead::Failed("x".into()));
    assert!(matches!(r.stage, Stage::Lookup { port: 443, .. }));
}

#[test]
fn pass_through_hands_the_destination_back() {
    match PassThroughResolver.resolve("anything", 1, 2).stage {
        Stage::Done(Ok(r)) => assert_eq!((r.bolt11.as_str(), r.expiry), ("anything", i64::MAX)),
        other => panic!("{other:?}"),
    }
}

// ---- addresses --------------------------------------------------------------

fn v4(s: &str) -> [u8; 4] {
    match url::Host::parse(s).unwrap() {
        url::Host::Ipv4(ip) => ip.octets(),
        other => panic!("{other}"),
    }
}

fn v6(s: &str) -> [u16; 8] {
    match url::Host::parse(&format!("[{s}]")).unwrap() {
        url::Host::Ipv6(ip) => ip.segments(),
        other => panic!("{other}"),
    }
}

#[test]
fn ssrf_blocks_shared_and_reserved_ipv4_ranges() {
    let blocked = [
        "0.0.0.0",
        "100.64.0.1",
        "100.127.255.254",
        "192.0.0.1",
        "198.18.0.1",
        "198.19.255.254",
        "224.0.0.1",
        "240.0.0.1",
        "255.255.255.255",
    ];
    for s in blocked {
        assert!(ipv4_blocked(v4(s)), "{s} must be blocked");
    }

    let allowed = [
        "8.8.8.8",
        "1.1.1.1",
        "100.63.255.255",
        "100.128.0.0",
        "198.17.255.255",
        "198.20.0.0",
        "192.0.1.1",
    ];
    for s in allowed {
        assert!(!ipv4_blocked(v4(s)), "{s} must be allowed (globally routable)");
    }
}

#[test]
fn ssrf_blocks_private_ipv4_ranges_to_their_edges() {
    for s in [
        "10.0.0.0", "10.255.255.255", "172.16.0.0", "172.31.255.255", "192.168.0.0",
        "192.168.255.255", "127.0.0.1", "127.255.255.255", "169.254.0.0", "169.254.255.255",
        "192.0.2.1", "198.51.100.1", "203.0.113.255", "0.255.255.255", "239.255.255.255",
    ] {
        assert!(ipv4_blocked(v4(s)), "{s}");
    }
    for s in [
        "9.255.255.255", "11.0.0.0", "172.15.255.255", "172.32.0.0", "192.167.255.255",
        "192.169.0.0", "126.255.255.255", "128.0.0.0", "169.253.255.255", "169.255.0.0",
        "192.0.3.0", "198.51.99.255", "203.0.112.255", "203.0.114.0", "1.0.0.0", "223.255.255.255",
    ] {
        assert!(!ipv4_blocked(v4(s)), "{s}");
    }
}

#[test]
fn ssrf_blocks_embedded_ipv4_v6_forms() {
    let blocked = [
        "::ffff:127.0.0.1",
        "::ffff:169.254.169.254",
        "::7f00:1",
        "64:ff9b::7f00:1",
        "64:ff9b::a9fe:a9fe",
        "2002:7f00:1::",
        "2002:c0a8:1::",
    ];
    for s in blocked {
        assert!(ipv6_blocked(v6(s)), "{s} must be blocked");
    }

    assert!(
        ipv6_blocked(v6("2001::ffff:80ff:fffe")),
        "Teredo-embedded loopback must be blocked"
    );

    let allowed = [
        "2606:4700:4700::1111",
        "2002:0808:0808::",
        "64:ff9b::0808:0808",
    ];
    for s in allowed {
        assert!(!ipv6_blocked(v6(s)), "{s} must be allowed");
    }
    assert_eq!(embedded_ipv4(v6("2001::ffff:80ff:fffe")), Some([127, 0, 0, 1]));
    assert_eq!(embedded_ipv4(v6("2002:c0a8:1::")), Some([192, 168, 0, 1]));
    assert_eq!(embedded_ipv4(v6("2606:4700:4700::1111")), None);
    assert_eq!(embedded_ipv4(v6("::")), None);
}

#[test]
fn ssrf_blocks_site_local_and_multicast_ipv6() {
    let blocked = [
        "fec0::1",
        "fec0:0:0:1::1",
        "feff:ffff::1",
        "ff02::1",
        "ff05::1:3",
        "ff0e::1",
    ];
    for s in blocked {
        assert!(ipv6_blocked(v6(s)), "{s} must be blocked");
    }
    for s in ["::", "::1", "fc00::1", "fdff::1", "fe80::1", "febf::1"] {
        assert!(ip_blocked(Ip::V6(v6(s))), "{s}");
    }
    assert!(
        !ipv6_blocked(v6("2606:4700:4700::1111")),
        "a public IPv6 must stay allowed"
    );
    assert!(!ipv6_blocked(v6("fbff::1")));
    assert!(!ipv6_blocked(v6("fe00::1")));
}
