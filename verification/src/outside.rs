//! The calls into other crates. Each stands alone in a function of its own that converts to and from
//! plain values; what such a function claims of the call behind it is not proved, so it says no more
//! than the crate's source shows. Where a result takes pages to describe it only gets a name.

use crate::addresses::{Address, AddressView, Ip};
use serde_json::Value;
use std::str::FromStr;
use vstd::prelude::*;
use vstd::utf8::*;

verus! {

// ---- BOLT11 invoices -------------------------------------------------------------------------

/// What the daemon reads of a BOLT11 invoice.
#[derive(Clone, Debug)]
pub struct Bolt11 {
    /// The amount in millisatoshis, if the invoice fixes one.
    pub amount_msat: Option<u64>,
    /// The description hash in lower-case hex; `None` for an invoice with a direct description.
    pub description_hash: Option<String>,
    /// The absolute expiry in whole seconds since the epoch; `None` where the sum overflows.
    pub expires_at: Option<u64>,
}

/// [`Bolt11`] as a mathematical value.
pub struct Bolt11View {
    pub amount_msat: Option<u64>,
    pub description_hash: Option<Seq<char>>,
    pub expires_at: Option<u64>,
}

impl View for Bolt11 {
    type V = Bolt11View;

    open spec fn view(&self) -> Bolt11View {
        Bolt11View {
            amount_msat: self.amount_msat,
            description_hash: match self.description_hash {
                Some(h) => Some(h@),
                None => None,
            },
            expires_at: self.expires_at,
        }
    }
}

/// What `lightning_invoice::Bolt11Invoice::from_str` makes of a text: the invoice, or the words of
/// its error.
pub uninterp spec fn bolt11(text: Seq<char>) -> Result<Bolt11View, Seq<char>>;

/// `lightning_invoice::Bolt11Invoice::from_str`, with the amount, the description hash and the
/// expiry read off the invoice. The result is a function of the text alone; which texts parse is not
/// said.
#[verifier::external_body]
pub(crate) fn parse_bolt11(text: &str) -> (r: Result<Bolt11, String>)
    ensures
        match r {
            Ok(invoice) => bolt11(text@) == Ok::<Bolt11View, Seq<char>>(invoice@),
            Err(e) => bolt11(text@) == Err::<Bolt11View, Seq<char>>(e@),
        },
{
    let invoice = lightning_invoice::Bolt11Invoice::from_str(text).map_err(|e| e.to_string())?;
    Ok(Bolt11 {
        amount_msat: invoice.amount_milli_satoshis(),
        description_hash: match invoice.description() {
            lightning_invoice::Bolt11InvoiceDescriptionRef::Hash(h) => Some(h.0.to_string()),
            lightning_invoice::Bolt11InvoiceDescriptionRef::Direct(_) => None,
        },
        expires_at: invoice.expires_at().map(|d| d.as_secs()),
    })
}

// ---- bech32 ----------------------------------------------------------------------------------

/// What `bech32::decode` makes of a text: the human-readable part and the bytes, or the words of its
/// error.
pub uninterp spec fn bech32_decoded(text: Seq<char>) -> Result<(Seq<char>, Seq<u8>), Seq<char>>;

/// `bech32::decode`. The result is a function of the text alone; which texts decode is not said.
#[verifier::external_body]
pub(crate) fn bech32_decode(text: &str) -> (r: Result<(String, Vec<u8>), String>)
    ensures
        match r {
            Ok(d) => bech32_decoded(text@) == Ok::<(Seq<char>, Seq<u8>), Seq<char>>((d.0@, d.1@)),
            Err(e) => bech32_decoded(text@) == Err::<(Seq<char>, Seq<u8>), Seq<char>>(e@),
        },
{
    match bech32::decode(text) {
        Ok((hrp, data)) => Ok((hrp.to_string(), data)),
        Err(e) => Err(e.to_string()),
    }
}

/// The words of the error that `String::from_utf8` gives for bytes that are no UTF-8.
pub uninterp spec fn utf8_error(bytes: Seq<u8>) -> Seq<char>;

/// `String::from_utf8`: the text that the bytes encode, if and only if they are valid UTF-8.
#[verifier::external_body]
pub(crate) fn text_from_utf8(bytes: Vec<u8>) -> (r: Result<String, String>)
    ensures
        r is Ok <==> valid_utf8(bytes@),
        r matches Ok(s) ==> encode_utf8(s@) == bytes@,
        r matches Err(e) ==> e@ == utf8_error(bytes@),
{
    String::from_utf8(bytes).map_err(|e| e.to_string())
}

// ---- URLs ------------------------------------------------------------------------------------

/// The host of a URL.
#[derive(Clone, Debug)]
pub enum UrlHost {
    Domain(String),
    Ip(Address),
}

/// What the daemon reads of an absolute URL.
#[derive(Clone, Debug)]
pub struct UrlParts {
    /// The URL as it is written out.
    pub text: String,
    pub scheme: String,
    pub host: Option<UrlHost>,
    /// The port, or the scheme's own where none is given and the scheme has one.
    pub port: Option<u16>,
}

/// [`UrlHost`] as a mathematical value.
pub enum UrlHostView {
    Domain(Seq<char>),
    Ip(AddressView),
}

/// [`UrlParts`] as a mathematical value.
pub struct UrlView {
    pub text: Seq<char>,
    pub scheme: Seq<char>,
    pub host: Option<UrlHostView>,
    pub port: Option<u16>,
}

impl View for UrlHost {
    type V = UrlHostView;

    open spec fn view(&self) -> UrlHostView {
        match self {
            UrlHost::Domain(name) => UrlHostView::Domain(name@),
            UrlHost::Ip(address) => UrlHostView::Ip(address@),
        }
    }
}

impl View for UrlParts {
    type V = UrlView;

    open spec fn view(&self) -> UrlView {
        UrlView {
            text: self.text@,
            scheme: self.scheme@,
            host: match self.host {
                Some(h) => Some(h@),
                None => None,
            },
            port: self.port,
        }
    }
}

/// What `url::Url::parse` makes of a text: the URL, or the words of its error.
pub uninterp spec fn url(text: Seq<char>) -> Result<UrlView, Seq<char>>;

/// `url::Url::parse`, with the scheme, the host and the port read off the URL. The result is a
/// function of the text alone; which texts parse is not said.
#[verifier::external_body]
pub(crate) fn parse_url(text: &str) -> (r: Result<UrlParts, String>)
    ensures
        match r {
            Ok(u) => url(text@) == Ok::<UrlView, Seq<char>>(u@),
            Err(e) => url(text@) == Err::<UrlView, Seq<char>>(e@),
        },
{
    let u = url::Url::parse(text).map_err(|e| e.to_string())?;
    Ok(UrlParts {
        text: u.to_string(),
        scheme: u.scheme().to_string(),
        host: u.host().map(|h| match h {
            url::Host::Domain(name) => UrlHost::Domain(name.to_string()),
            url::Host::Ipv4(ip) => UrlHost::Ip(Address { ip: Ip::V4(ip.octets()), text: ip.to_string() }),
            url::Host::Ipv6(ip) => UrlHost::Ip(Address { ip: Ip::V6(ip.segments()), text: ip.to_string() }),
        }),
        port: u.port_or_known_default(),
    })
}

/// What `url::Url::join` makes of a reference, seen from the URL that `base` writes: the URL that is
/// meant, written out, or the words of the error.
pub uninterp spec fn url_joined(base: Seq<char>, reference: Seq<char>) -> Result<
    Seq<char>,
    Seq<char>,
>;

/// `url::Url::join` on the URL that `base` writes. The result is a function of the two texts alone.
#[verifier::external_body]
pub(crate) fn join_url(base: &str, reference: &str) -> (r: Result<String, String>)
    ensures
        match r {
            Ok(u) => url_joined(base@, reference@) == Ok::<Seq<char>, Seq<char>>(u@),
            Err(e) => url_joined(base@, reference@) == Err::<Seq<char>, Seq<char>>(e@),
        },
{
    let joined = url::Url::parse(base).and_then(|u| u.join(reference));
    joined.map(|u| u.to_string()).map_err(|e| e.to_string())
}

/// The URL that `text` writes with one more query pair, written out, or the words of the error for
/// a text that is no URL.
pub uninterp spec fn url_with_pair(text: Seq<char>, name: Seq<char>, value: Seq<char>) -> Result<
    Seq<char>,
    Seq<char>,
>;

/// `url::Url::parse` and then `query_pairs_mut().append_pair`. The result is a function of the three
/// texts alone. The bound on their length keeps the written-out URL within the 32-bit offsets of
/// `url::Url`, beyond which it panics.
#[verifier::external_body]
pub(crate) fn append_query_pair(text: &str, name: &str, value: &str) -> (r: Result<String, String>)
    requires
        text@.len() + name@.len() + value@.len() <= 0x400_0000,
    ensures
        match r {
            Ok(u) => url_with_pair(text@, name@, value@) == Ok::<Seq<char>, Seq<char>>(u@),
            Err(e) => url_with_pair(text@, name@, value@) == Err::<Seq<char>, Seq<char>>(e@),
        },
{
    let mut u = url::Url::parse(text).map_err(|e| e.to_string())?;
    u.query_pairs_mut().append_pair(name, value);
    Ok(u.to_string())
}

// ---- HTTP ------------------------------------------------------------------------------------

/// How a status code is written: the code and its reason phrase.
pub uninterp spec fn status_line(code: u16) -> Seq<char>;

/// `reqwest::StatusCode::from_u16` and its `to_string`, or that of the error where the code has not
/// three digits. The result is a function of the code alone.
#[verifier::external_body]
pub(crate) fn status_text(code: u16) -> (r: String)
    ensures
        r@ == status_line(code),
{
    reqwest::StatusCode::from_u16(code).map_or_else(|e| e.to_string(), |s| s.to_string())
}

// ---- words -----------------------------------------------------------------------------------

/// How an optional text is written for debugging: `None`, or `Some` with the text quoted and
/// escaped.
pub uninterp spec fn debug_line(text: Option<Seq<char>>) -> Seq<char>;

/// The `Debug` form of an `Option<String>`. The result is a function of the text alone.
#[verifier::external_body]
pub(crate) fn debug_text(text: &Option<String>) -> (r: String)
    ensures
        r@ == debug_line(match *text {
            Some(s) => Some(s@),
            None => None,
        }),
{
    format!("{text:?}")
}

/// How a time span of so many milliseconds is written for debugging.
pub uninterp spec fn duration_line(ms: u64) -> Seq<char>;

/// The `Debug` form of a `std::time::Duration`. The result is a function of the span alone.
#[verifier::external_body]
pub(crate) fn duration_text(ms: u64) -> (r: String)
    ensures
        r@ == duration_line(ms),
{
    format!("{:?}", std::time::Duration::from_millis(ms))
}

/// What `String::from_utf8_lossy` makes of bytes.
pub uninterp spec fn lossy(bytes: Seq<u8>) -> Seq<char>;

/// `String::from_utf8_lossy`: the text that the bytes encode if they are valid UTF-8. What stands
/// for bytes that are not is a function of the bytes alone.
#[verifier::external_body]
pub(crate) fn lossy_text(bytes: &Vec<u8>) -> (r: String)
    ensures
        r@ == lossy(bytes@),
        valid_utf8(bytes@) ==> encode_utf8(r@) == bytes@,
{
    String::from_utf8_lossy(bytes).to_string()
}

// ---- digests ---------------------------------------------------------------------------------

/// The SHA-256 digest of `bytes`.
pub uninterp spec fn sha256(bytes: Seq<u8>) -> Seq<u8>;

/// `sha2::Sha256::digest`: the 32 bytes of the SHA-256 digest.
#[verifier::external_body]
pub(crate) fn sha256_digest(bytes: &[u8]) -> (r: Vec<u8>)
    ensures
        r@ == sha256(bytes@),
        r@.len() == 32,
{
    <sha2::Sha256 as sha2::Digest>::digest(bytes).to_vec()
}

/// The lower-case hexadecimal digit of `n`.
pub open spec fn hex_digit(n: int) -> char {
    if n < 10 {
        ('0' as int + n) as char
    } else {
        ('a' as int + n - 10) as char
    }
}

/// `bytes` in lower-case hexadecimal, two digits for each byte.
pub open spec fn hex_of(bytes: Seq<u8>) -> Seq<char> {
    Seq::new(
        2 * bytes.len(),
        |i: int|
            if i % 2 == 0 {
                hex_digit(bytes[i / 2] as int / 16)
            } else {
                hex_digit(bytes[i / 2] as int % 16)
            },
    )
}

/// `hex::encode`: two lower-case digits for each byte, the high half first.
#[verifier::external_body]
pub(crate) fn hex_encode(bytes: &Vec<u8>) -> (r: String)
    ensures
        r@ == hex_of(bytes@),
{
    hex::encode(bytes)
}

// ---- JSON ------------------------------------------------------------------------------------

/// A member's value, down to what the daemon reads of it.
#[derive(Clone, Debug)]
pub enum JsonValue {
    Null,
    Bool(bool),
    /// A number, as a `u64` and as an `i64` where it is one.
    Number { unsigned: Option<u64>, signed: Option<i64> },
    Text(String),
    Array,
    Object,
}

/// A member of a JSON object.
#[derive(Clone, Debug)]
pub struct JsonMember {
    pub key: String,
    pub value: JsonValue,
}

/// A JSON document: an object with its members, or anything else.
#[derive(Clone, Debug)]
pub enum JsonDoc {
    Object(Vec<JsonMember>),
    Other,
}

/// [`JsonValue`] as a mathematical value.
pub enum JsonView {
    Null,
    Bool(bool),
    Number { unsigned: Option<u64>, signed: Option<i64> },
    Text(Seq<char>),
    Array,
    Object,
}

/// [`JsonDoc`] as a mathematical value.
pub enum JsonDocView {
    Object(Seq<(Seq<char>, JsonView)>),
    Other,
}

impl View for JsonValue {
    type V = JsonView;

    open spec fn view(&self) -> JsonView {
        match self {
            JsonValue::Null => JsonView::Null,
            JsonValue::Bool(b) => JsonView::Bool(*b),
            JsonValue::Number { unsigned, signed } => JsonView::Number {
                unsigned: *unsigned,
                signed: *signed,
            },
            JsonValue::Text(s) => JsonView::Text(s@),
            JsonValue::Array => JsonView::Array,
            JsonValue::Object => JsonView::Object,
        }
    }
}

/// The members of an object as mathematical values.
pub open spec fn members_view(members: Seq<JsonMember>) -> Seq<(Seq<char>, JsonView)> {
    members.map_values(|m: JsonMember| (m.key@, m.value@))
}

impl View for JsonDoc {
    type V = JsonDocView;

    open spec fn view(&self) -> JsonDocView {
        match self {
            JsonDoc::Object(members) => JsonDocView::Object(members_view(members@)),
            JsonDoc::Other => JsonDocView::Other,
        }
    }
}

/// What `serde_json::from_str` makes of a text as a `serde_json::Value`: the document, or the words
/// of its error.
pub uninterp spec fn json(text: Seq<char>) -> Result<JsonDocView, Seq<char>>;

/// `serde_json::from_str::<serde_json::Value>`, with the members of a top-level object taken out one
/// for one. The result is a function of the text alone; of a key that the text repeats
/// `serde_json::Value` keeps one member, the last.
#[verifier::external_body]
pub(crate) fn parse_json(text: &str) -> (r: Result<JsonDoc, String>)
    ensures
        match r {
            Ok(doc) => json(text@) == Ok::<JsonDocView, Seq<char>>(doc@),
            Err(e) => json(text@) == Err::<JsonDocView, Seq<char>>(e@),
        },
{
    let value = serde_json::from_str::<Value>(text).map_err(|e| e.to_string())?;
    let Value::Object(map) = value else { return Ok(JsonDoc::Other) };
    let members = map.into_iter().map(|(key, v)| JsonMember { key, value: match v {
        Value::Null => JsonValue::Null,
        Value::Bool(b) => JsonValue::Bool(b),
        Value::Number(n) => JsonValue::Number { unsigned: n.as_u64(), signed: n.as_i64() },
        Value::String(s) => JsonValue::Text(s),
        Value::Array(_) => JsonValue::Array,
        Value::Object(_) => JsonValue::Object,
    } });
    Ok(JsonDoc::Object(members.collect()))
}

/// `serde_json::Value`, a JSON document that is carried through as it is.
#[verifier::external_type_specification]
#[verifier::external_body]
pub struct ExValue(serde_json::Value);

/// What `serde_json::from_slice` makes of bytes as a `serde_json::Value`: the document, or the words
/// of its error.
pub uninterp spec fn json_document(bytes: Seq<u8>) -> Result<serde_json::Value, Seq<char>>;

/// `serde_json::from_slice::<serde_json::Value>`. The result is a function of the bytes alone.
#[verifier::external_body]
pub(crate) fn json_from_slice(bytes: &Vec<u8>) -> (r: Result<serde_json::Value, String>)
    ensures
        match r {
            Ok(v) => json_document(bytes@) == Ok::<serde_json::Value, Seq<char>>(v),
            Err(e) => json_document(bytes@) == Err::<serde_json::Value, Seq<char>>(e@),
        },
{
    serde_json::from_slice(bytes).map_err(|e| e.to_string())
}

} // verus!
