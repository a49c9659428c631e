//! The JSON documents that stored rows hold, and what the daemon's rules go by of them.

use crate::outside::{members_view, JsonDoc, JsonDocView, JsonMember, JsonValue, JsonView};
use crate::refund::{is_settle_refund, settle_refund_kind};
use crate::tables::{first_where, lemma_first_where_at, opt_view, Count, EventDetail, EventKind};
use crate::text::{
    cat3, decimal, decimal_text, has_prefix, lemma_decimal_injective, lemma_number_of_decimal, number,
    owned, parse_i64, same, strip_prefix,
};
use vstd::prelude::*;
use vstd::string::*;

verus! {

/// The outcome of parsing a document with its parts taken by their views.
pub open spec fn doc_view(doc: Result<JsonDoc, String>) -> Result<JsonDocView, Seq<char>> {
    match doc {
        Ok(d) => Ok(d@),
        Err(e) => Err(e@),
    }
}

/// Being the member with this key.
pub open spec fn keyed(key: Seq<char>) -> spec_fn((Seq<char>, JsonView)) -> bool {
    |m: (Seq<char>, JsonView)| m.0 == key
}

/// The value under a key.
pub open spec fn value_of(members: Seq<(Seq<char>, JsonView)>, key: Seq<char>) -> Option<JsonView> {
    let at = first_where(members, keyed(key)) as int;
    if at < members.len() {
        Some(members[at].1)
    } else {
        None
    }
}

/// The value under a key.
pub fn find_value<'a>(members: &'a Vec<JsonMember>, key: &str) -> (r: Option<&'a JsonValue>)
    ensures
        value_of(members_view(members@), key@) == match r {
            Some(v) => Some(v@),
            None => None,
        },
{
    let ghost p = keyed(key@);
    let ghost v = members_view(members@);
    let mut i: usize = 0;
    while i < members.len()
        invariant
            i <= members@.len(),
            v == members_view(members@),
            p == keyed(key@),
            forall|k: int| 0 <= k < i ==> !p(#[trigger] v[k]),
        decreases members@.len() - i,
    {
        if same(&members[i].key, key) {
            proof {
                assert(p(v[i as int]));
                lemma_first_where_at(v, p, i as int);
            }
            return Some(&members[i].value);
        }
        i = i + 1;
    }
    proof {
        lemma_first_where_at(v, p, i as int);
    }
    None
}

// ---- receipts --------------------------------------------------------------------------------

/// A member of a stored document, as a query extracts it.
#[derive(Clone, Debug)]
pub enum Stored {
    /// It is missing or null.
    Null,
    /// A whole number of 64 bits; a truth value is one or zero.
    Integer(i64),
    Text(String),
    /// Any other value.
    Other,
}

/// What a query extracts from the document of a receipt.
#[derive(Clone, Debug)]
pub struct ReceiptMembers {
    pub external_id: Stored,
    pub amount_sat: Stored,
    /// The amount cast to a whole number.
    pub amount_cast: Option<i64>,
}

/// Whether `d` is the body of a receipt with these members. The external id is none where it is no
/// text. An amount that is no whole number counts as what it is cast to.
pub open spec fn is_receipt_detail(d: EventDetail, m: ReceiptMembers) -> bool {
    &&& d matches EventDetail::Settlement { receipt, amount_sat, whole }
    &&& opt_view(receipt) == match m.external_id {
        Stored::Text(ext) => Some(ext@),
        _ => None,
    }
    &&& amount_sat == match m.amount_sat {
        Stored::Null => None,
        Stored::Integer(n) => Some(n),
        _ => m.amount_cast,
    }
    &&& whole == (m.amount_sat is Null || m.amount_sat is Integer)
}

/// The body of a receipt, from what a query extracts from its document.
pub fn receipt_detail(m: ReceiptMembers) -> (r: EventDetail)
    ensures
        is_receipt_detail(r, m),
{
    let receipt = match m.external_id {
        Stored::Text(ext) => Some(ext),
        _ => None,
    };
    match m.amount_sat {
        Stored::Null => EventDetail::Settlement { receipt, amount_sat: None, whole: true },
        Stored::Integer(n) => EventDetail::Settlement { receipt, amount_sat: Some(n), whole: true },
        _ => EventDetail::Settlement { receipt, amount_sat: m.amount_cast, whole: false },
    }
}

// ---- cleanups --------------------------------------------------------------------------------

/// The document that says that the cleanup asked for by an event was done.
pub open spec fn cleanup_text(pending_event_id: int) -> Seq<char> {
    "{\"pending_event_id\":"@ + decimal(pending_event_id) + "}"@
}

/// The event whose cleanup a document says was done, if it is written as such a document is.
pub fn cleanup_id(text: &str) -> (r: Option<i64>)
    ensures
        match r {
            Some(n) => text@ == cleanup_text(n as int),
            None => forall|n: i64| text@ != #[trigger] cleanup_text(n as int),
        },
{
    let head = "{\"pending_event_id\":";
    proof {
        reveal_strlit("}");
        assert forall|n: i64| text@ == #[trigger] cleanup_text(n as int) implies has_prefix(
            text@,
            head@,
        ) && text@.skip(head@.len() as int) == decimal(n as int) + "}"@ by {
            assert(text@.take(head@.len() as int) =~= head@);
            assert(text@.skip(head@.len() as int) =~= decimal(n as int) + "}"@);
        }
    }
    let rest = match strip_prefix(text, head) {
        None => {
            return None;
        },
        Some(rest) => rest,
    };
    let len: usize = rest.unicode_len();
    if len == 0 {
        return None;
    }
    let middle = rest.substring_char(0, len - 1);
    proof {
        assert forall|n: i64| text@ == #[trigger] cleanup_text(n as int) implies crate::text::number(
            middle@,
        ) == Some(n as int) by {
            assert(rest@ == decimal(n as int) + "}"@);
            assert(middle@ =~= decimal(n as int));
            lemma_number_of_decimal(n as int);
        }
    }
    match parse_i64(middle) {
        None => None,
        Some(n) => {
            let digits = decimal_text(n as i128);
            if same(text, &cat3(head, &digits, "}")) {
                Some(n)
            } else {
                None
            }
        },
    }
}

// ---- the body of an event --------------------------------------------------------------------

/// Whether `d` is the body of an event whose stored document is `text`. `receipt` is what a query
/// extracts from it, none where it cannot be read. Only the documents of receipts and of cleanups that
/// were done are read; any other stays as it is, and an empty column is taken as an empty text.
pub open spec fn is_detail(
    d: EventDetail,
    kind: EventKind,
    text: Option<Seq<char>>,
    receipt: Option<ReceiptMembers>,
) -> bool {
    let s = match text {
        Some(s) => s,
        None => Seq::empty(),
    };
    if is_settle_refund(kind) {
        match receipt {
            Some(m) => is_receipt_detail(d, m),
            None => d matches EventDetail::Raw(x) && x@ == s,
        }
    } else {
        match d {
            EventDetail::CleanupDone { pending_event_id } => kind == EventKind::ProvisionCleanupDone
                && s == cleanup_text(pending_event_id as int),
            EventDetail::Raw(x) => x@ == s && (kind == EventKind::ProvisionCleanupDone
                ==> forall|n: i64| s != #[trigger] cleanup_text(n as int)),
            _ => false,
        }
    }
}

/// The body of an event, from its stored document and what a query extracts from that.
pub fn detail_of(kind: EventKind, text: Option<String>, receipt: Option<ReceiptMembers>) -> (r:
    EventDetail)
    ensures
        is_detail(r, kind, opt_view(text), receipt),
{
    let s = match text {
        Some(s) => s,
        None => {
            proof {
                reveal_strlit("");
            }
            let empty = owned("");
            assert(empty@ =~= Seq::empty());
            empty
        },
    };
    if settle_refund_kind(kind) {
        return match receipt {
            Some(m) => receipt_detail(m),
            None => EventDetail::Raw(s),
        };
    }
    if kind == EventKind::ProvisionCleanupDone {
        if let Some(pending_event_id) = cleanup_id(&s) {
            return EventDetail::CleanupDone { pending_event_id };
        }
    }
    EventDetail::Raw(s)
}

// ---- counts ----------------------------------------------------------------------------------

/// What a stored member counts as.
pub open spec fn stored_count(value: Option<Stored>) -> Count {
    match value {
        Some(Stored::Null) => Count::Number(0),
        Some(Stored::Integer(n)) => Count::Number(n),
        _ => Count::Odd,
    }
}

/// A count, from what a query sums of a document's member; none where the document cannot be read.
pub fn count_of(value: Option<Stored>) -> (r: Count)
    ensures
        r == stored_count(value),
{
    match value {
        Some(Stored::Null) => Count::Number(0),
        Some(Stored::Integer(n)) => Count::Number(n),
        _ => Count::Odd,
    }
}

/// The value under a key is that of the first member with that key, if there is one.
pub proof fn first_member_gives_the_value(m: Seq<(Seq<char>, JsonView)>, key: Seq<char>, n: int)
    requires
        0 <= n <= m.len(),
        forall|k: int| 0 <= k < n ==> (#[trigger] m[k]).0 != key,
        n < m.len() ==> m[n].0 == key,
    ensures
        n < m.len() ==> value_of(m, key) == Some(m[n].1),
        n == m.len() ==> value_of(m, key) is None,
{
    lemma_first_where_at(m, keyed(key), n);
}

/// What a receipt counts as. A whole number is the amount, a missing one is none, and both are whole;
/// anything else counts as what it is cast to and is not. Only a text is an external id.
pub proof fn receipt_counts_as_it_is_stored(d: EventDetail, m: ReceiptMembers)
    requires
        is_receipt_detail(d, m),
    ensures
        d is Settlement,
        m.amount_sat matches Stored::Integer(n) ==> d->Settlement_amount_sat == Some(n)
            && d->Settlement_whole,
        m.amount_sat is Null ==> d->Settlement_amount_sat is None && d->Settlement_whole,
        m.amount_sat is Text || m.amount_sat is Other ==> d->Settlement_amount_sat == m.amount_cast
            && !d->Settlement_whole,
        m.external_id matches Stored::Text(x) ==> (d->Settlement_receipt matches Some(y) && y@ == x@),
        !(m.external_id is Text) ==> d->Settlement_receipt is None,
{
}

/// A cleanup that was done names one event: two documents that are alike name the same.
pub proof fn cleanup_names_one_event(a: int, b: int)
    requires
        cleanup_text(a) == cleanup_text(b),
    ensures
        a == b,
{
    let head = "{\"pending_event_id\":"@;
    let tail = "}"@;
    let s = cleanup_text(a);
    assert(s =~= head + decimal(a) + tail);
    assert(decimal(a).len() == s.len() - head.len() - tail.len());
    assert(decimal(b).len() == s.len() - head.len() - tail.len());
    assert(s.subrange(head.len() as int, s.len() - tail.len()) =~= decimal(a));
    assert(s.subrange(head.len() as int, s.len() - tail.len()) =~= decimal(b));
    lemma_decimal_injective(a, b);
}

/// The document of a cleanup that was done reads as an object with the number of its event.
pub proof fn cleanup_is_written_with_its_number(n: int)
    ensures
        cleanup_text(n) == "{\"pending_event_id\":"@ + decimal(n) + "}"@,
        number(cleanup_text(n).skip(20).drop_last()) == Some(n),
{
    reveal_strlit("{\"pending_event_id\":");
    reveal_strlit("}");
    assert(cleanup_text(n).skip(20).drop_last() =~= decimal(n));
    lemma_number_of_decimal(n);
}

/// What an event's stored document is read as. Of the four kinds that journal a payment that has to go
/// back it is a receipt where it can be read; of a cleanup that was done it is that where it is written
/// as such; and any other is kept word for word, a missing one as an empty text.
pub proof fn documents_are_read_by_kind(
    d: EventDetail,
    kind: EventKind,
    text: Option<Seq<char>>,
    receipt: Option<ReceiptMembers>,
)
    requires
        is_detail(d, kind, text, receipt),
    ensures
        ({
            let settles = kind == EventKind::SettleUnmatchedRefund || kind
                == EventKind::SettleTerminalRefund || kind == EventKind::SettleOrphanRefund || kind
                == EventKind::SettleExpiredRefund;
            &&& d is Settlement <==> settles && receipt is Some
            &&& d matches EventDetail::CleanupDone { pending_event_id } ==> {
                &&& kind == EventKind::ProvisionCleanupDone
                &&& text == Some("{\"pending_event_id\":"@ + decimal(pending_event_id as int) + "}"@)
            }
            &&& !settles && kind != EventKind::ProvisionCleanupDone ==> d is Raw
            &&& d matches EventDetail::Raw(x) ==> {
                &&& text matches Some(s) ==> x@ == s
                &&& text is None ==> x@.len() == 0
            }
            &&& d is Settlement || d is CleanupDone || d is Raw
        }),
{
    if text is None {
        reveal_strlit("{\"pending_event_id\":");
        if let EventDetail::CleanupDone { pending_event_id } = d {
            assert(cleanup_text(pending_event_id as int).len() > 0);
        }
    }
}

/// A whole number counts as itself and a missing one as nothing; whatever else is stored, and a document
/// that cannot be read, is no number.
pub proof fn only_whole_numbers_count(value: Option<Stored>, n: i64)
    ensures
        stored_count(Some(Stored::Integer(n))) == Count::Number(n),
        stored_count(Some(Stored::Null)) == Count::Number(0),
        stored_count(value) is Odd <==> value is None || value->0 is Text || value->0 is Other,
{
}

} // verus!
