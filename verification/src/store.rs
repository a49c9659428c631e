//! The store's rules: which liabilities its rows show, which rows may be reaped, and when writes are
//! refused.

use crate::refund::{
    has_unreadable_receipt, is_receipt, is_settle_refund, paid_invoice_of, receipt_amount,
    received_funds, refund_keys, settle_refund_kind, sub_id, unreadable_receipt,
};
use crate::schema::{is_fatal, is_fatal_db_error, DbError};
use crate::tables::{
    any, first_where, holds_text, is_order, is_text, lemma_filter_next, lemma_first_where_at,
    opt_view, order_by, ConnectSession, Event, EventDetail, EventKind, HoldState, InboundRequest,
    Instance, Invoice, InvoiceKind, InvoiceStatus, OpInvocation, OpState, OrderKey, OutboxRow,
    OutboxState, RefundAttempt, RefundStatus, Reservation, SubState, Subscription, Tables,
    TeardownFailure,
};
use crate::text::{
    has_prefix_ignoring_case, lowered, owned, same, starts_with_ignoring_case, text_le,
};
use vstd::prelude::*;
use vstd::string::*;

verus! {

/// How long idempotency rows are kept, in seconds. This is longer than the transport's own window for
/// duplicates, so that a cached answer outlives it.
pub const IDEMPOTENCY_CACHE_RETENTION_SECS: i64 = 10368000;

/// How long terminal rows are kept before they are reaped, in seconds.
pub const TERMINAL_ROW_RETENTION_SECS: i64 = 2592000;

// ---- liabilities -----------------------------------------------------------------------------

/// A payment that was received and for which nothing was delivered yet.
#[derive(Clone, Debug)]
pub struct RefundReadinessLiability {
    pub external_id: String,
    pub gross_sat: u64,
    pub source: RefundReadinessSource,
}

#[derive(Clone, Debug)]
pub enum RefundReadinessSource {
    RefundAttempt(RefundAttemptLiability),
    PaidUndeliveredOrder,
    UnreconciledSettlement,
}

#[derive(Clone, Debug)]
pub struct RefundAttemptLiability {
    pub status: String,
    pub idempotency_key: String,
    pub dest: Option<String>,
    pub resolved_bolt11: Option<String>,
    pub resolved_expiry: Option<i64>,
    pub resolution_gen: i64,
}

/// [`RefundReadinessLiability`] as a mathematical value.
pub struct LiabilityView {
    pub external_id: Seq<char>,
    pub gross_sat: u64,
    pub source: SourceView,
}

/// [`RefundReadinessSource`] as a mathematical value.
pub enum SourceView {
    RefundAttempt(AttemptView),
    PaidUndeliveredOrder,
    UnreconciledSettlement,
}

/// [`RefundAttemptLiability`] as a mathematical value.
pub struct AttemptView {
    pub status: Seq<char>,
    pub idempotency_key: Seq<char>,
    pub dest: Option<Seq<char>>,
    pub resolved_bolt11: Option<Seq<char>>,
    pub resolved_expiry: Option<i64>,
    pub resolution_gen: i64,
}

impl View for RefundAttemptLiability {
    type V = AttemptView;

    open spec fn view(&self) -> AttemptView {
        AttemptView {
            status: self.status@,
            idempotency_key: self.idempotency_key@,
            dest: opt_view(self.dest),
            resolved_bolt11: opt_view(self.resolved_bolt11),
            resolved_expiry: self.resolved_expiry,
            resolution_gen: self.resolution_gen,
        }
    }
}

impl View for RefundReadinessLiability {
    type V = LiabilityView;

    open spec fn view(&self) -> LiabilityView {
        LiabilityView {
            external_id: self.external_id@,
            gross_sat: self.gross_sat,
            source: match self.source {
                RefundReadinessSource::RefundAttempt(a) => SourceView::RefundAttempt(a@),
                RefundReadinessSource::PaidUndeliveredOrder => SourceView::PaidUndeliveredOrder,
                RefundReadinessSource::UnreconciledSettlement => SourceView::UnreconciledSettlement,
            },
        }
    }
}

/// Liabilities by their views.
pub open spec fn views(ls: Seq<RefundReadinessLiability>) -> Seq<LiabilityView> {
    ls.map_values(|l: RefundReadinessLiability| l@)
}

/// An amount that is there and positive.
pub open spec fn positive(amount: Option<i64>) -> Option<u64> {
    match amount {
        Some(a) => if a > 0 {
            Some(a as u64)
        } else {
            None
        },
        None => None,
    }
}

/// An amount that is there and positive.
pub fn positive_sat(amount: Option<i64>) -> (r: Option<u64>)
    ensures
        r == positive(amount),
{
    match amount {
        Some(a) => {
            if a > 0 {
                Some(a as u64)
            } else {
                None
            }
        },
        None => None,
    }
}

/// The word for a status of the refund ledger.
pub open spec fn status_word(s: RefundStatus) -> Seq<char> {
    match s {
        RefundStatus::Pending => "PENDING"@,
        RefundStatus::Sent => "SENT"@,
        RefundStatus::Failed => "FAILED"@,
        RefundStatus::Other(word) => word@,
    }
}

fn status_text(s: &RefundStatus) -> (r: String)
    ensures
        r@ == status_word(*s),
{
    match s {
        RefundStatus::Pending => owned("PENDING"),
        RefundStatus::Sent => owned("SENT"),
        RefundStatus::Failed => owned("FAILED"),
        RefundStatus::Other(word) => word.clone(),
    }
}

/// The external id that a row of the refund ledger is kept under: its key behind `refund:`, or else
/// its id behind `ref-`, or else its id. Upper and lower case are the same in the two prefixes.
pub open spec fn ledger_ext(a: RefundAttempt) -> Option<Seq<char>> {
    if has_prefix_ignoring_case(a.idempotency_key@, "refund:"@) {
        Some(a.idempotency_key@.skip("refund:"@.len() as int))
    } else {
        match a.id {
            Some(id) => if has_prefix_ignoring_case(id@, "ref-"@) {
                Some(id@.skip("ref-"@.len() as int))
            } else {
                Some(id@)
            },
            None => None,
        }
    }
}

fn ledger_external_id(a: &RefundAttempt) -> (r: Option<String>)
    ensures
        opt_view(r) == ledger_ext(*a),
{
    let key: &str = &a.idempotency_key;
    if starts_with_ignoring_case(key, "refund:") {
        let n: usize = "refund:".unicode_len();
        let len: usize = key.unicode_len();
        proof {
            assert(crate::text::lowered(key@).len() == key@.len());
            assert(crate::text::lowered("refund:"@).len() == "refund:"@.len());
            assert(key@.subrange(n as int, len as int) =~= key@.skip(n as int));
        }
        return Some(owned(key.substring_char(n, len)));
    }
    match &a.id {
        Some(id) => {
            if starts_with_ignoring_case(id, "ref-") {
                let n: usize = "ref-".unicode_len();
                let len: usize = id.unicode_len();
                proof {
                    assert(crate::text::lowered(id@).len() == id@.len());
                    assert(crate::text::lowered("ref-"@).len() == "ref-"@.len());
                    assert(id@.subrange(n as int, len as int) =~= id@.skip(n as int));
                }
                Some(owned(id.substring_char(n, len)))
            } else {
                Some(id.clone())
            }
        },
        None => None,
    }
}

/// The state of the subscription with this id, if there is one.
pub open spec fn state_of(subs: Seq<Subscription>, id: Option<String>) -> Option<SubState> {
    match id {
        Some(i) => {
            let n = first_where(subs, sub_id(i@)) as int;
            if n < subs.len() {
                Some(subs[n].state)
            } else {
                None
            }
        },
        None => None,
    }
}

fn find_state(subs: &Vec<Subscription>, id: &Option<String>) -> (r: Option<SubState>)
    ensures
        r == state_of(subs@, *id),
{
    match id {
        None => None,
        Some(s) => {
            let ghost p = sub_id(s@);
            let mut i: usize = 0;
            while i < subs.len()
                invariant
                    i <= subs@.len(),
                    *id == Some(*s),
                    p == sub_id(s@),
                    forall|k: int| 0 <= k < i ==> !p(#[trigger] subs@[k]),
                decreases subs@.len() - i,
            {
                if same(&subs[i].id, s) {
                    proof {
                        lemma_first_where_at(subs@, p, i as int);
                    }
                    return Some(subs[i].state);
                }
                i = i + 1;
            }
            proof {
                lemma_first_where_at(subs@, p, i as int);
            }
            None
        },
    }
}

/// The larger of two amounts, one that is missing left out.
pub open spec fn larger(a: Option<i64>, b: Option<i64>) -> Option<i64> {
    match (a, b) {
        (Some(x), Some(y)) => Some(
            if x >= y {
                x
            } else {
                y
            },
        ),
        (Some(x), None) => Some(x),
        (None, y) => y,
    }
}

/// Whether the subscription of an event or invoice leaves its payment open: it is neither active nor
/// refunded.
pub open spec fn is_open(state: Option<SubState>) -> bool {
    state != Some(SubState::Active) && state != Some(SubState::Refunded)
}

/// Whether an event counts as a receipt of this external id; with `open_only`, only where its
/// subscription leaves the payment open.
pub open spec fn counts_as_receipt(t: Tables, e: Event, ext: Seq<char>, open_only: bool) -> bool {
    is_receipt(e, ext) && (open_only ==> is_open(state_of(t.subscriptions@, e.subscription_id)))
}

/// The largest amount that receipts of this external id journal.
pub open spec fn journaled(t: Tables, events: Seq<Event>, ext: Seq<char>, open_only: bool) -> Option<i64>
    decreases events.len(),
{
    if events.len() == 0 {
        None
    } else {
        let rest = journaled(t, events.drop_last(), ext, open_only);
        if counts_as_receipt(t, events.last(), ext, open_only) {
            larger(rest, receipt_amount(events.last()))
        } else {
            rest
        }
    }
}

fn journaled_amount(t: &Tables, ext: &str, open_only: bool) -> (r: Option<i64>)
    ensures
        r == journaled(*t, t.events@, ext@, open_only),
{
    let mut most: Option<i64> = None;
    let mut i: usize = 0;
    assert(t.events@.take(0) =~= Seq::empty());
    while i < t.events.len()
        invariant
            i <= t.events@.len(),
            most == journaled(*t, t.events@.take(i as int), ext@, open_only),
        decreases t.events@.len() - i,
    {
        let e = &t.events[i];
        assert(t.events@.take(i + 1).drop_last() =~= t.events@.take(i as int));
        if settle_refund_kind(e.kind) {
            if let EventDetail::Settlement { receipt, amount_sat, whole: _ } = &e.detail {
                if holds_text(receipt, ext) && (!open_only || state_is_open(t, &e.subscription_id)) {
                    most =
                    match (most, *amount_sat) {
                        (Some(x), Some(y)) => Some(
                            if x >= y {
                                x
                            } else {
                                y
                            },
                        ),
                        (Some(x), None) => Some(x),
                        (None, y) => y,
                    };
                }
            }
        }
        i = i + 1;
    }
    assert(t.events@.take(i as int) =~= t.events@);
    most
}

fn state_is_open(t: &Tables, id: &Option<String>) -> (r: bool)
    ensures
        r == is_open(state_of(t.subscriptions@, *id)),
{
    match find_state(&t.subscriptions, id) {
        Some(SubState::Active) | Some(SubState::Refunded) => false,
        _ => true,
    }
}

/// The amount of the invoice with this external id that shows received funds.
pub open spec fn invoiced(invoices: Seq<Invoice>, ext: Seq<char>) -> Option<i64> {
    let n = first_where(invoices, paid_invoice_of(ext)) as int;
    if n < invoices.len() {
        invoices[n].amount_sat
    } else {
        None
    }
}

fn invoiced_amount(invoices: &Vec<Invoice>, ext: &str) -> (r: Option<i64>)
    ensures
        r == invoiced(invoices@, ext@),
{
    let ghost p = paid_invoice_of(ext@);
    let mut i: usize = 0;
    while i < invoices.len()
        invariant
            i <= invoices@.len(),
            p == paid_invoice_of(ext@),
            forall|k: int| 0 <= k < i ==> !p(#[trigger] invoices@[k]),
        decreases invoices@.len() - i,
    {
        let v = &invoices[i];
        if same(&v.external_id, ext) && (v.status == InvoiceStatus::Paid || v.settled_at.is_some()) {
            proof {
                lemma_first_where_at(invoices@, p, i as int);
            }
            return v.amount_sat;
        }
        i = i + 1;
    }
    proof {
        lemma_first_where_at(invoices@, p, i as int);
    }
    None
}

/// The gross that was received for a refund: that of its invoice, or else the largest that was
/// journaled, so that a repeated receipt without an amount never hides a real one.
pub open spec fn refund_gross(t: Tables, a: RefundAttempt) -> Option<u64> {
    match ledger_ext(a) {
        Some(ext) => positive(
            match invoiced(t.invoices@, ext) {
                Some(n) => Some(n),
                None => journaled(t, t.events@, ext, false),
            },
        ),
        None => None,
    }
}

/// Being a refund that was not sent and for which something was received.
pub open spec fn owed_refund(t: Tables) -> spec_fn(RefundAttempt) -> bool {
    |a: RefundAttempt| a.status != RefundStatus::Sent && refund_gross(t, a) is Some
}

/// Whether the refund ledger has a row under this external id.
pub open spec fn in_ledger(refunds: Seq<RefundAttempt>, ext: Seq<char>) -> bool {
    any(refunds, |a: RefundAttempt| ledger_ext(a) == Some(ext))
}

/// Being the invoice of an order that was paid, not delivered and not in the refund ledger.
pub open spec fn undelivered_order(t: Tables) -> spec_fn(Invoice) -> bool {
    |i: Invoice|
        {
            let state = state_of(t.subscriptions@, i.subscription_id);
            &&& i.kind == InvoiceKind::Order
            &&& received_funds(i)
            &&& state == Some(SubState::Pending) || state == Some(SubState::Provisioning) || state
                == Some(SubState::RefundDue)
            &&& positive(i.amount_sat) is Some
            &&& !in_ledger(t.refunds@, i.external_id@)
        }
}

/// Being an invoice that settled and was never applied, other than a renewal's, and is not in the
/// refund ledger.
pub open spec fn unapplied_settlement(t: Tables) -> spec_fn(Invoice) -> bool {
    |i: Invoice|
        {
            &&& i.settled_at is Some
            &&& i.applied_at is None
            &&& i.kind != InvoiceKind::Renewal
            &&& is_open(state_of(t.subscriptions@, i.subscription_id))
            &&& positive(i.amount_sat) is Some
            &&& !in_ledger(t.refunds@, i.external_id@)
        }
}

/// Whether a payment under this external id was journaled to go back, is still open and is not in the
/// refund ledger.
pub open spec fn open_receipt(t: Tables, ext: Seq<char>) -> bool {
    &&& any(t.events@, |e: Event| counts_as_receipt(t, e, ext, true))
    &&& positive(journaled(t, t.events@, ext, true)) is Some
    &&& !in_ledger(t.refunds@, ext)
}

/// The liability that a refund of the ledger stands for.
pub open spec fn refund_liability(t: Tables, a: RefundAttempt) -> LiabilityView {
    LiabilityView {
        external_id: ledger_ext(a)->0,
        gross_sat: refund_gross(t, a)->0,
        source: SourceView::RefundAttempt(
            AttemptView {
                status: status_word(a.status),
                idempotency_key: a.idempotency_key@,
                dest: opt_view(a.dest),
                resolved_bolt11: opt_view(a.resolved_bolt11),
                resolved_expiry: a.resolved_expiry,
                resolution_gen: a.resolution_gen,
            },
        ),
    }
}

/// The liability that an invoice stands for.
pub open spec fn invoice_liability(i: Invoice, source: SourceView) -> LiabilityView {
    LiabilityView {
        external_id: i.external_id@,
        gross_sat: positive(i.amount_sat)->0,
        source,
    }
}

/// The liability that a journaled receipt stands for.
pub open spec fn receipt_liability(t: Tables, ext: Seq<char>) -> LiabilityView {
    LiabilityView {
        external_id: ext,
        gross_sat: positive(journaled(t, t.events@, ext, true))->0,
        source: SourceView::UnreconciledSettlement,
    }
}

/// Being a liability of this external id.
pub open spec fn of_ext(ext: Seq<char>) -> spec_fn(LiabilityView) -> bool {
    |l: LiabilityView| l.external_id == ext
}

/// `out` with each of `more` that has an external id of its own, in order.
pub open spec fn listed_with(out: Seq<LiabilityView>, more: Seq<LiabilityView>) -> Seq<LiabilityView>
    decreases more.len(),
{
    if more.len() == 0 {
        out
    } else {
        let so_far = listed_with(out, more.drop_last());
        if any(so_far, of_ext(more.last().external_id)) {
            so_far
        } else {
            so_far.push(more.last())
        }
    }
}

/// The elements of `s` in the order that `order` lists.
pub open spec fn arranged<A>(s: Seq<A>, order: Seq<usize>) -> Seq<A> {
    Seq::new(order.len(), |i: int| s[order[i] as int])
}

/// What paid orders are listed by.
pub open spec fn issued_keys(rows: Seq<Invoice>) -> Seq<OrderKey> {
    rows.map_values(|i: Invoice| OrderKey { at: i.issued_at, id: Some(i.id) })
}

/// What settlements are listed by.
pub open spec fn settled_keys(rows: Seq<Invoice>) -> Seq<OrderKey> {
    rows.map_values(|i: Invoice| OrderKey { at: i.settled_at, id: Some(i.id) })
}

/// Whether `exts` lists the external ids of the open receipts, each once, in ascending order.
pub open spec fn lists_receipts(t: Tables, exts: Seq<Seq<char>>) -> bool {
    &&& forall|i: int| 0 <= i < exts.len() ==> open_receipt(t, #[trigger] exts[i])
    &&& forall|ext: Seq<char>| #[trigger] open_receipt(t, ext) ==> exts.contains(ext)
    &&& forall|i: int, j: int|
        0 <= i < j < exts.len() ==> text_le(#[trigger] exts[i], #[trigger] exts[j]) && exts[i]
            != exts[j]
}

/// The first source of liabilities, in the order listed: refunds of the ledger.
pub open spec fn from_refunds(t: Tables, order: Seq<usize>) -> Seq<LiabilityView> {
    arranged(t.refunds@.filter(owed_refund(t)), order).map_values(
        |a: RefundAttempt| refund_liability(t, a),
    )
}

/// The second source: orders that were paid and not delivered.
pub open spec fn from_orders(t: Tables, order: Seq<usize>) -> Seq<LiabilityView> {
    arranged(t.invoices@.filter(undelivered_order(t)), order).map_values(
        |i: Invoice| invoice_liability(i, SourceView::PaidUndeliveredOrder),
    )
}

/// The third source: settlements that were never applied.
pub open spec fn from_settlements(t: Tables, order: Seq<usize>) -> Seq<LiabilityView> {
    arranged(t.invoices@.filter(unapplied_settlement(t)), order).map_values(
        |i: Invoice| invoice_liability(i, SourceView::UnreconciledSettlement),
    )
}

/// The fourth source: journaled receipts.
pub open spec fn from_receipts(t: Tables, exts: Seq<Seq<char>>) -> Seq<LiabilityView> {
    exts.map_values(|ext: Seq<char>| receipt_liability(t, ext))
}

/// All liabilities, from the four sources in turn; one external id counts once, from the first source
/// that has it.
pub open spec fn all_liabilities(
    t: Tables,
    refunds: Seq<usize>,
    orders: Seq<usize>,
    settlements: Seq<usize>,
    receipts: Seq<Seq<char>>,
) -> Seq<LiabilityView> {
    listed_with(
        listed_with(
            listed_with(
                listed_with(Seq::empty(), from_refunds(t, refunds)),
                from_orders(t, orders),
            ),
            from_settlements(t, settlements),
        ),
        from_receipts(t, receipts),
    )
}

/// Whether `ls` are the liabilities of `t`: the refunds of the ledger by age, then paid orders by
/// issue, then settlements by time, then journaled receipts by external id.
pub open spec fn is_liability_list(t: Tables, ls: Seq<LiabilityView>) -> bool {
    exists|a: Seq<usize>, b: Seq<usize>, c: Seq<usize>, d: Seq<Seq<char>>|
        {
            &&& is_order(refund_keys(t.refunds@.filter(owed_refund(t))), a)
            &&& is_order(issued_keys(t.invoices@.filter(undelivered_order(t))), b)
            &&& is_order(settled_keys(t.invoices@.filter(unapplied_settlement(t))), c)
            &&& lists_receipts(t, d)
            &&& ls == #[trigger] all_liabilities(t, a, b, c, d)
        }
}

/// Why the liabilities could not be listed: a receipt cannot be read, or a row lacks the external id
/// that it is listed under.
#[derive(Clone, Copy, Debug, PartialEq, Eq, Structural)]
pub enum LiabilityError {
    RefundWithoutId,
    ReceiptUnreadable,
    ReceiptWithoutId,
}

/// Being a row of the refund ledger without an external id.
pub open spec fn nameless_refund() -> spec_fn(RefundAttempt) -> bool {
    |a: RefundAttempt| ledger_ext(a) is None
}

/// Being an open receipt without an external id.
pub open spec fn nameless_receipt(t: Tables) -> spec_fn(Event) -> bool {
    |e: Event|
        {
            &&& is_settle_refund(e.kind)
            &&& is_open(state_of(t.subscriptions@, e.subscription_id))
            &&& !(e.detail matches EventDetail::Settlement { receipt, .. } && receipt
                is Some)
        }
}

/// The first reason for which the liabilities cannot be listed.
pub open spec fn liability_fault(t: Tables) -> Option<LiabilityError> {
    if any(t.refunds@, nameless_refund()) {
        Some(LiabilityError::RefundWithoutId)
    } else if any(t.events@, unreadable_receipt()) {
        Some(LiabilityError::ReceiptUnreadable)
    } else if any(t.events@, nameless_receipt(t)) {
        Some(LiabilityError::ReceiptWithoutId)
    } else {
        None
    }
}

fn copy_liability(l: &RefundReadinessLiability) -> (r: RefundReadinessLiability)
    ensures
        r@ == l@,
{
    RefundReadinessLiability {
        external_id: l.external_id.clone(),
        gross_sat: l.gross_sat,
        source: match &l.source {
            RefundReadinessSource::RefundAttempt(a) => RefundReadinessSource::RefundAttempt(
                RefundAttemptLiability {
                    status: a.status.clone(),
                    idempotency_key: a.idempotency_key.clone(),
                    dest: a.dest.clone(),
                    resolved_bolt11: a.resolved_bolt11.clone(),
                    resolved_expiry: a.resolved_expiry,
                    resolution_gen: a.resolution_gen,
                },
            ),
            RefundReadinessSource::PaidUndeliveredOrder => {
                RefundReadinessSource::PaidUndeliveredOrder
            },
            RefundReadinessSource::UnreconciledSettlement => {
                RefundReadinessSource::UnreconciledSettlement
            },
        },
    }
}

fn is_listed(out: &Vec<RefundReadinessLiability>, ext: &str) -> (r: bool)
    ensures
        r == any(views(out@), of_ext(ext@)),
{
    let mut i: usize = 0;
    while i < out.len()
        invariant
            i <= out@.len(),
            forall|k: int| 0 <= k < i ==> (#[trigger] out@[k]).external_id@ != ext@,
        decreases out@.len() - i,
    {
        if same(&out[i].external_id, ext) {
            assert(of_ext(ext@)(views(out@)[i as int]));
            return true;
        }
        i = i + 1;
    }
    assert forall|k: int| 0 <= k < views(out@).len() implies !of_ext(ext@)(
        #[trigger] views(out@)[k],
    ) by {
        assert(out@[k].external_id@ != ext@);
    }
    false
}

/// Appends each of `more`, in the order listed, that has an external id of its own.
fn list_new(
    out: &mut Vec<RefundReadinessLiability>,
    more: &Vec<RefundReadinessLiability>,
    order: &Vec<usize>,
)
    requires
        order@.len() == more@.len(),
        forall|i: int| 0 <= i < order@.len() ==> 0 <= #[trigger] order@[i] < more@.len(),
    ensures
        views(final(out)@) == listed_with(views(old(out)@), arranged(views(more@), order@)),
{
    let ghost target = arranged(views(more@), order@);
    let mut i: usize = 0;
    assert(target.take(0) =~= Seq::empty());
    while i < order.len()
        invariant
            i <= order@.len(),
            target == arranged(views(more@), order@),
            order@.len() == more@.len(),
            forall|k: int| 0 <= k < order@.len() ==> 0 <= #[trigger] order@[k] < more@.len(),
            views(out@) == listed_with(views(old(out)@), target.take(i as int)),
        decreases order@.len() - i,
    {
        let l = &more[order[i]];
        proof {
            assert(target.take(i + 1).drop_last() =~= target.take(i as int));
            assert(target.take(i + 1).last() == l@);
        }
        if !is_listed(out, &l.external_id) {
            let ghost before = out@;
            out.push(copy_liability(l));
            assert(views(out@) =~= views(before).push(l@));
        }
        i = i + 1;
    }
    assert(target.take(i as int) =~= target);
}

fn ledger_has(refunds: &Vec<RefundAttempt>, ext: &str) -> (r: bool)
    ensures
        r == in_ledger(refunds@, ext@),
{
    let mut i: usize = 0;
    while i < refunds.len()
        invariant
            i <= refunds@.len(),
            forall|k: int| 0 <= k < i ==> ledger_ext(#[trigger] refunds@[k]) != Some(ext@),
        decreases refunds@.len() - i,
    {
        let e = ledger_external_id(&refunds[i]);
        if holds_text(&e, ext) {
            assert(ledger_ext(refunds@[i as int]) == Some(ext@));
            return true;
        }
        i = i + 1;
    }
    false
}

fn gross_of(t: &Tables, a: &RefundAttempt) -> (r: Option<(String, u64)>)
    ensures
        match r {
            Some(x) => ledger_ext(*a) == Some(x.0@) && refund_gross(*t, *a) == Some(x.1),
            None => refund_gross(*t, *a) is None,
        },
{
    match ledger_external_id(a) {
        None => None,
        Some(ext) => {
            let amount: Option<i64> = match invoiced_amount(&t.invoices, &ext) {
                Some(n) => Some(n),
                None => journaled_amount(t, &ext, false),
            };
            match positive_sat(amount) {
                Some(g) => Some((ext, g)),
                None => None,
            }
        },
    }
}

fn owed_refunds(t: &Tables) -> (r: (Vec<RefundReadinessLiability>, Vec<OrderKey>))
    ensures
        ({
            let rows = t.refunds@.filter(owed_refund(*t));
            &&& r.1@ == refund_keys(rows)
            &&& views(r.0@) == rows.map_values(|a: RefundAttempt| refund_liability(*t, a))
        }),
{
    let ghost p = owed_refund(*t);
    let mut out: Vec<RefundReadinessLiability> = Vec::new();
    let mut keys: Vec<OrderKey> = Vec::new();
    let mut i: usize = 0;
    proof {
        reveal(Seq::filter);
        assert(t.refunds@.take(0) =~= Seq::empty());
    }
    while i < t.refunds.len()
        invariant
            i <= t.refunds@.len(),
            p == owed_refund(*t),
            out@.len() == t.refunds@.take(i as int).filter(p).len(),
            keys@.len() == out@.len(),
            forall|k: int|
                0 <= k < out@.len() ==> (#[trigger] out@[k])@ == refund_liability(
                    *t,
                    t.refunds@.take(i as int).filter(p)[k],
                ),
            forall|k: int|
                0 <= k < keys@.len() ==> #[trigger] keys@[k] == crate::refund::refund_key(
                    t.refunds@.take(i as int).filter(p)[k],
                ),
        decreases t.refunds@.len() - i,
    {
        let a = &t.refunds[i];
        proof {
            lemma_filter_next(t.refunds@, p, i as int);
        }
        if !a.status.is_sent() {
            if let Some((external_id, gross_sat)) = gross_of(t, a) {
                keys.push(OrderKey { at: a.created_at, id: a.id.clone() });
                out.push(
                    RefundReadinessLiability {
                        external_id,
                        gross_sat,
                        source: RefundReadinessSource::RefundAttempt(
                            RefundAttemptLiability {
                                status: status_text(&a.status),
                                idempotency_key: a.idempotency_key.clone(),
                                dest: a.dest.clone(),
                                resolved_bolt11: a.resolved_bolt11.clone(),
                                resolved_expiry: a.resolved_expiry,
                                resolution_gen: a.resolution_gen,
                            },
                        ),
                    },
                );
            }
        }
        i = i + 1;
    }
    proof {
        assert(t.refunds@.take(i as int) =~= t.refunds@);
        let rows = t.refunds@.filter(p);
        assert(keys@ =~= refund_keys(rows));
        assert(views(out@) =~= rows.map_values(|a: RefundAttempt| refund_liability(*t, a)));
    }
    (out, keys)
}

fn undelivered_orders(t: &Tables) -> (r: (Vec<RefundReadinessLiability>, Vec<OrderKey>))
    ensures
        ({
            let rows = t.invoices@.filter(undelivered_order(*t));
            &&& r.1@ == issued_keys(rows)
            &&& views(r.0@) == rows.map_values(
                |i: Invoice| invoice_liability(i, SourceView::PaidUndeliveredOrder),
            )
        }),
{
    let ghost p = undelivered_order(*t);
    let mut out: Vec<RefundReadinessLiability> = Vec::new();
    let mut keys: Vec<OrderKey> = Vec::new();
    let mut i: usize = 0;
    proof {
        reveal(Seq::filter);
        assert(t.invoices@.take(0) =~= Seq::empty());
    }
    while i < t.invoices.len()
        invariant
            i <= t.invoices@.len(),
            p == undelivered_order(*t),
            out@.len() == t.invoices@.take(i as int).filter(p).len(),
            keys@.len() == out@.len(),
            forall|k: int|
                0 <= k < out@.len() ==> (#[trigger] out@[k])@ == invoice_liability(
                    t.invoices@.take(i as int).filter(p)[k],
                    SourceView::PaidUndeliveredOrder,
                ),
            forall|k: int|
                0 <= k < keys@.len() ==> #[trigger] keys@[k] == (OrderKey {
                    at: t.invoices@.take(i as int).filter(p)[k].issued_at,
                    id: Some(t.invoices@.take(i as int).filter(p)[k].id),
                }),
        decreases t.invoices@.len() - i,
    {
        let v = &t.invoices[i];
        proof {
            lemma_filter_next(t.invoices@, p, i as int);
        }
        if v.kind == InvoiceKind::Order && (v.status == InvoiceStatus::Paid || v.settled_at.is_some())
            && !ledger_has(&t.refunds, &v.external_id) {
            let waiting = match find_state(&t.subscriptions, &v.subscription_id) {
                Some(SubState::Pending) | Some(SubState::Provisioning) | Some(
                    SubState::RefundDue,
                ) => true,
                _ => false,
            };
            if waiting {
                if let Some(gross_sat) = positive_sat(v.amount_sat) {
                    keys.push(OrderKey { at: v.issued_at, id: Some(v.id.clone()) });
                    out.push(
                        RefundReadinessLiability {
                            external_id: v.external_id.clone(),
                            gross_sat,
                            source: RefundReadinessSource::PaidUndeliveredOrder,
                        },
                    );
                }
            }
        }
        i = i + 1;
    }
    proof {
        assert(t.invoices@.take(i as int) =~= t.invoices@);
        let rows = t.invoices@.filter(p);
        assert(keys@ =~= issued_keys(rows));
        assert(views(out@) =~= rows.map_values(
            |i: Invoice| invoice_liability(i, SourceView::PaidUndeliveredOrder),
        ));
    }
    (out, keys)
}

fn unapplied_settlements(t: &Tables) -> (r: (Vec<RefundReadinessLiability>, Vec<OrderKey>))
    ensures
        ({
            let rows = t.invoices@.filter(unapplied_settlement(*t));
            &&& r.1@ == settled_keys(rows)
            &&& views(r.0@) == rows.map_values(
                |i: Invoice| invoice_liability(i, SourceView::UnreconciledSettlement),
            )
        }),
{
    let ghost p = unapplied_settlement(*t);
    let mut out: Vec<RefundReadinessLiability> = Vec::new();
    let mut keys: Vec<OrderKey> = Vec::new();
    let mut i: usize = 0;
    proof {
        reveal(Seq::filter);
        assert(t.invoices@.take(0) =~= Seq::empty());
    }
    while i < t.invoices.len()
        invariant
            i <= t.invoices@.len(),
            p == unapplied_settlement(*t),
            out@.len() == t.invoices@.take(i as int).filter(p).len(),
            keys@.len() == out@.len(),
            forall|k: int|
                0 <= k < out@.len() ==> (#[trigger] out@[k])@ == invoice_liability(
                    t.invoices@.take(i as int).filter(p)[k],
                    SourceView::UnreconciledSettlement,
                ),
            forall|k: int|
                0 <= k < keys@.len() ==> #[trigger] keys@[k] == (OrderKey {
                    at: t.invoices@.take(i as int).filter(p)[k].settled_at,
                    id: Some(t.invoices@.take(i as int).filter(p)[k].id),
                }),
        decreases t.invoices@.len() - i,
    {
        let v = &t.invoices[i];
        proof {
            lemma_filter_next(t.invoices@, p, i as int);
        }
        if v.settled_at.is_some() && v.applied_at.is_none() && v.kind != InvoiceKind::Renewal
            && state_is_open(t, &v.subscription_id) && !ledger_has(&t.refunds, &v.external_id) {
            if let Some(gross_sat) = positive_sat(v.amount_sat) {
                keys.push(OrderKey { at: v.settled_at, id: Some(v.id.clone()) });
                out.push(
                    RefundReadinessLiability {
                        external_id: v.external_id.clone(),
                        gross_sat,
                        source: RefundReadinessSource::UnreconciledSettlement,
                    },
                );
            }
        }
        i = i + 1;
    }
    proof {
        assert(t.invoices@.take(i as int) =~= t.invoices@);
        let rows = t.invoices@.filter(p);
        assert(keys@ =~= settled_keys(rows));
        assert(views(out@) =~= rows.map_values(
            |i: Invoice| invoice_liability(i, SourceView::UnreconciledSettlement),
        ));
    }
    (out, keys)
}

/// Texts by their characters.
pub open spec fn texts(v: Seq<String>) -> Seq<Seq<char>> {
    v.map_values(|s: String| s@)
}

fn has_text(v: &Vec<String>, s: &str) -> (r: bool)
    ensures
        r == texts(v@).contains(s@),
{
    let mut i: usize = 0;
    while i < v.len()
        invariant
            i <= v@.len(),
            forall|k: int| 0 <= k < i ==> (#[trigger] v@[k])@ != s@,
        decreases v@.len() - i,
    {
        if same(&v[i], s) {
            assert(texts(v@)[i as int] == s@);
            return true;
        }
        i = i + 1;
    }
    assert forall|k: int| 0 <= k < texts(v@).len() implies texts(v@)[k] != s@ by {
        assert(v@[k]@ != s@);
    }
    false
}

/// The external ids of the open receipts, each once.
fn open_receipts(t: &Tables) -> (r: Result<Vec<String>, LiabilityError>)
    ensures
        r is Err <==> any(t.events@, nameless_receipt(*t)),
        r matches Err(e) ==> e == LiabilityError::ReceiptWithoutId,
        r matches Ok(exts) ==> {
            &&& forall|i: int| 0 <= i < exts@.len() ==> open_receipt(*t, #[trigger] texts(exts@)[i])
            &&& forall|ext: Seq<char>| #[trigger] open_receipt(*t, ext) ==> texts(exts@).contains(ext)
            &&& texts(exts@).no_duplicates()
        },
{
    let mut exts: Vec<String> = Vec::new();
    let mut i: usize = 0;
    while i < t.events.len()
        invariant
            i <= t.events@.len(),
            forall|k: int| 0 <= k < i ==> !nameless_receipt(*t)(#[trigger] t.events@[k]),
            forall|k: int| 0 <= k < exts@.len() ==> open_receipt(*t, #[trigger] texts(exts@)[k]),
            texts(exts@).no_duplicates(),
            forall|k: int, ext: Seq<char>|
                0 <= k < i && counts_as_receipt(*t, #[trigger] t.events@[k], ext, true)
                    && #[trigger] open_receipt(*t, ext) ==> texts(exts@).contains(ext),
        decreases t.events@.len() - i,
    {
        let e = &t.events[i];
        let ghost before = exts@;
        if settle_refund_kind(e.kind) && state_is_open(t, &e.subscription_id) {
            match &e.detail {
                EventDetail::Settlement { receipt: Some(ext), amount_sat: _, whole: _ } => {
                    assert(counts_as_receipt(*t, t.events@[i as int], ext@, true));
                    let amount: Option<i64> = journaled_amount(t, ext, true);
                    if positive_sat(amount).is_some() && !ledger_has(&t.refunds, ext) && !has_text(
                        &exts,
                        ext,
                    ) {
                        exts.push(ext.clone());
                        proof {
                            assert(texts(exts@) =~= texts(before).push(ext@));
                            assert(open_receipt(*t, ext@));
                            assert forall|x: Seq<char>| texts(before).contains(x) implies texts(
                                exts@,
                            ).contains(x) by {
                                let n = choose|n: int| 0 <= n < texts(before).len() && texts(before)[n] == x;
                                assert(texts(exts@)[n] == x);
                            }
                            assert(texts(exts@)[before.len() as int] == ext@);
                        }
                    }
                },
                _ => {
                    assert(nameless_receipt(*t)(t.events@[i as int]));
                    return Err(LiabilityError::ReceiptWithoutId);
                },
            }
        }
        i = i + 1;
    }
    proof {
        assert forall|ext: Seq<char>| #[trigger] open_receipt(*t, ext) implies texts(
            exts@,
        ).contains(ext) by {
            let p = |e: Event| counts_as_receipt(*t, e, ext, true);
            let k = choose|k: int| 0 <= k < t.events@.len() && p(#[trigger] t.events@[k]);
            assert(counts_as_receipt(*t, t.events@[k], ext, true));
        }
    }
    Ok(exts)
}

fn receipt_liabilities(t: &Tables, exts: &Vec<String>) -> (r: Vec<RefundReadinessLiability>)
    requires
        forall|i: int| 0 <= i < exts@.len() ==> open_receipt(*t, #[trigger] texts(exts@)[i]),
    ensures
        views(r@) == from_receipts(*t, texts(exts@)),
{
    let mut out: Vec<RefundReadinessLiability> = Vec::new();
    let mut i: usize = 0;
    while i < exts.len()
        invariant
            i <= exts@.len(),
            out@.len() == i,
            forall|k: int| 0 <= k < exts@.len() ==> open_receipt(*t, #[trigger] texts(exts@)[k]),
            forall|k: int|
                0 <= k < out@.len() ==> (#[trigger] out@[k])@ == receipt_liability(
                    *t,
                    texts(exts@)[k],
                ),
        decreases exts@.len() - i,
    {
        let amount: Option<i64> = journaled_amount(t, &exts[i], true);
        assert(open_receipt(*t, texts(exts@)[i as int]));
        let gross_sat: u64 = match positive_sat(amount) {
            Some(g) => g,
            None => 0,
        };
        out.push(
            RefundReadinessLiability {
                external_id: exts[i].clone(),
                gross_sat,
                source: RefundReadinessSource::UnreconciledSettlement,
            },
        );
        i = i + 1;
    }
    assert(views(out@) =~= from_receipts(*t, texts(exts@)));
    out
}

fn text_keys(exts: &Vec<String>) -> (r: Vec<OrderKey>)
    ensures
        r@ == exts@.map_values(|s: String| OrderKey { at: None, id: Some(s) }),
{
    let mut keys: Vec<OrderKey> = Vec::new();
    let mut i: usize = 0;
    while i < exts.len()
        invariant
            i <= exts@.len(),
            keys@.len() == i,
            forall|k: int|
                0 <= k < i ==> #[trigger] keys@[k] == (OrderKey { at: None, id: Some(exts@[k]) }),
        decreases exts@.len() - i,
    {
        keys.push(OrderKey { at: None, id: Some(exts[i].clone()) });
        i = i + 1;
    }
    assert(keys@ =~= exts@.map_values(|s: String| OrderKey { at: None, id: Some(s) }));
    keys
}

fn any_nameless_refund(refunds: &Vec<RefundAttempt>) -> (r: bool)
    ensures
        r == any(refunds@, nameless_refund()),
{
    let mut i: usize = 0;
    while i < refunds.len()
        invariant
            i <= refunds@.len(),
            forall|k: int| 0 <= k < i ==> !nameless_refund()(#[trigger] refunds@[k]),
        decreases refunds@.len() - i,
    {
        if ledger_external_id(&refunds[i]).is_none() {
            assert(nameless_refund()(refunds@[i as int]));
            return true;
        }
        i = i + 1;
    }
    false
}

/// Every position of the arranged texts is a position of the texts, and the other way round.
proof fn lemma_arranged_receipts(t: Tables, exts: Seq<String>, order: Seq<usize>)
    requires
        forall|i: int| 0 <= i < exts.len() ==> open_receipt(t, #[trigger] texts(exts)[i]),
        forall|ext: Seq<char>| #[trigger] open_receipt(t, ext) ==> texts(exts).contains(ext),
        texts(exts).no_duplicates(),
        is_order(exts.map_values(|s: String| OrderKey { at: None, id: Some(s) }), order),
    ensures
        lists_receipts(t, arranged(texts(exts), order)),
{
    let keys = exts.map_values(|s: String| OrderKey { at: None, id: Some(s) });
    let out = arranged(texts(exts), order);
    assert forall|i: int| 0 <= i < out.len() implies open_receipt(t, #[trigger] out[i]) by {
        assert(out[i] == texts(exts)[order[i] as int]);
    }
    assert forall|i: int, j: int| 0 <= i < j < out.len() implies text_le(
        #[trigger] out[i],
        #[trigger] out[j],
    ) && out[i] != out[j] by {
        assert(order[i] != order[j]);
        assert(keys[order[i] as int].le(keys[order[j] as int]));
        assert(texts(exts)[order[i] as int] != texts(exts)[order[j] as int]);
    }
    assert forall|ext: Seq<char>| #[trigger] open_receipt(t, ext) implies out.contains(ext) by {
        let n = choose|n: int| 0 <= n < texts(exts).len() && texts(exts)[n] == ext;
        lemma_order_covers(keys, order, n);
        let i = choose|i: int| 0 <= i < order.len() && #[trigger] order[i] == n;
        assert(out[i] == ext);
    }
}

/// An order lists every position.
pub proof fn lemma_order_covers(keys: Seq<OrderKey>, order: Seq<usize>, n: int)
    requires
        is_order(keys, order),
        0 <= n < keys.len(),
    ensures
        exists|i: int| 0 <= i < order.len() && #[trigger] order[i] == n,
{
    let listed = order.map_values(|x: usize| x as int).to_set();
    let all = Set::new(|x: int| 0 <= x < keys.len());
    let wide = order.map_values(|x: usize| x as int);
    assert(wide.no_duplicates()) by {
        assert forall|i: int, j: int| 0 <= i < wide.len() && 0 <= j < wide.len() && i
            != j implies wide[i] != wide[j] by {
            if i < j {
                assert(order[i] != order[j]);
            } else {
                assert(order[j] != order[i]);
            }
        }
    }
    wide.unique_seq_to_set();
    vstd::set_lib::lemma_int_range(0, keys.len() as int);
    assert(all =~= vstd::set_lib::set_int_range(0, keys.len() as int));
    assert(listed.subset_of(all)) by {
        assert forall|x: int| listed.contains(x) implies all.contains(x) by {
            let i = choose|i: int| 0 <= i < wide.len() && wide[i] == x;
            assert(order[i] < keys.len());
        }
    }
    vstd::set_lib::lemma_subset_equality(listed, all);
    assert(listed.contains(n));
    let i = choose|i: int| 0 <= i < wide.len() && wide[i] == n;
    assert(order[i] == n);
}

/// The payments that were received and for which nothing was delivered yet: refunds that were not
/// sent, then orders that were paid and not delivered, then settlements that were never applied, then
/// journaled receipts. One external id counts once, from the first of these that has it. A refund
/// that was sent settles its external id.
pub fn load_refund_readiness_liabilities(t: &Tables) -> (r: Result<
    Vec<RefundReadinessLiability>,
    LiabilityError,
>)
    ensures
        match r {
            Ok(ls) => {
                &&& liability_fault(*t) is None
                &&& is_liability_list(*t, views(ls@))
            },
            Err(e) => liability_fault(*t) == Some(e),
        },
{
    if any_nameless_refund(&t.refunds) {
        return Err(LiabilityError::RefundWithoutId);
    }
    if has_unreadable_receipt(&t.events) {
        return Err(LiabilityError::ReceiptUnreadable);
    }
    let exts = match open_receipts(t) {
        Ok(exts) => exts,
        Err(e) => {
            return Err(e);
        },
    };
    let mut out: Vec<RefundReadinessLiability> = Vec::new();
    assert(views(out@) =~= Seq::empty());

    let (refunds, keys) = owed_refunds(t);
    let a = order_by(&keys);
    assert(refunds@.len() == views(refunds@).len());
    list_new(&mut out, &refunds, &a);
    assert(arranged(views(refunds@), a@) =~= from_refunds(*t, a@));

    let (orders, keys) = undelivered_orders(t);
    let b = order_by(&keys);
    assert(orders@.len() == views(orders@).len());
    list_new(&mut out, &orders, &b);
    assert(arranged(views(orders@), b@) =~= from_orders(*t, b@));

    let (settlements, keys) = unapplied_settlements(t);
    let c = order_by(&keys);
    assert(settlements@.len() == views(settlements@).len());
    list_new(&mut out, &settlements, &c);
    assert(arranged(views(settlements@), c@) =~= from_settlements(*t, c@));

    let receipts = receipt_liabilities(t, &exts);
    let keys = text_keys(&exts);
    let d = order_by(&keys);
    assert(receipts@.len() == views(receipts@).len());
    list_new(&mut out, &receipts, &d);
    proof {
        let listed = arranged(texts(exts@), d@);
        lemma_arranged_receipts(*t, exts@, d@);
        assert(arranged(views(receipts@), d@) =~= from_receipts(*t, listed));
        assert(views(out@) == all_liabilities(*t, a@, b@, c@, listed));
    }
    Ok(out)
}

/// Whether no two liabilities have the same external id.
pub open spec fn distinct(ls: Seq<LiabilityView>) -> bool {
    forall|i: int, j: int|
        0 <= i < j < ls.len() ==> (#[trigger] ls[i]).external_id != (#[trigger] ls[j]).external_id
}

/// What listing more liabilities does: the list so far stays in front, external ids stay distinct,
/// everything comes from the two, and every external id is there.
proof fn lemma_listed_with(out: Seq<LiabilityView>, more: Seq<LiabilityView>)
    requires
        distinct(out),
    ensures
        distinct(listed_with(out, more)),
        listed_with(out, more).len() >= out.len(),
        forall|i: int| 0 <= i < out.len() ==> #[trigger] listed_with(out, more)[i] == out[i],
        forall|i: int|
            out.len() <= i < listed_with(out, more).len() ==> more.contains(
                #[trigger] listed_with(out, more)[i],
            ),
        forall|i: int|
            0 <= i < more.len() ==> any(
                listed_with(out, more),
                of_ext((#[trigger] more[i]).external_id),
            ),
    decreases more.len(),
{
    if more.len() > 0 {
        let init = more.drop_last();
        let so_far = listed_with(out, init);
        let last = more.last();
        let all = listed_with(out, more);
        lemma_listed_with(out, init);
        assert forall|i: int| out.len() <= i < all.len() implies more.contains(
            #[trigger] all[i],
        ) by {
            if i < so_far.len() {
                assert(init.contains(so_far[i]));
                let k = choose|k: int| 0 <= k < init.len() && init[k] == so_far[i];
                assert(more[k] == all[i]);
            } else {
                assert(more[more.len() - 1] == all[i]);
            }
        }
        assert forall|i: int| 0 <= i < more.len() implies any(
            all,
            of_ext((#[trigger] more[i]).external_id),
        ) by {
            if i < init.len() {
                assert(any(so_far, of_ext(init[i].external_id)));
                let k = choose|k: int|
                    0 <= k < so_far.len() && of_ext(more[i].external_id)(#[trigger] so_far[k]);
                assert(of_ext(more[i].external_id)(all[k]));
            } else if !any(so_far, of_ext(last.external_id)) {
                assert(of_ext(last.external_id)(all[so_far.len() as int]));
            }
        }
        if !any(so_far, of_ext(last.external_id)) {
            assert forall|i: int, j: int| 0 <= i < j < all.len() implies (
            #[trigger] all[i]).external_id != (#[trigger] all[j]).external_id by {
                if j == so_far.len() {
                    assert(!of_ext(last.external_id)(so_far[i]));
                }
            }
        }
    }
}

/// What the list of liabilities promises. No external id counts twice. Every refund that is still
/// owed is listed, as a refund, before anything else under its external id. What is not listed as a
/// refund has no row in the refund ledger at all, so a refund that was sent settles its payment. Every
/// amount is positive.
pub proof fn liabilities_count_once(t: Tables, ls: Seq<LiabilityView>)
    requires
        is_liability_list(t, ls),
    ensures
        distinct(ls),
        forall|i: int|
            #![trigger t.refunds@[i]]
            0 <= i < t.refunds@.len() && owed_refund(t)(t.refunds@[i]) ==> exists|k: int|
                0 <= k < ls.len() && (#[trigger] ls[k]).external_id == ledger_ext(
                    t.refunds@[i],
                )->0 && ls[k].source is RefundAttempt,
        forall|k: int|
            0 <= k < ls.len() && !((#[trigger] ls[k]).source is RefundAttempt) ==> !in_ledger(
                t.refunds@,
                ls[k].external_id,
            ),
        forall|k: int| 0 <= k < ls.len() ==> (#[trigger] ls[k]).gross_sat > 0,
{
    let (a, b, c, d) = choose|a: Seq<usize>, b: Seq<usize>, c: Seq<usize>, d: Seq<Seq<char>>|
        {
            &&& is_order(refund_keys(t.refunds@.filter(owed_refund(t))), a)
            &&& is_order(issued_keys(t.invoices@.filter(undelivered_order(t))), b)
            &&& is_order(settled_keys(t.invoices@.filter(unapplied_settlement(t))), c)
            &&& lists_receipts(t, d)
            &&& ls == #[trigger] all_liabilities(t, a, b, c, d)
        };
    let l1 = from_refunds(t, a);
    let l2 = from_orders(t, b);
    let l3 = from_settlements(t, c);
    let l4 = from_receipts(t, d);
    let s1 = listed_with(Seq::empty(), l1);
    let s2 = listed_with(s1, l2);
    let s3 = listed_with(s2, l3);
    lemma_listed_with(Seq::empty(), l1);
    lemma_listed_with(s1, l2);
    lemma_listed_with(s2, l3);
    lemma_listed_with(s3, l4);
    let refunds = t.refunds@.filter(owed_refund(t));
    let orders = t.invoices@.filter(undelivered_order(t));
    let settlements = t.invoices@.filter(unapplied_settlement(t));
    broadcast use vstd::seq_lib::group_filter_ensures;

    assert forall|k: int| 0 <= k < l1.len() implies (#[trigger] l1[k]).gross_sat > 0
        && l1[k].source is RefundAttempt by {
        let row = refunds[a[k] as int];
        assert(a[k] < refund_keys(refunds).len());
        assert(owed_refund(t)(row));
    }
    assert forall|k: int| 0 <= k < l2.len() implies (#[trigger] l2[k]).gross_sat > 0 && !in_ledger(
        t.refunds@,
        l2[k].external_id,
    ) by {
        assert(b[k] < issued_keys(orders).len());
        assert(undelivered_order(t)(orders[b[k] as int]));
    }
    assert forall|k: int| 0 <= k < l3.len() implies (#[trigger] l3[k]).gross_sat > 0 && !in_ledger(
        t.refunds@,
        l3[k].external_id,
    ) by {
        assert(c[k] < settled_keys(settlements).len());
        assert(unapplied_settlement(t)(settlements[c[k] as int]));
    }
    assert forall|k: int| 0 <= k < l4.len() implies (#[trigger] l4[k]).gross_sat > 0 && !in_ledger(
        t.refunds@,
        l4[k].external_id,
    ) by {
        assert(open_receipt(t, d[k]));
    }
    assert forall|k: int| 0 <= k < ls.len() implies (#[trigger] ls[k]).gross_sat > 0 && (!(
    ls[k].source is RefundAttempt) ==> !in_ledger(t.refunds@, ls[k].external_id)) by {
        if k < s1.len() {
            assert(ls[k] == s3[k] && s3[k] == s2[k] && s2[k] == s1[k]);
            assert(l1.contains(s1[k]));
        } else if k < s2.len() {
            assert(ls[k] == s3[k] && s3[k] == s2[k]);
            assert(l2.contains(s2[k]));
        } else if k < s3.len() {
            assert(ls[k] == s3[k]);
            assert(l3.contains(s3[k]));
        } else {
            assert(l4.contains(ls[k]));
        }
    }
    assert forall|i: int|
        #![trigger t.refunds@[i]]
        0 <= i < t.refunds@.len() && owed_refund(t)(t.refunds@[i]) implies exists|k: int|
        0 <= k < ls.len() && (#[trigger] ls[k]).external_id == ledger_ext(t.refunds@[i])->0
            && ls[k].source is RefundAttempt by {
        let row = t.refunds@[i];
        assert(t.refunds@.contains(row));
        assert(refunds.contains(row));
        let n = choose|n: int| 0 <= n < refunds.len() && refunds[n] == row;
        lemma_order_covers(refund_keys(refunds), a, n);
        let m = choose|m: int| 0 <= m < a.len() && #[trigger] a[m] == n;
        assert(l1[m] == refund_liability(t, row));
        assert(any(s1, of_ext(l1[m].external_id)));
        let k = choose|k: int| 0 <= k < s1.len() && of_ext(l1[m].external_id)(#[trigger] s1[k]);
        assert(l1.contains(s1[k]));
        assert(ls[k] == s3[k] && s3[k] == s2[k] && s2[k] == s1[k]);
    }
}

// ---- reaping ---------------------------------------------------------------------------------

/// Rows removed by one sweep of the idempotency caches.
#[derive(Clone, Copy, Debug, PartialEq, Eq, Structural)]
pub struct IdempotencyPruneReport {
    pub op_invocation: usize,
    pub inbound_request: usize,
}

impl IdempotencyPruneReport {
    /// All rows removed.
    pub fn total(self) -> (r: usize)
        requires
            self.op_invocation + self.inbound_request <= usize::MAX,
        ensures
            r == self.op_invocation + self.inbound_request,
    {
        self.op_invocation + self.inbound_request
    }
}

impl Default for IdempotencyPruneReport {
    fn default() -> (r: IdempotencyPruneReport)
        ensures
            r == (IdempotencyPruneReport { op_invocation: 0, inbound_request: 0 }),
    {
        IdempotencyPruneReport { op_invocation: 0, inbound_request: 0 }
    }
}

/// Rows removed by one reap, table by table.
#[derive(Clone, Copy, Debug, PartialEq, Eq, Structural)]
pub struct ReapCounts {
    pub reservation: usize,
    pub invoice: usize,
    pub event_log: usize,
    pub instance: usize,
    pub subscription: usize,
}

impl ReapCounts {
    /// All rows removed.
    pub fn total(self) -> (r: usize)
        requires
            self.reservation + self.invoice + self.event_log + self.instance + self.subscription
                <= usize::MAX,
        ensures
            r == self.reservation + self.invoice + self.event_log + self.instance
                + self.subscription,
    {
        self.reservation + self.invoice + self.event_log + self.instance + self.subscription
    }
}

impl Default for ReapCounts {
    fn default() -> (r: ReapCounts)
        ensures
            r == (ReapCounts {
                reservation: 0,
                invoice: 0,
                event_log: 0,
                instance: 0,
                subscription: 0,
            }),
    {
        ReapCounts { reservation: 0, invoice: 0, event_log: 0, instance: 0, subscription: 0 }
    }
}

/// Rows older than this go: the retention counted back from the earlier of the wall clock and the
/// daemon's own clock, so that a clock that runs ahead never removes too much.
pub open spec fn cutoff(wall: i64, now: i64, retention: i64) -> int {
    (if wall <= now {
        wall
    } else {
        now
    }) - retention
}

fn cutoff_at(wall: i64, now: i64, retention: i64) -> (r: i128)
    ensures
        r == cutoff(wall, now, retention),
{
    let earlier: i64 = if wall <= now {
        wall
    } else {
        now
    };
    earlier as i128 - retention as i128
}

/// Whether a time is there and before the cutoff.
pub open spec fn is_past(at: Option<i64>, cut: int) -> bool {
    at matches Some(x) && x < cut
}

fn before(at: Option<i64>, cut: i128) -> (r: bool)
    ensures
        r == is_past(at, cut as int),
{
    match at {
        Some(x) => (x as i128) < cut,
        None => false,
    }
}

/// Removes the rows that are marked, and says how many there were.
fn sweep<A>(rows: &mut Vec<A>, marks: &Vec<bool>, Ghost(p): Ghost<spec_fn(A) -> bool>) -> (n: usize)
    requires
        marks@.len() == old(rows)@.len(),
        forall|i: int| 0 <= i < marks@.len() ==> #[trigger] marks@[i] == p(old(rows)@[i]),
    ensures
        final(rows)@ == old(rows)@.filter(|a: A| !p(a)),
        n == old(rows)@.filter(p).len(),
{
    let ghost keep = |a: A| !p(a);
    let ghost all = rows@;
    let mut i: usize = 0;
    let mut n: usize = 0;
    let mut k: usize = 0;
    proof {
        reveal(Seq::filter);
        assert(all.take(0) =~= Seq::empty());
        assert(rows@ =~= all.take(0).filter(keep) + all.skip(0));
    }
    while k < marks.len()
        invariant
            k <= marks@.len(),
            marks@.len() == all.len(),
            all == old(rows)@,
            keep == (|a: A| !p(a)),
            forall|j: int| 0 <= j < marks@.len() ==> #[trigger] marks@[j] == p(all[j]),
            rows@ == all.take(k as int).filter(keep) + all.skip(k as int),
            i == all.take(k as int).filter(keep).len(),
            n == all.take(k as int).filter(p).len(),
            n <= k,
            i <= k,
        decreases marks@.len() - k,
    {
        proof {
            lemma_filter_next(all, p, k as int);
            lemma_filter_next(all, keep, k as int);
            assert(rows@[i as int] == all[k as int]);
            assert(all.skip(k as int)[0] == all[k as int]);
            assert(all.skip(k as int).skip(1) =~= all.skip(k + 1));
        }
        let ghost done = all.take(k as int).filter(keep);
        if marks[k] {
            let _ = rows.remove(i);
            n = n + 1;
            assert(rows@ =~= done + all.skip(k + 1));
        } else {
            i = i + 1;
            assert(rows@ =~= done.push(all[k as int]) + all.skip(k + 1));
        }
        k = k + 1;
    }
    proof {
        assert(all.take(k as int) =~= all);
        assert(all.skip(k as int) =~= Seq::empty());
        assert(rows@ =~= all.filter(keep));
    }
    n
}

/// Being a finished operation whose answer need no longer be kept. One that runs is the claim that
/// keeps it from running twice, and stays.
pub open spec fn stale_op(cut: int) -> spec_fn(OpInvocation) -> bool {
    |o: OpInvocation|
        (o.state == OpState::Done || o.state == OpState::Error) && is_past(o.finished_at, cut)
}

/// Being a request whose answer need no longer be kept.
pub open spec fn stale_request(cut: int) -> spec_fn(InboundRequest) -> bool {
    |r: InboundRequest| is_past(r.created_at, cut)
}

/// Whether `new` is `old` without the answers from before the cutoff, as counted.
pub open spec fn caches_pruned(old: Tables, new: Tables, cut: int, n: IdempotencyPruneReport) -> bool {
    &&& new.op_invocations@ == without(old.op_invocations@, stale_op(cut))
    &&& new.inbound_requests@ == without(old.inbound_requests@, stale_request(cut))
    &&& n.op_invocation == old.op_invocations@.filter(stale_op(cut)).len()
    &&& n.inbound_request == old.inbound_requests@.filter(stale_request(cut)).len()
    &&& new == (Tables {
        op_invocations: new.op_invocations,
        inbound_requests: new.inbound_requests,
        ..old
    })
}

/// Removes the answers that are past [`IDEMPOTENCY_CACHE_RETENTION_SECS`].
pub fn prune_caches(t: &mut Tables, wall: i64, now: i64) -> (r: IdempotencyPruneReport)
    ensures
        caches_pruned(
            *old(t),
            *final(t),
            cutoff(wall, now, IDEMPOTENCY_CACHE_RETENTION_SECS),
            r,
        ),
{
    let cut: i128 = cutoff_at(wall, now, IDEMPOTENCY_CACHE_RETENTION_SECS);
    let mut ops: Vec<bool> = Vec::new();
    let mut i: usize = 0;
    while i < t.op_invocations.len()
        invariant
            i <= t.op_invocations@.len(),
            ops@.len() == i,
            forall|k: int|
                0 <= k < i ==> #[trigger] ops@[k] == stale_op(cut as int)(t.op_invocations@[k]),
        decreases t.op_invocations@.len() - i,
    {
        let o = &t.op_invocations[i];
        ops.push(
            (o.state == OpState::Done || o.state == OpState::Error) && before(o.finished_at, cut),
        );
        i = i + 1;
    }
    let mut requests: Vec<bool> = Vec::new();
    let mut j: usize = 0;
    while j < t.inbound_requests.len()
        invariant
            j <= t.inbound_requests@.len(),
            requests@.len() == j,
            forall|k: int|
                0 <= k < j ==> #[trigger] requests@[k] == stale_request(cut as int)(
                    t.inbound_requests@[k],
                ),
        decreases t.inbound_requests@.len() - j,
    {
        requests.push(before(t.inbound_requests[j].created_at, cut));
        j = j + 1;
    }
    let op_invocation: usize = sweep(&mut t.op_invocations, &ops, Ghost(stale_op(cut as int)));
    let inbound_request: usize = sweep(
        &mut t.inbound_requests,
        &requests,
        Ghost(stale_request(cut as int)),
    );
    IdempotencyPruneReport { op_invocation, inbound_request }
}

/// Whether a subscription has come to its end.
pub open spec fn is_terminal(s: SubState) -> bool {
    s == SubState::Expired || s == SubState::Terminated || s == SubState::Refunded
}

fn terminal(s: SubState) -> (r: bool)
    ensures
        r == is_terminal(s),
{
    s == SubState::Expired || s == SubState::Terminated || s == SubState::Refunded
}

/// Whether a subscription keeps its rows: it has not come to its end, or did so lately.
pub open spec fn keeps_rows(s: Subscription, cut: int) -> bool {
    ||| s.state != SubState::Null && !is_terminal(s.state)
    ||| (s.updated_at matches Some(u) && u >= cut)
}

/// Whether a subscription with this id keeps its rows.
pub open spec fn owner_keeps(subs: Seq<Subscription>, id: Seq<char>, cut: int) -> bool {
    any(subs, |s: Subscription| s.id@ == id && keeps_rows(s, cut))
}

fn owner_keeps_rows(subs: &Vec<Subscription>, id: &str, cut: i128) -> (r: bool)
    ensures
        r == owner_keeps(subs@, id@, cut as int),
{
    let mut i: usize = 0;
    while i < subs.len()
        invariant
            i <= subs@.len(),
            forall|k: int|
                0 <= k < i ==> !((#[trigger] subs@[k]).id@ == id@ && keeps_rows(
                    subs@[k],
                    cut as int,
                )),
        decreases subs@.len() - i,
    {
        let s = &subs[i];
        let lately = match s.updated_at {
            Some(u) => u as i128 >= cut,
            None => false,
        };
        if same(&s.id, id) && ((s.state != SubState::Null && !terminal(s.state)) || lately) {
            return true;
        }
        i = i + 1;
    }
    false
}

/// Being an instance whose subscription is gone, or came to its end before the cutoff. An instance
/// has no end of its own, so its owner's decides.
pub open spec fn spent_instance(t: Tables, cut: int) -> spec_fn(Instance) -> bool {
    |n: Instance|
        is_past(n.updated_at, cut) && !(n.subscription_id matches Some(s) && owner_keeps(
            t.subscriptions@,
            s@,
            cut,
        ))
}

/// Being a released reservation whose subscription is gone, or came to its end before the cutoff.
pub open spec fn spent_reservation(t: Tables, cut: int) -> spec_fn(Reservation) -> bool {
    |r: Reservation|
        r.state == HoldState::Released && is_past(r.created_at, cut) && !owner_keeps(
            t.subscriptions@,
            r.order_id@,
            cut,
        )
}

/// Whether a refund that was not sent stands under this external id.
pub open spec fn refund_open(refunds: Seq<RefundAttempt>, ext: Seq<char>) -> bool {
    any(refunds, |a: RefundAttempt| a.status != RefundStatus::Sent && ledger_ext(a) == Some(ext))
}

/// Being an invoice that expired without ever settling, before the cutoff, and that no open refund
/// rests on. Whether its subscription lives plays no part.
pub open spec fn spent_invoice(t: Tables, cut: int) -> spec_fn(Invoice) -> bool {
    |i: Invoice|
        {
            &&& i.status == InvoiceStatus::Expired
            &&& i.settled_at is None
            &&& is_past(
                if i.expires_at is Some {
                    i.expires_at
                } else {
                    i.issued_at
                },
                cut,
            )
            &&& !refund_open(t.refunds@, i.external_id@)
        }
}

/// Whether two optional texts are both there and the same.
pub open spec fn same_text(a: Option<String>, b: Option<String>) -> bool {
    a matches Some(x) && is_text(b, x@)
}

/// Whether an event still waits for the cleanup that it asks for.
pub open spec fn cleanup_waits(t: Tables, e: Event) -> bool {
    &&& e.kind == EventKind::ProvisionCleanupPending
    &&& any(t.subscriptions@, |s: Subscription| is_text(e.subscription_id, s.id@))
    &&& !any(
        t.events@,
        |d: Event|
            same_text(e.subscription_id, d.subscription_id) && d.kind
                == EventKind::ProvisionCleanupDone && (
            d.detail matches EventDetail::CleanupDone { pending_event_id } && pending_event_id
                == e.id),
    )
}

/// Whether an event is the baseline of a renewal that is not resolved yet.
pub open spec fn renewal_waits(t: Tables, e: Event) -> bool {
    &&& e.kind == EventKind::RenewResume
    &&& any(
        t.subscriptions@,
        |s: Subscription| is_text(e.subscription_id, s.id@) && s.state == SubState::Resuming,
    )
    &&& !any(
        t.events@,
        |r: Event|
            same_text(e.subscription_id, r.subscription_id) && (r.kind == EventKind::ResumeActive
                || r.kind == EventKind::ResumeFailed) && r.id > e.id,
    )
}

/// Being an event from before the cutoff that is no receipt and that nothing waits for.
pub open spec fn spent_event(t: Tables, cut: int) -> spec_fn(Event) -> bool {
    |e: Event|
        {
            &&& is_past(e.at, cut)
            &&& e.kind != EventKind::Null
            &&& !is_settle_refund(e.kind)
            &&& !cleanup_waits(t, e)
            &&& !renewal_waits(t, e)
        }
}

/// Whether anything still rests on the subscription: an invoice, an event, an instance, a
/// reservation, a refund that was not sent, a teardown that is not resolved, a message that was not
/// sent, or a ticket that is active.
pub open spec fn rests_on(t: Tables, id: Seq<char>) -> bool {
    ||| any(t.invoices@, |i: Invoice| is_text(i.subscription_id, id))
    ||| any(t.events@, |e: Event| is_text(e.subscription_id, id))
    ||| any(t.instances@, |n: Instance| is_text(n.subscription_id, id))
    ||| any(t.reservations@, |r: Reservation| r.order_id@ == id)
    ||| any(
        t.refunds@,
        |a: RefundAttempt| is_text(a.subscription_id, id) && a.status != RefundStatus::Sent,
    )
    ||| any(t.teardown_failures@, |f: TeardownFailure| f.subscription_id@ == id && f.resolved_at is None)
    ||| any(
        t.outbox@,
        |o: OutboxRow| is_text(o.subscription_id, id) && o.state == OutboxState::Pending,
    )
    ||| any(t.connect_sessions@, |c: ConnectSession| is_text(c.subscription_id, id) && c.active)
}

/// Being a subscription that came to its end before the cutoff and that nothing rests on.
pub open spec fn spent_subscription(t: Tables, cut: int) -> spec_fn(Subscription) -> bool {
    |s: Subscription| is_terminal(s.state) && is_past(s.updated_at, cut) && !rests_on(t, s.id@)
}

/// The rows that do not satisfy `p`.
pub open spec fn without<A>(s: Seq<A>, p: spec_fn(A) -> bool) -> Seq<A> {
    s.filter(|a: A| !p(a))
}

/// Whether `new` is `old` without its spent instances, reservations, invoices and events.
pub open spec fn children_reaped(old: Tables, new: Tables, cut: int) -> bool {
    &&& new.instances@ == without(old.instances@, spent_instance(old, cut))
    &&& new.reservations@ == without(old.reservations@, spent_reservation(old, cut))
    &&& new.invoices@ == without(old.invoices@, spent_invoice(old, cut))
    &&& new.events@ == without(old.events@, spent_event(old, cut))
    &&& new == (Tables {
        instances: new.instances,
        reservations: new.reservations,
        invoices: new.invoices,
        events: new.events,
        ..old
    })
}

/// Whether some refund of the external id has not gone out.
fn refund_is_open(t: &Tables, ext: &str) -> (r: bool)
    ensures
        r == refund_open(t.refunds@, ext@),
{
    let mut i: usize = 0;
    while i < t.refunds.len()
        invariant
            i <= t.refunds@.len(),
            forall|k: int|
                0 <= k < i ==> (#[trigger] t.refunds@[k]).status == RefundStatus::Sent || ledger_ext(
                    t.refunds@[k],
                ) != Some(ext@),
        decreases t.refunds@.len() - i,
    {
        let row = &t.refunds[i];
        if !row.status.is_sent() && holds_text(&ledger_external_id(row), ext) {
            return true;
        }
        i = i + 1;
    }
    false
}

fn texts_match(a: &Option<String>, b: &Option<String>) -> (r: bool)
    ensures
        r == same_text(*a, *b),
{
    match a {
        Some(x) => holds_text(b, x),
        None => false,
    }
}

fn has_owner(t: &Tables, id: &Option<String>) -> (r: bool)
    ensures
        r == any(t.subscriptions@, |s: Subscription| is_text(*id, s.id@)),
{
    let mut i: usize = 0;
    while i < t.subscriptions.len()
        invariant
            i <= t.subscriptions@.len(),
            forall|k: int| 0 <= k < i ==> !(is_text(*id, (#[trigger] t.subscriptions@[k]).id@)),
        decreases t.subscriptions@.len() - i,
    {
        let row = &t.subscriptions[i];
        if holds_text(id, &row.id) {
            return true;
        }
        i = i + 1;
    }
    false
}

fn has_resuming_owner(t: &Tables, id: &Option<String>) -> (r: bool)
    ensures
        r == any(t.subscriptions@, |s: Subscription| is_text(*id, s.id@) && s.state == SubState::Resuming),
{
    let mut i: usize = 0;
    while i < t.subscriptions.len()
        invariant
            i <= t.subscriptions@.len(),
            forall|k: int|
                0 <= k < i ==> !(is_text(*id, (#[trigger] t.subscriptions@[k]).id@)
                    && t.subscriptions@[k].state == SubState::Resuming),
        decreases t.subscriptions@.len() - i,
    {
        let row = &t.subscriptions[i];
        if holds_text(id, &row.id) && row.state == SubState::Resuming {
            return true;
        }
        i = i + 1;
    }
    false
}

fn cleanup_is_done(t: &Tables, e: &Event) -> (r: bool)
    ensures
        r == any(
            t.events@,
            |d: Event|
                same_text(e.subscription_id, d.subscription_id) && d.kind
                    == EventKind::ProvisionCleanupDone && (
                d.detail matches EventDetail::CleanupDone { pending_event_id } && pending_event_id
                    == e.id),
        ),
{
    let mut i: usize = 0;
    while i < t.events.len()
        invariant
            i <= t.events@.len(),
            forall|k: int|
                0 <= k < i ==> !(same_text(e.subscription_id, (#[trigger] t.events@[k]).subscription_id)
                    && t.events@[k].kind == EventKind::ProvisionCleanupDone && (
                t.events@[k].detail matches EventDetail::CleanupDone { pending_event_id }
                    && pending_event_id == e.id)),
        decreases t.events@.len() - i,
    {
        let d = &t.events[i];
        if texts_match(&e.subscription_id, &d.subscription_id) && d.kind
            == EventKind::ProvisionCleanupDone {
            if let EventDetail::CleanupDone { pending_event_id } = &d.detail {
                if *pending_event_id == e.id {
                    return true;
                }
            }
        }
        i = i + 1;
    }
    false
}

fn renewal_is_resolved(t: &Tables, e: &Event) -> (r: bool)
    ensures
        r == any(
            t.events@,
            |r: Event|
                same_text(e.subscription_id, r.subscription_id) && (r.kind == EventKind::ResumeActive
                    || r.kind == EventKind::ResumeFailed) && r.id > e.id,
        ),
{
    let mut i: usize = 0;
    while i < t.events.len()
        invariant
            i <= t.events@.len(),
            forall|k: int|
                0 <= k < i ==> !(same_text(e.subscription_id, (#[trigger] t.events@[k]).subscription_id)
                    && (t.events@[k].kind == EventKind::ResumeActive || t.events@[k].kind
                    == EventKind::ResumeFailed) && t.events@[k].id > e.id),
        decreases t.events@.len() - i,
    {
        let d = &t.events[i];
        if texts_match(&e.subscription_id, &d.subscription_id) && (d.kind == EventKind::ResumeActive
            || d.kind == EventKind::ResumeFailed) && d.id > e.id {
            return true;
        }
        i = i + 1;
    }
    false
}

fn has_invoice(t: &Tables, id: &str) -> (r: bool)
    ensures
        r == any(t.invoices@, |i: Invoice| is_text(i.subscription_id, id@)),
{
    let mut i: usize = 0;
    while i < t.invoices.len()
        invariant
            i <= t.invoices@.len(),
            forall|k: int| 0 <= k < i ==> !(is_text((#[trigger] t.invoices@[k]).subscription_id, id@)),
        decreases t.invoices@.len() - i,
    {
        let row = &t.invoices[i];
        if holds_text(&row.subscription_id, id) {
            return true;
        }
        i = i + 1;
    }
    false
}

fn has_event(t: &Tables, id: &str) -> (r: bool)
    ensures
        r == any(t.events@, |e: Event| is_text(e.subscription_id, id@)),
{
    let mut i: usize = 0;
    while i < t.events.len()
        invariant
            i <= t.events@.len(),
            forall|k: int| 0 <= k < i ==> !(is_text((#[trigger] t.events@[k]).subscription_id, id@)),
        decreases t.events@.len() - i,
    {
        let row = &t.events[i];
        if holds_text(&row.subscription_id, id) {
            return true;
        }
        i = i + 1;
    }
    false
}

fn has_instance(t: &Tables, id: &str) -> (r: bool)
    ensures
        r == any(t.instances@, |n: Instance| is_text(n.subscription_id, id@)),
{
    let mut i: usize = 0;
    while i < t.instances.len()
        invariant
            i <= t.instances@.len(),
            forall|k: int| 0 <= k < i ==> !(is_text((#[trigger] t.instances@[k]).subscription_id, id@)),
        decreases t.instances@.len() - i,
    {
        let row = &t.instances[i];
        if holds_text(&row.subscription_id, id) {
            return true;
        }
        i = i + 1;
    }
    false
}

fn has_reservation(t: &Tables, id: &str) -> (r: bool)
    ensures
        r == any(t.reservations@, |r: Reservation| r.order_id@ == id@),
{
    let mut i: usize = 0;
    while i < t.reservations.len()
        invariant
            i <= t.reservations@.len(),
            forall|k: int| 0 <= k < i ==> !((#[trigger] t.reservations@[k]).order_id@ == id@),
        decreases t.reservations@.len() - i,
    {
        let row = &t.reservations[i];
        if same(&row.order_id, id) {
            return true;
        }
        i = i + 1;
    }
    false
}

fn has_open_refund(t: &Tables, id: &str) -> (r: bool)
    ensures
        r == any(
            t.refunds@,
            |a: RefundAttempt| is_text(a.subscription_id, id@) && a.status != RefundStatus::Sent,
        ),
{
    let mut i: usize = 0;
    while i < t.refunds.len()
        invariant
            i <= t.refunds@.len(),
            forall|k: int|
                0 <= k < i ==> !(is_text((#[trigger] t.refunds@[k]).subscription_id, id@)
                    && t.refunds@[k].status != RefundStatus::Sent),
        decreases t.refunds@.len() - i,
    {
        let row = &t.refunds[i];
        if holds_text(&row.subscription_id, id) && !row.status.is_sent() {
            return true;
        }
        i = i + 1;
    }
    false
}

fn has_open_teardown(t: &Tables, id: &str) -> (r: bool)
    ensures
        r == any(t.teardown_failures@, |f: TeardownFailure| f.subscription_id@ == id@ && f.resolved_at is None),
{
    let mut i: usize = 0;
    while i < t.teardown_failures.len()
        invariant
            i <= t.teardown_failures@.len(),
            forall|k: int|
                0 <= k < i ==> !((#[trigger] t.teardown_failures@[k]).subscription_id@ == id@
                    && t.teardown_failures@[k].resolved_at is None),
        decreases t.teardown_failures@.len() - i,
    {
        let row = &t.teardown_failures[i];
        if same(&row.subscription_id, id) && row.resolved_at.is_none() {
            return true;
        }
        i = i + 1;
    }
    false
}

fn has_unsent_message(t: &Tables, id: &str) -> (r: bool)
    ensures
        r == any(t.outbox@, |o: OutboxRow| is_text(o.subscription_id, id@) && o.state == OutboxState::Pending),
{
    let mut i: usize = 0;
    while i < t.outbox.len()
        invariant
            i <= t.outbox@.len(),
            forall|k: int|
                0 <= k < i ==> !(is_text((#[trigger] t.outbox@[k]).subscription_id, id@)
                    && t.outbox@[k].state == OutboxState::Pending),
        decreases t.outbox@.len() - i,
    {
        let row = &t.outbox[i];
        if holds_text(&row.subscription_id, id) && row.state == OutboxState::Pending {
            return true;
        }
        i = i + 1;
    }
    false
}

fn has_active_session(t: &Tables, id: &str) -> (r: bool)
    ensures
        r == any(t.connect_sessions@, |c: ConnectSession| is_text(c.subscription_id, id@) && c.active),
{
    let mut i: usize = 0;
    while i < t.connect_sessions.len()
        invariant
            i <= t.connect_sessions@.len(),
            forall|k: int|
                0 <= k < i ==> !(is_text((#[trigger] t.connect_sessions@[k]).subscription_id, id@)
                    && t.connect_sessions@[k].active),
        decreases t.connect_sessions@.len() - i,
    {
        let row = &t.connect_sessions[i];
        if holds_text(&row.subscription_id, id) && row.active {
            return true;
        }
        i = i + 1;
    }
    false
}

fn anything_rests_on(t: &Tables, id: &str) -> (r: bool)
    ensures
        r == rests_on(*t, id@),
{
    has_invoice(t, id) || has_event(t, id) || has_instance(t, id) || has_reservation(t, id)
        || has_open_refund(t, id) || has_open_teardown(t, id) || has_unsent_message(t, id)
        || has_active_session(t, id)
}

fn mark_instances(t: &Tables, cut: i128) -> (marks: Vec<bool>)
    ensures
        marks@.len() == t.instances@.len(),
        forall|i: int|
            0 <= i < marks@.len() ==> #[trigger] marks@[i] == spent_instance(*t, cut as int)(t.instances@[i]),
{
    let mut marks: Vec<bool> = Vec::new();
    let mut i: usize = 0;
    while i < t.instances.len()
        invariant
            i <= t.instances@.len(),
            marks@.len() == i,
            forall|k: int|
                0 <= k < i ==> #[trigger] marks@[k] == spent_instance(*t, cut as int)(t.instances@[k]),
        decreases t.instances@.len() - i,
    {
        let row = &t.instances[i];
        let kept = match &row.subscription_id {
            Some(s) => owner_keeps_rows(&t.subscriptions, s, cut),
            None => false,
        };
        marks.push(before(row.updated_at, cut) && !kept);
        i = i + 1;
    }
    marks
}

fn mark_reservations(t: &Tables, cut: i128) -> (marks: Vec<bool>)
    ensures
        marks@.len() == t.reservations@.len(),
        forall|i: int|
            0 <= i < marks@.len() ==> #[trigger] marks@[i] == spent_reservation(*t, cut as int)(
                t.reservations@[i],
            ),
{
    let mut marks: Vec<bool> = Vec::new();
    let mut i: usize = 0;
    while i < t.reservations.len()
        invariant
            i <= t.reservations@.len(),
            marks@.len() == i,
            forall|k: int|
                0 <= k < i ==> #[trigger] marks@[k] == spent_reservation(*t, cut as int)(t.reservations@[k]),
        decreases t.reservations@.len() - i,
    {
        let row = &t.reservations[i];
        marks.push(
            row.state == HoldState::Released && before(row.created_at, cut) && !owner_keeps_rows(
                &t.subscriptions,
                &row.order_id,
                cut,
            ),
        );
        i = i + 1;
    }
    marks
}

fn mark_invoices(t: &Tables, cut: i128) -> (marks: Vec<bool>)
    ensures
        marks@.len() == t.invoices@.len(),
        forall|i: int|
            0 <= i < marks@.len() ==> #[trigger] marks@[i] == spent_invoice(*t, cut as int)(t.invoices@[i]),
{
    let mut marks: Vec<bool> = Vec::new();
    let mut i: usize = 0;
    while i < t.invoices.len()
        invariant
            i <= t.invoices@.len(),
            marks@.len() == i,
            forall|k: int|
                0 <= k < i ==> #[trigger] marks@[k] == spent_invoice(*t, cut as int)(t.invoices@[k]),
        decreases t.invoices@.len() - i,
    {
        let row = &t.invoices[i];
        let at: Option<i64> = if row.expires_at.is_some() {
            row.expires_at
        } else {
            row.issued_at
        };
        marks.push(
            row.status == InvoiceStatus::Expired && row.settled_at.is_none() && before(at, cut)
                && !refund_is_open(t, &row.external_id),
        );
        i = i + 1;
    }
    marks
}

fn mark_events(t: &Tables, cut: i128) -> (marks: Vec<bool>)
    ensures
        marks@.len() == t.events@.len(),
        forall|i: int|
            0 <= i < marks@.len() ==> #[trigger] marks@[i] == spent_event(*t, cut as int)(t.events@[i]),
{
    let mut marks: Vec<bool> = Vec::new();
    let mut i: usize = 0;
    while i < t.events.len()
        invariant
            i <= t.events@.len(),
            marks@.len() == i,
            forall|k: int|
                0 <= k < i ==> #[trigger] marks@[k] == spent_event(*t, cut as int)(t.events@[k]),
        decreases t.events@.len() - i,
    {
        let row = &t.events[i];
        let cleanup = row.kind == EventKind::ProvisionCleanupPending && has_owner(
            t,
            &row.subscription_id,
        ) && !cleanup_is_done(t, row);
        let renewal = row.kind == EventKind::RenewResume && has_resuming_owner(
            t,
            &row.subscription_id,
        ) && !renewal_is_resolved(t, row);
        marks.push(
            before(row.at, cut) && row.kind != EventKind::Null && !settle_refund_kind(row.kind)
                && !cleanup && !renewal,
        );
        i = i + 1;
    }
    marks
}

fn mark_subscriptions(t: &Tables, cut: i128) -> (marks: Vec<bool>)
    ensures
        marks@.len() == t.subscriptions@.len(),
        forall|i: int|
            0 <= i < marks@.len() ==> #[trigger] marks@[i] == spent_subscription(*t, cut as int)(
                t.subscriptions@[i],
            ),
{
    let mut marks: Vec<bool> = Vec::new();
    let mut i: usize = 0;
    while i < t.subscriptions.len()
        invariant
            i <= t.subscriptions@.len(),
            marks@.len() == i,
            forall|k: int|
                0 <= k < i ==> #[trigger] marks@[k] == spent_subscription(*t, cut as int)(t.subscriptions@[k]),
        decreases t.subscriptions@.len() - i,
    {
        let row = &t.subscriptions[i];
        marks.push(terminal(row.state) && before(row.updated_at, cut) && !anything_rests_on(t, &row.id));
        i = i + 1;
    }
    marks
}

/// Whether `new` is `old` after a reap: its spent instances, reservations, invoices and events are
/// gone, and then the subscriptions that were spent without them.
pub open spec fn reaped(old: Tables, new: Tables, cut: int) -> bool {
    exists|mid: Tables|
        {
            &&& #[trigger] children_reaped(old, mid, cut)
            &&& new.subscriptions@ == without(mid.subscriptions@, spent_subscription(mid, cut))
            &&& new == (Tables { subscriptions: new.subscriptions, ..mid })
        }
}

/// Whether `new` is `old` after a reap, with what went counted.
pub open spec fn reap_counted(old: Tables, new: Tables, cut: int, n: ReapCounts) -> bool {
    &&& reaped(old, new, cut)
    &&& n.instance == old.instances@.filter(spent_instance(old, cut)).len()
    &&& n.reservation == old.reservations@.filter(spent_reservation(old, cut)).len()
    &&& n.invoice == old.invoices@.filter(spent_invoice(old, cut)).len()
    &&& n.event_log == old.events@.filter(spent_event(old, cut)).len()
    &&& n.subscription == old.subscriptions@.len() - new.subscriptions@.len()
}

/// Removes the rows that came to their end before [`TERMINAL_ROW_RETENTION_SECS`] ago: first those
/// that belong to a subscription, judged by what is there before anything goes, and then the
/// subscriptions on which nothing rests any more.
pub fn reap_rows(t: &mut Tables, wall: i64, now: i64) -> (r: ReapCounts)
    ensures
        reap_counted(*old(t), *final(t), cutoff(wall, now, TERMINAL_ROW_RETENTION_SECS), r),
{
    let cut: i128 = cutoff_at(wall, now, TERMINAL_ROW_RETENTION_SECS);
    let instances = mark_instances(t, cut);
    let reservations = mark_reservations(t, cut);
    let invoices = mark_invoices(t, cut);
    let events = mark_events(t, cut);
    let ghost all = *t;
    let instance: usize = sweep(
        &mut t.instances,
        &instances,
        Ghost(spent_instance(all, cut as int)),
    );
    let reservation: usize = sweep(
        &mut t.reservations,
        &reservations,
        Ghost(spent_reservation(all, cut as int)),
    );
    let invoice: usize = sweep(&mut t.invoices, &invoices, Ghost(spent_invoice(all, cut as int)));
    let event_log: usize = sweep(&mut t.events, &events, Ghost(spent_event(all, cut as int)));
    let ghost mid = *t;
    assert(children_reaped(all, mid, cut as int));
    let subscriptions = mark_subscriptions(t, cut);
    let subscription: usize = sweep(
        &mut t.subscriptions,
        &subscriptions,
        Ghost(spent_subscription(mid, cut as int)),
    );
    proof {
        lemma_filter_splits(mid.subscriptions@, spent_subscription(mid, cut as int));
        assert(reaped(all, *t, cut as int));
    }
    ReapCounts { reservation, invoice, event_log, instance, subscription }
}

/// The rows that satisfy `p` and those that do not are all the rows.
proof fn lemma_filter_splits<A>(s: Seq<A>, p: spec_fn(A) -> bool)
    ensures
        s.filter(p).len() + without(s, p).len() == s.len(),
    decreases s.len(),
{
    reveal(Seq::filter);
    if s.len() > 0 {
        lemma_filter_splits(s.drop_last(), p);
    }
}

/// A row that does not satisfy `p` is among those left without `p`, and the other way round.
proof fn lemma_without<A>(s: Seq<A>, p: spec_fn(A) -> bool, a: A)
    ensures
        without(s, p).contains(a) <==> s.contains(a) && !p(a),
    decreases s.len(),
{
    reveal(Seq::filter);
    let q = |a: A| !p(a);
    if s.len() > 0 {
        let init = s.drop_last();
        lemma_without(init, p, a);
        let kept = without(s, p);
        if s.contains(a) {
            let k = choose|k: int| 0 <= k < s.len() && s[k] == a;
            if k < init.len() {
                assert(init[k] == a);
            }
        }
        if init.contains(a) {
            let k = choose|k: int| 0 <= k < init.len() && init[k] == a;
            assert(s[k] == a);
        }
        assert(s[s.len() - 1] == s.last());
        if without(init, p).contains(a) {
            let k = choose|k: int| 0 <= k < without(init, p).len() && without(init, p)[k] == a;
            assert(kept[k] == a);
        }
        if q(s.last()) {
            assert(kept[kept.len() - 1] == s.last());
            if kept.contains(a) && a != s.last() {
                let k = choose|k: int| 0 <= k < kept.len() && kept[k] == a;
                assert(without(init, p)[k] == a);
            }
        }
    }
}

/// A reap never touches money: every invoice that shows received funds, every invoice that an open
/// refund rests on and every journaled receipt is kept, and so are the refund ledger and the outbox.
pub proof fn reap_keeps_money(old: Tables, new: Tables, cut: int, i: Invoice, e: Event)
    requires
        reaped(old, new, cut),
    ensures
        old.invoices@.contains(i) && (received_funds(i) || refund_open(
            old.refunds@,
            i.external_id@,
        )) ==> new.invoices@.contains(i),
        old.events@.contains(e) && is_settle_refund(e.kind) ==> new.events@.contains(e),
        new.refunds == old.refunds,
        new.outbox == old.outbox,
{
    lemma_without(old.invoices@, spent_invoice(old, cut), i);
    lemma_without(old.events@, spent_event(old, cut), e);
}

/// A reap never leaves a row behind without its subscription: a subscription on which anything rests
/// after the reap is still there, and so is one that has not come to its end.
pub proof fn reap_never_strands(old: Tables, new: Tables, cut: int, s: Subscription)
    requires
        reaped(old, new, cut),
        old.subscriptions@.contains(s),
        rests_on(new, s.id@) || !is_terminal(s.state) || !is_past(s.updated_at, cut),
    ensures
        new.subscriptions@.contains(s),
{
    let mid = choose|mid: Tables|
        {
            &&& #[trigger] children_reaped(old, mid, cut)
            &&& new.subscriptions@ == without(mid.subscriptions@, spent_subscription(mid, cut))
            &&& new == (Tables { subscriptions: new.subscriptions, ..mid })
        };
    assert(rests_on(new, s.id@) == rests_on(mid, s.id@));
    lemma_without(mid.subscriptions@, spent_subscription(mid, cut), s);
}

/// What recovery waits for survives a reap: a cleanup that was not done and a renewal that was not
/// resolved stay in the event log.
pub proof fn reap_keeps_recovery(old: Tables, new: Tables, cut: int, e: Event)
    requires
        reaped(old, new, cut),
        old.events@.contains(e),
        cleanup_waits(old, e) || renewal_waits(old, e),
    ensures
        new.events@.contains(e),
{
    lemma_without(old.events@, spent_event(old, cut), e);
}

/// Where no row satisfies `p`, all of them are left without it.
proof fn lemma_without_none<A>(s: Seq<A>, p: spec_fn(A) -> bool)
    requires
        forall|i: int| 0 <= i < s.len() ==> !p(#[trigger] s[i]),
    ensures
        without(s, p) == s,
        s.filter(p).len() == 0,
    decreases s.len(),
{
    reveal(Seq::filter);
    if s.len() > 0 {
        let init = s.drop_last();
        assert forall|i: int| 0 <= i < init.len() implies !p(#[trigger] init[i]) by {
            assert(!p(s[i]));
        }
        lemma_without_none(init, p);
        assert(!p(s[s.len() - 1]));
        assert(init.push(s.last()) =~= s);
    } else {
        assert(without(s, p) =~= s);
    }
}

/// A subscription that keeps its rows through a reap still does so after it.
proof fn lemma_owner_still_keeps(old: Tables, new: Tables, cut: int, id: Seq<char>)
    requires
        reaped(old, new, cut),
        owner_keeps(old.subscriptions@, id, cut),
    ensures
        owner_keeps(new.subscriptions@, id, cut),
{
    let k = choose|k: int|
        0 <= k < old.subscriptions@.len() && (#[trigger] old.subscriptions@[k]).id@ == id && keeps_rows(
            old.subscriptions@[k],
            cut,
        );
    let s = old.subscriptions@[k];
    reap_never_strands(old, new, cut, s);
    let n = choose|n: int| 0 <= n < new.subscriptions@.len() && new.subscriptions@[n] == s;
    let p = |s: Subscription| s.id@ == id && keeps_rows(s, cut);
    assert(p(new.subscriptions@[n]));
}

/// An event that something waits for is waited for after a reap as well.
proof fn lemma_still_waits(old: Tables, new: Tables, cut: int, e: Event)
    requires
        reaped(old, new, cut),
        old.events@.contains(e),
        cleanup_waits(old, e) || renewal_waits(old, e),
    ensures
        cleanup_waits(new, e) || renewal_waits(new, e),
{
    reap_keeps_recovery(old, new, cut, e);
    let at = choose|n: int| 0 <= n < new.events@.len() && new.events@[n] == e;
    let owned_by = |s: Subscription| is_text(e.subscription_id, s.id@);
    let resuming = |s: Subscription| is_text(e.subscription_id, s.id@) && s.state == SubState::Resuming;
    let done = |d: Event|
        same_text(e.subscription_id, d.subscription_id) && d.kind == EventKind::ProvisionCleanupDone
            && (d.detail matches EventDetail::CleanupDone { pending_event_id } && pending_event_id
            == e.id);
    let resolved = |r: Event|
        same_text(e.subscription_id, r.subscription_id) && (r.kind == EventKind::ResumeActive
            || r.kind == EventKind::ResumeFailed) && r.id > e.id;
    assert forall|n: int| 0 <= n < new.events@.len() implies old.events@.contains(
        #[trigger] new.events@[n],
    ) by {
        lemma_without(old.events@, spent_event(old, cut), new.events@[n]);
    }
    let k = if cleanup_waits(old, e) {
        choose|k: int| 0 <= k < old.subscriptions@.len() && owned_by(#[trigger] old.subscriptions@[k])
    } else {
        choose|k: int| 0 <= k < old.subscriptions@.len() && resuming(#[trigger] old.subscriptions@[k])
    };
    let s = old.subscriptions@[k];
    let p = |x: Event| is_text(x.subscription_id, s.id@);
    assert(p(new.events@[at]));
    assert(rests_on(new, s.id@));
    reap_never_strands(old, new, cut, s);
    let n = choose|n: int| 0 <= n < new.subscriptions@.len() && new.subscriptions@[n] == s;
    if cleanup_waits(old, e) {
        assert(owned_by(new.subscriptions@[n]));
        if any(new.events@, done) {
            let d = choose|d: int| 0 <= d < new.events@.len() && done(#[trigger] new.events@[d]);
            let o = choose|o: int| 0 <= o < old.events@.len() && old.events@[o] == new.events@[d];
            assert(done(old.events@[o]));
        }
    } else {
        assert(resuming(new.subscriptions@[n]));
        if any(new.events@, resolved) {
            let d = choose|d: int| 0 <= d < new.events@.len() && resolved(#[trigger] new.events@[d]);
            let o = choose|o: int| 0 <= o < old.events@.len() && old.events@[o] == new.events@[d];
            assert(resolved(old.events@[o]));
        }
    }
}

/// A second reap with the same cutoff finds nothing to remove.
pub proof fn second_reap_removes_nothing(old: Tables, new: Tables, again: Tables, cut: int, n: ReapCounts)
    requires
        reaped(old, new, cut),
        reap_counted(new, again, cut, n),
    ensures
        again.instances@ == new.instances@,
        again.reservations@ == new.reservations@,
        again.invoices@ == new.invoices@,
        again.events@ == new.events@,
        again.subscriptions@ == new.subscriptions@,
        n == (ReapCounts { reservation: 0, invoice: 0, event_log: 0, instance: 0, subscription: 0 }),
{
    let mid = choose|mid: Tables|
        {
            &&& #[trigger] children_reaped(old, mid, cut)
            &&& new.subscriptions@ == without(mid.subscriptions@, spent_subscription(mid, cut))
            &&& new == (Tables { subscriptions: new.subscriptions, ..mid })
        };
    let left = choose|left: Tables|
        {
            &&& #[trigger] children_reaped(new, left, cut)
            &&& again.subscriptions@ == without(left.subscriptions@, spent_subscription(left, cut))
            &&& again == (Tables { subscriptions: again.subscriptions, ..left })
        };
    assert forall|i: int| 0 <= i < new.instances@.len() implies !spent_instance(new, cut)(
        #[trigger] new.instances@[i],
    ) by {
        let x = new.instances@[i];
        lemma_without(old.instances@, spent_instance(old, cut), x);
        assert(new.instances@.contains(x));
        if let Some(s) = x.subscription_id {
            if owner_keeps(old.subscriptions@, s@, cut) {
                lemma_owner_still_keeps(old, new, cut, s@);
            }
        }
    }
    lemma_without_none(new.instances@, spent_instance(new, cut));
    assert forall|i: int| 0 <= i < new.reservations@.len() implies !spent_reservation(new, cut)(
        #[trigger] new.reservations@[i],
    ) by {
        let x = new.reservations@[i];
        lemma_without(old.reservations@, spent_reservation(old, cut), x);
        assert(new.reservations@.contains(x));
        if owner_keeps(old.subscriptions@, x.order_id@, cut) {
            lemma_owner_still_keeps(old, new, cut, x.order_id@);
        }
    }
    lemma_without_none(new.reservations@, spent_reservation(new, cut));
    assert forall|i: int| 0 <= i < new.invoices@.len() implies !spent_invoice(new, cut)(
        #[trigger] new.invoices@[i],
    ) by {
        lemma_without(old.invoices@, spent_invoice(old, cut), new.invoices@[i]);
        assert(new.invoices@.contains(new.invoices@[i]));
    }
    lemma_without_none(new.invoices@, spent_invoice(new, cut));
    assert forall|i: int| 0 <= i < new.events@.len() implies !spent_event(new, cut)(
        #[trigger] new.events@[i],
    ) by {
        let e = new.events@[i];
        lemma_without(old.events@, spent_event(old, cut), e);
        assert(new.events@.contains(e));
        if cleanup_waits(old, e) || renewal_waits(old, e) {
            lemma_still_waits(old, new, cut, e);
        }
    }
    lemma_without_none(new.events@, spent_event(new, cut));
    assert forall|i: int| 0 <= i < left.subscriptions@.len() implies !spent_subscription(left, cut)(
        #[trigger] left.subscriptions@[i],
    ) by {
        let s = left.subscriptions@[i];
        assert(new.subscriptions@.contains(s));
        lemma_without(mid.subscriptions@, spent_subscription(mid, cut), s);
        assert(rests_on(mid, s.id@) == rests_on(left, s.id@));
    }
    lemma_without_none(left.subscriptions@, spent_subscription(left, cut));
}

/// Neither clock alone can make a reap or a sweep remove more: the cutoff is at most the retention
/// before either of them.
pub proof fn cutoff_heeds_both_clocks(wall: i64, now: i64, retention: i64)
    ensures
        cutoff(wall, now, retention) <= wall - retention,
        cutoff(wall, now, retention) <= now - retention,
{
}

// ---- the write latch -------------------------------------------------------------------------

/// The store's guard against writing to a database that can no longer be written durably. Once it has
/// latched it refuses every write for as long as the daemon runs; reads are never refused.
#[derive(Debug)]
pub struct Store {
    degraded: bool,
}

/// How a write ends.
#[derive(Clone, Debug)]
pub enum WriteEnd {
    /// It was refused before it began.
    Refused,
    /// All of it is stored.
    Stored,
    /// None of it is stored, because of this error.
    Undone(DbError),
}

/// What a write waits for: that its transaction is begun, that its work is done in it, and that the
/// transaction is committed. A transaction that is not committed is rolled back.
#[derive(Clone, Debug)]
pub enum Write {
    Beginning,
    Working,
    Committing,
    Over(WriteEnd),
}

/// Where a write starts.
pub open spec fn first_write(latched: bool) -> Write {
    if latched {
        Write::Over(WriteEnd::Refused)
    } else {
        Write::Beginning
    }
}

/// Where the outcome of a step leads: an error ends the write at any step.
pub open spec fn next_write(w: Write, done: Result<(), DbError>) -> Write {
    match (w, done) {
        (Write::Over(end), _) => Write::Over(end),
        (_, Err(e)) => Write::Over(WriteEnd::Undone(e)),
        (Write::Beginning, Ok(_)) => Write::Working,
        (Write::Working, Ok(_)) => Write::Committing,
        (Write::Committing, Ok(_)) => Write::Over(WriteEnd::Stored),
    }
}

/// Whether the outcome of a step latches the store: a fatal error in a write that is not over.
pub open spec fn latches(w: Write, done: Result<(), DbError>) -> bool {
    !(w is Over) && (done matches Err(e) && is_fatal(e))
}

/// Whether the store has latched after a step of a write.
pub open spec fn latched_after_step(latched: bool, w: Write, done: Result<(), DbError>) -> bool {
    latched || latches(w, done)
}

/// Whether the store has latched after an error.
pub open spec fn latched_by(latched: bool, e: DbError) -> bool {
    latched || is_fatal(e)
}

/// The words with which a write is refused.
pub open spec fn refusal() -> Seq<char> {
    "store is in degraded read-only mode after a fatal DB error; money writes are refused — restore from backup and restart"@
}

impl Store {
    /// Whether writes are refused.
    pub closed spec fn latched(self) -> bool {
        self.degraded
    }

    /// A store that accepts writes.
    pub fn new() -> (r: Store)
        ensures
            !r.latched(),
    {
        Store { degraded: false }
    }

    /// Whether writes are refused.
    pub fn is_degraded(&self) -> (r: bool)
        ensures
            r == self.latched(),
    {
        self.degraded
    }

    /// Refuses a write, before it begins, once the store has latched.
    pub fn allow_write(&self) -> (r: Result<(), String>)
        ensures
            r is Err <==> self.latched(),
            r matches Err(m) ==> m@ == refusal(),
    {
        if self.degraded {
            Err(
                owned(
                    "store is in degraded read-only mode after a fatal DB error; money writes are refused — restore from backup and restart",
                ),
            )
        } else {
            Ok(())
        }
    }

    /// Latches.
    pub fn latch_degraded(&mut self)
        ensures
            final(self).latched(),
    {
        self.degraded = true;
    }

    /// Takes note of an error that a write met with, and latches if it is fatal. Says whether the
    /// error is.
    pub fn note_error(&mut self, e: &DbError) -> (r: bool)
        ensures
            r == is_fatal(*e),
            final(self).latched() == latched_by(old(self).latched(), *e),
    {
        let fatal = is_fatal_db_error(e);
        if fatal {
            self.latch_degraded();
        }
        fatal
    }

    /// Starts a write, unless writes are refused.
    pub fn begin_write(&self) -> (r: Write)
        ensures
            r == first_write(self.latched()),
    {
        if self.degraded {
            Write::Over(WriteEnd::Refused)
        } else {
            Write::Beginning
        }
    }

    /// Takes a write on with what came of its last step, and latches if that was a fatal error.
    pub fn write_step(&mut self, w: Write, done: Result<(), DbError>) -> (r: Write)
        ensures
            r == next_write(w, done),
            final(self).latched() == latched_after_step(old(self).latched(), w, done),
    {
        match (w, done) {
            (Write::Over(end), _) => Write::Over(end),
            (_, Err(e)) => {
                let _ = self.note_error(&e);
                Write::Over(WriteEnd::Undone(e))
            },
            (Write::Beginning, Ok(())) => Write::Working,
            (Write::Working, Ok(())) => Write::Committing,
            (Write::Committing, Ok(())) => Write::Over(WriteEnd::Stored),
        }
    }

    /// The liabilities (see [`load_refund_readiness_liabilities`]); a latched store reads on.
    pub fn refund_readiness_liabilities(&self, t: &Tables) -> (r: Result<
        Vec<RefundReadinessLiability>,
        LiabilityError,
    >)
        ensures
            match r {
                Ok(ls) => {
                    &&& liability_fault(*t) is None
                    &&& is_liability_list(*t, views(ls@))
                },
                Err(e) => liability_fault(*t) == Some(e),
            },
    {
        load_refund_readiness_liabilities(t)
    }

    /// Sweeps the idempotency caches (see [`prune_caches`]), unless writes are refused.
    pub fn prune_idempotency_caches(&self, t: &mut Tables, wall: i64, now: i64) -> (r: Result<
        IdempotencyPruneReport,
        String,
    >)
        ensures
            r is Err <==> self.latched(),
            r matches Err(m) ==> m@ == refusal() && *final(t) == *old(t),
            r matches Ok(n) ==> caches_pruned(
                *old(t),
                *final(t),
                cutoff(wall, now, IDEMPOTENCY_CACHE_RETENTION_SECS),
                n,
            ),
    {
        match self.allow_write() {
            Err(m) => Err(m),
            Ok(()) => Ok(prune_caches(t, wall, now)),
        }
    }

    /// Reaps terminal rows (see [`reap_rows`]), unless writes are refused.
    pub fn reap_terminal_rows(&self, t: &mut Tables, wall: i64, now: i64) -> (r: Result<
        ReapCounts,
        String,
    >)
        ensures
            r is Err <==> self.latched(),
            r matches Err(m) ==> m@ == refusal() && *final(t) == *old(t),
            r matches Ok(n) ==> reap_counted(
                *old(t),
                *final(t),
                cutoff(wall, now, TERMINAL_ROW_RETENTION_SECS),
                n,
            ),
    {
        match self.allow_write() {
            Err(m) => Err(m),
            Ok(()) => Ok(reap_rows(t, wall, now)),
        }
    }
}

/// What the three steps of a write come to, should they be taken.
pub struct WriteSteps {
    pub begun: Result<(), DbError>,
    pub worked: Result<(), DbError>,
    pub committed: Result<(), DbError>,
}

/// How a write with these steps ends.
pub open spec fn write_end(latched: bool, s: WriteSteps) -> Write {
    next_write(
        next_write(next_write(first_write(latched), s.begun), s.worked),
        s.committed,
    )
}

/// Whether the store has latched after a write.
pub open spec fn latched_after_write(latched: bool, s: WriteSteps) -> bool {
    let w0 = first_write(latched);
    let w1 = next_write(w0, s.begun);
    let w2 = next_write(w1, s.worked);
    latched_after_step(
        latched_after_step(latched_after_step(latched, w0, s.begun), w1, s.worked),
        w2,
        s.committed,
    )
}

/// Whether the store has latched after a sequence of writes.
pub open spec fn latched_after_writes(latched: bool, writes: Seq<WriteSteps>) -> bool
    decreases writes.len(),
{
    if writes.len() == 0 {
        latched
    } else {
        latched_after_write(latched_after_writes(latched, writes.drop_last()), writes.last())
    }
}

/// A write is stored exactly where the store had not latched and all of its steps succeed; it latches
/// the store exactly where it is undone by a fatal error.
pub proof fn write_is_stored_whole_or_not_at_all(latched: bool, s: WriteSteps)
    ensures
        write_end(latched, s) is Over,
        write_end(latched, s) == Write::Over(WriteEnd::Stored) <==> !latched && s.begun is Ok
            && s.worked is Ok && s.committed is Ok,
        write_end(latched, s) == Write::Over(WriteEnd::Refused) <==> latched,
        latched_after_write(latched, s) <==> latched || (write_end(latched, s) matches Write::Over(
            WriteEnd::Undone(e),
        ) && is_fatal(e)),
{
}

/// After a write that was undone by a fatal error every later one is refused.
pub proof fn no_write_after_a_fatal_one(latched: bool, writes: Seq<WriteSteps>, i: int, j: int)
    requires
        0 <= i < j < writes.len(),
        write_end(latched_after_writes(latched, writes.take(i)), writes[i]) matches Write::Over(
            WriteEnd::Undone(e),
        ) && is_fatal(e),
    ensures
        latched_after_writes(latched, writes.take(j)),
        write_end(latched_after_writes(latched, writes.take(j)), writes[j]) == Write::Over(
            WriteEnd::Refused,
        ),
    decreases j,
{
    assert(writes.take(j).drop_last() =~= writes.take(j - 1));
    if i + 1 < j {
        no_write_after_a_fatal_one(latched, writes, i, j - 1);
    } else {
        write_is_stored_whole_or_not_at_all(
            latched_after_writes(latched, writes.take(i)),
            writes[i],
        );
    }
}

/// A store whose errors so far are `errors`.
pub open spec fn any_fatal(errors: Seq<DbError>) -> bool {
    any(errors, |e: DbError| is_fatal(e))
}

/// Whether a store has latched after an error, given whether it had before.
pub open spec fn latched_after(before: bool, errors: Seq<DbError>) -> bool
    decreases errors.len(),
{
    if errors.len() == 0 {
        before
    } else {
        latched_by(latched_after(before, errors.drop_last()), errors.last())
    }
}

/// A store latches on the first fatal error and stays latched; ordinary errors, however many, leave
/// it as it is.
pub proof fn latch_holds(errors: Seq<DbError>)
    ensures
        latched_after(false, errors) == any_fatal(errors),
        latched_after(true, errors),
    decreases errors.len(),
{
    if errors.len() > 0 {
        let init = errors.drop_last();
        latch_holds(init);
        if any_fatal(init) {
            let k = choose|k: int| 0 <= k < init.len() && is_fatal(#[trigger] init[k]);
            assert(is_fatal(errors[k]));
        }
        if any_fatal(errors) && !is_fatal(errors.last()) {
            let k = choose|k: int| 0 <= k < errors.len() && is_fatal(#[trigger] errors[k]);
            assert(is_fatal(init[k]));
        }
        if is_fatal(errors.last()) {
            assert(is_fatal(errors[errors.len() - 1]));
        }
    }
}

/// Pruning, answer by answer, with the wall clock at `wall` and the daemon's own at `now`: an operation
/// that is done or failed goes once it ended more than 120 days before both clocks, one that runs stays;
/// a request goes once it came more than 120 days before both. Nothing else goes, and nothing is added.
pub proof fn pruned_answers_one_by_one(
    old: Tables,
    new: Tables,
    wall: i64,
    now: i64,
    n: IdempotencyPruneReport,
    o: OpInvocation,
    r: InboundRequest,
)
    requires
        caches_pruned(old, new, cutoff(wall, now, IDEMPOTENCY_CACHE_RETENTION_SECS), n),
    ensures
        ({
            let long_ago = |at: Option<i64>|
                at matches Some(x) && x + 120 * 86400 < wall && x + 120 * 86400 < now;
            &&& new.op_invocations@.contains(o) <==> old.op_invocations@.contains(o) && !(o.state
                != OpState::Running && long_ago(o.finished_at))
            &&& new.inbound_requests@.contains(r) <==> old.inbound_requests@.contains(r)
                && !long_ago(r.created_at)
        }),
        new.op_invocations@.len() == old.op_invocations@.len() - n.op_invocation,
        new.inbound_requests@.len() == old.inbound_requests@.len() - n.inbound_request,
        new.subscriptions == old.subscriptions,
        new.invoices == old.invoices,
        new.events == old.events,
        new.reservations == old.reservations,
        new.refunds == old.refunds,
        new.outbox == old.outbox,
        new.instances == old.instances,
{
    let cut = cutoff(wall, now, IDEMPOTENCY_CACHE_RETENTION_SECS);
    lemma_without(old.op_invocations@, stale_op(cut), o);
    lemma_without(old.inbound_requests@, stale_request(cut), r);
    lemma_filter_splits(old.op_invocations@, stale_op(cut));
    lemma_filter_splits(old.inbound_requests@, stale_request(cut));
}

/// Whether a time is there and lies more than thirty days before both clocks.
pub open spec fn month_ago(at: Option<i64>, wall: i64, now: i64) -> bool {
    at matches Some(x) && x + 30 * 86400 < wall && x + 30 * 86400 < now
}

/// Whether there is a subscription with this id that still stands for its rows: it is neither expired,
/// terminated nor refunded, or it was touched within the thirty days.
pub open spec fn owner_stands(subs: Seq<Subscription>, id: Seq<char>, wall: i64, now: i64) -> bool {
    exists|k: int|
        {
            &&& 0 <= k < subs.len()
            &&& (#[trigger] subs[k]).id@ == id
            &&& {
                ||| subs[k].state != SubState::Expired && subs[k].state != SubState::Terminated
                    && subs[k].state != SubState::Refunded && subs[k].state != SubState::Null
                ||| subs[k].updated_at is Some && !month_ago(subs[k].updated_at, wall, now)
            }
        }
}

proof fn lemma_owner_stands(subs: Seq<Subscription>, id: Seq<char>, wall: i64, now: i64)
    ensures
        owner_keeps(subs, id, cutoff(wall, now, TERMINAL_ROW_RETENTION_SECS)) == owner_stands(
            subs,
            id,
            wall,
            now,
        ),
{
    let cut = cutoff(wall, now, TERMINAL_ROW_RETENTION_SECS);
    let p = |s: Subscription| s.id@ == id && keeps_rows(s, cut);
    if any(subs, p) {
        let k = choose|k: int| 0 <= k < subs.len() && p(#[trigger] subs[k]);
        assert(subs[k].id@ == id);
    }
    if owner_stands(subs, id, wall, now) {
        let k = choose|k: int|
            {
                &&& 0 <= k < subs.len()
                &&& (#[trigger] subs[k]).id@ == id
                &&& {
                    ||| subs[k].state != SubState::Expired && subs[k].state != SubState::Terminated
                        && subs[k].state != SubState::Refunded && subs[k].state != SubState::Null
                    ||| subs[k].updated_at is Some && !month_ago(subs[k].updated_at, wall, now)
                }
            };
        assert(p(subs[k]));
    }
}

/// Reaping, row by row. An instance goes where it was touched more than thirty days before both clocks
/// and its subscription does not stand; a reservation where it is released, was made that long ago and
/// its order's subscription does not stand. Neither goes otherwise.
pub proof fn reaped_instances_and_reservations_one_by_one(
    old: Tables,
    new: Tables,
    wall: i64,
    now: i64,
    n: Instance,
    r: Reservation,
)
    requires
        reaped(old, new, cutoff(wall, now, TERMINAL_ROW_RETENTION_SECS)),
    ensures
        new.instances@.contains(n) <==> old.instances@.contains(n) && !(month_ago(
            n.updated_at,
            wall,
            now,
        ) && !(n.subscription_id matches Some(s) && owner_stands(
            old.subscriptions@,
            s@,
            wall,
            now,
        ))),
        new.reservations@.contains(r) <==> old.reservations@.contains(r) && !(r.state
            == HoldState::Released && month_ago(r.created_at, wall, now) && !owner_stands(
            old.subscriptions@,
            r.order_id@,
            wall,
            now,
        )),
{
    let cut = cutoff(wall, now, TERMINAL_ROW_RETENTION_SECS);
    lemma_without(old.instances@, spent_instance(old, cut), n);
    lemma_without(old.reservations@, spent_reservation(old, cut), r);
    if let Some(s) = n.subscription_id {
        lemma_owner_stands(old.subscriptions@, s@, wall, now);
    }
    lemma_owner_stands(old.subscriptions@, r.order_id@, wall, now);
}

/// Reaping, row by row. An invoice goes where it expired and never settled, its expiry, or its issue
/// where it has none, lies more than thirty days before both clocks, and no refund of its external id is
/// unsent. No other invoice goes.
pub proof fn reaped_invoices_one_by_one(
    old: Tables,
    new: Tables,
    wall: i64,
    now: i64,
    i: Invoice,
)
    requires
        reaped(old, new, cutoff(wall, now, TERMINAL_ROW_RETENTION_SECS)),
    ensures
        ({
            let owed = exists|k: int|
                0 <= k < old.refunds@.len() && (#[trigger] old.refunds@[k]).status
                    != RefundStatus::Sent && ledger_ext(old.refunds@[k]) == Some(i.external_id@);
            let ended = if i.expires_at is Some {
                i.expires_at
            } else {
                i.issued_at
            };
            new.invoices@.contains(i) <==> old.invoices@.contains(i) && !(i.status
                == InvoiceStatus::Expired && i.settled_at is None && month_ago(ended, wall, now)
                && !owed)
        }),
{
    let cut = cutoff(wall, now, TERMINAL_ROW_RETENTION_SECS);
    lemma_without(old.invoices@, spent_invoice(old, cut), i);
    let p = |a: RefundAttempt|
        a.status != RefundStatus::Sent && ledger_ext(a) == Some(i.external_id@);
    if any(old.refunds@, p) {
        let k = choose|k: int| 0 <= k < old.refunds@.len() && p(#[trigger] old.refunds@[k]);
        assert(old.refunds@[k].status != RefundStatus::Sent);
    }
    assert forall|k: int|
        0 <= k < old.refunds@.len() && (#[trigger] old.refunds@[k]).status != RefundStatus::Sent
            && ledger_ext(old.refunds@[k]) == Some(i.external_id@) implies any(old.refunds@, p) by {
        assert(p(old.refunds@[k]));
    }
}

/// Reaping, row by row. An event goes where it was made more than thirty days before both clocks, unless
/// it journals a payment that has to go back, asks for a cleanup that nothing says was done, of a
/// subscription that is there, or is the renewal of a subscription that waits to be resumed and that
/// nothing resolved since. No other event goes.
pub proof fn reaped_events_one_by_one(old: Tables, new: Tables, wall: i64, now: i64, e: Event)
    requires
        reaped(old, new, cutoff(wall, now, TERMINAL_ROW_RETENTION_SECS)),
    ensures
        ({
            let of_sub = |s: Option<String>|
                s is Some && e.subscription_id is Some && s->0@ == e.subscription_id->0@;
            let goes_back = e.kind == EventKind::SettleUnmatchedRefund || e.kind
                == EventKind::SettleTerminalRefund || e.kind == EventKind::SettleOrphanRefund || e.kind
                == EventKind::SettleExpiredRefund;
            let cleaned = exists|k: int|
                {
                    &&& 0 <= k < old.events@.len()
                    &&& of_sub((#[trigger] old.events@[k]).subscription_id)
                    &&& old.events@[k].kind == EventKind::ProvisionCleanupDone
                    &&& old.events@[k].detail == (EventDetail::CleanupDone { pending_event_id: e.id })
                };
            let resolved = exists|k: int|
                {
                    &&& 0 <= k < old.events@.len()
                    &&& of_sub((#[trigger] old.events@[k]).subscription_id)
                    &&& old.events@[k].kind == EventKind::ResumeActive || old.events@[k].kind
                        == EventKind::ResumeFailed
                    &&& old.events@[k].id > e.id
                };
            let there = exists|k: int|
                0 <= k < old.subscriptions@.len() && of_sub(
                    Some((#[trigger] old.subscriptions@[k]).id),
                );
            let waits = exists|k: int|
                0 <= k < old.subscriptions@.len() && of_sub(
                    Some((#[trigger] old.subscriptions@[k]).id),
                ) && old.subscriptions@[k].state == SubState::Resuming;
            let kept = {
                ||| e.kind == EventKind::Null
                ||| goes_back
                ||| e.kind == EventKind::ProvisionCleanupPending && there && !cleaned
                ||| e.kind == EventKind::RenewResume && waits && !resolved
            };
            new.events@.contains(e) <==> old.events@.contains(e) && !(month_ago(e.at, wall, now)
                && !kept)
        }),
{
    let cut = cutoff(wall, now, TERMINAL_ROW_RETENTION_SECS);
    lemma_without(old.events@, spent_event(old, cut), e);
    let of_sub = |s: Option<String>|
        s is Some && e.subscription_id is Some && s->0@ == e.subscription_id->0@;
    let done = |d: Event|
        same_text(e.subscription_id, d.subscription_id) && d.kind == EventKind::ProvisionCleanupDone
            && (d.detail matches EventDetail::CleanupDone { pending_event_id } && pending_event_id
            == e.id);
    let over = |r: Event|
        same_text(e.subscription_id, r.subscription_id) && (r.kind == EventKind::ResumeActive
            || r.kind == EventKind::ResumeFailed) && r.id > e.id;
    let owner = |s: Subscription| is_text(e.subscription_id, s.id@);
    let waiting = |s: Subscription|
        is_text(e.subscription_id, s.id@) && s.state == SubState::Resuming;
    if any(old.events@, done) {
        let k = choose|k: int| 0 <= k < old.events@.len() && done(#[trigger] old.events@[k]);
        assert(of_sub(old.events@[k].subscription_id));
    }
    assert forall|k: int|
        0 <= k < old.events@.len() && of_sub((#[trigger] old.events@[k]).subscription_id)
            && old.events@[k].kind == EventKind::ProvisionCleanupDone && old.events@[k].detail == (
        EventDetail::CleanupDone { pending_event_id: e.id }) implies any(old.events@, done) by {
        assert(done(old.events@[k]));
    }
    if any(old.events@, over) {
        let k = choose|k: int| 0 <= k < old.events@.len() && over(#[trigger] old.events@[k]);
        assert(of_sub(old.events@[k].subscription_id));
    }
    assert forall|k: int|
        0 <= k < old.events@.len() && of_sub((#[trigger] old.events@[k]).subscription_id) && (
        old.events@[k].kind == EventKind::ResumeActive || old.events@[k].kind
            == EventKind::ResumeFailed) && old.events@[k].id > e.id implies any(
        old.events@,
        over,
    ) by {
        assert(over(old.events@[k]));
    }
    if any(old.subscriptions@, owner) {
        let k = choose|k: int| 0 <= k < old.subscriptions@.len() && owner(#[trigger] old.subscriptions@[k]);
        assert(of_sub(Some(old.subscriptions@[k].id)));
    }
    assert forall|k: int|
        0 <= k < old.subscriptions@.len() && of_sub(Some((#[trigger] old.subscriptions@[k]).id)) implies any(
        old.subscriptions@,
        owner,
    ) by {
        assert(owner(old.subscriptions@[k]));
    }
    if any(old.subscriptions@, waiting) {
        let k = choose|k: int|
            0 <= k < old.subscriptions@.len() && waiting(#[trigger] old.subscriptions@[k]);
        assert(of_sub(Some(old.subscriptions@[k].id)));
    }
    assert forall|k: int|
        0 <= k < old.subscriptions@.len() && of_sub(Some((#[trigger] old.subscriptions@[k]).id))
            && old.subscriptions@[k].state == SubState::Resuming implies any(
        old.subscriptions@,
        waiting,
    ) by {
        assert(waiting(old.subscriptions@[k]));
    }
}

/// Reaping, row by row. A subscription goes where it is expired, terminated or refunded, was touched more
/// than thirty days before both clocks, and nothing that is left rests on it: no invoice, event,
/// instance or reservation, no refund that was not sent, no teardown that is not resolved, no message
/// that waits and no ticket that is active. No other subscription goes.
pub proof fn reaped_subscriptions_one_by_one(
    old: Tables,
    new: Tables,
    wall: i64,
    now: i64,
    s: Subscription,
)
    requires
        reaped(old, new, cutoff(wall, now, TERMINAL_ROW_RETENTION_SECS)),
    ensures
        ({
            let of_s = |x: Option<String>| x is Some && x->0@ == s.id@;
            let rests = {
                ||| exists|k: int|
                    0 <= k < new.invoices@.len() && of_s(
                        (#[trigger] new.invoices@[k]).subscription_id,
                    )
                ||| exists|k: int|
                    0 <= k < new.events@.len() && of_s((#[trigger] new.events@[k]).subscription_id)
                ||| exists|k: int|
                    0 <= k < new.instances@.len() && of_s(
                        (#[trigger] new.instances@[k]).subscription_id,
                    )
                ||| exists|k: int|
                    0 <= k < new.reservations@.len() && (#[trigger] new.reservations@[k]).order_id@
                        == s.id@
                ||| exists|k: int|
                    0 <= k < new.refunds@.len() && of_s((#[trigger] new.refunds@[k]).subscription_id)
                        && new.refunds@[k].status != RefundStatus::Sent
                ||| exists|k: int|
                    0 <= k < new.teardown_failures@.len() && (
                    #[trigger] new.teardown_failures@[k]).subscription_id@ == s.id@
                        && new.teardown_failures@[k].resolved_at is None
                ||| exists|k: int|
                    0 <= k < new.outbox@.len() && of_s((#[trigger] new.outbox@[k]).subscription_id)
                        && new.outbox@[k].state == OutboxState::Pending
                ||| exists|k: int|
                    0 <= k < new.connect_sessions@.len() && of_s(
                        (#[trigger] new.connect_sessions@[k]).subscription_id,
                    ) && new.connect_sessions@[k].active
            };
            let ended = s.state == SubState::Expired || s.state == SubState::Terminated || s.state
                == SubState::Refunded;
            new.subscriptions@.contains(s) <==> old.subscriptions@.contains(s) && !(ended
                && month_ago(s.updated_at, wall, now) && !rests)
        }),
        new.refunds == old.refunds,
        new.outbox == old.outbox,
        new.teardown_failures == old.teardown_failures,
        new.connect_sessions == old.connect_sessions,
{
    let cut = cutoff(wall, now, TERMINAL_ROW_RETENTION_SECS);
    let id = s.id@;
    let mid = choose|mid: Tables|
        {
            &&& #[trigger] children_reaped(old, mid, cut)
            &&& new.subscriptions@ == without(mid.subscriptions@, spent_subscription(mid, cut))
            &&& new == (Tables { subscriptions: new.subscriptions, ..mid })
        };
    lemma_without(mid.subscriptions@, spent_subscription(mid, cut), s);
    lemma_any_is_some(mid.invoices@, |i: Invoice| is_text(i.subscription_id, id));
    lemma_any_is_some(mid.events@, |e: Event| is_text(e.subscription_id, id));
    lemma_any_is_some(mid.instances@, |n: Instance| is_text(n.subscription_id, id));
    lemma_any_is_some(mid.reservations@, |r: Reservation| r.order_id@ == id);
    lemma_any_is_some(
        mid.refunds@,
        |a: RefundAttempt| is_text(a.subscription_id, id) && a.status != RefundStatus::Sent,
    );
    lemma_any_is_some(
        mid.teardown_failures@,
        |f: TeardownFailure| f.subscription_id@ == id && f.resolved_at is None,
    );
    lemma_any_is_some(
        mid.outbox@,
        |o: OutboxRow| is_text(o.subscription_id, id) && o.state == OutboxState::Pending,
    );
    lemma_any_is_some(
        mid.connect_sessions@,
        |c: ConnectSession| is_text(c.subscription_id, id) && c.active,
    );
}

proof fn lemma_any_is_some<A>(s: Seq<A>, p: spec_fn(A) -> bool)
    ensures
        any(s, p) <==> exists|k: int| #![trigger s[k]] 0 <= k < s.len() && p(s[k]),
{
}

/// The external id of a row of the refund ledger: what stands behind `refund:` in its key, in either
/// case; where its key does not begin so, what stands behind `ref-` in its id, or its whole id.
pub proof fn ledger_id_comes_from_the_key(a: RefundAttempt, head: Seq<char>, rest: Seq<char>)
    ensures
        lowered(head) == "refund:"@ && a.idempotency_key@ == head + rest ==> ledger_ext(a) == Some(
            rest,
        ),
        !has_prefix_ignoring_case(a.idempotency_key@, "refund:"@) && lowered(head) == "ref-"@ ==> (
        a.id matches Some(id) ==> (id@ == head + rest ==> ledger_ext(a) == Some(rest))),
        !has_prefix_ignoring_case(a.idempotency_key@, "refund:"@) ==> (a.id matches Some(id) ==> (
        !has_prefix_ignoring_case(id@, "ref-"@) ==> ledger_ext(a) == Some(id@))),
        !has_prefix_ignoring_case(a.idempotency_key@, "refund:"@) && a.id is None ==> ledger_ext(a)
            is None,
{
    reveal_strlit("refund:");
    reveal_strlit("ref-");
    assert(lowered("refund:"@) =~= "refund:"@);
    assert(lowered("ref-"@) =~= "ref-"@);
    let n = head.len() as int;
    let whole = head + rest;
    assert(lowered(head).len() == n);
    assert(lowered(whole).take(n) =~= lowered(head));
    assert(whole.skip(n) =~= rest);
}

/// What was journaled for an external id is the largest amount of its receipts, with `open_only` of
/// those whose subscription is neither active nor refunded; there is none exactly where none of them
/// states an amount.
pub proof fn journaled_is_the_largest(t: Tables, events: Seq<Event>, ext: Seq<char>, open_only: bool)
    ensures
        ({
            let counts = |e: Event|
                {
                    &&& e.kind == EventKind::SettleUnmatchedRefund || e.kind
                        == EventKind::SettleTerminalRefund || e.kind
                        == EventKind::SettleOrphanRefund || e.kind == EventKind::SettleExpiredRefund
                    &&& e.detail matches EventDetail::Settlement {
                        receipt: Some(x),
                        amount_sat: Some(_),
                        ..
                    }
                    &&& x@ == ext
                    &&& open_only ==> state_of(t.subscriptions@, e.subscription_id) != Some(
                        SubState::Active,
                    ) && state_of(t.subscriptions@, e.subscription_id) != Some(SubState::Refunded)
                };
            match journaled(t, events, ext, open_only) {
                Some(n) => {
                    &&& exists|i: int|
                        0 <= i < events.len() && counts(#[trigger] events[i])
                            && events[i].detail->Settlement_amount_sat == Some(n)
                    &&& forall|i: int|
                        0 <= i < events.len() && counts(#[trigger] events[i])
                            ==> events[i].detail->Settlement_amount_sat->0 <= n
                },
                None => forall|i: int| 0 <= i < events.len() ==> !counts(#[trigger] events[i]),
            }
        }),
    decreases events.len(),
{
    let counts = |e: Event|
        {
            &&& e.kind == EventKind::SettleUnmatchedRefund || e.kind
                == EventKind::SettleTerminalRefund || e.kind == EventKind::SettleOrphanRefund
                || e.kind == EventKind::SettleExpiredRefund
            &&& e.detail matches EventDetail::Settlement {
                receipt: Some(x),
                amount_sat: Some(_),
                ..
            }
            &&& x@ == ext
            &&& open_only ==> state_of(t.subscriptions@, e.subscription_id) != Some(
                SubState::Active,
            ) && state_of(t.subscriptions@, e.subscription_id) != Some(SubState::Refunded)
        };
    if events.len() > 0 {
        let init = events.drop_last();
        journaled_is_the_largest(t, init, ext, open_only);
        let e = events.last();
        assert(events[events.len() - 1] == e);
        assert(counts(e) == (counts_as_receipt(t, e, ext, open_only) && receipt_amount(e) is Some));
        assert forall|i: int| 0 <= i < init.len() implies #[trigger] events[i] == init[i] by {}
        if let Some(n) = journaled(t, init, ext, open_only) {
            let i = choose|i: int|
                0 <= i < init.len() && counts(#[trigger] init[i])
                    && init[i].detail->Settlement_amount_sat == Some(n);
            assert(counts(events[i]));
        }
    }
}

/// The gross of a refund is that of the first invoice of its external id that is paid or settled, and,
/// where that has none or there is no such invoice, the largest that was journaled; it counts only where
/// it is positive.
pub proof fn refund_gross_is_what_was_received(t: Tables, a: RefundAttempt, ext: Seq<char>, n: int)
    requires
        ledger_ext(a) == Some(ext),
        0 <= n <= t.invoices@.len(),
        forall|k: int|
            0 <= k < n ==> (#[trigger] t.invoices@[k]).external_id@ != ext || (t.invoices@[k].status
                != InvoiceStatus::Paid && t.invoices@[k].settled_at is None),
        n < t.invoices@.len() ==> t.invoices@[n].external_id@ == ext && (t.invoices@[n].status
            == InvoiceStatus::Paid || t.invoices@[n].settled_at is Some),
    ensures
        ({
            let most = journaled(t, t.events@, ext, false);
            let got = if n < t.invoices@.len() && t.invoices@[n].amount_sat is Some {
                t.invoices@[n].amount_sat
            } else {
                most
            };
            &&& refund_gross(t, a) is Some <==> got is Some && got->0 > 0
            &&& refund_gross(t, a) matches Some(g) ==> g == got->0
        }),
{
    let p = paid_invoice_of(ext);
    lemma_first_where_at(t.invoices@, p, n);
}

/// Which rows are owed. A refund of the ledger is, unless it was sent, where something was received for
/// it. An invoice of an order is, where it is paid or settled, its subscription is still pending, being
/// provisioned or waiting for a refund, its amount is positive and its external id is not in the ledger.
/// Any settled invoice but a renewal's is, where it was never applied, its subscription is neither
/// active nor refunded, its amount is positive and its external id is not in the ledger.
pub proof fn what_is_owed(t: Tables, a: RefundAttempt, i: Invoice)
    ensures
        owed_refund(t)(a) <==> a.status != RefundStatus::Sent && refund_gross(t, a) is Some,
        ({
            let state = state_of(t.subscriptions@, i.subscription_id);
            let booked = exists|k: int|
                0 <= k < t.refunds@.len() && ledger_ext(#[trigger] t.refunds@[k]) == Some(
                    i.external_id@,
                );
            let paid = i.amount_sat is Some && i.amount_sat->0 > 0;
            &&& undelivered_order(t)(i) <==> {
                &&& i.kind == InvoiceKind::Order
                &&& i.status == InvoiceStatus::Paid || i.settled_at is Some
                &&& state == Some(SubState::Pending) || state == Some(SubState::Provisioning)
                    || state == Some(SubState::RefundDue)
                &&& paid
                &&& !booked
            }
            &&& unapplied_settlement(t)(i) <==> {
                &&& i.kind == InvoiceKind::Order || i.kind == InvoiceKind::Other
                &&& i.settled_at is Some
                &&& i.applied_at is None
                &&& state != Some(SubState::Active) && state != Some(SubState::Refunded)
                &&& paid
                &&& !booked
            }
        }),
{
    let p = |x: RefundAttempt| ledger_ext(x) == Some(i.external_id@);
    if any(t.refunds@, p) {
        let k = choose|k: int| 0 <= k < t.refunds@.len() && p(#[trigger] t.refunds@[k]);
        assert(ledger_ext(t.refunds@[k]) == Some(i.external_id@));
    }
    assert forall|k: int|
        0 <= k < t.refunds@.len() && ledger_ext(#[trigger] t.refunds@[k]) == Some(
            i.external_id@,
        ) implies any(t.refunds@, p) by {
        assert(p(t.refunds@[k]));
    }
}

/// The state of the subscription with an id is that of the first one that has it.
pub proof fn state_is_that_of_the_subscription(subs: Seq<Subscription>, id: String, n: int)
    requires
        0 <= n <= subs.len(),
        forall|k: int| 0 <= k < n ==> (#[trigger] subs[k]).id@ != id@,
        n < subs.len() ==> subs[n].id@ == id@,
    ensures
        n < subs.len() ==> state_of(subs, Some(id)) == Some(subs[n].state),
        n == subs.len() ==> state_of(subs, Some(id)) is None,
        state_of(subs, None) is None,
{
    lemma_first_where_at(subs, sub_id(id@), n);
}

/// A row that is left by a filter was there before it, and satisfies the filter's condition.
pub proof fn lemma_filtered_was_there<A>(s: Seq<A>, p: spec_fn(A) -> bool, k: int)
    requires
        0 <= k < s.filter(p).len(),
    ensures
        exists|i: int| 0 <= i < s.len() && #[trigger] s[i] == s.filter(p)[k] && p(s[i]),
    decreases s.len(),
{
    reveal(Seq::filter);
    let init = s.drop_last();
    if k < init.filter(p).len() {
        lemma_filtered_was_there(init, p, k);
        let i = choose|i: int|
            0 <= i < init.len() && #[trigger] init[i] == init.filter(p)[k] && p(init[i]);
        assert(s[i] == init[i]);
    } else {
        assert(s[s.len() - 1] == s.last());
    }
}

/// Every liability in the list comes from a row: a refund from one that is owed, with its gross, its
/// word, its key and what it was resolved to; an order from an invoice that is owed, with its amount; a
/// settlement from an invoice that is owed, with its amount, or from what was journaled for an external
/// id that is not in the ledger.
pub proof fn every_liability_comes_from_a_row(t: Tables, ls: Seq<LiabilityView>, k: int)
    requires
        is_liability_list(t, ls),
        0 <= k < ls.len(),
    ensures
        match ls[k].source {
            SourceView::RefundAttempt(v) => exists|i: int|
                {
                    &&& 0 <= i < t.refunds@.len()
                    &&& owed_refund(t)(#[trigger] t.refunds@[i])
                    &&& ledger_ext(t.refunds@[i]) == Some(ls[k].external_id)
                    &&& refund_gross(t, t.refunds@[i]) == Some(ls[k].gross_sat)
                    &&& t.refunds@[i].status is Pending ==> v.status == "PENDING"@
                    &&& t.refunds@[i].status is Failed ==> v.status == "FAILED"@
                    &&& t.refunds@[i].status matches RefundStatus::Other(word) ==> v.status == word@
                    &&& v.idempotency_key == t.refunds@[i].idempotency_key@
                    &&& v.dest == opt_view(t.refunds@[i].dest)
                    &&& v.resolved_bolt11 == opt_view(t.refunds@[i].resolved_bolt11)
                    &&& v.resolved_expiry == t.refunds@[i].resolved_expiry
                    &&& v.resolution_gen == t.refunds@[i].resolution_gen
                },
            SourceView::PaidUndeliveredOrder => exists|i: int|
                {
                    &&& 0 <= i < t.invoices@.len()
                    &&& undelivered_order(t)(#[trigger] t.invoices@[i])
                    &&& t.invoices@[i].external_id@ == ls[k].external_id
                    &&& t.invoices@[i].amount_sat is Some
                    &&& t.invoices@[i].amount_sat->0 == ls[k].gross_sat
                },
            SourceView::UnreconciledSettlement => {
                ||| exists|i: int|
                    {
                        &&& 0 <= i < t.invoices@.len()
                        &&& unapplied_settlement(t)(#[trigger] t.invoices@[i])
                        &&& t.invoices@[i].external_id@ == ls[k].external_id
                        &&& t.invoices@[i].amount_sat is Some
                        &&& t.invoices@[i].amount_sat->0 == ls[k].gross_sat
                    }
                ||| {
                    &&& journaled(t, t.events@, ls[k].external_id, true) is Some
                    &&& journaled(t, t.events@, ls[k].external_id, true)->0 == ls[k].gross_sat
                    &&& !in_ledger(t.refunds@, ls[k].external_id)
                }
            },
        },
{
    let (a, b, c, d) = choose|a: Seq<usize>, b: Seq<usize>, c: Seq<usize>, d: Seq<Seq<char>>|
        {
            &&& is_order(refund_keys(t.refunds@.filter(owed_refund(t))), a)
            &&& is_order(issued_keys(t.invoices@.filter(undelivered_order(t))), b)
            &&& is_order(settled_keys(t.invoices@.filter(unapplied_settlement(t))), c)
            &&& lists_receipts(t, d)
            &&& ls == #[trigger] all_liabilities(t, a, b, c, d)
        };
    let l1 = from_refunds(t, a);
    let l2 = from_orders(t, b);
    let l3 = from_settlements(t, c);
    let l4 = from_receipts(t, d);
    let s1 = listed_with(Seq::empty(), l1);
    let s2 = listed_with(s1, l2);
    let s3 = listed_with(s2, l3);
    lemma_listed_with(Seq::empty(), l1);
    lemma_listed_with(s1, l2);
    lemma_listed_with(s2, l3);
    lemma_listed_with(s3, l4);
    let refunds = t.refunds@.filter(owed_refund(t));
    let orders = t.invoices@.filter(undelivered_order(t));
    let settlements = t.invoices@.filter(unapplied_settlement(t));
    broadcast use vstd::seq_lib::group_filter_ensures;

    if k < s1.len() {
        assert(ls[k] == s3[k] && s3[k] == s2[k] && s2[k] == s1[k]);
        assert(l1.contains(s1[k]));
        let m = choose|m: int| 0 <= m < l1.len() && l1[m] == s1[k];
        assert(a[m] < refund_keys(refunds).len());
        let row = refunds[a[m] as int];
        lemma_filtered_was_there(t.refunds@, owed_refund(t), a[m] as int);
        let i = choose|i: int|
            0 <= i < t.refunds@.len() && #[trigger] t.refunds@[i] == row && owed_refund(t)(
                t.refunds@[i],
            );
        assert(owed_refund(t)(t.refunds@[i]));
    } else if k < s2.len() {
        assert(ls[k] == s3[k] && s3[k] == s2[k]);
        assert(l2.contains(s2[k]));
        let m = choose|m: int| 0 <= m < l2.len() && l2[m] == s2[k];
        assert(b[m] < issued_keys(orders).len());
        let row = orders[b[m] as int];
        lemma_filtered_was_there(t.invoices@, undelivered_order(t), b[m] as int);
        let i = choose|i: int|
            0 <= i < t.invoices@.len() && #[trigger] t.invoices@[i] == row && undelivered_order(t)(
                t.invoices@[i],
            );
        assert(undelivered_order(t)(t.invoices@[i]));
    } else if k < s3.len() {
        assert(ls[k] == s3[k]);
        assert(l3.contains(s3[k]));
        let m = choose|m: int| 0 <= m < l3.len() && l3[m] == s3[k];
        assert(c[m] < settled_keys(settlements).len());
        let row = settlements[c[m] as int];
        lemma_filtered_was_there(t.invoices@, unapplied_settlement(t), c[m] as int);
        let i = choose|i: int|
            0 <= i < t.invoices@.len() && #[trigger] t.invoices@[i] == row && unapplied_settlement(t)(
                t.invoices@[i],
            );
        assert(unapplied_settlement(t)(t.invoices@[i]));
    } else {
        assert(l4.contains(ls[k]));
        let m = choose|m: int| 0 <= m < l4.len() && l4[m] == ls[k];
        assert(open_receipt(t, d[m]));
    }
}

/// Nothing that is owed is left out: every refund, order and settlement that is owed, and every payment
/// that was journaled to go back and is open, has a liability of its external id in the list.
pub proof fn nothing_owed_is_left_out(t: Tables, ls: Seq<LiabilityView>, i: int, ext: Seq<char>)
    requires
        is_liability_list(t, ls),
    ensures
        0 <= i < t.refunds@.len() && owed_refund(t)(t.refunds@[i]) ==> exists|k: int|
            0 <= k < ls.len() && Some((#[trigger] ls[k]).external_id) == ledger_ext(t.refunds@[i]),
        0 <= i < t.invoices@.len() && (undelivered_order(t)(t.invoices@[i]) || unapplied_settlement(
            t,
        )(t.invoices@[i])) ==> exists|k: int|
            0 <= k < ls.len() && (#[trigger] ls[k]).external_id == t.invoices@[i].external_id@
                && !(ls[k].source is RefundAttempt),
        open_receipt(t, ext) ==> exists|k: int|
            0 <= k < ls.len() && (#[trigger] ls[k]).external_id == ext && !(
            ls[k].source is RefundAttempt),
{
    liabilities_count_once(t, ls);
    let (a, b, c, d) = choose|a: Seq<usize>, b: Seq<usize>, c: Seq<usize>, d: Seq<Seq<char>>|
        {
            &&& is_order(refund_keys(t.refunds@.filter(owed_refund(t))), a)
            &&& is_order(issued_keys(t.invoices@.filter(undelivered_order(t))), b)
            &&& is_order(settled_keys(t.invoices@.filter(unapplied_settlement(t))), c)
            &&& lists_receipts(t, d)
            &&& ls == #[trigger] all_liabilities(t, a, b, c, d)
        };
    let l1 = from_refunds(t, a);
    let l2 = from_orders(t, b);
    let l3 = from_settlements(t, c);
    let l4 = from_receipts(t, d);
    let s1 = listed_with(Seq::empty(), l1);
    let s2 = listed_with(s1, l2);
    let s3 = listed_with(s2, l3);
    lemma_listed_with(Seq::empty(), l1);
    lemma_listed_with(s1, l2);
    lemma_listed_with(s2, l3);
    lemma_listed_with(s3, l4);
    let orders = t.invoices@.filter(undelivered_order(t));
    let settlements = t.invoices@.filter(unapplied_settlement(t));
    broadcast use vstd::seq_lib::group_filter_ensures;

    if 0 <= i < t.refunds@.len() && owed_refund(t)(t.refunds@[i]) {
        assert(ledger_ext(t.refunds@[i]) is Some);
    }
    if 0 <= i < t.invoices@.len() && undelivered_order(t)(t.invoices@[i]) {
        let row = t.invoices@[i];
        assert(t.invoices@.contains(row));
        assert(orders.contains(row));
        let n = choose|n: int| 0 <= n < orders.len() && orders[n] == row;
        lemma_order_covers(issued_keys(orders), b, n);
        let m = choose|m: int| 0 <= m < b.len() && #[trigger] b[m] == n;
        assert(l2[m].external_id == row.external_id@);
        assert(any(s2, of_ext(l2[m].external_id)));
        let k = choose|k: int| 0 <= k < s2.len() && of_ext(l2[m].external_id)(#[trigger] s2[k]);
        assert(ls[k] == s3[k] && s3[k] == s2[k]);
        lemma_not_a_refund(t, ls, k);
    }
    if 0 <= i < t.invoices@.len() && unapplied_settlement(t)(t.invoices@[i]) {
        let row = t.invoices@[i];
        assert(t.invoices@.contains(row));
        assert(settlements.contains(row));
        let n = choose|n: int| 0 <= n < settlements.len() && settlements[n] == row;
        lemma_order_covers(settled_keys(settlements), c, n);
        let m = choose|m: int| 0 <= m < c.len() && #[trigger] c[m] == n;
        assert(l3[m].external_id == row.external_id@);
        assert(any(s3, of_ext(l3[m].external_id)));
        let k = choose|k: int| 0 <= k < s3.len() && of_ext(l3[m].external_id)(#[trigger] s3[k]);
        assert(ls[k] == s3[k]);
        lemma_not_a_refund(t, ls, k);
    }
    if open_receipt(t, ext) {
        assert(d.contains(ext));
        let m = choose|m: int| 0 <= m < d.len() && d[m] == ext;
        assert(l4[m].external_id == ext);
        assert(any(ls, of_ext(l4[m].external_id)));
        let k = choose|k: int| 0 <= k < ls.len() && of_ext(l4[m].external_id)(#[trigger] ls[k]);
        assert(ls[k].external_id == ext);
        lemma_not_a_refund(t, ls, k);
    }
}

proof fn lemma_not_a_refund(t: Tables, ls: Seq<LiabilityView>, k: int)
    requires
        is_liability_list(t, ls),
        0 <= k < ls.len(),
        !in_ledger(t.refunds@, ls[k].external_id),
    ensures
        !(ls[k].source is RefundAttempt),
{
    every_liability_comes_from_a_row(t, ls, k);
    if ls[k].source is RefundAttempt {
        let i = choose|i: int|
            {
                &&& 0 <= i < t.refunds@.len()
                &&& owed_refund(t)(#[trigger] t.refunds@[i])
                &&& ledger_ext(t.refunds@[i]) == Some(ls[k].external_id)
            };
        let p = |a: RefundAttempt| ledger_ext(a) == Some(ls[k].external_id);
        assert(p(t.refunds@[i]));
        assert(any(t.refunds@, p));
    }
}

/// A payment that was journaled to go back is open exactly where an event of one of the four kinds
/// journals it under its external id, of a subscription that is neither active nor refunded, the largest
/// such amount is positive, and its external id is not in the ledger.
pub proof fn what_is_open_of_the_journal(t: Tables, ext: Seq<char>)
    ensures
        open_receipt(t, ext) <==> {
            &&& exists|i: int|
                {
                    &&& 0 <= i < t.events@.len()
                    &&& (#[trigger] t.events@[i]).kind == EventKind::SettleUnmatchedRefund
                        || t.events@[i].kind == EventKind::SettleTerminalRefund || t.events@[i].kind
                        == EventKind::SettleOrphanRefund || t.events@[i].kind
                        == EventKind::SettleExpiredRefund
                    &&& t.events@[i].detail matches EventDetail::Settlement { receipt: Some(x), .. }
                    &&& x@ == ext
                    &&& state_of(t.subscriptions@, t.events@[i].subscription_id) != Some(
                        SubState::Active,
                    )
                    &&& state_of(t.subscriptions@, t.events@[i].subscription_id) != Some(
                        SubState::Refunded,
                    )
                }
            &&& journaled(t, t.events@, ext, true) is Some
            &&& journaled(t, t.events@, ext, true)->0 > 0
            &&& forall|k: int|
                0 <= k < t.refunds@.len() ==> ledger_ext(#[trigger] t.refunds@[k]) != Some(ext)
        },
{
    let p = |e: Event| counts_as_receipt(t, e, ext, true);
    let q = |a: RefundAttempt| ledger_ext(a) == Some(ext);
    if any(t.events@, p) {
        let i = choose|i: int| 0 <= i < t.events@.len() && p(#[trigger] t.events@[i]);
        assert(counts_as_receipt(t, t.events@[i], ext, true));
    }
    if exists|i: int|
        {
            &&& 0 <= i < t.events@.len()
            &&& (#[trigger] t.events@[i]).kind == EventKind::SettleUnmatchedRefund
                || t.events@[i].kind == EventKind::SettleTerminalRefund || t.events@[i].kind
                == EventKind::SettleOrphanRefund || t.events@[i].kind
                == EventKind::SettleExpiredRefund
            &&& t.events@[i].detail matches EventDetail::Settlement { receipt: Some(x), .. }
            &&& x@ == ext
            &&& state_of(t.subscriptions@, t.events@[i].subscription_id) != Some(SubState::Active)
            &&& state_of(t.subscriptions@, t.events@[i].subscription_id) != Some(SubState::Refunded)
        } {
        let i = choose|i: int|
            {
                &&& 0 <= i < t.events@.len()
                &&& (#[trigger] t.events@[i]).kind == EventKind::SettleUnmatchedRefund
                    || t.events@[i].kind == EventKind::SettleTerminalRefund || t.events@[i].kind
                    == EventKind::SettleOrphanRefund || t.events@[i].kind
                    == EventKind::SettleExpiredRefund
                &&& t.events@[i].detail matches EventDetail::Settlement { receipt: Some(x), .. }
                &&& x@ == ext
                &&& state_of(t.subscriptions@, t.events@[i].subscription_id) != Some(
                    SubState::Active,
                )
                &&& state_of(t.subscriptions@, t.events@[i].subscription_id) != Some(
                    SubState::Refunded,
                )
            };
        assert(p(t.events@[i]));
    }
    if any(t.refunds@, q) {
        let k = choose|k: int| 0 <= k < t.refunds@.len() && q(#[trigger] t.refunds@[k]);
        assert(ledger_ext(t.refunds@[k]) == Some(ext));
    } else {
        assert forall|k: int| 0 <= k < t.refunds@.len() implies ledger_ext(#[trigger] t.refunds@[k])
            != Some(ext) by {
            assert(!q(t.refunds@[k]));
        }
    }
}

/// What keeps the liabilities from being listed: a row of the ledger without an external id, before a
/// journaled payment whose document cannot be read, before an open one that has no external id.
pub proof fn what_keeps_liabilities_from_being_listed(t: Tables)
    ensures
        ({
            let settles = |e: Event|
                e.kind == EventKind::SettleUnmatchedRefund || e.kind
                    == EventKind::SettleTerminalRefund || e.kind == EventKind::SettleOrphanRefund
                    || e.kind == EventKind::SettleExpiredRefund;
            let nameless = exists|k: int|
                0 <= k < t.refunds@.len() && ledger_ext(#[trigger] t.refunds@[k]) is None;
            let unread = exists|k: int|
                0 <= k < t.events@.len() && settles(#[trigger] t.events@[k]) && !(
                t.events@[k].detail is Settlement);
            let anonymous = exists|k: int|
                {
                    &&& 0 <= k < t.events@.len()
                    &&& settles(#[trigger] t.events@[k])
                    &&& t.events@[k].detail is Settlement
                    &&& t.events@[k].detail->Settlement_receipt is None
                    &&& state_of(t.subscriptions@, t.events@[k].subscription_id) != Some(
                        SubState::Active,
                    )
                    &&& state_of(t.subscriptions@, t.events@[k].subscription_id) != Some(
                        SubState::Refunded,
                    )
                };
            &&& liability_fault(t) == Some(LiabilityError::RefundWithoutId) <==> nameless
            &&& liability_fault(t) == Some(LiabilityError::ReceiptUnreadable) <==> !nameless && unread
            &&& liability_fault(t) == Some(LiabilityError::ReceiptWithoutId) <==> !nameless && !unread
                && anonymous
            &&& liability_fault(t) is None <==> !nameless && !unread && !anonymous
        }),
{
    let settles = |e: Event|
        e.kind == EventKind::SettleUnmatchedRefund || e.kind == EventKind::SettleTerminalRefund
            || e.kind == EventKind::SettleOrphanRefund || e.kind == EventKind::SettleExpiredRefund;
    let p = nameless_refund();
    let q = unreadable_receipt();
    let a = nameless_receipt(t);
    if any(t.refunds@, p) {
        let k = choose|k: int| 0 <= k < t.refunds@.len() && p(#[trigger] t.refunds@[k]);
        assert(ledger_ext(t.refunds@[k]) is None);
    }
    assert forall|k: int|
        0 <= k < t.refunds@.len() && ledger_ext(#[trigger] t.refunds@[k]) is None implies any(
        t.refunds@,
        p,
    ) by {
        assert(p(t.refunds@[k]));
    }
    if any(t.events@, q) {
        let k = choose|k: int| 0 <= k < t.events@.len() && q(#[trigger] t.events@[k]);
        assert(settles(t.events@[k]) && !(t.events@[k].detail is Settlement));
    }
    assert forall|k: int|
        0 <= k < t.events@.len() && settles(#[trigger] t.events@[k]) && !(
        t.events@[k].detail is Settlement) implies any(t.events@, q) by {
        assert(q(t.events@[k]));
    }
    if any(t.events@, a) && !any(t.events@, q) {
        let k = choose|k: int| 0 <= k < t.events@.len() && a(#[trigger] t.events@[k]);
        assert(!q(t.events@[k]));
        assert(settles(t.events@[k]));
    }
    assert forall|k: int|
        {
            &&& 0 <= k < t.events@.len()
            &&& settles(#[trigger] t.events@[k])
            &&& t.events@[k].detail is Settlement
            &&& t.events@[k].detail->Settlement_receipt is None
            &&& state_of(t.subscriptions@, t.events@[k].subscription_id) != Some(SubState::Active)
            &&& state_of(t.subscriptions@, t.events@[k].subscription_id) != Some(SubState::Refunded)
        } implies any(t.events@, a) by {
        assert(a(t.events@[k]));
    }
}

/// Reaping counts what it removes, table by table.
pub proof fn reaped_rows_are_counted(old: Tables, new: Tables, cut: int, n: ReapCounts)
    requires
        reap_counted(old, new, cut, n),
    ensures
        n.instance == old.instances@.len() - new.instances@.len(),
        n.reservation == old.reservations@.len() - new.reservations@.len(),
        n.invoice == old.invoices@.len() - new.invoices@.len(),
        n.event_log == old.events@.len() - new.events@.len(),
        n.subscription == old.subscriptions@.len() - new.subscriptions@.len(),
{
    lemma_filter_splits(old.instances@, spent_instance(old, cut));
    lemma_filter_splits(old.reservations@, spent_reservation(old, cut));
    lemma_filter_splits(old.invoices@, spent_invoice(old, cut));
    lemma_filter_splits(old.events@, spent_event(old, cut));
}

/// In which order liabilities are listed: refunds of the ledger come before orders, and both before
/// settlements.
pub proof fn refunds_come_before_orders_and_settlements(
    t: Tables,
    ls: Seq<LiabilityView>,
    i: int,
    j: int,
)
    requires
        is_liability_list(t, ls),
        0 <= i < j < ls.len(),
    ensures
        ls[j].source is RefundAttempt ==> ls[i].source is RefundAttempt,
        ls[j].source is PaidUndeliveredOrder ==> !(ls[i].source is UnreconciledSettlement),
{
    let (a, b, c, d) = choose|a: Seq<usize>, b: Seq<usize>, c: Seq<usize>, d: Seq<Seq<char>>|
        {
            &&& is_order(refund_keys(t.refunds@.filter(owed_refund(t))), a)
            &&& is_order(issued_keys(t.invoices@.filter(undelivered_order(t))), b)
            &&& is_order(settled_keys(t.invoices@.filter(unapplied_settlement(t))), c)
            &&& lists_receipts(t, d)
            &&& ls == #[trigger] all_liabilities(t, a, b, c, d)
        };
    let l1 = from_refunds(t, a);
    let l2 = from_orders(t, b);
    let l3 = from_settlements(t, c);
    let l4 = from_receipts(t, d);
    let s1 = listed_with(Seq::empty(), l1);
    let s2 = listed_with(s1, l2);
    let s3 = listed_with(s2, l3);
    lemma_listed_with(Seq::empty(), l1);
    lemma_listed_with(s1, l2);
    lemma_listed_with(s2, l3);
    lemma_listed_with(s3, l4);
    assert forall|k: int| 0 <= k < ls.len() implies {
        &&& k < s1.len() ==> (#[trigger] ls[k]).source is RefundAttempt
        &&& s1.len() <= k < s2.len() ==> ls[k].source is PaidUndeliveredOrder
        &&& s2.len() <= k ==> ls[k].source is UnreconciledSettlement
    } by {
        if k < s1.len() {
            assert(ls[k] == s3[k] && s3[k] == s2[k] && s2[k] == s1[k]);
            assert(l1.contains(s1[k]));
        } else if k < s2.len() {
            assert(ls[k] == s3[k] && s3[k] == s2[k]);
            assert(l2.contains(s2[k]));
        } else if k < s3.len() {
            assert(ls[k] == s3[k]);
            assert(l3.contains(s3[k]));
        } else {
            assert(l4.contains(ls[k]));
        }
    }
    assert(ls[i].source is RefundAttempt || ls[i].source is PaidUndeliveredOrder || ls[i].source
        is UnreconciledSettlement);
    assert(ls[j].source is RefundAttempt || ls[j].source is PaidUndeliveredOrder || ls[j].source
        is UnreconciledSettlement);
}

/// What liabilities are listed by: refunds by when they were made and then by id, orders by when their
/// invoice was issued, settlements by when theirs was settled, and then by the invoice's id.
pub proof fn liabilities_are_listed_by_age(refunds: Seq<RefundAttempt>, rows: Seq<Invoice>, i: int)
    ensures
        0 <= i < refunds.len() ==> refund_keys(refunds)[i].at == refunds[i].created_at && refund_keys(
            refunds,
        )[i].id == refunds[i].id,
        0 <= i < rows.len() ==> issued_keys(rows)[i].at == rows[i].issued_at && issued_keys(rows)[i].id
            == Some(rows[i].id),
        0 <= i < rows.len() ==> settled_keys(rows)[i].at == rows[i].settled_at && settled_keys(
            rows,
        )[i].id == Some(rows[i].id),
{
}

} // verus!
