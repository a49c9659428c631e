//! The refund executor: paying the refunds that are owed and advancing the ledger.
//!
//! Other parts of the daemon only record that a refund is owed, as a pending row of the refund
//! ledger. This module drains those rows. Paying is idempotent on its key, so a drive that is
//! repeated after a crash never pays twice; every outcome is written in one transaction that only
//! takes effect while the row is still pending.
//!
//! For each row a [`Drain`] decides what to ask of the payment backend next, and in the end which of
//! the commits of this module records the outcome. What is paid is bound to a generation: a BOLT11
//! destination is generation zero, and each resolution of a Lightning address or an LNURL is a
//! generation of its own with its own key. A new generation is only begun when the current one has
//! definitely failed and its invoice has expired or no longer fits under the fee-adjusted cap.

use crate::outside::{bolt11, parse_bolt11, Bolt11, Bolt11View};
use crate::refund_resolver::{
    detect_form, form_of, DestForm, ErrorView, FormView, ResolveError, Resolved,
};
use crate::reservation::{
    holds_of, is_empty_event, is_hold_of, lemma_counted_hold_is_there, lemma_hold_is_counted, moved,
    release_txn, released,
};
use crate::store::{lemma_filtered_was_there, lemma_order_covers};
use crate::tables::{
    any, events_added, first_where, holds_text, is_event, is_order, is_text, lemma_filter_next,
    lemma_first_where, lemma_first_where_at, opt_view, order_by, Event, EventDetail, EventKind,
    HoldState, Invoice, InvoiceStatus, OrderKey, OutboxRow, OutboxState, Payload, RefundAttempt,
    RefundNotice, RefundStatus, Reservation, SubState, Subscription, Tables,
};
use crate::text::{
    cat2, cat3, cat5, decimal, decimal_text, has_part, has_prefix, lemma_decimal_injective, owned, same,
    strip_prefix, trim, trimmed,
};
use vstd::prelude::*;
use vstd::string::*;

verus! {

/// Cap on definite payment failures before a refund is parked as failed.
pub const MAX_REFUND_ATTEMPTS: i64 = 5;

/// Bound on resolving one refund's destination in one drive, in seconds.
pub const RESOLUTION_DEADLINE_S: u64 = 60;

/// How long a refund may stay pending before every drive calls for the operator, in seconds.
pub const RESOLUTION_STUCK_ALERT_S: i64 = 604800;

// ---- keys and ids ----------------------------------------------------------------------------

/// The key under which a generation of a refund is paid: `refund:<external_id>` for generation
/// zero, and that with `:g<gen>` behind it for any other.
pub open spec fn pay_key(external_id: Seq<char>, gen: int) -> Seq<char> {
    if gen == 0 {
        "refund:"@ + external_id
    } else {
        "refund:"@ + external_id + ":g"@ + decimal(gen)
    }
}

/// The key under which a generation of a refund is paid.
pub fn gen_key(external_id: &str, gen: i64) -> (r: String)
    ensures
        r@ == pay_key(external_id@, gen as int),
{
    if gen == 0 {
        cat2("refund:", external_id)
    } else {
        let n = decimal_text(gen as i128);
        let head = cat3("refund:", external_id, ":g");
        cat2(&head, &n)
    }
}

/// The external id behind a refund: its key without `refund:`, or else its row id without `ref-`.
pub open spec fn external_id(idempotency_key: Seq<char>, refund_id: Seq<char>) -> Seq<char> {
    if has_prefix(idempotency_key, "refund:"@) {
        idempotency_key.skip("refund:"@.len() as int)
    } else if has_prefix(refund_id, "ref-"@) {
        refund_id.skip("ref-"@.len() as int)
    } else {
        refund_id
    }
}

/// Derives a refund's external id from its key or, failing that, its row id.
pub fn external_id_from(idempotency_key: &str, refund_id: &str) -> (r: String)
    ensures
        r@ == external_id(idempotency_key@, refund_id@),
{
    match strip_prefix(idempotency_key, "refund:") {
        Some(ext) => owned(ext),
        None => match strip_prefix(refund_id, "ref-") {
            Some(ext) => owned(ext),
            None => owned(refund_id),
        },
    }
}

/// The stable id of the message that tells the buyer about a refund.
pub fn refund_outbox_id(idempotency_key: &str, refund_id: &str) -> (r: String)
    ensures
        r@ == "outbox:refund:"@ + external_id(idempotency_key@, refund_id@),
{
    let ext = external_id_from(idempotency_key, refund_id);
    cat2("outbox:refund:", &ext)
}

/// Generation zero is paid under the bare key, from which the external id can be read back.
pub proof fn generation_zero_is_the_bare_key(ext: Seq<char>, refund_id: Seq<char>)
    ensures
        pay_key(ext, 0) == "refund:"@ + ext,
        external_id(pay_key(ext, 0), refund_id) == ext,
{
    let key = pay_key(ext, 0);
    assert(key.take("refund:"@.len() as int) =~= "refund:"@);
    assert(key.skip("refund:"@.len() as int) =~= ext);
}

/// Where a refund's key does not begin with `refund:` its external id is what stands behind `ref-` in its
/// row id, or the whole row id where that does not begin so.
pub proof fn row_id_gives_the_external_id_without_a_key(
    key: Seq<char>,
    refund_id: Seq<char>,
    rest: Seq<char>,
)
    requires
        !has_prefix(key, "refund:"@),
    ensures
        external_id(key, "ref-"@ + rest) == rest,
        !has_prefix(refund_id, "ref-"@) ==> external_id(key, refund_id) == refund_id,
{
    let id = "ref-"@ + rest;
    assert(id.take("ref-"@.len() as int) =~= "ref-"@);
    assert(id.skip("ref-"@.len() as int) =~= rest);
}

/// Every generation of a refund has a key of its own.
pub proof fn generations_have_distinct_keys(ext: Seq<char>, a: int, b: int)
    requires
        pay_key(ext, a) == pay_key(ext, b),
    ensures
        a == b,
{
    let bare = "refund:"@ + ext;
    let head = bare + ":g"@;
    reveal_strlit(":g");
    if a != 0 && b != 0 {
        assert(pay_key(ext, a).skip(head.len() as int) =~= decimal(a));
        assert(pay_key(ext, b).skip(head.len() as int) =~= decimal(b));
        lemma_decimal_injective(a, b);
    } else if a == 0 && b != 0 {
        assert(pay_key(ext, b).len() >= bare.len() + 2);
    } else if b == 0 && a != 0 {
        assert(pay_key(ext, a).len() >= bare.len() + 2);
    }
}

/// Two refunds never share the key of one generation.
pub proof fn refunds_have_distinct_keys(a: Seq<char>, b: Seq<char>, gen: int)
    requires
        pay_key(a, gen) == pay_key(b, gen),
    ensures
        a == b,
{
    let n = "refund:"@.len() as int;
    if gen == 0 {
        assert(pay_key(a, gen).skip(n) =~= a);
        assert(pay_key(b, gen).skip(n) =~= b);
    } else {
        let tail = ":g"@ + decimal(gen);
        assert(pay_key(a, gen).len() == n + a.len() + tail.len());
        assert(pay_key(b, gen).len() == n + b.len() + tail.len());
        assert(pay_key(a, gen).subrange(n, n + a.len()) =~= a);
        assert(pay_key(b, gen).subrange(n, n + b.len()) =~= b);
    }
}

// ---- amounts ---------------------------------------------------------------------------------

/// The amount of a parsed invoice in whole satoshis, or what is wrong with it.
pub open spec fn whole_sat_of(parsed: Result<Bolt11View, Seq<char>>) -> Result<u64, Seq<char>> {
    match parsed {
        Err(e) => Err("bolt11 parse error: "@ + e),
        Ok(invoice) => match invoice.amount_msat {
            None => Err("bolt11 has no amount"@),
            Some(msat) => if msat % 1000 != 0 {
                Err("bolt11 amount "@ + decimal(msat as int) + " msat is not a whole number of sats"@)
            } else {
                Ok(msat / 1000)
            },
        },
    }
}

/// A result whose error is taken by its characters.
pub open spec fn sat_result(r: Result<u64, String>) -> Result<u64, Seq<char>> {
    match r {
        Ok(n) => Ok(n),
        Err(e) => Err(e@),
    }
}

/// The outcome of parsing an invoice with its parts taken by their views.
pub open spec fn parsed_view(parsed: Result<Bolt11, String>) -> Result<Bolt11View, Seq<char>> {
    match parsed {
        Ok(b) => Ok(b@),
        Err(e) => Err(e@),
    }
}

/// The amount of a parsed invoice in whole satoshis.
pub fn whole_sat(parsed: Result<Bolt11, String>) -> (r: Result<u64, String>)
    ensures
        sat_result(r) == whole_sat_of(parsed_view(parsed)),
{
    match parsed {
        Err(e) => Err(cat2("bolt11 parse error: ", &e)),
        Ok(invoice) => match invoice.amount_msat {
            None => Err(owned("bolt11 has no amount")),
            Some(msat) => {
                if msat % 1000 != 0 {
                    let n = decimal_text(msat as i128);
                    Err(cat3("bolt11 amount ", &n, " msat is not a whole number of sats"))
                } else {
                    Ok(msat / 1000)
                }
            },
        },
    }
}

/// The amount of an invoice in whole satoshis; an error for one without an amount or with a
/// fraction of a satoshi, which cannot be paid.
pub fn parse_whole_sat(text: &str) -> (r: Result<u64, String>)
    ensures
        sat_result(r) == whole_sat_of(bolt11(text@)),
{
    whole_sat(parse_bolt11(text))
}

/// An invoice has a whole amount exactly where it could be read and states a thousand times that many
/// millisatoshis.
pub proof fn whole_amount_is_a_thousandth(parsed: Result<Bolt11View, Seq<char>>, sat: u64)
    ensures
        whole_sat_of(parsed) == Ok::<u64, Seq<char>>(sat) <==> (parsed matches Ok(invoice) && (
        invoice.amount_msat matches Some(msat) && msat == 1000 * sat)),
{
}

// ---- planning a payment ----------------------------------------------------------------------

/// What the backend knows of a payment by its key. `Unknown` may be a payment in flight that can be
/// neither confirmed nor refuted.
#[derive(Clone, Copy, Debug, PartialEq, Eq, Structural)]
pub enum PayStatus {
    Succeeded,
    Pending,
    Failed,
    Unknown,
}

/// What was decided for one drive of a refund, before anything is paid.
#[derive(Clone, Debug)]
pub enum PlanOutcome {
    /// Pay `bolt11` under the key of generation `gen`; `pay_sat` is the fee-adjusted payout.
    Pay { bolt11: String, gen: i64, pay_sat: u64 },
    /// The current generation was already paid with `pay_sat`.
    AlreadySent { pay_sat: u64 },
    /// The row is no longer pending, so the new invoice was not persisted and must not be paid.
    Skip,
}

/// Why a payment could not be planned: for good, or for this time.
#[derive(Clone, Debug)]
pub enum PlanError {
    Permanent(String),
    Transient(String),
}

/// [`PlanOutcome`] as a mathematical value.
pub enum OutcomeView {
    Pay { bolt11: Seq<char>, gen: i64, pay_sat: u64 },
    AlreadySent { pay_sat: u64 },
    Skip,
}

impl View for PlanOutcome {
    type V = OutcomeView;

    open spec fn view(&self) -> OutcomeView {
        match self {
            PlanOutcome::Pay { bolt11, gen, pay_sat } => OutcomeView::Pay {
                bolt11: bolt11@,
                gen: *gen,
                pay_sat: *pay_sat,
            },
            PlanOutcome::AlreadySent { pay_sat } => OutcomeView::AlreadySent { pay_sat: *pay_sat },
            PlanOutcome::Skip => OutcomeView::Skip,
        }
    }
}

impl View for PlanError {
    type V = ErrorView;

    open spec fn view(&self) -> ErrorView {
        match self {
            PlanError::Permanent(m) => ErrorView::Permanent(m@),
            PlanError::Transient(m) => ErrorView::Transient(m@),
        }
    }
}

/// Where planning stands: which answer it waits for, or what it came to.
#[derive(Debug)]
pub enum PlanStage {
    /// A BOLT11 destination of `sat` satoshis: the status of generation zero.
    ZeroStatus { sat: u64 },
    /// That status is unknown: whether the payment was started at all.
    ZeroStarted { sat: u64 },
    /// Nothing is in flight: the cap for a new payment.
    ZeroQuote { sat: u64 },
    /// The destination was never resolved: the cap for a first payment.
    FirstQuote,
    /// The destination was resolved before: the status of that generation.
    CurrentStatus,
    /// That generation has failed: the current cap.
    FailedQuote,
    /// A fresh invoice for `net_cap` satoshis, to be generation `gen`.
    Resolving { net_cap: u64, gen: i64 },
    /// Whether the fresh invoice was persisted.
    Persisting { net_cap: u64, gen: i64, resolved: Resolved },
    Finished(Result<PlanOutcome, PlanError>),
}

/// [`PlanStage`] as a mathematical value.
pub enum StageView {
    ZeroStatus { sat: u64 },
    ZeroStarted { sat: u64 },
    ZeroQuote { sat: u64 },
    FirstQuote,
    CurrentStatus,
    FailedQuote,
    Resolving { net_cap: u64, gen: i64 },
    Persisting { net_cap: u64, gen: i64, bolt11: Seq<char>, expiry: i64 },
    Finished(Result<OutcomeView, ErrorView>),
}

impl View for PlanStage {
    type V = StageView;

    open spec fn view(&self) -> StageView {
        match self {
            PlanStage::ZeroStatus { sat } => StageView::ZeroStatus { sat: *sat },
            PlanStage::ZeroStarted { sat } => StageView::ZeroStarted { sat: *sat },
            PlanStage::ZeroQuote { sat } => StageView::ZeroQuote { sat: *sat },
            PlanStage::FirstQuote => StageView::FirstQuote,
            PlanStage::CurrentStatus => StageView::CurrentStatus,
            PlanStage::FailedQuote => StageView::FailedQuote,
            PlanStage::Resolving { net_cap, gen } => StageView::Resolving {
                net_cap: *net_cap,
                gen: *gen,
            },
            PlanStage::Persisting { net_cap, gen, resolved } => StageView::Persisting {
                net_cap: *net_cap,
                gen: *gen,
                bolt11: resolved.bolt11@,
                expiry: resolved.expiry,
            },
            PlanStage::Finished(r) => StageView::Finished(
                match *r {
                    Ok(o) => Ok(o@),
                    Err(e) => Err(e@),
                },
            ),
        }
    }
}

/// An answer of the backend, the resolver or the store.
#[derive(Debug)]
pub enum PlanEvent {
    Status(Result<PayStatus, String>),
    Started(Result<bool, String>),
    /// The largest payout whose fee still fits within the gross.
    Quote(Result<u64, String>),
    Resolution(Result<Resolved, ResolveError>),
    /// The resolution took longer than [`RESOLUTION_DEADLINE_S`].
    ResolutionTimedOut,
    /// Whether the row was still pending and took the new invoice.
    Persisted(Result<bool, String>),
}

/// [`PlanEvent`] as a mathematical value.
pub enum EventView {
    Status(Result<PayStatus, Seq<char>>),
    Started(Result<bool, Seq<char>>),
    Quote(Result<u64, Seq<char>>),
    Resolution(Result<(Seq<char>, i64), ErrorView>),
    ResolutionTimedOut,
    Persisted(Result<bool, Seq<char>>),
}

/// A result whose error is taken by its characters.
pub open spec fn err_view<T>(r: Result<T, String>) -> Result<T, Seq<char>> {
    match r {
        Ok(v) => Ok(v),
        Err(e) => Err(e@),
    }
}

impl View for PlanEvent {
    type V = EventView;

    open spec fn view(&self) -> EventView {
        match self {
            PlanEvent::Status(r) => EventView::Status(err_view(*r)),
            PlanEvent::Started(r) => EventView::Started(err_view(*r)),
            PlanEvent::Quote(r) => EventView::Quote(err_view(*r)),
            PlanEvent::Resolution(r) => EventView::Resolution(
                match *r {
                    Ok(x) => Ok((x.bolt11@, x.expiry)),
                    Err(e) => Err(e@),
                },
            ),
            PlanEvent::ResolutionTimedOut => EventView::ResolutionTimedOut,
            PlanEvent::Persisted(r) => EventView::Persisted(err_view(*r)),
        }
    }
}

/// What planning asks to be done next.
#[derive(Debug)]
pub enum PlanAsk {
    /// Ask the backend for the status of the payment under `key`.
    Status { key: String },
    /// Ask the backend whether a payment under `key` was started.
    Started { key: String },
    /// Ask the backend for the largest payout for a refund of `gross` satoshis.
    Quote { gross: u64 },
    /// Resolve the destination to an invoice of exactly `owed_msat`.
    Resolve { dest: String, owed_msat: u64, now: i64 },
    /// Persist the invoice as generation `gen`, if the row is still pending.
    Persist { bolt11: String, expiry: i64, gen: i64 },
    Done(Result<PlanOutcome, PlanError>),
}

/// [`PlanAsk`] as a mathematical value.
pub enum AskView {
    Status { key: Seq<char> },
    Started { key: Seq<char> },
    Quote { gross: u64 },
    Resolve { dest: Seq<char>, owed_msat: u64, now: i64 },
    Persist { bolt11: Seq<char>, expiry: i64, gen: i64 },
    Done(Result<OutcomeView, ErrorView>),
}

impl View for PlanAsk {
    type V = AskView;

    open spec fn view(&self) -> AskView {
        match self {
            PlanAsk::Status { key } => AskView::Status { key: key@ },
            PlanAsk::Started { key } => AskView::Started { key: key@ },
            PlanAsk::Quote { gross } => AskView::Quote { gross: *gross },
            PlanAsk::Resolve { dest, owed_msat, now } => AskView::Resolve {
                dest: dest@,
                owed_msat: *owed_msat,
                now: *now,
            },
            PlanAsk::Persist { bolt11, expiry, gen } => AskView::Persist {
                bolt11: bolt11@,
                expiry: *expiry,
                gen: *gen,
            },
            PlanAsk::Done(r) => AskView::Done(
                match *r {
                    Ok(o) => Ok(o@),
                    Err(e) => Err(e@),
                },
            ),
        }
    }
}

/// The plan for one drive of one refund.
#[derive(Debug)]
pub struct Plan {
    pub external_id: String,
    /// The destination without surrounding white space.
    pub dest: String,
    /// The gross amount that was received.
    pub received: u64,
    pub now: i64,
    /// The invoice the destination was last resolved to, its whole-satoshi amount (the gross where
    /// it has none), its expiry and its generation.
    pub persisted: String,
    pub persisted_sat: u64,
    pub resolved_expiry: Option<i64>,
    pub gen: i64,
    pub stage: PlanStage,
}

/// [`Plan`] as a mathematical value.
pub struct PlanView {
    pub external_id: Seq<char>,
    pub dest: Seq<char>,
    pub received: u64,
    pub now: i64,
    pub persisted: Seq<char>,
    pub persisted_sat: u64,
    pub resolved_expiry: Option<i64>,
    pub gen: i64,
    pub stage: StageView,
}

impl View for Plan {
    type V = PlanView;

    open spec fn view(&self) -> PlanView {
        PlanView {
            external_id: self.external_id@,
            dest: self.dest@,
            received: self.received,
            now: self.now,
            persisted: self.persisted@,
            persisted_sat: self.persisted_sat,
            resolved_expiry: self.resolved_expiry,
            gen: self.gen,
            stage: self.stage@,
        }
    }
}

/// What a quote allows: a positive net cap. A cap of zero means that no payout and its fee fit within
/// the gross, which is for good; no quote at all is for this time.
pub open spec fn net_cap_of(quote: Result<u64, Seq<char>>) -> Result<u64, ErrorView> {
    match quote {
        Ok(net) => if net == 0 {
            Err(
                ErrorView::Permanent(
                    "received amount below the network fee; cannot auto-refund without operator loss"@,
                ),
            )
        } else {
            Ok(net)
        },
        Err(e) => Err(ErrorView::Transient("refund fee quote failed: "@ + e)),
    }
}

/// What a quote allows (see [`net_cap_of`]).
pub fn net_cap(quote: Result<u64, String>) -> (r: Result<u64, PlanError>)
    ensures
        match r {
            Ok(n) => net_cap_of(err_view(quote)) == Ok::<u64, ErrorView>(n),
            Err(e) => net_cap_of(err_view(quote)) == Err::<u64, ErrorView>(e@),
        },
{
    match quote {
        Ok(net) => {
            if net == 0 {
                Err(
                    PlanError::Permanent(
                        owned(
                            "received amount below the network fee; cannot auto-refund without operator loss",
                        ),
                    ),
                )
            } else {
                Ok(net)
            }
        },
        Err(e) => Err(PlanError::Transient(cat2("refund fee quote failed: ", &e))),
    }
}

impl PlanView {
    /// Whether the persisted invoice has expired.
    pub open spec fn expired(self) -> bool {
        self.now >= (match self.resolved_expiry {
            Some(e) => e,
            None => 0,
        })
    }

    /// The end of planning with an error.
    pub open spec fn failed(e: ErrorView) -> StageView {
        StageView::Finished(Err(e))
    }

    /// The end of planning with a payment.
    pub open spec fn pay(bolt11: Seq<char>, gen: i64, pay_sat: u64) -> StageView {
        StageView::Finished(Ok(OutcomeView::Pay { bolt11, gen, pay_sat }))
    }

    /// A status that could not be looked up: for this time.
    pub open spec fn lookup_failed(self, gen: int, e: Seq<char>) -> StageView {
        PlanView::failed(
            ErrorView::Transient(
                "refund status lookup for "@ + pay_key(self.external_id, gen) + " failed: "@ + e,
            ),
        )
    }

    /// A fresh invoice for the whole cap, unless it cannot be written in millisatoshis.
    pub open spec fn fresh(net_cap: u64, gen: int) -> StageView {
        if net_cap * 1000 > u64::MAX {
            PlanView::failed(
                ErrorView::Permanent(
                    "refund net amount "@ + decimal(net_cap as int) + " sat overflows u64 msats"@,
                ),
            )
        } else {
            StageView::Resolving { net_cap, gen: gen as i64 }
        }
    }

    /// Where an answer leads. An answer to a question that was not asked leads nowhere.
    pub open spec fn next(self, event: EventView) -> StageView {
        match (self.stage, event) {
            (StageView::ZeroStatus { sat }, EventView::Status(r)) => match r {
                Err(e) => self.lookup_failed(0, e),
                Ok(PayStatus::Succeeded) => StageView::Finished(
                    Ok(OutcomeView::AlreadySent { pay_sat: sat }),
                ),
                Ok(PayStatus::Pending) => PlanView::pay(self.dest, 0, sat),
                Ok(PayStatus::Unknown) => StageView::ZeroStarted { sat },
                Ok(PayStatus::Failed) => StageView::ZeroQuote { sat },
            },
            (StageView::ZeroStarted { sat }, EventView::Started(r)) => match r {
                Err(e) => PlanView::failed(
                    ErrorView::Transient(
                        "refund started-check for "@ + pay_key(self.external_id, 0) + ": "@ + e,
                    ),
                ),
                Ok(true) => PlanView::pay(self.dest, 0, sat),
                Ok(false) => StageView::ZeroQuote { sat },
            },
            (StageView::ZeroQuote { sat }, EventView::Quote(q)) => match net_cap_of(q) {
                Err(e) => PlanView::failed(e),
                Ok(cap) => if sat > cap {
                    PlanView::failed(
                        ErrorView::Permanent(
                            "buyer's fixed bolt11 ("@ + decimal(sat as int)
                                + " sat) exceeds the fee-adjusted refund cap ("@ + decimal(
                                cap as int,
                            ) + " sat)"@,
                        ),
                    )
                } else {
                    PlanView::pay(self.dest, 0, sat)
                },
            },
            (StageView::FirstQuote, EventView::Quote(q)) => match net_cap_of(q) {
                Err(e) => PlanView::failed(e),
                Ok(cap) => PlanView::fresh(cap, 1),
            },
            (StageView::CurrentStatus, EventView::Status(r)) => match r {
                Err(e) => self.lookup_failed(self.gen as int, e),
                Ok(PayStatus::Succeeded) => StageView::Finished(
                    Ok(OutcomeView::AlreadySent { pay_sat: self.persisted_sat }),
                ),
                Ok(PayStatus::Failed) => StageView::FailedQuote,
                Ok(_) => PlanView::pay(self.persisted, self.gen, self.persisted_sat),
            },
            (StageView::FailedQuote, EventView::Quote(q)) => match net_cap_of(q) {
                Err(e) => PlanView::failed(e),
                Ok(cap) => if self.expired() || self.persisted_sat > cap {
                    PlanView::fresh(cap, self.gen + 1)
                } else {
                    PlanView::pay(self.persisted, self.gen, self.persisted_sat)
                },
            },
            (StageView::Resolving { net_cap, gen }, EventView::Resolution(r)) => match r {
                Err(e) => PlanView::failed(e),
                Ok((bolt11, expiry)) => StageView::Persisting { net_cap, gen, bolt11, expiry },
            },
            (StageView::Resolving { net_cap, gen }, EventView::ResolutionTimedOut) => {
                PlanView::failed(
                    ErrorView::Transient("refund resolution exceeded the 60s per-row deadline"@),
                )
            },
            (StageView::Persisting { net_cap, gen, bolt11, expiry }, EventView::Persisted(r)) => {
                match r {
                    Err(e) => PlanView::failed(
                        ErrorView::Transient("persisting refund resolution: "@ + e),
                    ),
                    Ok(true) => PlanView::pay(bolt11, gen, net_cap),
                    Ok(false) => StageView::Finished(Ok(OutcomeView::Skip)),
                }
            },
            (stage, _) => stage,
        }
    }

    /// What is asked for at a stage.
    pub open spec fn ask(self) -> AskView {
        match self.stage {
            StageView::ZeroStatus { sat } => AskView::Status { key: pay_key(self.external_id, 0) },
            StageView::ZeroStarted { sat } => AskView::Started { key: pay_key(self.external_id, 0) },
            StageView::ZeroQuote { sat } => AskView::Quote { gross: self.received },
            StageView::FirstQuote => AskView::Quote { gross: self.received },
            StageView::CurrentStatus => AskView::Status {
                key: pay_key(self.external_id, self.gen as int),
            },
            StageView::FailedQuote => AskView::Quote { gross: self.received },
            StageView::Resolving { net_cap, gen } => AskView::Resolve {
                dest: self.dest,
                owed_msat: (net_cap * 1000) as u64,
                now: self.now,
            },
            StageView::Persisting { net_cap, gen, bolt11, expiry } => AskView::Persist {
                bolt11,
                expiry,
                gen,
            },
            StageView::Finished(r) => AskView::Done(r),
        }
    }

    /// What holds of a plan at every stage: a fresh invoice can be asked for in millisatoshis, and
    /// there is a generation after the current one.
    pub open spec fn valid(self) -> bool {
        &&& self.gen < i64::MAX
        &&& match self.stage {
            StageView::Resolving { net_cap, gen } => net_cap * 1000 <= u64::MAX,
            _ => true,
        }
    }
}

/// Where planning starts, from the destination's form and the amounts of the two invoices.
pub open spec fn first_stage(
    form: Result<FormView, ErrorView>,
    dest_sat: Result<u64, Seq<char>>,
    resolved: bool,
) -> StageView {
    match form {
        Err(e) => PlanView::failed(e),
        Ok(FormView::Bolt11) => match dest_sat {
            Err(m) => PlanView::failed(ErrorView::Permanent(m)),
            Ok(sat) => StageView::ZeroStatus { sat },
        },
        Ok(_) => if resolved {
            StageView::CurrentStatus
        } else {
            StageView::FirstQuote
        },
    }
}

impl From<ResolveError> for PlanError {
    fn from(e: ResolveError) -> (r: PlanError) {
        match e {
            ResolveError::Permanent(m) => PlanError::Permanent(m),
            ResolveError::Transient(m) => PlanError::Transient(m),
        }
    }
}

impl vstd::std_specs::convert::FromSpecImpl<ResolveError> for PlanError {
    open spec fn obeys_from_spec() -> bool {
        true
    }

    open spec fn from_spec(e: ResolveError) -> PlanError {
        match e {
            ResolveError::Permanent(m) => PlanError::Permanent(m),
            ResolveError::Transient(m) => PlanError::Transient(m),
        }
    }
}

fn fresh_stage(net_cap: u64, gen: i64) -> (r: PlanStage)
    ensures
        r@ == PlanView::fresh(net_cap, gen as int),
        r@ matches StageView::Resolving { net_cap, gen } ==> net_cap * 1000 <= u64::MAX,
{
    match net_cap.checked_mul(1000) {
        None => {
            let n = decimal_text(net_cap as i128);
            PlanStage::Finished(
                Err(
                    PlanError::Permanent(
                        cat3("refund net amount ", &n, " sat overflows u64 msats"),
                    ),
                ),
            )
        },
        Some(_) => PlanStage::Resolving { net_cap, gen },
    }
}

fn pay_stage(bolt11: &String, gen: i64, pay_sat: u64) -> (r: PlanStage)
    ensures
        r@ == PlanView::pay(bolt11@, gen, pay_sat),
{
    PlanStage::Finished(Ok(PlanOutcome::Pay { bolt11: bolt11.clone(), gen, pay_sat }))
}

fn lookup_failed_stage(external_id: &str, gen: i64, e: &str) -> (r: PlanStage)
    ensures
        r@ == PlanView::failed(
            ErrorView::Transient(
                "refund status lookup for "@ + pay_key(external_id@, gen as int) + " failed: "@ + e@,
            ),
        ),
{
    let key = gen_key(external_id, gen);
    let head = cat3("refund status lookup for ", &key, " failed: ");
    PlanStage::Finished(Err(PlanError::Transient(cat2(&head, e))))
}

impl Plan {
    /// Begins a plan from what is known of the destination: its form, the whole-satoshi amount it
    /// has as an invoice, and that of the invoice it was last resolved to.
    pub fn begin(
        external_id: String,
        dest: String,
        form: Result<DestForm, ResolveError>,
        dest_sat: Result<u64, String>,
        resolved_bolt11: Option<String>,
        resolved_sat: Result<u64, String>,
        resolved_expiry: Option<i64>,
        gen: i64,
        received: u64,
        now: i64,
    ) -> (r: Plan)
        requires
            gen < i64::MAX,
        ensures
            r@ == (PlanView {
                external_id: external_id@,
                dest: dest@,
                received,
                now,
                persisted: match resolved_bolt11 {
                    Some(b) => b@,
                    None => Seq::empty(),
                },
                persisted_sat: match resolved_sat {
                    Ok(n) => n,
                    Err(_) => received,
                },
                resolved_expiry,
                gen,
                stage: first_stage(
                    crate::refund_resolver::form_result(form),
                    sat_result(dest_sat),
                    resolved_bolt11 is Some,
                ),
            }),
            r@.valid(),
    {
        let stage = match form {
            Err(e) => PlanStage::Finished(Err(PlanError::from(e))),
            Ok(DestForm::Bolt11) => match dest_sat {
                Err(m) => PlanStage::Finished(Err(PlanError::Permanent(m))),
                Ok(sat) => PlanStage::ZeroStatus { sat },
            },
            Ok(_) => {
                if resolved_bolt11.is_some() {
                    PlanStage::CurrentStatus
                } else {
                    PlanStage::FirstQuote
                }
            },
        };
        let persisted_sat: u64 = match resolved_sat {
            Ok(n) => n,
            Err(_) => received,
        };
        let persisted = match resolved_bolt11 {
            Some(b) => b,
            None => String::new(),
        };
        Plan {
            external_id,
            dest,
            received,
            now,
            persisted,
            persisted_sat,
            resolved_expiry,
            gen,
            stage,
        }
    }

    /// What is to be done next.
    pub fn ask(&self) -> (r: PlanAsk)
        requires
            self@.valid(),
        ensures
            r@ == self@.ask(),
    {
        match &self.stage {
            PlanStage::ZeroStatus { .. } => PlanAsk::Status { key: gen_key(&self.external_id, 0) },
            PlanStage::ZeroStarted { .. } => PlanAsk::Started { key: gen_key(&self.external_id, 0) },
            PlanStage::ZeroQuote { .. } | PlanStage::FirstQuote | PlanStage::FailedQuote => {
                PlanAsk::Quote { gross: self.received }
            },
            PlanStage::CurrentStatus => PlanAsk::Status { key: gen_key(&self.external_id, self.gen) },
            PlanStage::Resolving { net_cap, gen } => PlanAsk::Resolve {
                dest: self.dest.clone(),
                owed_msat: *net_cap * 1000,
                now: self.now,
            },
            PlanStage::Persisting { net_cap, gen, resolved } => PlanAsk::Persist {
                bolt11: resolved.bolt11.clone(),
                expiry: resolved.expiry,
                gen: *gen,
            },
            PlanStage::Finished(Ok(PlanOutcome::Pay { bolt11, gen, pay_sat })) => PlanAsk::Done(
                Ok(PlanOutcome::Pay { bolt11: bolt11.clone(), gen: *gen, pay_sat: *pay_sat }),
            ),
            PlanStage::Finished(Ok(PlanOutcome::AlreadySent { pay_sat })) => PlanAsk::Done(
                Ok(PlanOutcome::AlreadySent { pay_sat: *pay_sat }),
            ),
            PlanStage::Finished(Ok(PlanOutcome::Skip)) => PlanAsk::Done(Ok(PlanOutcome::Skip)),
            PlanStage::Finished(Err(PlanError::Permanent(m))) => PlanAsk::Done(
                Err(PlanError::Permanent(m.clone())),
            ),
            PlanStage::Finished(Err(PlanError::Transient(m))) => PlanAsk::Done(
                Err(PlanError::Transient(m.clone())),
            ),
        }
    }

    /// Takes the answer to what was asked.
    pub fn step(self, event: PlanEvent) -> (r: Plan)
        requires
            self@.valid(),
        ensures
            r@ == (PlanView { stage: self@.next(event@), ..self@ }),
            r@.valid(),
    {
        let stage = match (self.stage, event) {
            (PlanStage::ZeroStatus { sat }, PlanEvent::Status(r)) => match r {
                Err(e) => lookup_failed_stage(&self.external_id, 0, &e),
                Ok(PayStatus::Succeeded) => PlanStage::Finished(
                    Ok(PlanOutcome::AlreadySent { pay_sat: sat }),
                ),
                Ok(PayStatus::Pending) => pay_stage(&self.dest, 0, sat),
                Ok(PayStatus::Unknown) => PlanStage::ZeroStarted { sat },
                Ok(PayStatus::Failed) => PlanStage::ZeroQuote { sat },
            },
            (PlanStage::ZeroStarted { sat }, PlanEvent::Started(r)) => match r {
                Err(e) => {
                    let key = gen_key(&self.external_id, 0);
                    let head = cat3("refund started-check for ", &key, ": ");
                    PlanStage::Finished(Err(PlanError::Transient(cat2(&head, &e))))
                },
                Ok(true) => pay_stage(&self.dest, 0, sat),
                Ok(false) => PlanStage::ZeroQuote { sat },
            },
            (PlanStage::ZeroQuote { sat }, PlanEvent::Quote(q)) => match net_cap(q) {
                Err(e) => PlanStage::Finished(Err(e)),
                Ok(cap) => {
                    if sat > cap {
                        let a = decimal_text(sat as i128);
                        let b = decimal_text(cap as i128);
                        PlanStage::Finished(
                            Err(
                                PlanError::Permanent(
                                    cat5(
                                        "buyer's fixed bolt11 (",
                                        &a,
                                        " sat) exceeds the fee-adjusted refund cap (",
                                        &b,
                                        " sat)",
                                    ),
                                ),
                            ),
                        )
                    } else {
                        pay_stage(&self.dest, 0, sat)
                    }
                },
            },
            (PlanStage::FirstQuote, PlanEvent::Quote(q)) => match net_cap(q) {
                Err(e) => PlanStage::Finished(Err(e)),
                Ok(cap) => fresh_stage(cap, 1),
            },
            (PlanStage::CurrentStatus, PlanEvent::Status(r)) => match r {
                Err(e) => lookup_failed_stage(&self.external_id, self.gen, &e),
                Ok(PayStatus::Succeeded) => PlanStage::Finished(
                    Ok(PlanOutcome::AlreadySent { pay_sat: self.persisted_sat }),
                ),
                Ok(PayStatus::Failed) => PlanStage::FailedQuote,
                Ok(PayStatus::Pending) | Ok(PayStatus::Unknown) => pay_stage(
                    &self.persisted,
                    self.gen,
                    self.persisted_sat,
                ),
            },
            (PlanStage::FailedQuote, PlanEvent::Quote(q)) => match net_cap(q) {
                Err(e) => PlanStage::Finished(Err(e)),
                Ok(cap) => {
                    let expiry: i64 = match self.resolved_expiry {
                        Some(e) => e,
                        None => 0,
                    };
                    if self.now >= expiry || self.persisted_sat > cap {
                        fresh_stage(cap, self.gen + 1)
                    } else {
                        pay_stage(&self.persisted, self.gen, self.persisted_sat)
                    }
                },
            },
            (PlanStage::Resolving { net_cap, gen }, PlanEvent::Resolution(r)) => match r {
                Err(e) => PlanStage::Finished(Err(PlanError::from(e))),
                Ok(resolved) => PlanStage::Persisting { net_cap, gen, resolved },
            },
            (PlanStage::Resolving { net_cap, gen }, PlanEvent::ResolutionTimedOut) => {
                PlanStage::Finished(
                    Err(
                        PlanError::Transient(
                            owned("refund resolution exceeded the 60s per-row deadline"),
                        ),
                    ),
                )
            },
            (PlanStage::Persisting { net_cap, gen, resolved }, PlanEvent::Persisted(r)) => match r {
                Err(e) => PlanStage::Finished(
                    Err(PlanError::Transient(cat2("persisting refund resolution: ", &e))),
                ),
                Ok(true) => pay_stage(&resolved.bolt11, gen, net_cap),
                Ok(false) => PlanStage::Finished(Ok(PlanOutcome::Skip)),
            },
            (stage, _) => stage,
        };
        Plan { stage, ..self }
    }
}

/// One answer to each question that planning can ask; no resolution means that it took too long.
pub struct Answers {
    pub status: Result<PayStatus, Seq<char>>,
    pub started: Result<bool, Seq<char>>,
    pub quote: Result<u64, Seq<char>>,
    pub resolution: Option<Result<(Seq<char>, i64), ErrorView>>,
    pub persisted: Result<bool, Seq<char>>,
}

/// The answer to a question.
pub open spec fn answer(ask: AskView, a: Answers) -> EventView {
    match ask {
        AskView::Status { key } => EventView::Status(a.status),
        AskView::Started { key } => EventView::Started(a.started),
        AskView::Quote { gross } => EventView::Quote(a.quote),
        AskView::Resolve { dest, owed_msat, now } => match a.resolution {
            Some(r) => EventView::Resolution(r),
            None => EventView::ResolutionTimedOut,
        },
        AskView::Persist { bolt11, expiry, gen } => EventView::Persisted(a.persisted),
        AskView::Done(r) => EventView::ResolutionTimedOut,
    }
}

/// A plan after as many answers.
pub open spec fn run(p: PlanView, a: Answers, steps: nat) -> PlanView
    decreases steps,
{
    if steps == 0 {
        p
    } else {
        run(PlanView { stage: p.next(answer(p.ask(), a)), ..p }, a, (steps - 1) as nat)
    }
}

/// Four answers are enough to come to a decision on a destination that was resolved before. A
/// payment under another generation than the current one is only decided on where the current one has
/// definitely failed and its invoice has expired or is above the cap; the new invoice was then
/// resolved for exactly the quoted cap, and persisted. In every other case the persisted invoice is
/// paid under its own key with its own amount, and a payment in flight is never quoted again.
pub proof fn new_generation_only_after_definite_failure(p: PlanView, a: Answers)
    requires
        p.valid(),
        p.stage is CurrentStatus,
    ensures
        run(p, a, 4).stage is Finished,
        run(p, a, 4).stage matches StageView::Finished(Ok(OutcomeView::Pay { bolt11, gen, pay_sat }))
            ==> {
            ||| {
                &&& gen == p.gen
                &&& bolt11 == p.persisted
                &&& pay_sat == p.persisted_sat
                &&& a.status == Ok::<PayStatus, Seq<char>>(PayStatus::Failed) ==> (a.quote
                    matches Ok(cap) && pay_sat <= cap && !p.expired())
            }
            ||| {
                &&& gen == p.gen + 1
                &&& a.status == Ok::<PayStatus, Seq<char>>(PayStatus::Failed)
                &&& a.quote == Ok::<u64, Seq<char>>(pay_sat)
                &&& p.expired() || p.persisted_sat > pay_sat
                &&& a.resolution matches Some(Ok(r))
                &&& bolt11 == r.0
                &&& a.persisted == Ok::<bool, Seq<char>>(true)
            }
        },
        (a.status == Ok::<PayStatus, Seq<char>>(PayStatus::Pending) || a.status == Ok::<
            PayStatus,
            Seq<char>,
        >(PayStatus::Unknown)) ==> run(p, a, 1).stage == PlanView::pay(
            p.persisted,
            p.gen,
            p.persisted_sat,
        ),
{
    reveal_with_fuel(run, 5);
}

/// A destination that was never resolved is paid as generation one, with exactly the quoted cap, and
/// only once the invoice for it is persisted.
pub proof fn first_generation_pays_the_quoted_cap(p: PlanView, a: Answers)
    requires
        p.valid(),
        p.stage is FirstQuote,
    ensures
        run(p, a, 3).stage is Finished,
        run(p, a, 3).stage matches StageView::Finished(Ok(OutcomeView::Pay { bolt11, gen, pay_sat }))
            ==> {
            &&& gen == 1
            &&& a.quote == Ok::<u64, Seq<char>>(pay_sat)
            &&& pay_sat > 0
            &&& a.resolution matches Some(Ok(r))
            &&& bolt11 == r.0
            &&& a.persisted == Ok::<bool, Seq<char>>(true)
        },
{
    reveal_with_fuel(run, 4);
}

/// A buyer's own invoice is paid as it is, under generation zero. A payment that may be in flight is
/// taken up again without a quote; a new one is only begun where the invoice is within the cap.
pub proof fn fixed_invoice_is_paid_as_it_is(p: PlanView, a: Answers)
    requires
        p.valid(),
        p.stage is ZeroStatus,
    ensures
        run(p, a, 3).stage is Finished,
        run(p, a, 3).stage matches StageView::Finished(Ok(OutcomeView::Pay { bolt11, gen, pay_sat }))
            ==> {
            &&& gen == 0
            &&& bolt11 == p.dest
            &&& pay_sat == p.stage->ZeroStatus_sat
            &&& {
                ||| a.status == Ok::<PayStatus, Seq<char>>(PayStatus::Pending)
                ||| {
                    &&& a.status == Ok::<PayStatus, Seq<char>>(PayStatus::Unknown)
                    &&& a.started == Ok::<bool, Seq<char>>(true)
                }
                ||| (a.quote matches Ok(cap) && pay_sat <= cap)
            }
        },
{
    reveal_with_fuel(run, 4);
}

/// Every decision on a buyer's own invoice, by what the backend said. It counts as sent exactly where
/// its status is that it succeeded. It is paid, as generation zero and as it is, exactly where it may
/// be in flight, or where it is not and a positive cap has room for it: an attempt that failed is paid
/// again. It is given up exactly where the cap has no room for it, and put off where the backend gave
/// no answer.
pub proof fn fixed_invoice_decisions(p: PlanView, a: Answers)
    requires
        p.valid(),
        p.stage is ZeroStatus,
    ensures
        ({
            let sat = p.stage->ZeroStatus_sat;
            let end = run(p, a, 3).stage;
            let failed = a.status == Ok::<PayStatus, Seq<char>>(PayStatus::Failed);
            let unknown = a.status == Ok::<PayStatus, Seq<char>>(PayStatus::Unknown);
            let quoted = failed || unknown && a.started == Ok::<bool, Seq<char>>(false);
            &&& end == StageView::Finished(
                Ok::<OutcomeView, ErrorView>(
                    OutcomeView::Pay { bolt11: p.dest, gen: 0, pay_sat: sat },
                ),
            ) <==> {
                ||| a.status == Ok::<PayStatus, Seq<char>>(PayStatus::Pending)
                ||| unknown && a.started == Ok::<bool, Seq<char>>(true)
                ||| quoted && (a.quote matches Ok(cap) && cap > 0 && sat <= cap)
            }
            &&& end == StageView::Finished(
                Ok::<OutcomeView, ErrorView>(OutcomeView::AlreadySent { pay_sat: sat }),
            ) <==> a.status == Ok::<PayStatus, Seq<char>>(PayStatus::Succeeded)
            &&& (end matches StageView::Finished(Err(ErrorView::Transient(_)))) <==> {
                ||| a.status is Err
                ||| unknown && a.started is Err
                ||| quoted && a.quote is Err
            }
            &&& (end matches StageView::Finished(Err(ErrorView::Permanent(_)))) <==> quoted && (
            a.quote matches Ok(cap) && (cap == 0 || sat > cap))
        }),
{
    reveal_with_fuel(run, 4);
}

/// Every decision on a destination that was never resolved, by what came back. It is paid, as
/// generation one and with the whole quoted cap, exactly where the cap is positive and can be written
/// in millisatoshis, an invoice was resolved and it was persisted; where the row was no longer pending
/// it is left alone. It is given up exactly where the cap cannot be paid out or resolving failed for
/// good, put off in every other case, and never counts as sent.
pub proof fn unresolved_destination_decisions(p: PlanView, a: Answers)
    requires
        p.valid(),
        p.stage is FirstQuote,
    ensures
        ({
            let end = run(p, a, 3).stage;
            let asked = a.quote matches Ok(cap) && cap > 0 && cap * 1000 <= u64::MAX;
            let found = asked && a.resolution matches Some(Ok(_));
            &&& found && a.persisted == Ok::<bool, Seq<char>>(true) <==> end
                == StageView::Finished(
                Ok::<OutcomeView, ErrorView>(
                    OutcomeView::Pay {
                        bolt11: (a.resolution->0->Ok_0).0,
                        gen: 1,
                        pay_sat: a.quote->Ok_0,
                    },
                ),
            )
            &&& end == StageView::Finished(Ok::<OutcomeView, ErrorView>(OutcomeView::Skip)) <==> found
                && a.persisted == Ok::<bool, Seq<char>>(false)
            &&& (end matches StageView::Finished(Err(ErrorView::Transient(_)))) <==> {
                ||| a.quote is Err
                ||| asked && a.resolution is None
                ||| asked && a.resolution matches Some(Err(ErrorView::Transient(_)))
                ||| found && a.persisted is Err
            }
            &&& (end matches StageView::Finished(Err(ErrorView::Permanent(_)))) <==> {
                ||| a.quote matches Ok(cap) && (cap == 0 || cap * 1000 > u64::MAX)
                ||| asked && a.resolution matches Some(Err(ErrorView::Permanent(_)))
            }
            &&& !(end matches StageView::Finished(Ok(OutcomeView::AlreadySent { .. })))
        }),
{
    reveal_with_fuel(run, 4);
}

/// Every decision on a destination that was resolved before, by what came back. It counts as sent
/// exactly where the current generation succeeded. The persisted invoice is paid under its own
/// generation where that may be in flight or unknown, and where it failed but is neither expired nor
/// above a positive cap; an invoice without an expiry has expired at every time from zero on. Where it
/// failed and is expired or above the cap, the next generation is paid with the whole cap once its
/// invoice was resolved and persisted.
pub proof fn resolved_destination_decisions(p: PlanView, a: Answers)
    requires
        p.valid(),
        p.stage is CurrentStatus,
    ensures
        ({
            let end = run(p, a, 4).stage;
            let failed = a.status == Ok::<PayStatus, Seq<char>>(PayStatus::Failed);
            let stale = match p.resolved_expiry {
                Some(e) => p.now >= e,
                None => p.now >= 0,
            };
            let dropped = failed && (a.quote matches Ok(cap) && cap > 0 && (stale
                || p.persisted_sat > cap));
            let asked = dropped && a.quote->Ok_0 * 1000 <= u64::MAX;
            let found = asked && a.resolution matches Some(Ok(_));
            &&& end == StageView::Finished(
                Ok::<OutcomeView, ErrorView>(OutcomeView::AlreadySent { pay_sat: p.persisted_sat }),
            ) <==> a.status == Ok::<PayStatus, Seq<char>>(PayStatus::Succeeded)
            &&& {
                ||| a.status == Ok::<PayStatus, Seq<char>>(PayStatus::Pending)
                ||| a.status == Ok::<PayStatus, Seq<char>>(PayStatus::Unknown)
                ||| failed && (a.quote matches Ok(cap) && cap > 0 && !stale && p.persisted_sat
                    <= cap)
            } <==> end == StageView::Finished(
                Ok::<OutcomeView, ErrorView>(
                    OutcomeView::Pay { bolt11: p.persisted, gen: p.gen, pay_sat: p.persisted_sat },
                ),
            )
            &&& found && a.persisted == Ok::<bool, Seq<char>>(true) <==> end
                == StageView::Finished(
                Ok::<OutcomeView, ErrorView>(
                    OutcomeView::Pay {
                        bolt11: (a.resolution->0->Ok_0).0,
                        gen: (p.gen + 1) as i64,
                        pay_sat: a.quote->Ok_0,
                    },
                ),
            )
            &&& end == StageView::Finished(Ok::<OutcomeView, ErrorView>(OutcomeView::Skip)) <==> found
                && a.persisted == Ok::<bool, Seq<char>>(false)
            &&& (end matches StageView::Finished(Err(ErrorView::Transient(_)))) <==> {
                ||| a.status is Err
                ||| failed && a.quote is Err
                ||| asked && a.resolution is None
                ||| asked && a.resolution matches Some(Err(ErrorView::Transient(_)))
                ||| found && a.persisted is Err
            }
            &&& (end matches StageView::Finished(Err(ErrorView::Permanent(_)))) <==> {
                ||| failed && a.quote == Ok::<u64, Seq<char>>(0)
                ||| dropped && !asked
                ||| asked && a.resolution matches Some(Err(ErrorView::Permanent(_)))
            }
        }),
{
    reveal_with_fuel(run, 5);
}

// ---- provenance ------------------------------------------------------------------------------

/// Whether an invoice shows received funds.
pub open spec fn received_funds(i: Invoice) -> bool {
    i.status == InvoiceStatus::Paid || i.settled_at is Some
}

/// Whether an event journals a received payment that has to go back.
pub open spec fn is_settle_refund(k: EventKind) -> bool {
    k == EventKind::SettleUnmatchedRefund || k == EventKind::SettleTerminalRefund || k
        == EventKind::SettleOrphanRefund || k == EventKind::SettleExpiredRefund
}

/// Whether an event journals that a payment with this external id has to go back.
pub open spec fn is_receipt(e: Event, ext: Seq<char>) -> bool {
    is_settle_refund(e.kind) && (e.detail matches EventDetail::Settlement { receipt, .. }
        && is_text(receipt, ext))
}

/// The amount that such an event journals.
pub open spec fn receipt_amount(e: Event) -> Option<i64> {
    match e.detail {
        EventDetail::Settlement { amount_sat, .. } => amount_sat,
        _ => None,
    }
}

/// Whether such an event journals its amount as a whole number, or none at all.
pub open spec fn has_whole_amount(e: Event) -> bool {
    e.detail matches EventDetail::Settlement { whole, .. } && whole
}

/// Being an invoice of this external id that shows received funds.
pub open spec fn paid_invoice_of(ext: Seq<char>) -> spec_fn(Invoice) -> bool {
    |i: Invoice| i.external_id@ == ext && received_funds(i)
}

/// Being a journaled receipt of this external id.
pub open spec fn receipt_of(ext: Seq<char>) -> spec_fn(Event) -> bool {
    |e: Event| is_receipt(e, ext)
}

/// What was received for an external id: the amount of the invoice that shows received funds, if
/// there is one, or else of the first journaled receipt.
pub open spec fn received_amount(t: Tables, ext: Seq<char>) -> Option<i64> {
    let i = first_where(t.invoices@, paid_invoice_of(ext)) as int;
    let e = first_where(t.events@, receipt_of(ext)) as int;
    if i < t.invoices@.len() {
        t.invoices@[i].amount_sat
    } else if e < t.events@.len() {
        receipt_amount(t.events@[e])
    } else {
        None
    }
}

/// Whether an event journals a received payment that has to go back.
pub fn settle_refund_kind(k: EventKind) -> (r: bool)
    ensures
        r == is_settle_refund(k),
{
    k == EventKind::SettleUnmatchedRefund || k == EventKind::SettleTerminalRefund || k
        == EventKind::SettleOrphanRefund || k == EventKind::SettleExpiredRefund
}

/// Being a journaled receipt that cannot be read.
pub open spec fn unreadable_receipt() -> spec_fn(Event) -> bool {
    |e: Event| is_settle_refund(e.kind) && !(e.detail is Settlement)
}

/// Whether some journaled receipt cannot be read.
pub fn has_unreadable_receipt(events: &Vec<Event>) -> (r: bool)
    ensures
        r == any(events@, unreadable_receipt()),
{
    let mut i: usize = 0;
    while i < events.len()
        invariant
            i <= events@.len(),
            forall|k: int| 0 <= k < i ==> !unreadable_receipt()(#[trigger] events@[k]),
        decreases events@.len() - i,
    {
        let e = &events[i];
        if settle_refund_kind(e.kind) && !matches!(e.detail, EventDetail::Settlement { .. }) {
            assert(unreadable_receipt()(events@[i as int]));
            return true;
        }
        i = i + 1;
    }
    false
}

/// Why the event log does not tell what was received.
#[derive(Clone, Copy, Debug, PartialEq, Eq, Structural)]
pub enum ReceiptError {
    /// Some journaled receipt cannot be read.
    Unreadable,
    /// The amount of the receipt is no whole number.
    NotWhole,
}

/// Why the event log does not tell what was received for an external id that no invoice shows.
pub open spec fn receipt_fault(events: Seq<Event>, ext: Seq<char>) -> Option<ReceiptError> {
    let at = first_where(events, receipt_of(ext)) as int;
    if any(events, unreadable_receipt()) {
        Some(ReceiptError::Unreadable)
    } else if at < events.len() && !has_whole_amount(events[at]) {
        Some(ReceiptError::NotWhole)
    } else {
        None
    }
}

/// Whether this is what looking up what was received comes to: an invoice that shows received funds
/// answers before any journaled receipt is looked at.
pub open spec fn is_lookup_of(
    r: Result<Option<i64>, ReceiptError>,
    t: Tables,
    ext: Seq<char>,
) -> bool {
    match r {
        Ok(amount) => amount == received_amount(t, ext) && (any(t.invoices@, paid_invoice_of(ext))
            || receipt_fault(t.events@, ext) is None),
        Err(e) => !any(t.invoices@, paid_invoice_of(ext)) && receipt_fault(t.events@, ext) == Some(
            e,
        ),
    }
}

/// What was received for an external id. Where an invoice shows received funds its amount decides,
/// also when it is missing; the event log only covers payments without an invoice. It is not gone by
/// where a receipt cannot be read, nor where the amount of the receipt in question is no whole number.
pub fn lookup_received_amount(t: &Tables, external_id: &str) -> (r: Result<Option<i64>, ReceiptError>)
    ensures
        is_lookup_of(r, *t, external_id@),
{
    let ghost p = paid_invoice_of(external_id@);
    let mut i: usize = 0;
    while i < t.invoices.len()
        invariant
            i <= t.invoices@.len(),
            p == paid_invoice_of(external_id@),
            forall|k: int| 0 <= k < i ==> !p(#[trigger] t.invoices@[k]),
        decreases t.invoices@.len() - i,
    {
        let v = &t.invoices[i];
        if same(&v.external_id, external_id) && (v.status == InvoiceStatus::Paid
            || v.settled_at.is_some()) {
            proof {
                lemma_first_where_at(t.invoices@, p, i as int);
                assert(p(t.invoices@[i as int]));
            }
            return Ok(v.amount_sat);
        }
        i = i + 1;
    }
    proof {
        lemma_first_where_at(t.invoices@, p, i as int);
    }
    if has_unreadable_receipt(&t.events) {
        return Err(ReceiptError::Unreadable);
    }
    let ghost q = receipt_of(external_id@);
    let mut j: usize = 0;
    while j < t.events.len()
        invariant
            j <= t.events@.len(),
            q == receipt_of(external_id@),
            first_where(t.invoices@, paid_invoice_of(external_id@)) == t.invoices@.len(),
            !any(t.invoices@, paid_invoice_of(external_id@)),
            !any(t.events@, unreadable_receipt()),
            forall|k: int| 0 <= k < j ==> !q(#[trigger] t.events@[k]),
        decreases t.events@.len() - j,
    {
        let e = &t.events[j];
        if settle_refund_kind(e.kind) {
            if let EventDetail::Settlement { receipt, amount_sat, whole } = &e.detail {
                if holds_text(receipt, external_id) {
                    proof {
                        lemma_first_where_at(t.events@, q, j as int);
                    }
                    if !*whole {
                        return Err(ReceiptError::NotWhole);
                    }
                    return Ok(*amount_sat);
                }
            }
        }
        j = j + 1;
    }
    proof {
        lemma_first_where_at(t.events@, q, j as int);
    }
    Ok(None)
}

/// Whether a refund answers to a payment that was received.
#[derive(Clone, Debug)]
pub enum ProvenanceCheck {
    /// The gross that was received: positive, and the amount of the refund.
    Received(u64),
    /// There is no such payment, or it does not match.
    Forbidden(String),
}

/// [`ProvenanceCheck`] as a mathematical value.
pub open spec fn provenance_of(received: Option<i64>, amount_sat: Option<i64>, ext: Seq<char>) -> Result<
    u64,
    Seq<char>,
> {
    let head = "refund without matching received payment — forbidden: "@;
    match received {
        None => Err(head + "no received-payment provenance for "@ + ext),
        Some(a) => if a <= 0 {
            Err(head + "provenance for "@ + ext + " has a non-positive received amount"@)
        } else {
            match amount_sat {
                Some(b) => if a == b {
                    Ok(a as u64)
                } else {
                    Err(
                        head + "refund amount "@ + decimal(b as int) + " != received "@ + decimal(
                            a as int,
                        ) + " for "@ + ext,
                    )
                },
                None => Err(
                    head + "refund row has no amount but "@ + decimal(a as int)
                        + " was received for "@ + ext,
                ),
            }
        },
    }
}

/// Holds a refund's amount against what was received for its external id. No such payment, one
/// without a positive amount, or one of another amount forbids the refund.
pub fn verify_refund_provenance(received: Option<i64>, amount_sat: Option<i64>, external_id: &str) -> (r:
    ProvenanceCheck)
    ensures
        match r {
            ProvenanceCheck::Received(n) => provenance_of(received, amount_sat, external_id@) == Ok::<
                u64,
                Seq<char>,
            >(n),
            ProvenanceCheck::Forbidden(m) => provenance_of(received, amount_sat, external_id@)
                == Err::<u64, Seq<char>>(m@),
        },
{
    let head = "refund without matching received payment — forbidden: ";
    match received {
        None => ProvenanceCheck::Forbidden(
            cat3(head, "no received-payment provenance for ", external_id),
        ),
        Some(a) => {
            if a <= 0 {
                let m = cat3(head, "provenance for ", external_id);
                return ProvenanceCheck::Forbidden(
                    cat2(&m, " has a non-positive received amount"),
                );
            }
            let got = decimal_text(a as i128);
            match amount_sat {
                Some(b) => {
                    if a == b {
                        ProvenanceCheck::Received(a as u64)
                    } else {
                        let want = decimal_text(b as i128);
                        let m = cat5(head, "refund amount ", &want, " != received ", &got);
                        ProvenanceCheck::Forbidden(cat3(&m, " for ", external_id))
                    }
                },
                None => {
                    ProvenanceCheck::Forbidden(
                        cat5(
                            head,
                            "refund row has no amount but ",
                            &got,
                            " was received for ",
                            external_id,
                        ),
                    )
                },
            }
        },
    }
}

/// A refund has provenance exactly where a positive amount was received and the row owes just that
/// amount, which is then the gross.
pub proof fn provenance_is_an_equal_positive_receipt(
    received: Option<i64>,
    amount_sat: Option<i64>,
    ext: Seq<char>,
)
    ensures
        provenance_of(received, amount_sat, ext) is Ok <==> received is Some && amount_sat is Some
            && received->0 == amount_sat->0 && amount_sat->0 > 0,
        provenance_of(received, amount_sat, ext) matches Ok(gross) ==> gross == amount_sat->0,
{
}

/// What counts as received for an external id comes from a row of its own: from an invoice with that
/// id that is paid or settled, none before it being so, or, where there is no such invoice, from the
/// first journaled payment with that id that has to go back. Where there is neither, nothing was
/// received.
pub proof fn receipt_comes_from_its_own_row(t: Tables, ext: Seq<char>, i: int)
    ensures
        ({
            let paid = |x: Invoice|
                x.external_id@ == ext && (x.status == InvoiceStatus::Paid || x.settled_at is Some);
            let back = |e: Event|
                {
                    &&& e.kind == EventKind::SettleUnmatchedRefund || e.kind
                        == EventKind::SettleTerminalRefund || e.kind
                        == EventKind::SettleOrphanRefund || e.kind == EventKind::SettleExpiredRefund
                    &&& e.detail matches EventDetail::Settlement { receipt: Some(x), .. }
                    &&& x@ == ext
                };
            let no_invoice = forall|k: int|
                0 <= k < t.invoices@.len() ==> !paid(#[trigger] t.invoices@[k]);
            &&& 0 <= i < t.invoices@.len() && paid(t.invoices@[i]) && (forall|k: int|
                0 <= k < i ==> !paid(#[trigger] t.invoices@[k])) ==> received_amount(t, ext)
                == t.invoices@[i].amount_sat
            &&& no_invoice && 0 <= i < t.events@.len() && back(t.events@[i]) && (forall|k: int|
                0 <= k < i ==> !back(#[trigger] t.events@[k])) ==> received_amount(t, ext)
                == t.events@[i].detail->Settlement_amount_sat
            &&& no_invoice && (forall|k: int|
                0 <= k < t.events@.len() ==> !back(#[trigger] t.events@[k])) ==> received_amount(
                t,
                ext,
            ) is None
        }),
{
    let paid = paid_invoice_of(ext);
    let back = receipt_of(ext);
    lemma_first_where(t.invoices@, paid);
    lemma_first_where(t.events@, back);
    let n = first_where(t.invoices@, paid) as int;
    let m = first_where(t.events@, back) as int;
    if 0 <= i < t.invoices@.len() && paid(t.invoices@[i]) && (forall|k: int|
        0 <= k < i ==> !paid(#[trigger] t.invoices@[k])) {
        lemma_first_where_at(t.invoices@, paid, i);
    }
    if 0 <= i < t.events@.len() && back(t.events@[i]) && (forall|k: int|
        0 <= k < i ==> !back(#[trigger] t.events@[k])) {
        lemma_first_where_at(t.events@, back, i);
    }
    if n < t.invoices@.len() {
        assert(paid(t.invoices@[n]));
    }
    if m < t.events@.len() {
        assert(back(t.events@[m]));
    }
}

/// A journaled payment that has to go back stops the drive exactly where its document cannot be read,
/// whichever payment it is of, or where the first of the refund's own states an amount that is no whole
/// number.
pub proof fn receipt_is_read_or_refused(events: Seq<Event>, ext: Seq<char>, i: int)
    ensures
        ({
            let settles = |e: Event|
                e.kind == EventKind::SettleUnmatchedRefund || e.kind
                    == EventKind::SettleTerminalRefund || e.kind == EventKind::SettleOrphanRefund
                    || e.kind == EventKind::SettleExpiredRefund;
            let back = |e: Event|
                {
                    &&& settles(e)
                    &&& e.detail matches EventDetail::Settlement { receipt: Some(x), .. }
                    &&& x@ == ext
                };
            let unread = exists|k: int|
                0 <= k < events.len() && settles(#[trigger] events[k]) && !(
                events[k].detail is Settlement);
            &&& receipt_fault(events, ext) == Some(ReceiptError::Unreadable) <==> unread
            &&& !unread && 0 <= i < events.len() && back(events[i]) && (forall|k: int|
                0 <= k < i ==> !back(#[trigger] events[k])) ==> (receipt_fault(events, ext) == Some(
                ReceiptError::NotWhole,
            ) <==> !events[i].detail->Settlement_whole)
            &&& !unread && (forall|k: int|
                0 <= k < events.len() ==> !back(#[trigger] events[k])) ==> receipt_fault(events, ext)
                is None
        }),
{
    let back = receipt_of(ext);
    let settles = |e: Event|
        e.kind == EventKind::SettleUnmatchedRefund || e.kind == EventKind::SettleTerminalRefund
            || e.kind == EventKind::SettleOrphanRefund || e.kind == EventKind::SettleExpiredRefund;
    lemma_first_where(events, back);
    if 0 <= i < events.len() && back(events[i]) && (forall|k: int|
        0 <= k < i ==> !back(#[trigger] events[k])) {
        lemma_first_where_at(events, back, i);
    }
    if any(events, unreadable_receipt()) {
        let k = choose|k: int| 0 <= k < events.len() && unreadable_receipt()(#[trigger] events[k]);
        assert(settles(events[k]) && !(events[k].detail is Settlement));
    }
    if exists|k: int|
        0 <= k < events.len() && settles(#[trigger] events[k]) && !(events[k].detail is Settlement) {
        let k = choose|k: int|
            0 <= k < events.len() && settles(#[trigger] events[k]) && !(
            events[k].detail is Settlement);
        assert(unreadable_receipt()(events[k]));
    }
    let m = first_where(events, back) as int;
    if m < events.len() {
        assert(back(events[m]));
    }
}

/// A refund without provenance says that it is forbidden and names the payment that it would have to
/// answer to.
pub proof fn forbidden_refund_names_its_payment(
    received: Option<i64>,
    amount_sat: Option<i64>,
    ext: Seq<char>,
)
    ensures
        provenance_of(received, amount_sat, ext) matches Err(m) ==> {
            &&& has_prefix(m, "refund without matching received payment — forbidden: "@)
            &&& has_part(m, ext)
        },
{
    let head = "refund without matching received payment — forbidden: "@;
    if let Err(m) = provenance_of(received, amount_sat, ext) {
        assert(m.take(head.len() as int) =~= head);
        if received is Some && received->0 <= 0 {
            let n = (head + "provenance for "@).len() as int;
            assert(m.subrange(n, n + ext.len()) =~= ext);
        } else {
            let n = m.len() - ext.len();
            assert(m.subrange(n, n + ext.len()) =~= ext);
        }
    }
}

// ---- draining one row ------------------------------------------------------------------------

/// A pending refund, with the buyer's key for the message about it.
#[derive(Clone, Debug)]
pub struct RefundRow {
    pub id: String,
    pub subscription_id: Option<String>,
    pub dest: Option<String>,
    pub amount_sat: Option<i64>,
    pub idempotency_key: String,
    pub recipient: Option<String>,
    pub resolved_bolt11: Option<String>,
    pub resolved_expiry: Option<i64>,
    pub resolution_gen: i64,
    pub created_at: i64,
}

impl RefundRow {
    /// The external id behind the row.
    pub open spec fn ext(self) -> Seq<char> {
        external_id(self.idempotency_key@, self.id@)
    }

    /// The destination without surrounding white space; empty where there is none.
    pub open spec fn clean_dest(self) -> Seq<char> {
        match self.dest {
            Some(d) => trimmed(d@),
            None => Seq::empty(),
        }
    }

    /// The recorded gross, zero where it is missing or negative.
    pub open spec fn stored_gross(self) -> u64 {
        match self.amount_sat {
            Some(a) => if a > 0 {
                a as u64
            } else {
                0
            },
            None => 0,
        }
    }

    /// The external id behind the row.
    pub fn external_id_of(&self) -> (r: String)
        ensures
            r@ == self.ext(),
    {
        external_id_from(&self.idempotency_key, &self.id)
    }
}

/// Which commit records the outcome of a drive.
#[derive(Clone, Debug)]
pub enum Commit {
    /// [`commit_sent`]: the refund went out, `pay_sat` of it to the buyer.
    Sent { backend_payment_id: Option<String>, pay_sat: u64 },
    /// [`commit_park_failed`]: the refund can never be paid by itself.
    Park { amount: u64, reason: String },
    /// [`commit_pay_failure`]: a payment failed; `definite` is whether it is known to have.
    PayFailure { amount: u64, definite: bool },
    /// [`commit_resolution_retry`]: nothing was paid this time.
    Retry { reason: String },
    /// The row is no longer pending.
    Nothing,
}

/// [`Commit`] as a mathematical value.
pub enum CommitView {
    Sent { backend_payment_id: Option<Seq<char>>, pay_sat: u64 },
    Park { amount: u64, reason: Seq<char> },
    PayFailure { amount: u64, definite: bool },
    Retry { reason: Seq<char> },
    Nothing,
}

impl View for Commit {
    type V = CommitView;

    open spec fn view(&self) -> CommitView {
        match self {
            Commit::Sent { backend_payment_id, pay_sat } => CommitView::Sent {
                backend_payment_id: opt_view(*backend_payment_id),
                pay_sat: *pay_sat,
            },
            Commit::Park { amount, reason } => CommitView::Park { amount: *amount, reason: reason@ },
            Commit::PayFailure { amount, definite } => CommitView::PayFailure {
                amount: *amount,
                definite: *definite,
            },
            Commit::Retry { reason } => CommitView::Retry { reason: reason@ },
            Commit::Nothing => CommitView::Nothing,
        }
    }
}

/// Where the drive of a row stands.
#[derive(Debug)]
pub enum DrainStage {
    Planning(Plan),
    /// Whether the generation was paid before.
    CheckPaid { bolt11: String, gen: i64, pay_sat: u64 },
    /// What came of the payment.
    Paying { bolt11: String, gen: i64, pay_sat: u64 },
    /// The status of a payment that reported an error.
    AfterError { gen: i64, pay_sat: u64 },
    Finished(Commit),
}

/// [`DrainStage`] as a mathematical value.
pub enum DrainView {
    Planning(PlanView),
    CheckPaid { bolt11: Seq<char>, gen: i64, pay_sat: u64 },
    Paying { bolt11: Seq<char>, gen: i64, pay_sat: u64 },
    AfterError { gen: i64, pay_sat: u64 },
    Finished(CommitView),
}

impl View for DrainStage {
    type V = DrainView;

    open spec fn view(&self) -> DrainView {
        match self {
            DrainStage::Planning(p) => DrainView::Planning(p@),
            DrainStage::CheckPaid { bolt11, gen, pay_sat } => DrainView::CheckPaid {
                bolt11: bolt11@,
                gen: *gen,
                pay_sat: *pay_sat,
            },
            DrainStage::Paying { bolt11, gen, pay_sat } => DrainView::Paying {
                bolt11: bolt11@,
                gen: *gen,
                pay_sat: *pay_sat,
            },
            DrainStage::AfterError { gen, pay_sat } => DrainView::AfterError {
                gen: *gen,
                pay_sat: *pay_sat,
            },
            DrainStage::Finished(c) => DrainView::Finished(c@),
        }
    }
}

/// An answer to what a drive asked for.
#[derive(Debug)]
pub enum DrainEvent {
    Answer(PlanEvent),
    /// The backend's payment id, or the error that paying reported.
    Paid(Result<String, String>),
}

/// [`DrainEvent`] as a mathematical value.
pub enum DrainEventView {
    Answer(EventView),
    Paid(Result<Seq<char>, Seq<char>>),
}

impl View for DrainEvent {
    type V = DrainEventView;

    open spec fn view(&self) -> DrainEventView {
        match self {
            DrainEvent::Answer(e) => DrainEventView::Answer(e@),
            DrainEvent::Paid(r) => DrainEventView::Paid(
                match *r {
                    Ok(id) => Ok(id@),
                    Err(e) => Err(e@),
                },
            ),
        }
    }
}

/// What the drive of a row asks to be done next.
#[derive(Debug)]
pub enum DrainAsk {
    Plan(PlanAsk),
    /// Pay `pay_sat` to `bolt11` under `key`, never laying out more than `gross`.
    Pay { bolt11: String, pay_sat: u64, gross: u64, key: String },
    Commit(Commit),
}

/// [`DrainAsk`] as a mathematical value.
pub enum DrainAskView {
    Plan(AskView),
    Pay { bolt11: Seq<char>, pay_sat: u64, gross: u64, key: Seq<char> },
    Commit(CommitView),
}

impl View for DrainAsk {
    type V = DrainAskView;

    open spec fn view(&self) -> DrainAskView {
        match self {
            DrainAsk::Plan(a) => DrainAskView::Plan(a@),
            DrainAsk::Pay { bolt11, pay_sat, gross, key } => DrainAskView::Pay {
                bolt11: bolt11@,
                pay_sat: *pay_sat,
                gross: *gross,
                key: key@,
            },
            DrainAsk::Commit(c) => DrainAskView::Commit(c@),
        }
    }
}

/// What follows a plan: nothing while it is not finished.
pub open spec fn after_plan(p: PlanView) -> DrainView {
    match p.stage {
        StageView::Finished(Ok(OutcomeView::Pay { bolt11, gen, pay_sat })) => DrainView::CheckPaid {
            bolt11,
            gen,
            pay_sat,
        },
        StageView::Finished(Ok(OutcomeView::AlreadySent { pay_sat })) => DrainView::Finished(
            CommitView::Sent { backend_payment_id: None, pay_sat },
        ),
        StageView::Finished(Ok(OutcomeView::Skip)) => DrainView::Finished(CommitView::Nothing),
        StageView::Finished(Err(ErrorView::Permanent(reason))) => DrainView::Finished(
            CommitView::Park { amount: p.received, reason },
        ),
        StageView::Finished(Err(ErrorView::Transient(reason))) => DrainView::Finished(
            CommitView::Retry { reason },
        ),
        _ => DrainView::Planning(p),
    }
}

/// Where an answer leads, for a refund of which `received` was received. An answer to a question
/// that was not asked leads nowhere.
pub open spec fn drain_next(stage: DrainView, received: u64, event: DrainEventView) -> DrainView {
    match (stage, event) {
        (DrainView::Planning(p), DrainEventView::Answer(e)) => after_plan(
            PlanView { stage: p.next(e), ..p },
        ),
        (
            DrainView::CheckPaid { bolt11, gen, pay_sat },
            DrainEventView::Answer(EventView::Status(r)),
        ) => if r == Ok::<PayStatus, Seq<char>>(PayStatus::Succeeded) {
            DrainView::Finished(CommitView::Sent { backend_payment_id: None, pay_sat })
        } else {
            DrainView::Paying { bolt11, gen, pay_sat }
        },
        (DrainView::Paying { bolt11, gen, pay_sat }, DrainEventView::Paid(r)) => match r {
            Ok(id) => DrainView::Finished(
                CommitView::Sent { backend_payment_id: Some(id), pay_sat },
            ),
            Err(_) => DrainView::AfterError { gen, pay_sat },
        },
        (DrainView::AfterError { gen, pay_sat }, DrainEventView::Answer(EventView::Status(r))) => {
            DrainView::Finished(
                match r {
                    Ok(PayStatus::Succeeded) => CommitView::Sent {
                        backend_payment_id: None,
                        pay_sat,
                    },
                    Ok(PayStatus::Failed) => CommitView::PayFailure {
                        amount: received,
                        definite: true,
                    },
                    _ => CommitView::PayFailure { amount: received, definite: false },
                },
            )
        },
        _ => stage,
    }
}

/// What is asked for at a stage.
pub open spec fn drain_ask(stage: DrainView, ext: Seq<char>, received: u64) -> DrainAskView {
    match stage {
        DrainView::Planning(p) => DrainAskView::Plan(p.ask()),
        DrainView::CheckPaid { bolt11, gen, pay_sat } => DrainAskView::Plan(
            AskView::Status { key: pay_key(ext, gen as int) },
        ),
        DrainView::Paying { bolt11, gen, pay_sat } => DrainAskView::Pay {
            bolt11,
            pay_sat,
            gross: received,
            key: pay_key(ext, gen as int),
        },
        DrainView::AfterError { gen, pay_sat } => DrainAskView::Plan(
            AskView::Status { key: pay_key(ext, gen as int) },
        ),
        DrainView::Finished(c) => DrainAskView::Commit(c),
    }
}

/// Where the drive of a row starts. Provenance comes first: without a matching received payment the
/// refund is parked, whatever else is known of it. Then comes the destination, and then the plan.
pub open spec fn drain_start(
    row: RefundRow,
    received: Option<i64>,
    form: Result<FormView, ErrorView>,
    dest_sat: Result<u64, Seq<char>>,
    resolved_sat: Result<u64, Seq<char>>,
    now: i64,
) -> DrainView {
    match provenance_of(received, row.amount_sat, row.ext()) {
        Err(reason) => DrainView::Finished(CommitView::Park { amount: row.stored_gross(), reason }),
        Ok(gross) => if row.clean_dest().len() == 0 {
            DrainView::Finished(CommitView::Park { amount: gross, reason: "no destination"@ })
        } else {
            after_plan(
                PlanView {
                    external_id: row.ext(),
                    dest: row.clean_dest(),
                    received: gross,
                    now,
                    persisted: match row.resolved_bolt11 {
                        Some(b) => b@,
                        None => Seq::empty(),
                    },
                    persisted_sat: match resolved_sat {
                        Ok(n) => n,
                        Err(_) => gross,
                    },
                    resolved_expiry: row.resolved_expiry,
                    gen: row.resolution_gen,
                    stage: first_stage(form, dest_sat, row.resolved_bolt11 is Some),
                },
            )
        },
    }
}

/// The drive of one row: what was decided so far, and what it waits for.
#[derive(Debug)]
pub struct Drain {
    pub external_id: String,
    /// The gross that was received; zero where the refund is forbidden.
    pub received: u64,
    pub stage: DrainStage,
}

fn after(p: Plan) -> (r: DrainStage)
    requires
        p@.valid(),
    ensures
        r@ == after_plan(p@),
        r matches DrainStage::Planning(q) ==> q@.valid(),
{
    let received: u64 = p.received;
    match p.stage {
        PlanStage::Finished(Ok(PlanOutcome::Pay { bolt11, gen, pay_sat })) => DrainStage::CheckPaid {
            bolt11,
            gen,
            pay_sat,
        },
        PlanStage::Finished(Ok(PlanOutcome::AlreadySent { pay_sat })) => DrainStage::Finished(
            Commit::Sent { backend_payment_id: None, pay_sat },
        ),
        PlanStage::Finished(Ok(PlanOutcome::Skip)) => DrainStage::Finished(Commit::Nothing),
        PlanStage::Finished(Err(PlanError::Permanent(reason))) => DrainStage::Finished(
            Commit::Park { amount: received, reason },
        ),
        PlanStage::Finished(Err(PlanError::Transient(reason))) => DrainStage::Finished(
            Commit::Retry { reason },
        ),
        stage => DrainStage::Planning(Plan { stage, ..p }),
    }
}

impl Drain {
    /// What holds of a drive at every stage.
    pub open spec fn valid(self) -> bool {
        self.stage matches DrainStage::Planning(p) ==> p@.valid()
    }

    /// Begins the drive of a row from what was received for it, and what is known of its
    /// destination and of the invoice it was last resolved to.
    pub fn begin(
        row: &RefundRow,
        received: Option<i64>,
        form: Result<DestForm, ResolveError>,
        dest_sat: Result<u64, String>,
        resolved_sat: Result<u64, String>,
        now: i64,
    ) -> (r: Drain)
        requires
            row.resolution_gen < i64::MAX,
        ensures
            r.stage@ == drain_start(
                *row,
                received,
                crate::refund_resolver::form_result(form),
                sat_result(dest_sat),
                sat_result(resolved_sat),
                now,
            ),
            r.external_id@ == row.ext(),
            r.received == match provenance_of(received, row.amount_sat, row.ext()) {
                Ok(gross) => gross,
                Err(_) => 0,
            },
            r.valid(),
    {
        let external_id = row.external_id_of();
        let gross: u64 = match verify_refund_provenance(received, row.amount_sat, &external_id) {
            ProvenanceCheck::Received(gross) => gross,
            ProvenanceCheck::Forbidden(reason) => {
                let amount: u64 = match row.amount_sat {
                    Some(a) => {
                        if a > 0 {
                            a as u64
                        } else {
                            0
                        }
                    },
                    None => 0,
                };
                return Drain {
                    external_id,
                    received: 0,
                    stage: DrainStage::Finished(Commit::Park { amount, reason }),
                };
            },
        };
        let dest = match &row.dest {
            Some(d) => trim(d),
            None => String::new(),
        };
        if dest.as_str().is_empty() {
            let reason = owned("no destination");
            return Drain {
                external_id,
                received: gross,
                stage: DrainStage::Finished(Commit::Park { amount: gross, reason }),
            };
        }
        let plan = Plan::begin(
            external_id.clone(),
            dest,
            form,
            dest_sat,
            row.resolved_bolt11.clone(),
            resolved_sat,
            row.resolved_expiry,
            row.resolution_gen,
            gross,
            now,
        );
        Drain { external_id, received: gross, stage: after(plan) }
    }

    /// Begins the drive of a row, from what was received for it.
    pub fn start(row: &RefundRow, received: Option<i64>, now: i64) -> (r: Drain)
        requires
            row.resolution_gen < i64::MAX,
        ensures
            r.stage@ == drain_start(
                *row,
                received,
                form_of(row.clean_dest()),
                whole_sat_of(bolt11(row.clean_dest())),
                whole_sat_of(
                    bolt11(
                        match row.resolved_bolt11 {
                            Some(b) => b@,
                            None => Seq::empty(),
                        },
                    ),
                ),
                now,
            ),
            r.external_id@ == row.ext(),
            r.received == match provenance_of(received, row.amount_sat, row.ext()) {
                Ok(gross) => gross,
                Err(_) => 0,
            },
            r.valid(),
    {
        let dest = match &row.dest {
            Some(d) => trim(d),
            None => String::new(),
        };
        let persisted = match &row.resolved_bolt11 {
            Some(b) => b.clone(),
            None => String::new(),
        };
        Drain::begin(
            row,
            received,
            detect_form(&dest),
            parse_whole_sat(&dest),
            parse_whole_sat(&persisted),
            now,
        )
    }

    /// What is to be done next.
    pub fn ask(&self) -> (r: DrainAsk)
        requires
            self.valid(),
        ensures
            r@ == drain_ask(self.stage@, self.external_id@, self.received),
    {
        match &self.stage {
            DrainStage::Planning(p) => DrainAsk::Plan(p.ask()),
            DrainStage::CheckPaid { bolt11, gen, pay_sat } => DrainAsk::Plan(
                PlanAsk::Status { key: gen_key(&self.external_id, *gen) },
            ),
            DrainStage::Paying { bolt11, gen, pay_sat } => DrainAsk::Pay {
                bolt11: bolt11.clone(),
                pay_sat: *pay_sat,
                gross: self.received,
                key: gen_key(&self.external_id, *gen),
            },
            DrainStage::AfterError { gen, pay_sat } => DrainAsk::Plan(
                PlanAsk::Status { key: gen_key(&self.external_id, *gen) },
            ),
            DrainStage::Finished(Commit::Sent { backend_payment_id, pay_sat }) => DrainAsk::Commit(
                Commit::Sent { backend_payment_id: backend_payment_id.clone(), pay_sat: *pay_sat },
            ),
            DrainStage::Finished(Commit::Park { amount, reason }) => DrainAsk::Commit(
                Commit::Park { amount: *amount, reason: reason.clone() },
            ),
            DrainStage::Finished(Commit::PayFailure { amount, definite }) => DrainAsk::Commit(
                Commit::PayFailure { amount: *amount, definite: *definite },
            ),
            DrainStage::Finished(Commit::Retry { reason }) => DrainAsk::Commit(
                Commit::Retry { reason: reason.clone() },
            ),
            DrainStage::Finished(Commit::Nothing) => DrainAsk::Commit(Commit::Nothing),
        }
    }

    /// Takes the answer to what was asked.
    pub fn step(self, event: DrainEvent) -> (r: Drain)
        requires
            self.valid(),
        ensures
            r.stage@ == drain_next(self.stage@, self.received, event@),
            r.external_id == self.external_id,
            r.received == self.received,
            r.valid(),
    {
        let received: u64 = self.received;
        let stage = match (self.stage, event) {
            (DrainStage::Planning(p), DrainEvent::Answer(e)) => after(p.step(e)),
            (
                DrainStage::CheckPaid { bolt11, gen, pay_sat },
                DrainEvent::Answer(PlanEvent::Status(r)),
            ) => match r {
                Ok(PayStatus::Succeeded) => DrainStage::Finished(
                    Commit::Sent { backend_payment_id: None, pay_sat },
                ),
                _ => DrainStage::Paying { bolt11, gen, pay_sat },
            },
            (DrainStage::Paying { bolt11, gen, pay_sat }, DrainEvent::Paid(r)) => match r {
                Ok(id) => DrainStage::Finished(
                    Commit::Sent { backend_payment_id: Some(id), pay_sat },
                ),
                Err(_) => DrainStage::AfterError { gen, pay_sat },
            },
            (
                DrainStage::AfterError { gen, pay_sat },
                DrainEvent::Answer(PlanEvent::Status(r)),
            ) => DrainStage::Finished(
                match r {
                    Ok(PayStatus::Succeeded) => Commit::Sent { backend_payment_id: None, pay_sat },
                    Ok(PayStatus::Failed) => Commit::PayFailure { amount: received, definite: true },
                    _ => Commit::PayFailure { amount: received, definite: false },
                },
            ),
            (stage, _) => stage,
        };
        Drain { stage, ..self }
    }
}

/// A drive after a sequence of answers.
pub open spec fn drain_run(stage: DrainView, received: u64, events: Seq<DrainEventView>) -> DrainView
    decreases events.len(),
{
    if events.len() == 0 {
        stage
    } else {
        drain_next(drain_run(stage, received, events.drop_last()), received, events.last())
    }
}

/// A decision stands, whatever is said afterwards.
pub proof fn decision_is_final(c: CommitView, received: u64, events: Seq<DrainEventView>)
    ensures
        drain_run(DrainView::Finished(c), received, events) == DrainView::Finished(c),
    decreases events.len(),
{
    if events.len() > 0 {
        decision_is_final(c, received, events.drop_last());
    }
}

/// Nothing is ever paid for a refund that no received payment of the same positive amount answers
/// to: it is parked, whatever is known of its destination and whatever the backend says.
pub proof fn no_payment_without_provenance(
    row: RefundRow,
    received: Option<i64>,
    form: Result<FormView, ErrorView>,
    dest_sat: Result<u64, Seq<char>>,
    resolved_sat: Result<u64, Seq<char>>,
    now: i64,
    gross: u64,
    events: Seq<DrainEventView>,
)
    requires
        !(received is Some && received->0 > 0 && row.amount_sat == received),
    ensures
        ({
            let end = drain_run(
                drain_start(row, received, form, dest_sat, resolved_sat, now),
                gross,
                events,
            );
            end matches DrainView::Finished(CommitView::Park { amount, reason }) && amount
                == row.stored_gross()
        }),
{
    let start = drain_start(row, received, form, dest_sat, resolved_sat, now);
    let c = start->Finished_0;
    decision_is_final(c, gross, events);
}

/// What was paid is never paid again: where the backend says that the generation at hand went out, the
/// refund is recorded as sent with its amount, and nothing more is asked for.
pub proof fn paid_generation_is_not_paid_again(
    p: PlanView,
    a: Answers,
    bolt11: Seq<char>,
    gen: i64,
    pay_sat: u64,
    received: u64,
)
    requires
        a.status == Ok::<PayStatus, Seq<char>>(PayStatus::Succeeded),
    ensures
        p.stage matches StageView::ZeroStatus { sat } ==> run(p, a, 1).stage
            == StageView::Finished(
            Ok::<OutcomeView, ErrorView>(OutcomeView::AlreadySent { pay_sat: sat }),
        ),
        p.stage is CurrentStatus ==> run(p, a, 1).stage == StageView::Finished(
            Ok::<OutcomeView, ErrorView>(OutcomeView::AlreadySent { pay_sat: p.persisted_sat }),
        ),
        drain_next(
            DrainView::CheckPaid { bolt11, gen, pay_sat },
            received,
            DrainEventView::Answer(EventView::Status(a.status)),
        ) == DrainView::Finished(CommitView::Sent { backend_payment_id: None, pay_sat }),
{
    reveal_with_fuel(run, 2);
}

/// A payment that reported an error counts as a definite failure only where the backend then says
/// that it failed; where it says that it went out, the refund is recorded as sent.
pub proof fn ambiguous_payment_stays_recoverable(
    gen: i64,
    pay_sat: u64,
    received: u64,
    status: Result<PayStatus, Seq<char>>,
)
    ensures
        ({
            let end = drain_next(
                DrainView::AfterError { gen, pay_sat },
                received,
                DrainEventView::Answer(EventView::Status(status)),
            );
            &&& end == DrainView::Finished(
                CommitView::PayFailure { amount: received, definite: true },
            ) <==> status == Ok::<PayStatus, Seq<char>>(PayStatus::Failed)
            &&& end == DrainView::Finished(
                CommitView::Sent { backend_payment_id: None, pay_sat },
            ) <==> status == Ok::<PayStatus, Seq<char>>(PayStatus::Succeeded)
        }),
{
}

/// Whether a drive heard `e` as one of its answers.
pub open spec fn heard(events: Seq<DrainEventView>, e: EventView) -> bool {
    events.contains(DrainEventView::Answer(e))
}

/// Whether the backend told a drive that a payment went out: it said that one succeeded, or paying
/// returned an id.
pub open spec fn told_of_a_payment(events: Seq<DrainEventView>) -> bool {
    exists|i: int|
        0 <= i < events.len() && {
            ||| #[trigger] events[i] == DrainEventView::Answer(
                EventView::Status(Ok::<PayStatus, Seq<char>>(PayStatus::Succeeded)),
            )
            ||| events[i] matches DrainEventView::Paid(Ok(_))
        }
}

/// Whether a payment is one that a drive of this row may make: the buyer's own invoice, the persisted
/// one, or one that was resolved for a quoted cap and persisted, each under its generation.
spec fn owed_payment(
    row: RefundRow,
    gross: u64,
    dest_sat: Result<u64, Seq<char>>,
    resolved_sat: Result<u64, Seq<char>>,
    events: Seq<DrainEventView>,
    bolt11: Seq<char>,
    gen: i64,
    pay_sat: u64,
) -> bool {
    ||| {
        &&& row.dest is Some
        &&& bolt11 == row.clean_dest()
        &&& gen == 0
        &&& dest_sat == Ok::<u64, Seq<char>>(pay_sat)
    }
    ||| {
        &&& row.resolved_bolt11 matches Some(b)
        &&& bolt11 == b@
        &&& gen == row.resolution_gen
        &&& pay_sat == (match resolved_sat {
            Ok(n) => n,
            Err(_) => gross,
        })
    }
    ||| {
        &&& gen == (if row.resolved_bolt11 is Some {
            row.resolution_gen + 1
        } else {
            1
        })
        &&& exists|expiry: i64| #[trigger]
            heard(
                events,
                EventView::Resolution(Ok::<(Seq<char>, i64), ErrorView>((bolt11, expiry))),
            )
        &&& heard(events, EventView::Quote(Ok::<u64, Seq<char>>(pay_sat)))
        &&& heard(events, EventView::Persisted(Ok::<bool, Seq<char>>(true)))
        &&& pay_sat > 0
    }
}

spec fn grounded_plan(
    p: PlanView,
    row: RefundRow,
    gross: u64,
    dest_sat: Result<u64, Seq<char>>,
    resolved_sat: Result<u64, Seq<char>>,
    now: i64,
    events: Seq<DrainEventView>,
) -> bool {
    let next = if row.resolved_bolt11 is Some {
        row.resolution_gen + 1
    } else {
        1
    };
    &&& row.dest is Some
    &&& p.external_id == row.ext()
    &&& p.dest == row.clean_dest()
    &&& p.received == gross
    &&& p.now == now
    &&& p.gen == row.resolution_gen
    &&& p.persisted_sat == (match resolved_sat {
        Ok(n) => n,
        Err(_) => gross,
    })
    &&& row.resolved_bolt11 matches Some(b) ==> p.persisted == b@
    &&& match p.stage {
        StageView::ZeroStatus { sat } => dest_sat == Ok::<u64, Seq<char>>(sat),
        StageView::ZeroStarted { sat } => dest_sat == Ok::<u64, Seq<char>>(sat),
        StageView::ZeroQuote { sat } => dest_sat == Ok::<u64, Seq<char>>(sat),
        StageView::FirstQuote => row.resolved_bolt11 is None,
        StageView::CurrentStatus => row.resolved_bolt11 is Some,
        StageView::FailedQuote => row.resolved_bolt11 is Some,
        StageView::Resolving { net_cap, gen } => {
            &&& gen == next
            &&& heard(events, EventView::Quote(Ok::<u64, Seq<char>>(net_cap)))
            &&& 0 < net_cap
            &&& net_cap * 1000 <= u64::MAX
        },
        StageView::Persisting { net_cap, gen, bolt11, expiry } => {
            &&& gen == next
            &&& heard(events, EventView::Quote(Ok::<u64, Seq<char>>(net_cap)))
            &&& heard(
                events,
                EventView::Resolution(Ok::<(Seq<char>, i64), ErrorView>((bolt11, expiry))),
            )
            &&& 0 < net_cap
        },
        StageView::Finished(_) => false,
    }
}

spec fn grounded(
    stage: DrainView,
    row: RefundRow,
    gross: u64,
    dest_sat: Result<u64, Seq<char>>,
    resolved_sat: Result<u64, Seq<char>>,
    now: i64,
    events: Seq<DrainEventView>,
) -> bool {
    match stage {
        DrainView::Planning(p) => grounded_plan(p, row, gross, dest_sat, resolved_sat, now, events),
        DrainView::CheckPaid { bolt11, gen, pay_sat } => owed_payment(
            row,
            gross,
            dest_sat,
            resolved_sat,
            events,
            bolt11,
            gen,
            pay_sat,
        ),
        DrainView::Paying { bolt11, gen, pay_sat } => {
            &&& owed_payment(row, gross, dest_sat, resolved_sat, events, bolt11, gen, pay_sat)
            &&& exists|r: Result<PayStatus, Seq<char>>|
                r != Ok::<PayStatus, Seq<char>>(PayStatus::Succeeded) && #[trigger] heard(
                    events,
                    EventView::Status(r),
                )
        },
        DrainView::AfterError { gen, pay_sat } => {
            &&& gen == 0 || gen == row.resolution_gen || gen == (if row.resolved_bolt11 is Some {
                row.resolution_gen + 1
            } else {
                1
            })
            &&& exists|e: Seq<char>|
                #[trigger] events.contains(DrainEventView::Paid(Err::<Seq<char>, Seq<char>>(e)))
        },
        DrainView::Finished(CommitView::Sent { backend_payment_id, pay_sat }) => {
            &&& told_of_a_payment(events)
            &&& backend_payment_id matches Some(id) ==> events.contains(
                DrainEventView::Paid(Ok::<Seq<char>, Seq<char>>(id)),
            )
        },
        DrainView::Finished(CommitView::PayFailure { amount, definite }) => {
            &&& amount == gross
            &&& exists|e: Seq<char>|
                #[trigger] events.contains(DrainEventView::Paid(Err::<Seq<char>, Seq<char>>(e)))
            &&& definite ==> heard(
                events,
                EventView::Status(Ok::<PayStatus, Seq<char>>(PayStatus::Failed)),
            )
        },
        DrainView::Finished(CommitView::Park { amount, reason }) => amount == gross,
        DrainView::Finished(CommitView::Nothing) => heard(
            events,
            EventView::Persisted(Ok::<bool, Seq<char>>(false)),
        ),
        DrainView::Finished(CommitView::Retry { reason }) => true,
    }
}

proof fn lemma_grounded_stays(
    stage: DrainView,
    row: RefundRow,
    gross: u64,
    dest_sat: Result<u64, Seq<char>>,
    resolved_sat: Result<u64, Seq<char>>,
    now: i64,
    before: Seq<DrainEventView>,
    last: DrainEventView,
)
    requires
        grounded(stage, row, gross, dest_sat, resolved_sat, now, before),
    ensures
        grounded(stage, row, gross, dest_sat, resolved_sat, now, before.push(last)),
        before.push(last).contains(last),
{
    let events = before.push(last);
    assert(events[before.len() as int] == last);
    assert forall|e: DrainEventView| #[trigger] before.contains(e) implies events.contains(e) by {
        let i = choose|i: int| 0 <= i < before.len() && before[i] == e;
        assert(events[i] == e);
    }
    assert forall|e: EventView| #[trigger] heard(before, e) implies heard(events, e) by {}
    if told_of_a_payment(before) {
        let i = choose|i: int|
            0 <= i < before.len() && {
                ||| #[trigger] before[i] == DrainEventView::Answer(
                    EventView::Status(Ok::<PayStatus, Seq<char>>(PayStatus::Succeeded)),
                )
                ||| before[i] matches DrainEventView::Paid(Ok(_))
            };
        assert(events[i] == before[i]);
    }
}

proof fn lemma_grounded_step(
    stage: DrainView,
    row: RefundRow,
    gross: u64,
    dest_sat: Result<u64, Seq<char>>,
    resolved_sat: Result<u64, Seq<char>>,
    now: i64,
    events: Seq<DrainEventView>,
    last: DrainEventView,
)
    requires
        grounded(stage, row, gross, dest_sat, resolved_sat, now, events),
        events.contains(last),
        row.resolution_gen < i64::MAX,
    ensures
        grounded(
            drain_next(stage, gross, last),
            row,
            gross,
            dest_sat,
            resolved_sat,
            now,
            events,
        ),
{
    let k = choose|k: int| 0 <= k < events.len() && events[k] == last;
    match (stage, last) {
        (DrainView::Planning(p), DrainEventView::Answer(e)) => {
            assert(heard(events, e));
        },
        (DrainView::CheckPaid { bolt11, gen, pay_sat }, DrainEventView::Answer(e)) => {
            assert(heard(events, e));
        },
        (DrainView::Paying { bolt11, gen, pay_sat }, DrainEventView::Paid(r)) => {
            match r {
                Ok(id) => {
                    assert(events.contains(DrainEventView::Paid(Ok::<Seq<char>, Seq<char>>(id))));
                },
                Err(m) => {
                    assert(events.contains(DrainEventView::Paid(Err::<Seq<char>, Seq<char>>(m))));
                },
            }
        },
        (DrainView::AfterError { gen, pay_sat }, DrainEventView::Answer(e)) => {
            assert(heard(events, e));
        },
        _ => {},
    }
}

proof fn lemma_drive_is_grounded(
    row: RefundRow,
    received: Option<i64>,
    form: Result<FormView, ErrorView>,
    dest_sat: Result<u64, Seq<char>>,
    resolved_sat: Result<u64, Seq<char>>,
    now: i64,
    gross: u64,
    events: Seq<DrainEventView>,
)
    requires
        received == Some(gross as i64),
        0 < gross <= i64::MAX,
        row.amount_sat == received,
        row.resolution_gen < i64::MAX,
    ensures
        grounded(
            drain_run(
                drain_start(row, received, form, dest_sat, resolved_sat, now),
                gross,
                events,
            ),
            row,
            gross,
            dest_sat,
            resolved_sat,
            now,
            events,
        ),
    decreases events.len(),
{
    let start = drain_start(row, received, form, dest_sat, resolved_sat, now);
    if events.len() > 0 {
        let before = events.drop_last();
        lemma_drive_is_grounded(
            row,
            received,
            form,
            dest_sat,
            resolved_sat,
            now,
            gross,
            before,
        );
        let mid = drain_run(start, gross, before);
        lemma_grounded_stays(
            mid,
            row,
            gross,
            dest_sat,
            resolved_sat,
            now,
            before,
            events.last(),
        );
        assert(before.push(events.last()) =~= events);
        lemma_grounded_step(
            mid,
            row,
            gross,
            dest_sat,
            resolved_sat,
            now,
            events,
            events.last(),
        );
    }
}

/// A drive is decided as sent only where the backend said so: some answer was that a payment
/// succeeded, or paying returned an id. An id that is recorded is one that paying returned. This holds
/// of every row and of every sequence of answers.
pub proof fn refund_is_sent_only_where_it_was_paid(
    row: RefundRow,
    received: Option<i64>,
    form: Result<FormView, ErrorView>,
    dest_sat: Result<u64, Seq<char>>,
    resolved_sat: Result<u64, Seq<char>>,
    now: i64,
    gross: u64,
    events: Seq<DrainEventView>,
)
    requires
        row.resolution_gen < i64::MAX,
        received matches Some(n) && n > 0 && row.amount_sat == received ==> gross == received->0,
    ensures
        ({
            let end = drain_run(
                drain_start(row, received, form, dest_sat, resolved_sat, now),
                gross,
                events,
            );
            end matches DrainView::Finished(CommitView::Sent { backend_payment_id, pay_sat }) ==> {
                &&& exists|i: int|
                    0 <= i < events.len() && {
                        ||| #[trigger] events[i] == DrainEventView::Answer(
                            EventView::Status(Ok::<PayStatus, Seq<char>>(PayStatus::Succeeded)),
                        )
                        ||| events[i] matches DrainEventView::Paid(Ok(_))
                    }
                &&& backend_payment_id matches Some(id) ==> events.contains(
                    DrainEventView::Paid(Ok::<Seq<char>, Seq<char>>(id)),
                )
            }
        }),
{
    if received is Some && received->0 > 0 && row.amount_sat == received {
        lemma_drive_is_grounded(
            row,
            received,
            form,
            dest_sat,
            resolved_sat,
            now,
            gross,
            events,
        );
    } else {
        no_payment_without_provenance(
            row,
            received,
            form,
            dest_sat,
            resolved_sat,
            now,
            gross,
            events,
        );
    }
}

/// What the drive of a row asks for once it has heard `events`.
pub open spec fn asked_after(
    row: RefundRow,
    received: Option<i64>,
    form: Result<FormView, ErrorView>,
    dest_sat: Result<u64, Seq<char>>,
    resolved_sat: Result<u64, Seq<char>>,
    now: i64,
    gross: u64,
    events: Seq<DrainEventView>,
) -> DrainAskView {
    drain_ask(
        drain_run(
            drain_start(row, received, form, dest_sat, resolved_sat, now),
            gross,
            events,
        ),
        row.ext(),
        gross,
    )
}

/// What a drive of a refund with provenance asks for at any time, whatever it heard so far. It asks
/// for quotes on exactly the gross that was received. It resolves only its own destination, and for
/// exactly a positive cap that was quoted. It persists only what was resolved, as the generation after
/// the current one. Where it gives up, the gross is what it reports; it reports a failed payment only
/// where paying failed, and a definite one only where the backend said so.
pub proof fn every_step_of_a_drive_has_its_ground(
    row: RefundRow,
    received: Option<i64>,
    form: Result<FormView, ErrorView>,
    dest_sat: Result<u64, Seq<char>>,
    resolved_sat: Result<u64, Seq<char>>,
    now: i64,
    gross: u64,
    events: Seq<DrainEventView>,
    asked: DrainAskView,
)
    requires
        received == Some(gross as i64),
        0 < gross <= i64::MAX,
        row.amount_sat == received,
        row.resolution_gen < i64::MAX,
        asked == asked_after(
            row,
            received,
            form,
            dest_sat,
            resolved_sat,
            now,
            gross,
            events,
        ),
    ensures
        asked matches DrainAskView::Plan(AskView::Started { key }) ==> key == "refund:"@ + row.ext(),
        asked matches DrainAskView::Plan(AskView::Quote { gross: g }) ==> g == gross,
        asked matches DrainAskView::Plan(AskView::Resolve { dest, owed_msat, now: at }) ==> {
            &&& row.dest matches Some(d)
            &&& dest == trimmed(d@)
            &&& at == now
            &&& exists|cap: u64|
                owed_msat == cap * 1000 && cap > 0 && #[trigger] heard(
                    events,
                    EventView::Quote(Ok::<u64, Seq<char>>(cap)),
                )
        },
        asked matches DrainAskView::Plan(AskView::Persist { bolt11, expiry, gen }) ==> {
            &&& row.resolved_bolt11 is Some ==> gen == row.resolution_gen + 1
            &&& row.resolved_bolt11 is None ==> gen == 1
            &&& heard(
                events,
                EventView::Resolution(Ok::<(Seq<char>, i64), ErrorView>((bolt11, expiry))),
            )
        },
        !(asked matches DrainAskView::Plan(AskView::Done(_))),
        asked matches DrainAskView::Commit(CommitView::Park { amount, reason }) ==> amount == gross,
        asked matches DrainAskView::Commit(CommitView::PayFailure { amount, definite }) ==> {
            &&& amount == gross
            &&& exists|e: Seq<char>|
                #[trigger] events.contains(DrainEventView::Paid(Err::<Seq<char>, Seq<char>>(e)))
            &&& definite ==> heard(
                events,
                EventView::Status(Ok::<PayStatus, Seq<char>>(PayStatus::Failed)),
            )
        },
        asked matches DrainAskView::Commit(CommitView::Nothing) ==> heard(
            events,
            EventView::Persisted(Ok::<bool, Seq<char>>(false)),
        ),
{
    lemma_drive_is_grounded(row, received, form, dest_sat, resolved_sat, now, gross, events);
}

/// What a drive of a refund with provenance pays. It is the buyer's own invoice under the bare key, the
/// persisted invoice under the key of its generation, or a freshly resolved and persisted one with a
/// quoted cap under the key of the next generation. Whichever it is, the gross goes with it, and the
/// backend was asked before and did not say that it already went out.
pub proof fn every_payment_of_a_drive_is_owed(
    row: RefundRow,
    received: Option<i64>,
    form: Result<FormView, ErrorView>,
    dest_sat: Result<u64, Seq<char>>,
    resolved_sat: Result<u64, Seq<char>>,
    now: i64,
    gross: u64,
    events: Seq<DrainEventView>,
    bolt11: Seq<char>,
    pay_sat: u64,
    paid_for: u64,
    key: Seq<char>,
)
    requires
        received == Some(gross as i64),
        0 < gross <= i64::MAX,
        row.amount_sat == received,
        row.resolution_gen < i64::MAX,
        asked_after(row, received, form, dest_sat, resolved_sat, now, gross, events) == (
        DrainAskView::Pay { bolt11, pay_sat, gross: paid_for, key }),
    ensures
        paid_for == gross,
        ({
            ||| {
                &&& row.dest matches Some(d)
                &&& bolt11 == trimmed(d@)
                &&& dest_sat == Ok::<u64, Seq<char>>(pay_sat)
                &&& key == "refund:"@ + row.ext()
            }
            ||| {
                &&& row.resolved_bolt11 matches Some(b)
                &&& bolt11 == b@
                &&& resolved_sat matches Ok(n) ==> pay_sat == n
                &&& resolved_sat is Err ==> pay_sat == gross
                &&& key == pay_key(row.ext(), row.resolution_gen as int)
            }
            ||| {
                &&& exists|expiry: i64| #[trigger]
                    heard(
                        events,
                        EventView::Resolution(Ok::<(Seq<char>, i64), ErrorView>((bolt11, expiry))),
                    )
                &&& heard(events, EventView::Quote(Ok::<u64, Seq<char>>(pay_sat)))
                &&& heard(events, EventView::Persisted(Ok::<bool, Seq<char>>(true)))
                &&& pay_sat > 0
                &&& row.resolved_bolt11 is Some ==> key == pay_key(
                    row.ext(),
                    row.resolution_gen + 1,
                )
                &&& row.resolved_bolt11 is None ==> key == pay_key(row.ext(), 1)
            }
        }),
        exists|r: Result<PayStatus, Seq<char>>|
            r != Ok::<PayStatus, Seq<char>>(PayStatus::Succeeded) && #[trigger] heard(
                events,
                EventView::Status(r),
            ),
{
    lemma_drive_is_grounded(row, received, form, dest_sat, resolved_sat, now, gross, events);
}

/// A drive asks for the status of a payment only under one of its own keys: the bare one, or that of
/// the current generation or of the next.
pub proof fn drive_looks_up_its_own_payments(
    row: RefundRow,
    received: Option<i64>,
    form: Result<FormView, ErrorView>,
    dest_sat: Result<u64, Seq<char>>,
    resolved_sat: Result<u64, Seq<char>>,
    now: i64,
    gross: u64,
    events: Seq<DrainEventView>,
    key: Seq<char>,
)
    requires
        received == Some(gross as i64),
        0 < gross <= i64::MAX,
        row.amount_sat == received,
        row.resolution_gen < i64::MAX,
        asked_after(row, received, form, dest_sat, resolved_sat, now, gross, events)
            == DrainAskView::Plan(AskView::Status { key }),
    ensures
        ({
            ||| key == "refund:"@ + row.ext()
            ||| key == pay_key(row.ext(), row.resolution_gen as int)
            ||| row.resolved_bolt11 is Some && key == pay_key(row.ext(), row.resolution_gen + 1)
            ||| row.resolved_bolt11 is None && key == pay_key(row.ext(), 1)
        }),
{
    lemma_drive_is_grounded(row, received, form, dest_sat, resolved_sat, now, gross, events);
}

/// How a payment ends, by what the backend said before, of and after it. It is sent, with the amount
/// that was to be paid, exactly where the backend knew it as sent before or after, or paying returned
/// an id, which is then kept. It is a definite failure exactly where paying failed and the backend then
/// said that it failed; any other failure stays open. A failure reports the gross.
pub proof fn payment_ends_as_the_backend_says(
    bolt11: Seq<char>,
    gen: i64,
    pay_sat: u64,
    received: u64,
    before: Result<PayStatus, Seq<char>>,
    paid: Result<Seq<char>, Seq<char>>,
    after: Result<PayStatus, Seq<char>>,
)
    ensures
        ({
            let events = seq![
                DrainEventView::Answer(EventView::Status(before)),
                DrainEventView::Paid(paid),
                DrainEventView::Answer(EventView::Status(after)),
            ];
            let end = drain_run(DrainView::CheckPaid { bolt11, gen, pay_sat }, received, events);
            let known = before == Ok::<PayStatus, Seq<char>>(PayStatus::Succeeded);
            &&& paid matches Ok(id) ==> (!known <==> end == DrainView::Finished(
                CommitView::Sent { backend_payment_id: Some(id), pay_sat },
            ))
            &&& end == DrainView::Finished(
                CommitView::Sent { backend_payment_id: None, pay_sat },
            ) <==> known || paid is Err && after == Ok::<PayStatus, Seq<char>>(
                PayStatus::Succeeded,
            )
            &&& end == DrainView::Finished(
                CommitView::PayFailure { amount: received, definite: true },
            ) <==> !known && paid is Err && after == Ok::<PayStatus, Seq<char>>(PayStatus::Failed)
            &&& end == DrainView::Finished(
                CommitView::PayFailure { amount: received, definite: false },
            ) <==> !known && paid is Err && after != Ok::<PayStatus, Seq<char>>(PayStatus::Failed)
                && after != Ok::<PayStatus, Seq<char>>(PayStatus::Succeeded)
        }),
{
    let a = DrainEventView::Answer(EventView::Status(before));
    let b = DrainEventView::Paid(paid);
    let c = DrainEventView::Answer(EventView::Status(after));
    let events = seq![a, b, c];
    reveal_with_fuel(drain_run, 4);
    assert(events.drop_last() =~= seq![a, b]);
    assert(seq![a, b].drop_last() =~= seq![a]);
    assert(seq![a].drop_last() =~= Seq::<DrainEventView>::empty());
}

/// A plan that ended is carried out as it ended: a payment is looked up before anything is paid, what
/// already went out is recorded, what failed for good is parked with the gross and its reason, what
/// failed for now is retried with its reason, and a row that is no longer pending is left alone.
pub proof fn ended_plan_is_carried_out(p: PlanView, event: EventView, received: u64, m: Seq<char>)
    ensures
        ({
            let end = p.next(event);
            let then = drain_next(DrainView::Planning(p), received, DrainEventView::Answer(event));
            &&& end matches StageView::Finished(Ok(OutcomeView::Pay { bolt11, gen, pay_sat })) ==> {
                &&& then == (DrainView::CheckPaid { bolt11, gen, pay_sat })
                &&& drain_ask(then, p.external_id, received) == DrainAskView::Plan(
                    AskView::Status { key: pay_key(p.external_id, gen as int) },
                )
            }
            &&& end matches StageView::Finished(Ok(OutcomeView::AlreadySent { pay_sat })) ==> then
                == DrainView::Finished(CommitView::Sent { backend_payment_id: None, pay_sat })
            &&& end == StageView::Finished(Ok::<OutcomeView, ErrorView>(OutcomeView::Skip)) ==> then
                == DrainView::Finished(CommitView::Nothing)
            &&& end == StageView::Finished(Err::<OutcomeView, ErrorView>(ErrorView::Permanent(m)))
                ==> then == DrainView::Finished(
                CommitView::Park { amount: p.received, reason: m },
            )
            &&& end == StageView::Finished(Err::<OutcomeView, ErrorView>(ErrorView::Transient(m)))
                ==> then == DrainView::Finished(CommitView::Retry { reason: m })
            &&& !(end is Finished) ==> then == DrainView::Planning(PlanView { stage: end, ..p })
        }),
{
}

/// Where a drive of a refund with provenance starts. An empty destination is parked; so is one whose
/// form is refused for good, and a fixed invoice without a whole amount; a fixed invoice starts with
/// its status under the bare key, a destination that was resolved with the status under the key of the
/// current generation, and one that was not with a quote.
pub proof fn drive_starts_from_its_destination(
    row: RefundRow,
    form: Result<FormView, ErrorView>,
    dest_sat: Result<u64, Seq<char>>,
    resolved_sat: Result<u64, Seq<char>>,
    now: i64,
    gross: u64,
)
    requires
        0 < gross <= i64::MAX,
        row.amount_sat == Some(gross as i64),
    ensures
        ({
            let asked = drain_ask(
                drain_start(row, row.amount_sat, form, dest_sat, resolved_sat, now),
                row.ext(),
                gross,
            );
            let empty = row.dest is None || trimmed(row.dest->0@).len() == 0;
            let other = form is Ok && form->Ok_0 != FormView::Bolt11;
            &&& {
                ||| empty
                ||| (form matches Err(ErrorView::Permanent(_)))
                ||| form == Ok::<FormView, ErrorView>(FormView::Bolt11) && dest_sat is Err
            } <==> (asked matches DrainAskView::Commit(CommitView::Park { amount, reason })
                && amount == gross)
            &&& !empty && (form matches Err(ErrorView::Transient(_))) <==> (asked
                matches DrainAskView::Commit(CommitView::Retry { .. }))
            &&& !empty && form == Ok::<FormView, ErrorView>(FormView::Bolt11) && dest_sat is Ok ==> asked
                == DrainAskView::Plan(AskView::Status { key: "refund:"@ + row.ext() })
            &&& !empty && other && row.resolved_bolt11 is Some ==> asked == DrainAskView::Plan(
                AskView::Status { key: pay_key(row.ext(), row.resolution_gen as int) },
            )
            &&& !empty && other && row.resolved_bolt11 is None ==> asked == DrainAskView::Plan(
                AskView::Quote { gross },
            )
        }),
{
}

// ---- the ledger ------------------------------------------------------------------------------

/// What became of one row in one drive.
#[derive(Clone, Copy, Debug, PartialEq, Eq, Structural)]
pub enum Outcome {
    Sent,
    Retried,
    Failed,
    Noop,
}

/// What one drive did.
#[derive(Clone, Copy, Debug, PartialEq, Eq, Structural)]
pub struct RefundReport {
    /// Refunds that were recorded as sent.
    pub sent: usize,
    /// Refunds that stay pending after a setback.
    pub retried: usize,
    /// Refunds that were parked as failed.
    pub failed: usize,
}

impl Default for RefundReport {
    fn default() -> (r: RefundReport)
        ensures
            r == (RefundReport { sent: 0, retried: 0, failed: 0 }),
    {
        RefundReport { sent: 0, retried: 0, failed: 0 }
    }
}

/// Being the outcome `o`.
pub open spec fn being(o: Outcome) -> spec_fn(Outcome) -> bool {
    |x: Outcome| x == o
}

/// How often `o` occurs.
pub open spec fn count(outcomes: Seq<Outcome>, o: Outcome) -> nat {
    outcomes.filter(being(o)).len()
}

/// Whether a report counts the outcomes of one drive.
pub open spec fn is_report(r: RefundReport, outcomes: Seq<Outcome>) -> bool {
    &&& r.sent == count(outcomes, Outcome::Sent)
    &&& r.retried == count(outcomes, Outcome::Retried)
    &&& r.failed == count(outcomes, Outcome::Failed)
}

/// Counts what became of the rows of one drive.
pub fn report_of(outcomes: &Vec<Outcome>) -> (r: RefundReport)
    ensures
        is_report(r, outcomes@),
{
    let mut r = RefundReport { sent: 0, retried: 0, failed: 0 };
    let ghost sent = being(Outcome::Sent);
    let ghost retried = being(Outcome::Retried);
    let ghost failed = being(Outcome::Failed);
    let mut i: usize = 0;
    proof {
        reveal(Seq::filter);
        assert(outcomes@.take(0) =~= Seq::empty());
    }
    while i < outcomes.len()
        invariant
            i <= outcomes@.len(),
            sent == being(Outcome::Sent),
            retried == being(Outcome::Retried),
            failed == being(Outcome::Failed),
            r.sent == outcomes@.take(i as int).filter(sent).len(),
            r.retried == outcomes@.take(i as int).filter(retried).len(),
            r.failed == outcomes@.take(i as int).filter(failed).len(),
            r.sent <= i,
            r.retried <= i,
            r.failed <= i,
        decreases outcomes@.len() - i,
    {
        proof {
            lemma_filter_next(outcomes@, sent, i as int);
            lemma_filter_next(outcomes@, retried, i as int);
            lemma_filter_next(outcomes@, failed, i as int);
        }
        match outcomes[i] {
            Outcome::Sent => {
                r.sent = r.sent + 1;
            },
            Outcome::Retried => {
                r.retried = r.retried + 1;
            },
            Outcome::Failed => {
                r.failed = r.failed + 1;
            },
            Outcome::Noop => {},
        }
        i = i + 1;
    }
    assert(outcomes@.take(i as int) =~= outcomes@);
    r
}

/// A change of a pending row of the ledger.
pub enum Change {
    /// The refund went out; an id of the backend's is kept where a new one is missing.
    Sent(Option<String>),
    /// The refund is parked, and the attempt counted.
    Failed,
    /// An attempt is counted.
    Bump,
    /// The row is only marked as looked at.
    Touch,
    /// The destination was resolved.
    Resolve { bolt11: String, expiry: i64, gen: i64 },
}

/// The attempts counted so far.
pub open spec fn attempts_of(a: RefundAttempt) -> i64 {
    match a.attempts {
        Some(n) => n,
        None => 0,
    }
}

/// A row after a change.
pub open spec fn changed(a: RefundAttempt, c: Change, now: i64) -> RefundAttempt {
    let next = Some((attempts_of(a) + 1) as i64);
    match c {
        Change::Sent(id) => RefundAttempt {
            status: RefundStatus::Sent,
            backend_payment_id: if id is Some {
                id
            } else {
                a.backend_payment_id
            },
            attempts: next,
            updated_at: Some(now),
            ..a
        },
        Change::Failed => RefundAttempt {
            status: RefundStatus::Failed,
            attempts: next,
            updated_at: Some(now),
            ..a
        },
        Change::Bump => RefundAttempt { attempts: next, updated_at: Some(now), ..a },
        Change::Touch => RefundAttempt { updated_at: Some(now), ..a },
        Change::Resolve { bolt11, expiry, gen } => RefundAttempt {
            resolved_bolt11: Some(bolt11),
            resolved_expiry: Some(expiry),
            resolution_gen: gen,
            updated_at: Some(now),
            ..a
        },
    }
}

/// Whether a row has this id and is still pending.
pub open spec fn is_pending(a: RefundAttempt, id: Seq<char>) -> bool {
    is_text(a.id, id) && a.status == RefundStatus::Pending
}

/// Being the pending row with this id.
pub open spec fn pending_row(id: Seq<char>) -> spec_fn(RefundAttempt) -> bool {
    |a: RefundAttempt| is_pending(a, id)
}

/// The ledger with its pending row of this id changed.
pub open spec fn with_change(rows: Seq<RefundAttempt>, id: Seq<char>, c: Change, now: i64) -> Seq<
    RefundAttempt,
> {
    rows.map_values(|a: RefundAttempt| if is_pending(a, id) { changed(a, c, now) } else { a })
}

/// Whether there is room to count another attempt on the pending row of this id.
pub open spec fn room_to_count(rows: Seq<RefundAttempt>, id: Seq<char>) -> bool {
    forall|i: int|
        0 <= i < rows.len() && is_pending(#[trigger] rows[i], id) ==> attempts_of(rows[i])
            < i64::MAX
}

/// Whether a change counts an attempt.
pub open spec fn counts(c: Change) -> bool {
    c is Sent || c is Failed || c is Bump
}

fn bumped(a: &RefundAttempt) -> (r: Option<i64>)
    requires
        attempts_of(*a) < i64::MAX,
    ensures
        r == Some((attempts_of(*a) + 1) as i64),
{
    match a.attempts {
        Some(n) => Some(n + 1),
        None => Some(1),
    }
}

/// Applies a change to the pending row with this id, and says whether there is one.
fn change_pending(rows: &mut Vec<RefundAttempt>, id: &str, c: &Change, now: i64) -> (r: bool)
    requires
        counts(*c) ==> room_to_count(old(rows)@, id@),
    ensures
        final(rows)@ == with_change(old(rows)@, id@, *c, now),
        r == any(old(rows)@, pending_row(id@)),
{
    let mut found = false;
    let mut i: usize = 0;
    while i < rows.len()
        invariant
            i <= rows@.len(),
            rows@.len() == old(rows)@.len(),
            counts(*c) ==> room_to_count(old(rows)@, id@),
            forall|k: int|
                0 <= k < i ==> #[trigger] rows@[k] == with_change(old(rows)@, id@, *c, now)[k],
            forall|k: int| i <= k < rows@.len() ==> #[trigger] rows@[k] == old(rows)@[k],
            !found ==> forall|k: int| 0 <= k < i ==> !is_pending(#[trigger] old(rows)@[k], id@),
            found ==> any(old(rows)@, pending_row(id@)),
        decreases rows@.len() - i,
    {
        assert(rows@[i as int] == old(rows)@[i as int]);
        if holds_text(&rows[i].id, id) && rows[i].status.is_pending() {
            assert(pending_row(id@)(old(rows)@[i as int]));
            match c {
                Change::Sent(backend) => {
                    rows[i].attempts = bumped(&rows[i]);
                    rows[i].status = RefundStatus::Sent;
                    if backend.is_some() {
                        rows[i].backend_payment_id = backend.clone();
                    }
                },
                Change::Failed => {
                    rows[i].attempts = bumped(&rows[i]);
                    rows[i].status = RefundStatus::Failed;
                },
                Change::Bump => {
                    rows[i].attempts = bumped(&rows[i]);
                },
                Change::Touch => {},
                Change::Resolve { bolt11, expiry, gen } => {
                    rows[i].resolved_bolt11 = Some(bolt11.clone());
                    rows[i].resolved_expiry = Some(*expiry);
                    rows[i].resolution_gen = *gen;
                },
            }
            rows[i].updated_at = Some(now);
            found = true;
        }
        i = i + 1;
    }
    assert(rows@ =~= with_change(old(rows)@, id@, *c, now));
    found
}

/// Whether a message is the one that tells the buyer about a refund.
pub open spec fn is_refund_message(
    o: OutboxRow,
    row: RefundRow,
    amount: u64,
    notice: RefundNotice,
    now: i64,
) -> bool {
    &&& o.id@ == "outbox:refund:"@ + row.ext()
    &&& o.recipient == row.recipient
    &&& o.subscription_id == row.subscription_id
    &&& o.payload matches Payload::BillingRefund {
        subscription_id,
        amount_sat,
        notice: n,
    }
    &&& subscription_id@ == (match row.subscription_id {
        Some(s) => s@,
        None => Seq::empty(),
    })
    &&& amount_sat == amount
    &&& n == notice
    &&& o.state == OutboxState::Pending
    &&& o.attempts == Some(0i64)
    &&& o.created_at == Some(now)
}

/// Being the message with this id.
pub open spec fn message_id(id: Seq<char>) -> spec_fn(OutboxRow) -> bool {
    |o: OutboxRow| o.id@ == id
}

/// Whether `new` is the outbox `old` with the message about the refund, which is only added where
/// none with its id is there yet.
pub open spec fn refund_enqueued(
    old: Seq<OutboxRow>,
    new: Seq<OutboxRow>,
    row: RefundRow,
    amount: u64,
    notice: RefundNotice,
    now: i64,
) -> bool {
    if any(old, message_id("outbox:refund:"@ + row.ext())) {
        new == old
    } else {
        new == old.push(new.last()) && is_refund_message(new.last(), row, amount, notice, now)
    }
}

fn has_message(outbox: &Vec<OutboxRow>, id: &str) -> (r: bool)
    ensures
        r == any(outbox@, message_id(id@)),
{
    let mut i: usize = 0;
    while i < outbox.len()
        invariant
            i <= outbox@.len(),
            forall|k: int| 0 <= k < i ==> !message_id(id@)(#[trigger] outbox@[k]),
        decreases outbox@.len() - i,
    {
        if same(&outbox[i].id, id) {
            assert(message_id(id@)(outbox@[i as int]));
            return true;
        }
        i = i + 1;
    }
    false
}

fn enqueue_refund(t: &mut Tables, row: &RefundRow, amount: u64, notice: RefundNotice, now: i64)
    ensures
        refund_enqueued(old(t).outbox@, final(t).outbox@, *row, amount, notice, now),
        *final(t) == (Tables { outbox: final(t).outbox, ..*old(t) }),
{
    let id = refund_outbox_id(&row.idempotency_key, &row.id);
    if has_message(&t.outbox, &id) {
        return;
    }
    let subscription_id = match &row.subscription_id {
        Some(s) => s.clone(),
        None => String::new(),
    };
    t.outbox.push(
        OutboxRow {
            id,
            recipient: row.recipient.clone(),
            subscription_id: row.subscription_id.clone(),
            payload: Payload::BillingRefund { subscription_id, amount_sat: amount, notice },
            state: OutboxState::Pending,
            attempts: Some(0),
            created_at: Some(now),
        },
    );
}

/// A prepared message to the operator, with the stable id of what it reports.
#[derive(Clone, Debug)]
pub struct AlertRow {
    pub id: String,
    pub recipient: String,
    pub payload: String,
}

/// Whether a message is the prepared alert.
pub open spec fn is_alert_message(o: OutboxRow, alert: AlertRow, now: i64) -> bool {
    &&& o.id == alert.id
    &&& o.recipient == Some(alert.recipient)
    &&& o.subscription_id is None
    &&& o.payload == Payload::OperatorAlert(alert.payload)
    &&& o.state == OutboxState::Pending
    &&& o.attempts == Some(0i64)
    &&& o.created_at == Some(now)
}

/// Whether `new` is the outbox `old` with the prepared alert, if there is one, which is only added
/// where none with its id is there yet.
pub open spec fn alert_enqueued(
    old: Seq<OutboxRow>,
    new: Seq<OutboxRow>,
    alert: Option<AlertRow>,
    now: i64,
) -> bool {
    match alert {
        None => new == old,
        Some(a) => if any(old, message_id(a.id@)) {
            new == old
        } else {
            new == old.push(new.last()) && is_alert_message(new.last(), a, now)
        },
    }
}

fn enqueue_alert_row(t: &mut Tables, alert: Option<AlertRow>, now: i64)
    ensures
        alert_enqueued(old(t).outbox@, final(t).outbox@, alert, now),
        *final(t) == (Tables { outbox: final(t).outbox, ..*old(t) }),
{
    if let Some(a) = alert {
        if has_message(&t.outbox, &a.id) {
            return;
        }
        t.outbox.push(
            OutboxRow {
                id: a.id,
                recipient: Some(a.recipient),
                subscription_id: None,
                payload: Payload::OperatorAlert(a.payload),
                state: OutboxState::Pending,
                attempts: Some(0),
                created_at: Some(now),
            },
        );
    }
}

/// Whether an event journals something about the refund.
pub open spec fn is_refund_event(e: Event, row: RefundRow, kind: EventKind, now: i64) -> bool {
    &&& is_event(e, opt_view(row.subscription_id), kind, now)
    &&& e.detail matches EventDetail::Refund { external_id }
    &&& external_id@ == row.ext()
}

fn journal_refund(t: &mut Tables, row: &RefundRow, kind: EventKind, now: i64)
    requires
        old(t).next_event_id < i64::MAX,
    ensures
        events_added(*old(t), *final(t), 1),
        is_refund_event(final(t).events@.last(), *row, kind, now),
        *final(t) == (Tables {
            events: final(t).events,
            next_event_id: final(t).next_event_id,
            ..*old(t)
        }),
{
    let external_id = row.external_id_of();
    t.journal(row.subscription_id.clone(), kind, EventDetail::Refund { external_id }, now);
}

/// Whether a subscription has this id and waits for its refund.
pub open spec fn is_refund_due(s: Subscription, id: Option<String>) -> bool {
    id matches Some(i) && s.id@ == i@ && s.state == SubState::RefundDue
}

/// Being the subscription with this id that waits for its refund.
pub open spec fn refund_due(id: Option<String>) -> spec_fn(Subscription) -> bool {
    |s: Subscription| is_refund_due(s, id)
}

/// The subscriptions with the one that waits for its refund marked as refunded.
pub open spec fn refunded(subs: Seq<Subscription>, id: Option<String>, now: i64) -> Seq<Subscription> {
    subs.map_values(
        |s: Subscription|
            if is_refund_due(s, id) {
                Subscription { state: SubState::Refunded, updated_at: Some(now), ..s }
            } else {
                s
            },
    )
}

fn mark_refunded(subs: &mut Vec<Subscription>, id: &Option<String>, now: i64) -> (r: bool)
    ensures
        final(subs)@ == refunded(old(subs)@, *id, now),
        r == any(old(subs)@, refund_due(*id)),
{
    let mut found = false;
    let mut i: usize = 0;
    while i < subs.len()
        invariant
            i <= subs@.len(),
            subs@.len() == old(subs)@.len(),
            forall|k: int| 0 <= k < i ==> #[trigger] subs@[k] == refunded(old(subs)@, *id, now)[k],
            forall|k: int| i <= k < subs@.len() ==> #[trigger] subs@[k] == old(subs)@[k],
            !found ==> forall|k: int| 0 <= k < i ==> !is_refund_due(#[trigger] old(subs)@[k], *id),
            found ==> any(old(subs)@, refund_due(*id)),
        decreases subs@.len() - i,
    {
        assert(subs@[i as int] == old(subs)@[i as int]);
        let due = match id {
            Some(s) => same(&subs[i].id, s) && subs[i].state == SubState::RefundDue,
            None => false,
        };
        if due {
            assert(refund_due(*id)(old(subs)@[i as int]));
            subs[i].state = SubState::Refunded;
            subs[i].updated_at = Some(now);
            found = true;
        }
        i = i + 1;
    }
    assert(subs@ =~= refunded(old(subs)@, *id, now));
    found
}

/// Whether the subscription's hold is released along with the refund: it waited for the refund and
/// still has a live reservation.
pub open spec fn frees_hold(t: Tables, id: Option<String>) -> bool {
    any(t.subscriptions@, refund_due(id)) && holds_of(
        t.reservations@,
        id->0@,
        HoldState::Held,
        HoldState::Consumed,
    ) > 0
}

/// Whether `new` is `old` with the refund recorded as sent: the pending row is sent; a subscription
/// that waited for it is refunded, and its live hold released; the buyer is told the amount that went
/// out; and all of it is journaled.
pub open spec fn sent_recorded(
    old: Tables,
    new: Tables,
    row: RefundRow,
    backend_payment_id: Option<String>,
    paid_sat: u64,
    now: i64,
) -> bool {
    let n = old.events@.len() as int;
    &&& new.refunds@ == with_change(
        old.refunds@,
        row.id@,
        Change::Sent(backend_payment_id),
        now,
    )
    &&& new.subscriptions@ == refunded(old.subscriptions@, row.subscription_id, now)
    &&& if frees_hold(old, row.subscription_id) {
        &&& new.reservations@ == moved(
            old.reservations@,
            row.subscription_id->0@,
            HoldState::Held,
            HoldState::Consumed,
            HoldState::Released,
        )
        &&& events_added(old, new, 2)
        &&& is_empty_event(
            new.events@[n],
            row.subscription_id->0@,
            EventKind::ReserveRelease,
            now,
        )
    } else {
        new.reservations == old.reservations && events_added(old, new, 1)
    }
    &&& refund_enqueued(old.outbox@, new.outbox@, row, paid_sat, RefundNotice::Sent, now)
    &&& is_refund_event(new.events@.last(), row, EventKind::RefundSent, now)
    &&& new == (Tables {
        refunds: new.refunds,
        subscriptions: new.subscriptions,
        reservations: new.reservations,
        outbox: new.outbox,
        events: new.events,
        next_event_id: new.next_event_id,
        ..old
    })
}

/// Records a refund as sent, if its row is still pending. `paid_sat` is what reached the buyer, which
/// is what the message says; the gross in the ledger is never rewritten.
pub fn commit_sent(
    t: &mut Tables,
    row: &RefundRow,
    backend_payment_id: Option<String>,
    paid_sat: u64,
    now: i64,
) -> (r: bool)
    requires
        room_to_count(old(t).refunds@, row.id@),
        old(t).next_event_id < i64::MAX - 1,
    ensures
        r == any(old(t).refunds@, pending_row(row.id@)),
        r ==> sent_recorded(*old(t), *final(t), *row, backend_payment_id, paid_sat, now),
        !r ==> *final(t) == *old(t),
{
    let change = Change::Sent(backend_payment_id);
    if !has_pending(&t.refunds, &row.id) {
        return false;
    }
    let _ = change_pending(&mut t.refunds, &row.id, &change, now);
    let due = mark_refunded(&mut t.subscriptions, &row.subscription_id, now);
    if due {
        if let Some(sub) = &row.subscription_id {
            let _ = release_txn(t, sub, now);
        }
    }
    enqueue_refund(t, row, paid_sat, RefundNotice::Sent, now);
    let ghost before = *t;
    journal_refund(t, row, EventKind::RefundSent, now);
    proof {
        let n = old(t).events@.len() as int;
        assert(t.events@.take(before.events@.len() as int) == before.events@);
        assert(t.events@.take(n) =~= before.events@.take(n));
        if frees_hold(*old(t), row.subscription_id) {
            assert(before.events@.last() == before.events@[n]);
            assert(t.events@[n] == t.events@.take(before.events@.len() as int)[n]);
            assert(before.events@.take(n) == old(t).events@);
        } else {
            assert(before.events@ == old(t).events@);
        }
    }
    true
}

fn has_pending(rows: &Vec<RefundAttempt>, id: &str) -> (r: bool)
    ensures
        r == any(rows@, pending_row(id@)),
{
    let mut i: usize = 0;
    while i < rows.len()
        invariant
            i <= rows@.len(),
            forall|k: int| 0 <= k < i ==> !pending_row(id@)(#[trigger] rows@[k]),
        decreases rows@.len() - i,
    {
        if holds_text(&rows[i].id, id) && rows[i].status.is_pending() {
            assert(pending_row(id@)(rows@[i as int]));
            return true;
        }
        i = i + 1;
    }
    false
}

/// Whether `new` is `old` with the refund recorded as failed: the pending row takes `c`, the buyer is
/// told, the prepared alert is queued, and the failure is journaled. The subscription and its hold
/// stay as they are.
pub open spec fn failure_recorded(
    old: Tables,
    new: Tables,
    row: RefundRow,
    c: Change,
    amount: u64,
    alert: Option<AlertRow>,
    now: i64,
) -> bool {
    &&& new.refunds@ == with_change(old.refunds@, row.id@, c, now)
    &&& exists|told: Seq<OutboxRow>|
        {
            &&& #[trigger] refund_enqueued(
                old.outbox@,
                told,
                row,
                amount,
                RefundNotice::Failed,
                now,
            )
            &&& alert_enqueued(told, new.outbox@, alert, now)
        }
    &&& events_added(old, new, 1)
    &&& is_refund_event(new.events@.last(), row, EventKind::RefundFailed, now)
    &&& new == (Tables {
        refunds: new.refunds,
        outbox: new.outbox,
        events: new.events,
        next_event_id: new.next_event_id,
        ..old
    })
}

fn record_failure(t: &mut Tables, row: &RefundRow, amount: u64, alert: Option<AlertRow>, now: i64)
    requires
        old(t).next_event_id < i64::MAX,
    ensures
        exists|told: Seq<OutboxRow>|
            {
                &&& #[trigger] refund_enqueued(
                    old(t).outbox@,
                    told,
                    *row,
                    amount,
                    RefundNotice::Failed,
                    now,
                )
                &&& alert_enqueued(told, final(t).outbox@, alert, now)
            },
        events_added(*old(t), *final(t), 1),
        is_refund_event(final(t).events@.last(), *row, EventKind::RefundFailed, now),
        *final(t) == (Tables {
            outbox: final(t).outbox,
            events: final(t).events,
            next_event_id: final(t).next_event_id,
            ..*old(t)
        }),
{
    enqueue_refund(t, row, amount, RefundNotice::Failed, now);
    let ghost told = t.outbox@;
    journal_refund(t, row, EventKind::RefundFailed, now);
    enqueue_alert_row(t, alert, now);
    assert(refund_enqueued(old(t).outbox@, told, *row, amount, RefundNotice::Failed, now));
}

/// Parks a refund that can never be paid by itself, if its row is still pending. `amount` is what the
/// buyer is told; `alert` is queued in the same step, since the row is never looked at again.
pub fn commit_park_failed(
    t: &mut Tables,
    row: &RefundRow,
    amount: u64,
    alert: Option<AlertRow>,
    now: i64,
) -> (r: Outcome)
    requires
        room_to_count(old(t).refunds@, row.id@),
        old(t).next_event_id < i64::MAX,
    ensures
        if any(old(t).refunds@, pending_row(row.id@)) {
            r == Outcome::Failed && failure_recorded(
                *old(t),
                *final(t),
                *row,
                Change::Failed,
                amount,
                alert,
                now,
            )
        } else {
            r == Outcome::Noop && *final(t) == *old(t)
        },
{
    if !has_pending(&t.refunds, &row.id) {
        return Outcome::Noop;
    }
    let _ = change_pending(&mut t.refunds, &row.id, &Change::Failed, now);
    record_failure(t, row, amount, alert, now);
    Outcome::Failed
}

/// Being a row with this id.
pub open spec fn row_id(id: Seq<char>) -> spec_fn(RefundAttempt) -> bool {
    |a: RefundAttempt| is_text(a.id, id)
}

/// The attempts counted on the row with this id.
pub open spec fn attempts_at(rows: Seq<RefundAttempt>, id: Seq<char>) -> i64 {
    attempts_of(rows[first_where(rows, row_id(id)) as int])
}

/// Whether no two rows have the same id.
pub open spec fn unique_ids(rows: Seq<RefundAttempt>) -> bool {
    forall|i: int, j: int|
        0 <= i < j < rows.len() && (#[trigger] rows[i]).id is Some && (#[trigger] rows[j]).id is Some
            ==> rows[i].id->0@ != rows[j].id->0@
}

/// Whether `new` is `old` with `c` made to the pending row and a retry journaled.
pub open spec fn retry_recorded(old: Tables, new: Tables, row: RefundRow, c: Change, now: i64) -> bool {
    &&& new.refunds@ == with_change(old.refunds@, row.id@, c, now)
    &&& events_added(old, new, 1)
    &&& is_refund_event(new.events@.last(), row, EventKind::RefundRetry, now)
    &&& new == (Tables {
        refunds: new.refunds,
        events: new.events,
        next_event_id: new.next_event_id,
        ..old
    })
}

fn count_attempts(rows: &Vec<RefundAttempt>, id: &str) -> (r: i64)
    requires
        any(rows@, row_id(id@)),
    ensures
        r == attempts_at(rows@, id@),
{
    let ghost p = row_id(id@);
    let mut i: usize = 0;
    while i < rows.len() && !holds_text(&rows[i].id, id)
        invariant
            i <= rows@.len(),
            p == row_id(id@),
            forall|k: int| 0 <= k < i ==> !p(#[trigger] rows@[k]),
        decreases rows@.len() - i,
    {
        i = i + 1;
    }
    proof {
        lemma_first_where_at(rows@, p, i as int);
        lemma_first_where(rows@, p);
    }
    match rows[i].attempts {
        Some(n) => n,
        None => 0,
    }
}

/// A changed ledger has the ids that it had.
proof fn lemma_change_keeps_ids(rows: Seq<RefundAttempt>, id: Seq<char>, c: Change, now: i64)
    requires
        any(rows, pending_row(id)),
    ensures
        any(with_change(rows, id, c, now), row_id(id)),
        first_where(with_change(rows, id, c, now), row_id(id)) == first_where(rows, row_id(id)),
        first_where(rows, row_id(id)) < rows.len(),
{
    let p = row_id(id);
    let after = with_change(rows, id, c, now);
    let k = choose|k: int| 0 <= k < rows.len() && pending_row(id)(#[trigger] rows[k]);
    assert(p(rows[k]));
    assert(p(after[k]));
    lemma_first_where(rows, p);
    let n = first_where(rows, p) as int;
    assert forall|i: int| 0 <= i < n implies !p(#[trigger] after[i]) by {
        assert(!p(rows[i]));
    }
    assert(p(after[n]));
    lemma_first_where_at(after, p, n);
}

/// The pending row is the one that its id finds.
proof fn lemma_pending_is_found(rows: Seq<RefundAttempt>, id: Seq<char>)
    requires
        unique_ids(rows),
        any(rows, pending_row(id)),
    ensures
        first_where(rows, row_id(id)) < rows.len(),
        is_pending(rows[first_where(rows, row_id(id)) as int], id),
{
    let k = choose|k: int| 0 <= k < rows.len() && pending_row(id)(#[trigger] rows[k]);
    assert(row_id(id)(rows[k]));
    lemma_first_where(rows, row_id(id));
    let n = first_where(rows, row_id(id)) as int;
    if n != k {
        if n < k {
            assert(rows[n].id->0@ != rows[k].id->0@);
        } else {
            assert(!row_id(id)(rows[k]));
        }
    }
}

/// Records that a payment failed, if the row is still pending. Only a definite failure that is the
/// last of [`MAX_REFUND_ATTEMPTS`] parks the refund; any other leaves it pending for the next drive.
pub fn commit_pay_failure(
    t: &mut Tables,
    row: &RefundRow,
    amount: u64,
    alert: Option<AlertRow>,
    now: i64,
    definite: bool,
) -> (r: Outcome)
    requires
        unique_ids(old(t).refunds@),
        room_to_count(old(t).refunds@, row.id@),
        old(t).next_event_id < i64::MAX,
    ensures
        if !any(old(t).refunds@, pending_row(row.id@)) {
            r == Outcome::Noop && *final(t) == *old(t)
        } else if !definite || attempts_at(old(t).refunds@, row.id@) + 1 < MAX_REFUND_ATTEMPTS {
            r == Outcome::Retried && retry_recorded(*old(t), *final(t), *row, Change::Bump, now)
        } else {
            r == Outcome::Failed && failure_recorded(
                *old(t),
                *final(t),
                *row,
                Change::Failed,
                amount,
                alert,
                now,
            )
        },
{
    if !has_pending(&t.refunds, &row.id) {
        return Outcome::Noop;
    }
    proof {
        lemma_change_keeps_ids(t.refunds@, row.id@, Change::Touch, now);
        lemma_pending_is_found(t.refunds@, row.id@);
        lemma_first_where(t.refunds@, row_id(row.id@));
        assert(row_id(row.id@)(t.refunds@[first_where(t.refunds@, row_id(row.id@)) as int]));
    }
    let attempts: i64 = count_attempts(&t.refunds, &row.id);
    if !definite || attempts + 1 < MAX_REFUND_ATTEMPTS {
        let _ = change_pending(&mut t.refunds, &row.id, &Change::Bump, now);
        journal_refund(t, row, EventKind::RefundRetry, now);
        return Outcome::Retried;
    }
    let _ = change_pending(&mut t.refunds, &row.id, &Change::Failed, now);
    record_failure(t, row, amount, alert, now);
    Outcome::Failed
}

/// Records that nothing could be paid this time, if the row is still pending. The attempts are left
/// as they are: only payments count towards the cap.
pub fn commit_resolution_retry(t: &mut Tables, row: &RefundRow, now: i64) -> (r: Outcome)
    requires
        old(t).next_event_id < i64::MAX,
    ensures
        if any(old(t).refunds@, pending_row(row.id@)) {
            r == Outcome::Retried && retry_recorded(*old(t), *final(t), *row, Change::Touch, now)
        } else {
            r == Outcome::Noop && *final(t) == *old(t)
        },
{
    if !has_pending(&t.refunds, &row.id) {
        return Outcome::Noop;
    }
    let _ = change_pending(&mut t.refunds, &row.id, &Change::Touch, now);
    journal_refund(t, row, EventKind::RefundRetry, now);
    Outcome::Retried
}

/// Persists the invoice that a destination was resolved to, if the row is still pending, and says
/// whether it was. An invoice that was not persisted must not be paid.
pub fn persist_resolution(t: &mut Tables, id: &str, resolved: Resolved, gen: i64, now: i64) -> (r: bool)
    ensures
        r == any(old(t).refunds@, pending_row(id@)),
        final(t).refunds@ == with_change(
            old(t).refunds@,
            id@,
            (Change::Resolve { bolt11: resolved.bolt11, expiry: resolved.expiry, gen }),
            now,
        ),
        *final(t) == (Tables { refunds: final(t).refunds, ..*old(t) }),
{
    let change = Change::Resolve { bolt11: resolved.bolt11, expiry: resolved.expiry, gen };
    change_pending(&mut t.refunds, id, &change, now)
}

/// What the state must have room for before a decision is recorded.
pub open spec fn recordable(t: Tables, row: RefundRow, commit: Commit) -> bool {
    match commit {
        Commit::Sent { .. } => room_to_count(t.refunds@, row.id@) && t.next_event_id < i64::MAX - 1,
        Commit::Park { .. } => room_to_count(t.refunds@, row.id@) && t.next_event_id < i64::MAX,
        Commit::PayFailure { .. } => unique_ids(t.refunds@) && room_to_count(t.refunds@, row.id@)
            && t.next_event_id < i64::MAX,
        Commit::Retry { .. } => t.next_event_id < i64::MAX,
        Commit::Nothing => true,
    }
}

/// Whether `new` is `old` with a decision about a pending row recorded, and `r` what became of it.
pub open spec fn is_recorded(
    old: Tables,
    new: Tables,
    row: RefundRow,
    commit: Commit,
    alert: Option<AlertRow>,
    now: i64,
    r: Outcome,
) -> bool {
    match commit {
        Commit::Sent { backend_payment_id, pay_sat } => r == Outcome::Sent && sent_recorded(
            old,
            new,
            row,
            backend_payment_id,
            pay_sat,
            now,
        ),
        Commit::Park { amount, reason } => r == Outcome::Failed && failure_recorded(
            old,
            new,
            row,
            Change::Failed,
            amount,
            alert,
            now,
        ),
        Commit::PayFailure { amount, definite } => if !definite || attempts_at(
            old.refunds@,
            row.id@,
        ) + 1 < MAX_REFUND_ATTEMPTS {
            r == Outcome::Retried && retry_recorded(old, new, row, Change::Bump, now)
        } else {
            r == Outcome::Failed && failure_recorded(
                old,
                new,
                row,
                Change::Failed,
                amount,
                alert,
                now,
            )
        },
        Commit::Retry { reason } => r == Outcome::Retried && retry_recorded(
            old,
            new,
            row,
            Change::Touch,
            now,
        ),
        Commit::Nothing => r == Outcome::Noop && new == old,
    }
}

/// Whether a decision is recorded where the row is still pending, and nothing changed where it is not.
pub open spec fn recorded_if_pending(
    old: Tables,
    new: Tables,
    row: RefundRow,
    commit: Commit,
    alert: Option<AlertRow>,
    now: i64,
    r: Outcome,
) -> bool {
    if any(old.refunds@, pending_row(row.id@)) {
        is_recorded(old, new, row, commit, alert, now, r)
    } else {
        r == Outcome::Noop && new == old
    }
}

/// Records what a drive decided about a row, if the row is still pending. `alert` is queued only where
/// the refund is parked.
pub fn record(t: &mut Tables, row: &RefundRow, commit: Commit, alert: Option<AlertRow>, now: i64) -> (r:
    Outcome)
    requires
        recordable(*old(t), *row, commit),
    ensures
        recorded_if_pending(*old(t), *final(t), *row, commit, alert, now, r),
{
    match commit {
        Commit::Sent { backend_payment_id, pay_sat } => {
            if commit_sent(t, row, backend_payment_id, pay_sat, now) {
                Outcome::Sent
            } else {
                Outcome::Noop
            }
        },
        Commit::Park { amount, reason: _ } => commit_park_failed(t, row, amount, alert, now),
        Commit::PayFailure { amount, definite } => commit_pay_failure(
            t,
            row,
            amount,
            alert,
            now,
            definite,
        ),
        Commit::Retry { reason: _ } => commit_resolution_retry(t, row, now),
        Commit::Nothing => Outcome::Noop,
    }
}

// ---- what the operator is told ---------------------------------------------------------------

/// An optional text, or a dash.
pub open spec fn or_dash(o: Option<String>) -> Seq<char> {
    match o {
        Some(s) => s@,
        None => "-"@,
    }
}

/// The words of the alert about a refund that was parked.
pub fn parked_detail(row: &RefundRow, reason: &str) -> (r: String)
    ensures
        r@ == "refund "@ + row.id@ + " parked FAILED ("@ + reason@ + "); sub "@ + or_dash(
            row.subscription_id,
        ),
{
    let head = cat5("refund ", &row.id, " parked FAILED (", reason, "); sub ");
    match &row.subscription_id {
        Some(s) => cat2(&head, s),
        None => cat2(&head, "-"),
    }
}

/// The reason given for a refund that was parked after its last attempt.
pub fn exhausted_reason() -> (r: String)
    ensures
        r@ == "exhausted "@ + decimal(MAX_REFUND_ATTEMPTS as int) + " pay attempts"@,
{
    let n = decimal_text(MAX_REFUND_ATTEMPTS as i128);
    cat3("exhausted ", &n, " pay attempts")
}

/// The reason that the operator is given should recording a decision park the refund; none where it
/// cannot.
pub fn parked_reason(commit: &Commit) -> (r: Option<String>)
    ensures
        opt_view(r) == match *commit {
            Commit::Park { amount, reason } => Some(reason@),
            Commit::PayFailure { amount, definite } => Some(
                "exhausted "@ + decimal(MAX_REFUND_ATTEMPTS as int) + " pay attempts"@,
            ),
            _ => None,
        },
{
    match commit {
        Commit::Park { amount: _, reason } => Some(reason.clone()),
        Commit::PayFailure { amount: _, definite: _ } => Some(exhausted_reason()),
        _ => None,
    }
}

/// Whether a refund has been pending for so long that the operator is to be told.
pub open spec fn is_stuck(created_at: i64, now: i64) -> bool {
    now - created_at >= RESOLUTION_STUCK_ALERT_S
}

/// The words of the alert about a refund that stays pending, once it has been for too long.
pub fn stuck_detail(row: &RefundRow, now: i64) -> (r: Option<String>)
    ensures
        r is Some <==> is_stuck(row.created_at, now),
        r matches Some(m) ==> m@ == "refund "@ + row.id@ + " stuck PENDING "@ + decimal(
            now - row.created_at,
        ) + "s without progress; sub "@ + or_dash(row.subscription_id),
{
    let age: i128 = now as i128 - row.created_at as i128;
    if age < RESOLUTION_STUCK_ALERT_S as i128 {
        return None;
    }
    let n = decimal_text(age);
    let head = cat5("refund ", &row.id, " stuck PENDING ", &n, "s without progress; sub ");
    match &row.subscription_id {
        Some(s) => Some(cat2(&head, s)),
        None => Some(cat2(&head, "-")),
    }
}

// ---- the rows to drive -----------------------------------------------------------------------

/// Being the subscription with this id.
pub open spec fn sub_id(id: Seq<char>) -> spec_fn(Subscription) -> bool {
    |s: Subscription| s.id@ == id
}

/// The buyer's key of the subscription with this id.
pub open spec fn buyer_of(subs: Seq<Subscription>, id: Option<String>) -> Option<String> {
    match id {
        Some(i) => {
            let n = first_where(subs, sub_id(i@)) as int;
            if n < subs.len() {
                subs[n].buyer_pubkey
            } else {
                None
            }
        },
        None => None,
    }
}

/// The refund that a row of the ledger stands for.
pub open spec fn is_row_of(r: RefundRow, a: RefundAttempt, subs: Seq<Subscription>) -> bool {
    &&& a.id == Some(r.id)
    &&& r.subscription_id == a.subscription_id
    &&& r.dest == a.dest
    &&& r.amount_sat == a.amount_sat
    &&& r.idempotency_key == a.idempotency_key
    &&& r.recipient == buyer_of(subs, a.subscription_id)
    &&& r.resolved_bolt11 == a.resolved_bolt11
    &&& r.resolved_expiry == a.resolved_expiry
    &&& r.resolution_gen == a.resolution_gen
    &&& r.created_at == match a.created_at {
        Some(c) => c,
        None => 0,
    }
}

/// Being a pending row.
pub open spec fn pending() -> spec_fn(RefundAttempt) -> bool {
    |a: RefundAttempt| a.status == RefundStatus::Pending
}

/// What the rows to drive are ordered by.
pub open spec fn refund_key(a: RefundAttempt) -> OrderKey {
    OrderKey { at: a.created_at, id: a.id }
}

/// The keys of a sequence of rows.
pub open spec fn refund_keys(rows: Seq<RefundAttempt>) -> Seq<OrderKey> {
    rows.map_values(|a: RefundAttempt| refund_key(a))
}

fn find_buyer(subs: &Vec<Subscription>, id: &Option<String>) -> (r: Option<String>)
    ensures
        r == buyer_of(subs@, *id),
{
    match id {
        None => None,
        Some(s) => {
            let ghost p = sub_id(s@);
            let mut i: usize = 0;
            while i < subs.len()
                invariant
                    i <= subs@.len(),
                    *id == Some(*s),
                    p == sub_id(s@),
                    forall|k: int| 0 <= k < i ==> !p(#[trigger] subs@[k]),
                decreases subs@.len() - i,
            {
                if same(&subs[i].id, s) {
                    proof {
                        lemma_first_where_at(subs@, p, i as int);
                    }
                    return subs[i].buyer_pubkey.clone();
                }
                i = i + 1;
            }
            proof {
                lemma_first_where_at(subs@, p, i as int);
            }
            None
        },
    }
}

/// Whether these are the refunds to drive (see [`pending_refunds`]).
pub open spec fn is_drive_list(t: Tables, rows: Seq<RefundRow>) -> bool {
    let due = t.refunds@.filter(pending());
    exists|order: Seq<usize>|
        #![trigger is_order(refund_keys(due), order)]
        {
            &&& is_order(refund_keys(due), order)
            &&& rows.len() == due.len()
            &&& forall|i: int|
                0 <= i < rows.len() ==> is_row_of(
                    #[trigger] rows[i],
                    due[order[i] as int],
                    t.subscriptions@,
                )
        }
}

/// The refunds to drive: every pending row, oldest first and then by id, with the buyer's key of its
/// subscription. `None` where a pending row has no id, which no drive can address.
pub fn pending_refunds(t: &Tables) -> (r: Option<Vec<RefundRow>>)
    ensures
        r is None <==> any(
            t.refunds@,
            |a: RefundAttempt| a.status == RefundStatus::Pending && a.id is None,
        ),
        r matches Some(rows) ==> is_drive_list(*t, rows@),
{
    let ghost p = pending();
    let ghost nameless = |a: RefundAttempt| a.status == RefundStatus::Pending && a.id is None;
    let mut rows: Vec<RefundRow> = Vec::new();
    let mut keys: Vec<OrderKey> = Vec::new();
    let mut i: usize = 0;
    proof {
        reveal(Seq::filter);
        assert(t.refunds@.take(0) =~= Seq::empty());
    }
    while i < t.refunds.len()
        invariant
            i <= t.refunds@.len(),
            p == pending(),
            nameless == (|a: RefundAttempt| a.status == RefundStatus::Pending && a.id is None),
            forall|k: int| 0 <= k < i ==> !nameless(#[trigger] t.refunds@[k]),
            rows@.len() == t.refunds@.take(i as int).filter(p).len(),
            keys@.len() == rows@.len(),
            forall|k: int|
                0 <= k < rows@.len() ==> is_row_of(
                    #[trigger] rows@[k],
                    t.refunds@.take(i as int).filter(p)[k],
                    t.subscriptions@,
                ),
            forall|k: int|
                0 <= k < keys@.len() ==> #[trigger] keys@[k] == refund_key(
                    t.refunds@.take(i as int).filter(p)[k],
                ),
        decreases t.refunds@.len() - i,
    {
        let a = &t.refunds[i];
        proof {
            lemma_filter_next(t.refunds@, p, i as int);
        }
        if a.status.is_pending() {
            match &a.id {
                None => {
                    assert(nameless(t.refunds@[i as int]));
                    return None;
                },
                Some(id) => {
                    keys.push(OrderKey { at: a.created_at, id: a.id.clone() });
                    rows.push(
                        RefundRow {
                            id: id.clone(),
                            subscription_id: a.subscription_id.clone(),
                            dest: a.dest.clone(),
                            amount_sat: a.amount_sat,
                            idempotency_key: a.idempotency_key.clone(),
                            recipient: find_buyer(&t.subscriptions, &a.subscription_id),
                            resolved_bolt11: a.resolved_bolt11.clone(),
                            resolved_expiry: a.resolved_expiry,
                            resolution_gen: a.resolution_gen,
                            created_at: match a.created_at {
                                Some(c) => c,
                                None => 0,
                            },
                        },
                    );
                },
            }
        }
        i = i + 1;
    }
    assert(t.refunds@.take(i as int) =~= t.refunds@);
    let order = order_by(&keys);
    let ghost due = t.refunds@.filter(p);
    assert(keys@ =~= refund_keys(due));
    let mut out: Vec<RefundRow> = Vec::new();
    let mut j: usize = 0;
    while j < order.len()
        invariant
            j <= order@.len(),
            out@.len() == j,
            order@.len() == rows@.len(),
            rows@.len() == due.len(),
            forall|k: int| 0 <= k < order@.len() ==> 0 <= #[trigger] order@[k] < rows@.len(),
            forall|k: int|
                0 <= k < rows@.len() ==> is_row_of(#[trigger] rows@[k], due[k], t.subscriptions@),
            forall|k: int|
                0 <= k < j ==> is_row_of(
                    #[trigger] out@[k],
                    due[order@[k] as int],
                    t.subscriptions@,
                ),
        decreases order@.len() - j,
    {
        let r = &rows[order[j]];
        out.push(
            RefundRow {
                id: r.id.clone(),
                subscription_id: r.subscription_id.clone(),
                dest: r.dest.clone(),
                amount_sat: r.amount_sat,
                idempotency_key: r.idempotency_key.clone(),
                recipient: r.recipient.clone(),
                resolved_bolt11: r.resolved_bolt11.clone(),
                resolved_expiry: r.resolved_expiry,
                resolution_gen: r.resolution_gen,
                created_at: r.created_at,
            },
        );
        j = j + 1;
    }
    assert(is_order(refund_keys(due), order@));
    Some(out)
}

// ---- laws of the ledger ----------------------------------------------------------------------

/// No change ever touches a row that is not pending, or another row's id, gross, key or destination.
pub proof fn ledger_changes_only_pending_rows(
    rows: Seq<RefundAttempt>,
    id: Seq<char>,
    c: Change,
    now: i64,
    i: int,
)
    requires
        0 <= i < rows.len(),
    ensures
        with_change(rows, id, c, now).len() == rows.len(),
        !is_pending(rows[i], id) ==> with_change(rows, id, c, now)[i] == rows[i],
        with_change(rows, id, c, now)[i].id == rows[i].id,
        with_change(rows, id, c, now)[i].amount_sat == rows[i].amount_sat,
        with_change(rows, id, c, now)[i].idempotency_key == rows[i].idempotency_key,
        with_change(rows, id, c, now)[i].dest == rows[i].dest,
{
}

/// Once a refund is recorded as sent or as failed its row is no longer pending, so every later commit
/// of the same row finds nothing to change.
pub proof fn terminal_refund_is_final(rows: Seq<RefundAttempt>, id: Seq<char>, c: Change, now: i64)
    requires
        c is Sent || c is Failed,
    ensures
        !any(with_change(rows, id, c, now), pending_row(id)),
        forall|d: Change, later: i64|
            #[trigger] with_change(with_change(rows, id, c, now), id, d, later) == with_change(
                rows,
                id,
                c,
                now,
            ),
{
    let after = with_change(rows, id, c, now);
    assert forall|i: int| 0 <= i < after.len() implies !pending_row(id)(#[trigger] after[i]) by {
        assert(rows[i].id == after[i].id);
    }
    assert forall|d: Change, later: i64| #[trigger] with_change(after, id, d, later) == after by {
        assert(with_change(after, id, d, later) =~= after) by {
            assert forall|i: int| 0 <= i < after.len() implies with_change(after, id, d, later)[i]
                == after[i] by {
                assert(!pending_row(id)(after[i]));
            }
        }
    }
}

/// Only payments count towards the cap: a retry without one leaves the attempts as they are, and a
/// resolution does too; a payment counts one.
pub proof fn only_payments_count(a: RefundAttempt, now: i64, bolt11: String, expiry: i64, gen: i64)
    requires
        attempts_of(a) < i64::MAX,
    ensures
        attempts_of(changed(a, Change::Touch, now)) == attempts_of(a),
        attempts_of(changed(a, Change::Resolve { bolt11, expiry, gen }, now)) == attempts_of(a),
        attempts_of(changed(a, Change::Bump, now)) == attempts_of(a) + 1,
        changed(a, Change::Touch, now).status == a.status,
        changed(a, Change::Bump, now).status == a.status,
{
}

/// The message about a refund is queued at most once, however often its drive is repeated.
pub proof fn refund_message_is_queued_once(
    old: Seq<OutboxRow>,
    mid: Seq<OutboxRow>,
    new: Seq<OutboxRow>,
    row: RefundRow,
    amount: u64,
    notice: RefundNotice,
    now: i64,
    amount2: u64,
    notice2: RefundNotice,
    now2: i64,
)
    requires
        refund_enqueued(old, mid, row, amount, notice, now),
        refund_enqueued(mid, new, row, amount2, notice2, now2),
    ensures
        new == mid,
{
    let p = message_id("outbox:refund:"@ + row.ext());
    if !any(old, p) {
        assert(p(mid[mid.len() - 1]));
    }
    assert(any(mid, p));
}

/// A refund only moves a subscription that waits for it: any other state stays as it is.
pub proof fn refund_never_revives_a_subscription(
    subs: Seq<Subscription>,
    id: Option<String>,
    now: i64,
    i: int,
)
    requires
        0 <= i < subs.len(),
    ensures
        subs[i].state != SubState::RefundDue ==> refunded(subs, id, now)[i] == subs[i],
        refunded(subs, id, now)[i].state != subs[i].state ==> refunded(subs, id, now)[i].state
            == SubState::Refunded,
{
}

/// What the ledger holds once a refund is recorded as sent, row by row: the pending row of that id is
/// sent, with one more attempt, the new id of the backend's where there is one and else the one it had,
/// and everything that was owed as it was; every other row is as it was.
pub proof fn sent_refund_in_the_ledger(
    old: Tables,
    new: Tables,
    row: RefundRow,
    backend_payment_id: Option<String>,
    paid_sat: u64,
    now: i64,
    i: int,
)
    requires
        sent_recorded(old, new, row, backend_payment_id, paid_sat, now),
        room_to_count(old.refunds@, row.id@),
        0 <= i < old.refunds@.len(),
    ensures
        new.refunds@.len() == old.refunds@.len(),
        ({
            let a = old.refunds@[i];
            let b = new.refunds@[i];
            if (a.id matches Some(x) && x@ == row.id@) && a.status == RefundStatus::Pending {
                &&& b.status == RefundStatus::Sent
                &&& b.attempts is Some
                &&& b.attempts->0 == 1 + (match a.attempts {
                    Some(n) => n as int,
                    None => 0,
                })
                &&& b.backend_payment_id == (if backend_payment_id is Some {
                    backend_payment_id
                } else {
                    a.backend_payment_id
                })
                &&& b.updated_at == Some(now)
                &&& b.id == a.id
                &&& b.subscription_id == a.subscription_id
                &&& b.dest == a.dest
                &&& b.amount_sat == a.amount_sat
                &&& b.idempotency_key == a.idempotency_key
                &&& b.resolved_bolt11 == a.resolved_bolt11
                &&& b.resolved_expiry == a.resolved_expiry
                &&& b.resolution_gen == a.resolution_gen
                &&& b.created_at == a.created_at
            } else {
                b == a
            }
        }),
{
    assert(is_pending(old.refunds@[i], row.id@) ==> attempts_of(old.refunds@[i]) < i64::MAX);
}

/// What else changes once a refund is recorded as sent. A subscription that waited for the refund is
/// refunded and keeps all else; every other subscription is as it was. Its reservations that were held
/// or consumed are released where it waited, and no reservation changes otherwise. One event says that
/// the refund of this external id was sent. No other table is touched.
pub proof fn sent_refund_in_the_books(
    old: Tables,
    new: Tables,
    row: RefundRow,
    backend_payment_id: Option<String>,
    paid_sat: u64,
    now: i64,
    i: int,
    j: int,
)
    requires
        sent_recorded(old, new, row, backend_payment_id, paid_sat, now),
        0 <= i < old.subscriptions@.len(),
        0 <= j < old.reservations@.len(),
    ensures
        new.subscriptions@.len() == old.subscriptions@.len(),
        ({
            let s = old.subscriptions@[i];
            let waited = s.state == SubState::RefundDue && (row.subscription_id matches Some(x)
                && x@ == s.id@);
            new.subscriptions@[i] == if waited {
                Subscription { state: SubState::Refunded, updated_at: Some(now), ..s }
            } else {
                s
            }
        }),
        new.reservations@.len() == old.reservations@.len(),
        ({
            let r = old.reservations@[j];
            let waited = exists|k: int|
                0 <= k < old.subscriptions@.len() && (#[trigger] old.subscriptions@[k]).state
                    == SubState::RefundDue && row.subscription_id is Some
                    && old.subscriptions@[k].id@ == row.subscription_id->0@;
            new.reservations@[j] == if waited && r.order_id@ == row.subscription_id->0@ && (r.state
                == HoldState::Held || r.state == HoldState::Consumed) {
                Reservation { state: HoldState::Released, ..r }
            } else {
                r
            }
        }),
        ({
            let r = old.reservations@[j];
            let freed = new.reservations@[j] != r;
            &&& freed ==> new.events@.len() == old.events@.len() + 2
            &&& freed ==> new.events@[old.events@.len() as int].kind == EventKind::ReserveRelease
            &&& new.events@.len() == old.events@.len() + 1 || new.events@.len() == old.events@.len()
                + 2
        }),
        (forall|k: int|
            0 <= k < old.reservations@.len() ==> new.reservations@[k]
                == #[trigger] old.reservations@[k]) ==> new.events@.len() == old.events@.len() + 1,
        new.events@.last().kind == EventKind::RefundSent,
        new.events@.last().at == Some(now),
        opt_view(new.events@.last().subscription_id) == opt_view(row.subscription_id),
        new.events@.last().detail matches EventDetail::Refund { external_id } && external_id@
            == row.ext(),
        new.invoices == old.invoices,
        new.op_invocations == old.op_invocations,
        new.inbound_requests == old.inbound_requests,
        new.instances == old.instances,
        new.teardown_failures == old.teardown_failures,
        new.connect_sessions == old.connect_sessions,
        new.boxes == old.boxes,
        new.listings == old.listings,
{
    let due = refund_due(row.subscription_id);
    if any(old.subscriptions@, due) {
        let k = choose|k: int| 0 <= k < old.subscriptions@.len() && due(#[trigger] old.subscriptions@[k]);
        assert(old.subscriptions@[k].state == SubState::RefundDue);
    }
    assert forall|k: int|
        0 <= k < old.subscriptions@.len() && (#[trigger] old.subscriptions@[k]).state
            == SubState::RefundDue && row.subscription_id is Some && old.subscriptions@[k].id@
            == row.subscription_id->0@ implies any(old.subscriptions@, due) by {
        assert(due(old.subscriptions@[k]));
    }
    let r = old.reservations@[j];
    if row.subscription_id is Some && is_hold_of(
        r,
        row.subscription_id->0@,
        HoldState::Held,
        HoldState::Consumed,
    ) {
        lemma_hold_is_counted(
            old.reservations@,
            row.subscription_id->0@,
            HoldState::Held,
            HoldState::Consumed,
            j,
        );
    }
    if frees_hold(old, row.subscription_id) {
        lemma_counted_hold_is_there(
            old.reservations@,
            row.subscription_id->0@,
            HoldState::Held,
            HoldState::Consumed,
        );
    }
}

/// The buyer is told of a refund under the id of its external id, once: where a message of that id is
/// there already the outbox stays as it is; or else one is added behind the others that is addressed to
/// the row's recipient, names its subscription, the amount and what became of it, and waits to be sent.
pub proof fn buyer_is_told_once(
    old: Seq<OutboxRow>,
    new: Seq<OutboxRow>,
    row: RefundRow,
    amount: u64,
    notice: RefundNotice,
    now: i64,
)
    requires
        refund_enqueued(old, new, row, amount, notice, now),
    ensures
        (exists|k: int| 0 <= k < old.len() && (#[trigger] old[k]).id@ == "outbox:refund:"@ + row.ext())
            ==> new == old,
        !(exists|k: int| 0 <= k < old.len() && (#[trigger] old[k]).id@ == "outbox:refund:"@ + row.ext())
            ==> {
            &&& new.len() == old.len() + 1
            &&& new.take(old.len() as int) == old
            &&& new.last().id@ == "outbox:refund:"@ + row.ext()
            &&& new.last().recipient == row.recipient
            &&& new.last().subscription_id == row.subscription_id
            &&& new.last().payload matches Payload::BillingRefund {
                subscription_id,
                amount_sat,
                notice: n,
            }
            &&& row.subscription_id matches Some(s) ==> subscription_id@ == s@
            &&& amount_sat == amount
            &&& n == notice
            &&& new.last().state == OutboxState::Pending
            &&& new.last().attempts == Some(0i64)
            &&& new.last().created_at == Some(now)
        },
{
    let id = "outbox:refund:"@ + row.ext();
    let p = message_id(id);
    assert forall|k: int| 0 <= k < old.len() && (#[trigger] old[k]).id@ == id implies any(old, p) by {
        assert(p(old[k]));
    }
    if any(old, p) {
        let k = choose|k: int| 0 <= k < old.len() && p(#[trigger] old[k]);
        assert(old[k].id@ == id);
    }
    assert(old.push(new.last()).take(old.len() as int) =~= old);
}

/// What the books hold once a refund is recorded as failed: the pending row of that id is failed, with
/// one more attempt; every other row is as it was. The buyer is told of the failure, and where an alert
/// was prepared a message of its id is queued. No subscription, reservation or invoice changes.
pub proof fn failed_refund_in_the_books(
    old: Tables,
    new: Tables,
    row: RefundRow,
    amount: u64,
    alert: Option<AlertRow>,
    now: i64,
    i: int,
)
    requires
        failure_recorded(old, new, row, Change::Failed, amount, alert, now),
        room_to_count(old.refunds@, row.id@),
        0 <= i < old.refunds@.len(),
    ensures
        new.refunds@.len() == old.refunds@.len(),
        ({
            let a = old.refunds@[i];
            let b = new.refunds@[i];
            if (a.id matches Some(x) && x@ == row.id@) && a.status == RefundStatus::Pending {
                &&& b.status == RefundStatus::Failed
                &&& b.attempts is Some
                &&& b.attempts->0 == 1 + (match a.attempts {
                    Some(n) => n as int,
                    None => 0,
                })
                &&& b == (RefundAttempt {
                    status: b.status,
                    attempts: b.attempts,
                    updated_at: Some(now),
                    ..a
                })
            } else {
                b == a
            }
        }),
        exists|k: int|
            0 <= k < new.outbox@.len() && (#[trigger] new.outbox@[k]).id@ == "outbox:refund:"@
                + row.ext(),
        (forall|k: int|
            0 <= k < old.outbox@.len() ==> (#[trigger] old.outbox@[k]).id@ != "outbox:refund:"@
                + row.ext()) ==> (new.outbox@[old.outbox@.len() as int].payload
            matches Payload::BillingRefund { amount_sat, notice, .. } && amount_sat == amount
            && notice == RefundNotice::Failed),
        alert matches Some(a) ==> exists|k: int|
            0 <= k < new.outbox@.len() && (#[trigger] new.outbox@[k]).id@ == a.id@,
        new.outbox@.len() <= old.outbox@.len() + 2,
        alert is None ==> new.outbox@.len() <= old.outbox@.len() + 1,
        new.events@.len() == old.events@.len() + 1,
        new.events@.last().kind == EventKind::RefundFailed,
        new.events@.last().at == Some(now),
        opt_view(new.events@.last().subscription_id) == opt_view(row.subscription_id),
        new.events@.last().detail matches EventDetail::Refund { external_id } && external_id@
            == row.ext(),
        new.subscriptions == old.subscriptions,
        new.reservations == old.reservations,
        new.invoices == old.invoices,
        new.instances == old.instances,
{
    assert(is_pending(old.refunds@[i], row.id@) ==> attempts_of(old.refunds@[i]) < i64::MAX);
    let id = "outbox:refund:"@ + row.ext();
    let p = message_id(id);
    let told = choose|told: Seq<OutboxRow>|
        {
            &&& #[trigger] refund_enqueued(
                old.outbox@,
                told,
                row,
                amount,
                RefundNotice::Failed,
                now,
            )
            &&& alert_enqueued(told, new.outbox@, alert, now)
        };
    assert(exists|k: int| 0 <= k < told.len() && (#[trigger] told[k]).id@ == id) by {
        if any(old.outbox@, p) {
            let k = choose|k: int| 0 <= k < old.outbox@.len() && p(#[trigger] old.outbox@[k]);
            assert(told[k].id@ == id);
        } else {
            assert(told[told.len() - 1].id@ == id);
        }
    }
    let k = choose|k: int| 0 <= k < told.len() && (#[trigger] told[k]).id@ == id;
    assert(new.outbox@[k].id@ == id);
    if any(old.outbox@, p) {
        let n = choose|n: int| 0 <= n < old.outbox@.len() && p(#[trigger] old.outbox@[n]);
        assert(old.outbox@[n].id@ == id);
    } else {
        assert(told[old.outbox@.len() as int] == told.last());
        assert(new.outbox@[old.outbox@.len() as int] == told.last());
    }
    if let Some(a) = alert {
        let q = message_id(a.id@);
        if any(told, q) {
            let n = choose|n: int| 0 <= n < told.len() && q(#[trigger] told[n]);
            assert(new.outbox@[n].id@ == a.id@);
        } else {
            assert(new.outbox@[new.outbox@.len() - 1].id@ == a.id@);
        }
    }
}

/// What the books hold once a retry is recorded: the pending row of that id is marked as looked at and,
/// where a payment was tried, has one more attempt; every other row is as it was. One event journals
/// the retry, and nothing else changes: nobody is told, and the subscription waits on.
pub proof fn retried_refund_in_the_books(
    old: Tables,
    new: Tables,
    row: RefundRow,
    paid: bool,
    now: i64,
    i: int,
)
    requires
        retry_recorded(
            old,
            new,
            row,
            if paid {
                Change::Bump
            } else {
                Change::Touch
            },
            now,
        ),
        room_to_count(old.refunds@, row.id@),
        0 <= i < old.refunds@.len(),
    ensures
        new.refunds@.len() == old.refunds@.len(),
        ({
            let a = old.refunds@[i];
            let b = new.refunds@[i];
            if (a.id matches Some(x) && x@ == row.id@) && a.status == RefundStatus::Pending {
                &&& b == (RefundAttempt { attempts: b.attempts, updated_at: Some(now), ..a })
                &&& !paid ==> b.attempts == a.attempts
                &&& paid ==> b.attempts is Some && b.attempts->0 == 1 + (match a.attempts {
                    Some(n) => n as int,
                    None => 0,
                })
            } else {
                b == a
            }
        }),
        new.events@.len() == old.events@.len() + 1,
        new.events@.last().kind == EventKind::RefundRetry,
        new.events@.last().at == Some(now),
        opt_view(new.events@.last().subscription_id) == opt_view(row.subscription_id),
        new.events@.last().detail matches EventDetail::Refund { external_id } && external_id@
            == row.ext(),
        new.outbox == old.outbox,
        new.subscriptions == old.subscriptions,
        new.reservations == old.reservations,
        new.invoices == old.invoices,
{
    assert(is_pending(old.refunds@[i], row.id@) ==> attempts_of(old.refunds@[i]) < i64::MAX);
}

/// Which of the three a decision is recorded as. A payment that failed parks the refund exactly where
/// it failed definitely and four attempts or more were counted before it: the fifth is the last.
pub proof fn fifth_definite_failure_parks_the_refund(
    old: Tables,
    new: Tables,
    row: RefundRow,
    amount: u64,
    definite: bool,
    alert: Option<AlertRow>,
    now: i64,
    r: Outcome,
    i: int,
)
    requires
        is_recorded(old, new, row, Commit::PayFailure { amount, definite }, alert, now, r),
        unique_ids(old.refunds@),
        0 <= i < old.refunds@.len(),
        old.refunds@[i].id matches Some(x) && x@ == row.id@,
        old.refunds@[i].status == RefundStatus::Pending,
    ensures
        r == Outcome::Failed || r == Outcome::Retried,
        r == Outcome::Failed <==> definite && (match old.refunds@[i].attempts {
            Some(n) => n as int,
            None => 0,
        }) >= 4,
        new.refunds@[i].status == (if r == Outcome::Failed {
            RefundStatus::Failed
        } else {
            RefundStatus::Pending
        }),
{
    let p = row_id(row.id@);
    lemma_first_where(old.refunds@, p);
    assert(p(old.refunds@[i]));
    let n = first_where(old.refunds@, p) as int;
    assert(p(old.refunds@[n]));
    if n != i {
        assert(old.refunds@[n].id->0@ != old.refunds@[i].id->0@);
    }
}

/// A resolution that is persisted is what the row then holds, on the pending row of that id alone, and
/// the generation with it; what is owed and what was counted stay.
pub proof fn resolution_in_the_ledger(
    rows: Seq<RefundAttempt>,
    id: Seq<char>,
    bolt11: String,
    expiry: i64,
    gen: i64,
    now: i64,
    i: int,
)
    requires
        0 <= i < rows.len(),
    ensures
        ({
            let a = rows[i];
            let b = with_change(rows, id, Change::Resolve { bolt11, expiry, gen }, now)[i];
            if (a.id matches Some(x) && x@ == id) && a.status == RefundStatus::Pending {
                &&& b.resolved_bolt11 == Some(bolt11)
                &&& b.resolved_expiry == Some(expiry)
                &&& b.resolution_gen == gen
                &&& b == (RefundAttempt {
                    resolved_bolt11: b.resolved_bolt11,
                    resolved_expiry: b.resolved_expiry,
                    resolution_gen: b.resolution_gen,
                    updated_at: Some(now),
                    ..a
                })
            } else {
                b == a
            }
        }),
{
}

/// The row that is driven is the pending row of the ledger, with nothing made up: what it owes, where
/// to, under which key, and what it was last resolved to. Its recipient is the buyer of the first
/// subscription with its subscription's id, and none where there is no such subscription.
pub proof fn driven_row_is_the_ledger_row(
    r: RefundRow,
    a: RefundAttempt,
    subs: Seq<Subscription>,
    n: int,
)
    requires
        is_row_of(r, a, subs),
    ensures
        a.id matches Some(id) && r.id == id,
        r.subscription_id == a.subscription_id,
        r.dest == a.dest,
        r.amount_sat == a.amount_sat,
        r.idempotency_key == a.idempotency_key,
        r.resolved_bolt11 == a.resolved_bolt11,
        r.resolved_expiry == a.resolved_expiry,
        r.resolution_gen == a.resolution_gen,
        a.created_at matches Some(c) ==> r.created_at == c,
        a.created_at is None ==> r.created_at == 0,
        a.subscription_id is None ==> r.recipient is None,
        a.subscription_id matches Some(s) ==> {
            &&& 0 <= n < subs.len() && subs[n].id@ == s@ && (forall|k: int|
                0 <= k < n ==> (#[trigger] subs[k]).id@ != s@) ==> r.recipient
                == subs[n].buyer_pubkey
            &&& (forall|k: int| 0 <= k < subs.len() ==> (#[trigger] subs[k]).id@ != s@)
                ==> r.recipient is None
        },
{
    if let Some(s) = a.subscription_id {
        let p = sub_id(s@);
        lemma_first_where(subs, p);
        if 0 <= n < subs.len() && subs[n].id@ == s@ && (forall|k: int|
            0 <= k < n ==> (#[trigger] subs[k]).id@ != s@) {
            lemma_first_where_at(subs, p, n);
        }
        let m = first_where(subs, p) as int;
        if m < subs.len() {
            assert(p(subs[m]));
        }
    }
}

/// What was parked without provenance is reported with the recorded amount where that is positive, and
/// with zero otherwise.
pub proof fn stored_gross_is_never_negative(row: RefundRow)
    ensures
        row.amount_sat matches Some(a) && a > 0 ==> row.stored_gross() == row.amount_sat->0,
        !(row.amount_sat matches Some(a) && a > 0) ==> row.stored_gross() == 0,
{
}

/// The operator is called for from a week on, to the second.
pub proof fn pending_for_a_week_is_stuck(created_at: i64, now: i64)
    ensures
        is_stuck(created_at, now) <==> now - created_at >= 7 * 24 * 60 * 60,
{
}

/// An outcome that is added to a drive's counts once, under its own heading.
pub proof fn each_outcome_counts_once(outcomes: Seq<Outcome>, last: Outcome, o: Outcome)
    ensures
        count(outcomes.push(last), o) == count(outcomes, o) + (if last == o {
            1nat
        } else {
            0nat
        }),
        count(Seq::<Outcome>::empty(), o) == 0,
{
    let p = being(o);
    let all = outcomes.push(last);
    lemma_filter_next(all, p, outcomes.len() as int);
    assert(all.take(outcomes.len() as int) =~= outcomes);
    assert(all.take(outcomes.len() as int + 1) =~= all);
    reveal(Seq::filter);
}

/// A report counts each outcome under its own heading: one more row adds one to that of its outcome and
/// to no other, and a row on which nothing was done to none.
pub proof fn report_counts_one_more_row(
    before: RefundReport,
    after: RefundReport,
    outcomes: Seq<Outcome>,
    last: Outcome,
)
    requires
        is_report(before, outcomes),
        is_report(after, outcomes.push(last)),
    ensures
        after.sent == before.sent + (if last == Outcome::Sent {
            1int
        } else {
            0int
        }),
        after.retried == before.retried + (if last == Outcome::Retried {
            1int
        } else {
            0int
        }),
        after.failed == before.failed + (if last == Outcome::Failed {
            1int
        } else {
            0int
        }),
        outcomes.len() == 0 ==> before.sent == 0 && before.retried == 0 && before.failed == 0,
{
    each_outcome_counts_once(outcomes, last, Outcome::Sent);
    each_outcome_counts_once(outcomes, last, Outcome::Retried);
    each_outcome_counts_once(outcomes, last, Outcome::Failed);
    if outcomes.len() == 0 {
        assert(outcomes =~= Seq::<Outcome>::empty());
    }
}

/// A row that is no longer pending is left alone, whatever was decided: nothing changes. Only a decision
/// to leave it alone changes nothing where it is pending.
pub proof fn settled_row_is_left_alone(
    old: Tables,
    new: Tables,
    row: RefundRow,
    commit: Commit,
    alert: Option<AlertRow>,
    now: i64,
    r: Outcome,
)
    requires
        recorded_if_pending(old, new, row, commit, alert, now, r),
    ensures
        ({
            let pending = exists|i: int|
                0 <= i < old.refunds@.len() && (#[trigger] old.refunds@[i]).status
                    == RefundStatus::Pending && old.refunds@[i].id is Some
                    && old.refunds@[i].id->0@ == row.id@;
            &&& !pending ==> new == old && r == Outcome::Noop
            &&& pending ==> (r == Outcome::Noop <==> commit is Nothing)
            &&& pending ==> (r == Outcome::Sent <==> commit is Sent)
            &&& pending && commit is Park ==> r == Outcome::Failed
            &&& pending && commit is Retry ==> r == Outcome::Retried
            &&& commit is Nothing ==> new == old
        }),
{
    let p = pending_row(row.id@);
    if any(old.refunds@, p) {
        let i = choose|i: int| 0 <= i < old.refunds@.len() && p(#[trigger] old.refunds@[i]);
        assert(old.refunds@[i].status == RefundStatus::Pending);
    }
    assert forall|i: int|
        0 <= i < old.refunds@.len() && (#[trigger] old.refunds@[i]).status == RefundStatus::Pending
            && old.refunds@[i].id is Some && old.refunds@[i].id->0@ == row.id@ implies any(
        old.refunds@,
        p,
    ) by {
        assert(p(old.refunds@[i]));
    }
}

/// What is driven is the pending rows and nothing else, oldest first: each row in the list is one of the
/// ledger that is pending; each that is pending is in it; and a row comes before another only where it
/// is not the younger one.
pub proof fn pending_rows_are_driven_oldest_first(t: Tables, rows: Seq<RefundRow>, i: int, j: int)
    requires
        is_drive_list(t, rows),
    ensures
        0 <= i < rows.len() ==> exists|k: int|
            {
                &&& 0 <= k < t.refunds@.len()
                &&& (#[trigger] t.refunds@[k]).status == RefundStatus::Pending
                &&& is_row_of(rows[i], t.refunds@[k], t.subscriptions@)
            },
        0 <= i < t.refunds@.len() && t.refunds@[i].status == RefundStatus::Pending ==> exists|k: int|
            0 <= k < rows.len() && is_row_of(#[trigger] rows[k], t.refunds@[i], t.subscriptions@),
        0 <= i < j < rows.len() && rows[j].created_at > 0 ==> rows[i].created_at
            <= rows[j].created_at,
{
    let due = t.refunds@.filter(pending());
    let order = choose|order: Seq<usize>|
        #![trigger is_order(refund_keys(due), order)]
        {
            &&& is_order(refund_keys(due), order)
            &&& rows.len() == due.len()
            &&& forall|i: int|
                0 <= i < rows.len() ==> is_row_of(
                    #[trigger] rows[i],
                    due[order[i] as int],
                    t.subscriptions@,
                )
        };
    let keys = refund_keys(due);
    if 0 <= i < rows.len() {
        assert(0 <= order[i] < keys.len());
        lemma_filtered_was_there(t.refunds@, pending(), order[i] as int);
        let k = choose|k: int|
            0 <= k < t.refunds@.len() && #[trigger] t.refunds@[k] == due[order[i] as int]
                && pending()(t.refunds@[k]);
        assert(t.refunds@[k].status == RefundStatus::Pending);
        assert(is_row_of(rows[i], t.refunds@[k], t.subscriptions@));
    }
    if 0 <= i < t.refunds@.len() && t.refunds@[i].status == RefundStatus::Pending {
        let row = t.refunds@[i];
        broadcast use vstd::seq_lib::group_filter_ensures;

        assert(t.refunds@.contains(row));
        assert(due.contains(row));
        let n = choose|n: int| 0 <= n < due.len() && due[n] == row;
        lemma_order_covers(keys, order, n);
        let k = choose|k: int| 0 <= k < order.len() && #[trigger] order[k] == n;
        assert(is_row_of(rows[k], row, t.subscriptions@));
    }
    if 0 <= i < j < rows.len() {
        assert(0 <= order[i] < keys.len() && 0 <= order[j] < keys.len());
        assert(keys[order[i] as int].le(keys[order[j] as int]));
        assert(is_row_of(rows[i], due[order[i] as int], t.subscriptions@));
        assert(is_row_of(rows[j], due[order[j] as int], t.subscriptions@));
    }
}

/// Looking up what was received: an invoice of the external id that is paid or settled is answered with
/// its amount, whatever the journal holds; without one a journal that cannot be read is an error, and
/// never an amount.
pub proof fn invoice_answers_before_the_journal(
    r: Result<Option<i64>, ReceiptError>,
    t: Tables,
    ext: Seq<char>,
    n: int,
)
    requires
        is_lookup_of(r, t, ext),
        0 <= n <= t.invoices@.len(),
        forall|k: int|
            0 <= k < n ==> (#[trigger] t.invoices@[k]).external_id@ != ext || (t.invoices@[k].status
                != InvoiceStatus::Paid && t.invoices@[k].settled_at is None),
        n < t.invoices@.len() ==> t.invoices@[n].external_id@ == ext && (t.invoices@[n].status
            == InvoiceStatus::Paid || t.invoices@[n].settled_at is Some),
    ensures
        n < t.invoices@.len() ==> r == Ok::<Option<i64>, ReceiptError>(t.invoices@[n].amount_sat),
        n == t.invoices@.len() ==> (r matches Err(e) ==> receipt_fault(t.events@, ext) == Some(e)),
        n == t.invoices@.len() ==> (r is Err <==> receipt_fault(t.events@, ext) is Some),
{
    let p = paid_invoice_of(ext);
    lemma_first_where_at(t.invoices@, p, n);
    lemma_first_where(t.invoices@, p);
}

/// An alert that is queued is the one that was prepared: for its recipient, word for word, under its own
/// id, waiting to be sent; and it is queued only where none of its id is there.
pub proof fn prepared_alert_is_queued_once(
    old: Seq<OutboxRow>,
    new: Seq<OutboxRow>,
    alert: AlertRow,
    now: i64,
)
    requires
        alert_enqueued(old, new, Some(alert), now),
    ensures
        ({
            let there = exists|k: int| 0 <= k < old.len() && (#[trigger] old[k]).id@ == alert.id@;
            &&& there ==> new == old
            &&& !there ==> {
                &&& new.len() == old.len() + 1
                &&& new.take(old.len() as int) == old
                &&& new.last().id == alert.id
                &&& new.last().recipient == Some(alert.recipient)
                &&& new.last().subscription_id is None
                &&& new.last().payload == Payload::OperatorAlert(alert.payload)
                &&& new.last().state == OutboxState::Pending
                &&& new.last().attempts == Some(0i64)
                &&& new.last().created_at == Some(now)
            }
        }),
{
    let p = message_id(alert.id@);
    assert forall|k: int| 0 <= k < old.len() && (#[trigger] old[k]).id@ == alert.id@ implies any(
        old,
        p,
    ) by {
        assert(p(old[k]));
    }
    if any(old, p) {
        let k = choose|k: int| 0 <= k < old.len() && p(#[trigger] old[k]);
        assert(old[k].id@ == alert.id@);
    }
    assert(old.push(new.last()).take(old.len() as int) =~= old);
}

} // verus!
