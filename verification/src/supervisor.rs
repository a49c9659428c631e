//! The daemon's runtime rules: in which order things start, recover and stop, when a loop is
//! restarted, how a payment that was missed is dated, and what the listing and the host's budget are.
//!
//! Times that are waited for are in milliseconds; points in time are in seconds.

use crate::documents::{doc_view, find_value, first_member_gives_the_value, value_of};
use crate::outside::{
    json, members_view, parse_json, JsonDoc, JsonDocView, JsonMember, JsonValue, JsonView,
};
use crate::refund::sub_id;
use crate::reservation::Budget;
use crate::tables::{
    first_where, lemma_filter_next, lemma_first_where, lemma_first_where_at, opt_view, HostBox,
    Invoice, InvoiceKind, InvoiceStatus, ListingRow, ListingState, Subscription, Tables,
};
use crate::text::{
    at_most, cat2, cat3, chars_of, decimal, is_space, lemma_digits, lemma_number_of_decimal,
    lemma_text_le_total, lemma_text_le_transitive, number, owned, parse_i64, same, text_le, trim,
    trimmed, trimming_takes_only_white_space,
};
use vstd::prelude::*;
use vstd::string::*;

verus! {

// ---- cadences and restarts -------------------------------------------------------------------

/// The loop cadences, in milliseconds.
#[derive(Clone, Copy, Debug, PartialEq, Eq, Structural)]
pub struct Intervals {
    /// How often deadlines are looked at.
    pub reconcile: u64,
    /// How often the maintenance loop runs, besides when it is nudged.
    pub maintenance: u64,
}

impl Intervals {
    /// The production cadence: deadlines every 60 seconds, maintenance every 5.
    pub fn production() -> (r: Intervals)
        ensures
            r == (Intervals { reconcile: 60000, maintenance: 5000 }),
    {
        Intervals { reconcile: 60_000, maintenance: 5_000 }
    }
}

/// A capped exponential backoff, in milliseconds.
#[derive(Clone, Copy, Debug, PartialEq, Eq, Structural)]
pub struct Backoff {
    pub base: u64,
    pub max: u64,
}

/// How long a shutdown waits for the loops, in milliseconds.
pub const SHUTDOWN_GRACE_MS: u64 = 5000;

/// How long one loop may take to finish its work in a shutdown, in milliseconds.
pub const SHUTDOWN_DRAIN_MS: u64 = 3000;

/// The backoff of every loop: a tenth of a second growing to 15 seconds.
pub fn restart_backoff() -> (r: Backoff)
    ensures
        r == (Backoff { base: 100, max: 15000 }),
{
    Backoff { base: 100, max: 15_000 }
}

/// How a supervised loop came to an end.
#[derive(Clone, Copy, Debug, PartialEq, Eq, Structural)]
pub enum Exit {
    /// It returned, which a long-lived loop is not meant to do.
    Clean,
    Error,
    Panicked,
    /// It was cancelled from outside.
    Cancelled,
}

/// What is done about it.
#[derive(Clone, Copy, Debug, PartialEq, Eq, Structural)]
pub enum Supervision {
    Stop,
    /// Restart after so long; the backoff then stands at `next_delay`.
    Restart { after: u64, next_delay: u64 },
}

/// Twice the delay, at most the cap.
pub open spec fn grown(delay: u64, max: u64) -> u64 {
    if 2 * delay <= max {
        (2 * delay) as u64
    } else {
        max
    }
}

/// What is done about a loop that ended after `ran` milliseconds, with the backoff at `delay`: never
/// restart in a shutdown or after a cancellation; else restart after the delay, which starts over
/// where the loop ran for as long as the cap.
pub open spec fn supervision(backoff: Backoff, delay: u64, exit: Exit, shutdown: bool, ran: u64) -> Supervision {
    if shutdown || exit == Exit::Cancelled {
        Supervision::Stop
    } else {
        let after = if ran >= backoff.max {
            backoff.base
        } else {
            delay
        };
        Supervision::Restart { after, next_delay: grown(after, backoff.max) }
    }
}

/// Decides what is done about a loop that ended.
pub fn supervise(backoff: Backoff, delay: u64, exit: Exit, shutdown: bool, ran: u64) -> (r: Supervision)
    ensures
        r == supervision(backoff, delay, exit, shutdown, ran),
{
    if shutdown || exit == Exit::Cancelled {
        return Supervision::Stop;
    }
    let after: u64 = if ran >= backoff.max {
        backoff.base
    } else {
        delay
    };
    let next_delay: u64 = if after <= backoff.max / 2 {
        2 * after
    } else {
        backoff.max
    };
    Supervision::Restart { after, next_delay }
}

/// The delay before the restart after `n` crashes in quick succession.
pub open spec fn delay_after(backoff: Backoff, n: nat) -> u64
    decreases n,
{
    if n == 0 {
        backoff.base
    } else {
        grown(delay_after(backoff, (n - 1) as nat), backoff.max)
    }
}

/// The delay doubles with every crash in quick succession, up to the cap and never beyond it.
pub proof fn backoff_doubles_up_to_the_cap(backoff: Backoff, n: nat)
    requires
        backoff.base <= backoff.max,
    ensures
        delay_after(backoff, n) == if backoff.base * vstd::arithmetic::power2::pow2(n)
            <= backoff.max {
            (backoff.base * vstd::arithmetic::power2::pow2(n)) as u64
        } else {
            backoff.max
        },
        delay_after(backoff, n) <= backoff.max,
    decreases n,
{
    vstd::arithmetic::power2::lemma2_to64();
    if n > 0 {
        let m = (n - 1) as nat;
        backoff_doubles_up_to_the_cap(backoff, m);
        vstd::arithmetic::power2::lemma_pow2_unfold(n);
        let p = vstd::arithmetic::power2::pow2(m);
        assert(backoff.base * (2 * p) == 2 * (backoff.base * p)) by (nonlinear_arith);
        assert(backoff.base * p >= 0) by (nonlinear_arith)
            requires
                backoff.base >= 0,
                p >= 0,
        ;
    }
}

/// How the inbound loop's accepted work is brought to an end.
#[derive(Clone, Copy, Debug, PartialEq, Eq, Structural)]
pub enum InboundStep {
    /// Run the loop.
    Run,
    /// The loop still runs: stop accepting, and wait for what was accepted.
    DrainRunning,
    /// The loop has stopped: wait for what it had accepted.
    DrainStopped,
    /// Nothing is waited for.
    Stop,
    /// Restart after so long; the backoff then stands at `next_delay`.
    Restart { after: u64, next_delay: u64 },
}

/// What happened to the inbound loop.
#[derive(Clone, Copy, Debug, PartialEq, Eq, Structural)]
pub enum InboundEvent {
    /// It is about to be started.
    Starting,
    /// A shutdown began while it ran.
    ShutdownWhileRunning,
    /// It ended after `ran` milliseconds.
    Ended { exit: Exit, ran: u64 },
    /// A shutdown began while its restart was waited for.
    ShutdownWhileWaiting,
}

/// What is done with the inbound loop (see [`supervise_inbound`]).
pub open spec fn inbound_step(
    backoff: Backoff,
    delay: u64,
    event: InboundEvent,
    shutdown: bool,
) -> InboundStep {
    match event {
        InboundEvent::Starting => if shutdown {
            InboundStep::DrainStopped
        } else {
            InboundStep::Run
        },
        InboundEvent::ShutdownWhileRunning => InboundStep::DrainRunning,
        InboundEvent::ShutdownWhileWaiting => InboundStep::DrainStopped,
        InboundEvent::Ended { exit, ran } => if shutdown {
            InboundStep::DrainStopped
        } else {
            match supervision(backoff, delay, exit, false, ran) {
                Supervision::Stop => InboundStep::Stop,
                Supervision::Restart { after, next_delay } => InboundStep::Restart {
                    after,
                    next_delay,
                },
            }
        },
    }
}

/// Decides what is done with the inbound loop. Unlike other loops it is never left in a shutdown
/// before what it accepted is drained, so that its replies are in the final flush.
pub fn supervise_inbound(backoff: Backoff, delay: u64, event: InboundEvent, shutdown: bool) -> (r:
    InboundStep)
    ensures
        r == inbound_step(backoff, delay, event, shutdown),
{
    match event {
        InboundEvent::Starting => {
            if shutdown {
                InboundStep::DrainStopped
            } else {
                InboundStep::Run
            }
        },
        InboundEvent::ShutdownWhileRunning => InboundStep::DrainRunning,
        InboundEvent::ShutdownWhileWaiting => InboundStep::DrainStopped,
        InboundEvent::Ended { exit, ran } => {
            if shutdown {
                InboundStep::DrainStopped
            } else {
                match supervise(backoff, delay, exit, false, ran) {
                    Supervision::Stop => InboundStep::Stop,
                    Supervision::Restart { after, next_delay } => InboundStep::Restart {
                        after,
                        next_delay,
                    },
                }
            }
        },
    }
}

/// How many inbound handlers are at work.
#[derive(Debug)]
pub struct InboundDrain {
    active: usize,
}

impl InboundDrain {
    /// How many handlers are at work.
    pub closed spec fn at_work(self) -> nat {
        self.active as nat
    }

    /// Nobody is at work.
    pub fn new() -> (r: InboundDrain)
        ensures
            r.at_work() == 0,
    {
        InboundDrain { active: 0 }
    }

    /// A handler begins.
    pub fn enter(&mut self)
        requires
            old(self).at_work() < usize::MAX,
        ensures
            final(self).at_work() == old(self).at_work() + 1,
    {
        self.active = self.active + 1;
    }

    /// A handler is done.
    pub fn leave(&mut self)
        requires
            old(self).at_work() > 0,
        ensures
            final(self).at_work() == old(self).at_work() - 1,
    {
        self.active = self.active - 1;
    }

    /// How many handlers are at work.
    pub fn active_count(&self) -> (r: usize)
        ensures
            r == self.at_work(),
    {
        self.active
    }
}

// ---- the order of things ---------------------------------------------------------------------

/// A step of the daemon's start.
#[derive(Clone, Copy, Debug, PartialEq, Eq, Structural)]
pub enum StartStep {
    /// Set the payment backend's clock, where it takes one.
    SyncPaymentClock,
    /// Open the stream of settlements, before anything could miss one.
    OpenSettlementStream,
    PublishListing,
    RecoverFromBoot,
    LogReadiness,
    SpawnIpc,
    SpawnInbound,
    SpawnSettlement,
    SpawnReconcile,
    SpawnMaintenance,
}

/// A step of the recovery at boot. Each is idempotent; one that fails does not hold up the rest.
#[derive(Clone, Copy, Debug, PartialEq, Eq, Structural)]
pub enum BootStep {
    InterruptedOps,
    DowntimeCredit,
    SettlementCatchUp,
    Provision,
    Resume,
    Refund,
    Sweep,
    Reconcile,
    Outbox,
}

/// A step of a maintenance pass. Each is idempotent; one that fails does not hold up the rest.
#[derive(Clone, Copy, Debug, PartialEq, Eq, Structural)]
pub enum MaintenanceStep {
    SyncPaymentClock,
    SettlementCatchUp,
    Provision,
    Resume,
    Refund,
    Sweep,
    LogReadiness,
    RelayStatus,
    Outbox,
}

/// A step of a graceful shutdown.
#[derive(Clone, Copy, Debug, PartialEq, Eq, Structural)]
pub enum ShutdownStep {
    SignalLoops,
    /// Wait for the inbound loop's drain, within [`SHUTDOWN_GRACE_MS`].
    AwaitInbound,
    /// Wait for the other loops, within [`SHUTDOWN_GRACE_MS`].
    AwaitLoops,
    FlushOutbox,
}

/// The order in which the daemon starts.
pub open spec fn start_order() -> Seq<StartStep> {
    seq![
        StartStep::SyncPaymentClock,
        StartStep::OpenSettlementStream,
        StartStep::PublishListing,
        StartStep::RecoverFromBoot,
        StartStep::LogReadiness,
        StartStep::SpawnIpc,
        StartStep::SpawnInbound,
        StartStep::SpawnSettlement,
        StartStep::SpawnReconcile,
        StartStep::SpawnMaintenance,
    ]
}

/// The steps of the daemon's start, in order.
pub fn start_steps() -> (r: Vec<StartStep>)
    ensures
        r@ == start_order(),
{
    let mut v: Vec<StartStep> = Vec::new();
    v.push(StartStep::SyncPaymentClock);
    v.push(StartStep::OpenSettlementStream);
    v.push(StartStep::PublishListing);
    v.push(StartStep::RecoverFromBoot);
    v.push(StartStep::LogReadiness);
    v.push(StartStep::SpawnIpc);
    v.push(StartStep::SpawnInbound);
    v.push(StartStep::SpawnSettlement);
    v.push(StartStep::SpawnReconcile);
    v.push(StartStep::SpawnMaintenance);
    v
}

/// Whether the daemon does not start where this step fails.
pub open spec fn is_vital(step: StartStep) -> bool {
    step == StartStep::OpenSettlementStream || step == StartStep::PublishListing
}

/// Whether the daemon does not start where this step fails.
pub fn aborts_start(step: StartStep) -> (r: bool)
    ensures
        r == is_vital(step),
{
    step == StartStep::OpenSettlementStream || step == StartStep::PublishListing
}

/// The order in which the daemon recovers at boot.
pub open spec fn boot_order() -> Seq<BootStep> {
    seq![
        BootStep::InterruptedOps,
        BootStep::DowntimeCredit,
        BootStep::SettlementCatchUp,
        BootStep::Provision,
        BootStep::Resume,
        BootStep::Refund,
        BootStep::Sweep,
        BootStep::Reconcile,
        BootStep::Outbox,
    ]
}

/// The steps of the recovery at boot, in order. The credit for downtime comes before the settlements
/// that were missed, so that these are dated against the credited boundary; refunds come before
/// sweeps, so that a sweep finds them settled.
pub fn boot_steps() -> (r: Vec<BootStep>)
    ensures
        r@ == boot_order(),
{
    let mut v: Vec<BootStep> = Vec::new();
    v.push(BootStep::InterruptedOps);
    v.push(BootStep::DowntimeCredit);
    v.push(BootStep::SettlementCatchUp);
    v.push(BootStep::Provision);
    v.push(BootStep::Resume);
    v.push(BootStep::Refund);
    v.push(BootStep::Sweep);
    v.push(BootStep::Reconcile);
    v.push(BootStep::Outbox);
    v
}

/// The steps of a maintenance pass that the catch-up of settlements belongs to.
pub open spec fn full_pass() -> Seq<MaintenanceStep> {
    seq![
        MaintenanceStep::SyncPaymentClock,
        MaintenanceStep::SettlementCatchUp,
        MaintenanceStep::Provision,
        MaintenanceStep::Resume,
        MaintenanceStep::Refund,
        MaintenanceStep::Sweep,
        MaintenanceStep::LogReadiness,
        MaintenanceStep::RelayStatus,
        MaintenanceStep::Outbox,
    ]
}

/// The steps of a maintenance pass, in order. Only a pass that the interval woke catches up on
/// settlements; one that was nudged does not look at every open invoice again.
pub fn maintenance_steps(run_catch_up: bool) -> (r: Vec<MaintenanceStep>)
    ensures
        r@ == if run_catch_up {
            full_pass()
        } else {
            full_pass().remove(1)
        },
{
    let mut v: Vec<MaintenanceStep> = Vec::new();
    v.push(MaintenanceStep::SyncPaymentClock);
    if run_catch_up {
        v.push(MaintenanceStep::SettlementCatchUp);
    }
    v.push(MaintenanceStep::Provision);
    v.push(MaintenanceStep::Resume);
    v.push(MaintenanceStep::Refund);
    v.push(MaintenanceStep::Sweep);
    v.push(MaintenanceStep::LogReadiness);
    v.push(MaintenanceStep::RelayStatus);
    v.push(MaintenanceStep::Outbox);
    v
}

/// The order in which the daemon stops.
pub open spec fn shutdown_order() -> Seq<ShutdownStep> {
    seq![
        ShutdownStep::SignalLoops,
        ShutdownStep::AwaitInbound,
        ShutdownStep::AwaitLoops,
        ShutdownStep::FlushOutbox,
    ]
}

/// The steps of a graceful shutdown, in order: the final flush comes when every loop has stopped, so
/// that it sends what their last work queued.
pub fn shutdown_steps() -> (r: Vec<ShutdownStep>)
    ensures
        r@ == shutdown_order(),
{
    let mut v: Vec<ShutdownStep> = Vec::new();
    v.push(ShutdownStep::SignalLoops);
    v.push(ShutdownStep::AwaitInbound);
    v.push(ShutdownStep::AwaitLoops);
    v.push(ShutdownStep::FlushOutbox);
    v
}

// ---- settlements that were missed ------------------------------------------------------------

/// What capturing a settlement came to.
#[derive(Clone, Copy, Debug, PartialEq, Eq, Structural)]
pub enum Capture {
    /// An order was paid and waits to be provisioned.
    Captured,
    /// A renewal was paid and its subscription waits to be resumed.
    Resumed,
    /// The payment has to go back.
    RefundDue,
    /// Nothing is left to be done.
    Settled,
}

/// Whether a captured settlement left work for the maintenance loop.
pub open spec fn has_work(c: Capture) -> bool {
    c == Capture::Captured || c == Capture::Resumed || c == Capture::RefundDue
}

/// Whether a captured settlement left work for the maintenance loop.
pub fn leaves_work(c: Capture) -> (r: bool)
    ensures
        r == has_work(c),
{
    c == Capture::Captured || c == Capture::Resumed || c == Capture::RefundDue
}

/// A settlement, as it is captured.
#[derive(Clone, Debug)]
pub struct Settlement {
    pub invoice_id: String,
    pub external_id: String,
    pub amount_sat: u64,
    pub settled_at: i64,
}

/// An invoice that may have been paid unseen, with the timers of its subscription.
#[derive(Clone, Debug)]
pub struct CatchUpRow {
    pub id: String,
    pub external_id: String,
    pub amount_sat: i64,
    pub expires_at: Option<i64>,
    pub renewal: bool,
    pub paid_through: Option<i64>,
    pub retention_s: Option<i64>,
    pub suspend_not_before: Option<i64>,
}

/// Being an invoice that may have been paid unseen.
pub open spec fn may_be_missed() -> spec_fn(Invoice) -> bool {
    |i: Invoice|
        i.status == InvoiceStatus::Open && (i.kind == InvoiceKind::Order || i.kind
            == InvoiceKind::Renewal)
}

/// The position of an invoice's subscription, or the number of subscriptions where it has none.
pub open spec fn owner_at(subs: Seq<Subscription>, id: Option<String>) -> nat {
    match id {
        Some(i) => first_where(subs, sub_id(i@)),
        None => subs.len(),
    }
}

/// Whether a row stands for an invoice.
pub open spec fn is_catch_up_row(r: CatchUpRow, i: Invoice, subs: Seq<Subscription>) -> bool {
    let at = owner_at(subs, i.subscription_id) as int;
    &&& r.id == i.id
    &&& r.external_id == i.external_id
    &&& r.amount_sat == (match i.amount_sat {
        Some(a) => a,
        None => 0,
    })
    &&& r.expires_at == i.expires_at
    &&& r.renewal == (i.kind == InvoiceKind::Renewal)
    &&& if at < subs.len() {
        r.paid_through == subs[at].paid_through && r.retention_s == subs[at].retention_s
            && r.suspend_not_before == subs[at].suspend_not_before
    } else {
        r.paid_through is None && r.retention_s is None && r.suspend_not_before is None
    }
}

fn find_owner(subs: &Vec<Subscription>, id: &Option<String>) -> (r: usize)
    ensures
        r == owner_at(subs@, *id),
        r <= subs@.len(),
{
    match id {
        None => subs.len(),
        Some(s) => {
            let ghost p = sub_id(s@);
            let mut i: usize = 0;
            while i < subs.len() && !same(&subs[i].id, s)
                invariant
                    i <= subs@.len(),
                    p == sub_id(s@),
                    forall|k: int| 0 <= k < i ==> !p(#[trigger] subs@[k]),
                decreases subs@.len() - i,
            {
                i = i + 1;
            }
            proof {
                lemma_first_where_at(subs@, p, i as int);
            }
            i
        },
    }
}

/// The invoices that may have been paid unseen: every open one of an order or a renewal.
pub fn open_settlements(t: &Tables) -> (r: Vec<CatchUpRow>)
    ensures
        r@.len() == t.invoices@.filter(may_be_missed()).len(),
        forall|k: int|
            0 <= k < r@.len() ==> is_catch_up_row(
                #[trigger] r@[k],
                t.invoices@.filter(may_be_missed())[k],
                t.subscriptions@,
            ),
{
    let ghost p = may_be_missed();
    let mut out: Vec<CatchUpRow> = Vec::new();
    let mut i: usize = 0;
    proof {
        reveal(Seq::filter);
        assert(t.invoices@.take(0) =~= Seq::empty());
    }
    while i < t.invoices.len()
        invariant
            i <= t.invoices@.len(),
            p == may_be_missed(),
            out@.len() == t.invoices@.take(i as int).filter(p).len(),
            forall|k: int|
                0 <= k < out@.len() ==> is_catch_up_row(
                    #[trigger] out@[k],
                    t.invoices@.take(i as int).filter(p)[k],
                    t.subscriptions@,
                ),
        decreases t.invoices@.len() - i,
    {
        let v = &t.invoices[i];
        proof {
            lemma_filter_next(t.invoices@, p, i as int);
        }
        if v.status == InvoiceStatus::Open && (v.kind == InvoiceKind::Order || v.kind
            == InvoiceKind::Renewal) {
            let at: usize = find_owner(&t.subscriptions, &v.subscription_id);
            let amount_sat: i64 = match v.amount_sat {
                Some(a) => a,
                None => 0,
            };
            let (paid_through, retention_s, suspend_not_before): (
                Option<i64>,
                Option<i64>,
                Option<i64>,
            ) = if at < t.subscriptions.len() {
                let s = &t.subscriptions[at];
                (s.paid_through, s.retention_s, s.suspend_not_before)
            } else {
                (None, None, None)
            };
            out.push(
                CatchUpRow {
                    id: v.id.clone(),
                    external_id: v.external_id.clone(),
                    amount_sat,
                    expires_at: v.expires_at,
                    renewal: v.kind == InvoiceKind::Renewal,
                    paid_through,
                    retention_s,
                    suspend_not_before,
                },
            );
        }
        i = i + 1;
    }
    assert(t.invoices@.take(i as int) =~= t.invoices@);
    out
}

/// The smaller of two bounds, one that is missing left out.
pub open spec fn smaller(a: Option<int>, b: Option<int>) -> Option<int> {
    match (a, b) {
        (Some(x), Some(y)) => Some(
            if x <= y {
                x
            } else {
                y
            },
        ),
        (Some(x), None) => Some(x),
        (None, y) => y,
    }
}

/// An optional number as a mathematical one.
pub open spec fn wide(a: Option<i64>) -> Option<int> {
    match a {
        Some(x) => Some(x as int),
        None => None,
    }
}

/// The smaller of two bounds, one that is missing left out.
pub fn min_opt(a: Option<i64>, b: Option<i64>) -> (r: Option<i64>)
    ensures
        wide(r) == smaller(wide(a), wide(b)),
{
    match (a, b) {
        (Some(x), Some(y)) => Some(
            if x <= y {
                x
            } else {
                y
            },
        ),
        (Some(x), None) => Some(x),
        (None, y) => y,
    }
}

/// The time given to a payment whose true time is unknown: now, or just inside the bound where now is
/// past it.
pub open spec fn recovered_time(now: int, cap: Option<int>) -> int {
    match cap {
        Some(c) => if now >= c {
            if c > i64::MIN {
                c - 1
            } else {
                c
            }
        } else {
            now
        },
        None => now,
    }
}

/// The time given to a payment whose true time is unknown.
pub fn recovered_settled_at(now: i64, cap: Option<i64>) -> (r: i64)
    ensures
        r == recovered_time(now as int, wide(cap)),
{
    match cap {
        Some(c) => {
            if now >= c {
                if c > i64::MIN {
                    c - 1
                } else {
                    c
                }
            } else {
                now
            }
        },
        None => now,
    }
}

/// The end of the time in which a renewal can still be resumed, where the row has what it takes: its
/// retention after the later of what was paid for and what downtime credit adds.
pub open spec fn renewal_boundary_of(r: CatchUpRow) -> Option<int> {
    match (r.renewal, r.paid_through, r.retention_s) {
        (true, Some(pt), Some(ret)) => Some(
            (match r.suspend_not_before {
                Some(floor) => if floor > pt {
                    floor
                } else {
                    pt
                },
                None => pt,
            }) + ret,
        ),
        _ => None,
    }
}

/// The time at which a missed payment is captured: its true time where the backend saw it, and else
/// one that is before the invoice's expiry and, for a renewal, before the end of its time.
pub open spec fn settled_time(r: CatchUpRow, observed: Option<i64>, now: i64) -> int {
    match observed {
        Some(at) => at as int,
        None => recovered_time(now as int, smaller(wide(r.expires_at), renewal_boundary_of(r))),
    }
}

/// An amount as it is captured; a negative one comes out 2^64 more.
pub open spec fn unsigned(amount: i64) -> u64 {
    if amount >= 0 {
        amount as u64
    } else {
        (amount + 0x1_0000_0000_0000_0000) as u64
    }
}

/// Whether the end of a renewal's time can be stored.
pub open spec fn boundary_fits(r: CatchUpRow) -> bool {
    renewal_boundary_of(r) matches Some(b) ==> i64::MIN <= b <= i64::MAX
}

fn wide_boundary(row: &CatchUpRow) -> (r: Option<i128>)
    ensures
        match r {
            Some(b) => renewal_boundary_of(*row) == Some(b as int),
            None => renewal_boundary_of(*row) is None,
        },
{
    match (row.renewal, row.paid_through, row.retention_s) {
        (true, Some(pt), Some(ret)) => {
            let from: i64 = match row.suspend_not_before {
                Some(floor) => {
                    if floor > pt {
                        floor
                    } else {
                        pt
                    }
                },
                None => pt,
            };
            Some(from as i128 + ret as i128)
        },
        _ => None,
    }
}

/// Whether the end of a renewal's time can be stored.
pub fn has_boundary_in_range(row: &CatchUpRow) -> (r: bool)
    ensures
        r == boundary_fits(*row),
{
    match wide_boundary(row) {
        Some(b) => i64::MIN as i128 <= b && b <= i64::MAX as i128,
        None => true,
    }
}

/// Whether a settlement is that of an invoice which the backend reports as paid.
pub open spec fn is_settlement_of(s: Settlement, row: CatchUpRow, observed: Option<i64>, now: i64) -> bool {
    &&& s.invoice_id == row.id
    &&& s.external_id == row.external_id
    &&& s.amount_sat == unsigned(row.amount_sat)
    &&& s.settled_at == settled_time(row, observed, now)
}

/// The settlement of an invoice that the backend reports as paid.
pub fn caught_settlement(row: CatchUpRow, observed: Option<i64>, now: i64) -> (r: Settlement)
    requires
        observed is None ==> boundary_fits(row),
    ensures
        is_settlement_of(r, row, observed, now),
{
    let settled_at: i64 = match observed {
        Some(at) => at,
        None => {
            let boundary: Option<i64> = match wide_boundary(&row) {
                Some(b) => Some(b as i64),
                None => None,
            };
            recovered_settled_at(now, min_opt(row.expires_at, boundary))
        },
    };
    let amount_sat: u64 = if row.amount_sat >= 0 {
        row.amount_sat as u64
    } else {
        (row.amount_sat as i128 + 0x1_0000_0000_0000_0000) as u64
    };
    Settlement { invoice_id: row.id, external_id: row.external_id, amount_sat, settled_at }
}

/// Whether this is what is captured of an invoice that may have been paid unseen (see
/// [`settlement_of`]).
pub open spec fn is_capture_of(
    r: Option<Settlement>,
    row: CatchUpRow,
    looked: Result<(bool, Option<i64>), String>,
    now: i64,
) -> bool {
    match looked {
        Ok((true, observed)) => r matches Some(s) && is_settlement_of(s, row, observed, now),
        _ => r is None,
    }
}

/// What is captured of an invoice that may have been paid unseen, given what its lookup at the backend
/// came to: whether it is paid and, if the payment was seen, when; or why it could not be looked up.
/// Only an invoice that is paid is captured.
pub fn settlement_of(row: CatchUpRow, looked: Result<(bool, Option<i64>), String>, now: i64) -> (r:
    Option<Settlement>)
    requires
        looked matches Ok((true, None)) ==> boundary_fits(row),
    ensures
        is_capture_of(r, row, looked, now),
{
    match looked {
        Ok((true, observed)) => Some(caught_settlement(row, observed, now)),
        _ => None,
    }
}

/// A payment whose true time is unknown is never dated past the time in which it counts: it comes
/// before the invoice's expiry and before the end of a renewal's time, and never after now.
pub proof fn recovered_payment_is_in_time(row: CatchUpRow, now: i64)
    requires
        row.expires_at matches Some(e) ==> e > i64::MIN,
        renewal_boundary_of(row) matches Some(b) ==> i64::MIN < b,
    ensures
        row.expires_at matches Some(e) ==> settled_time(row, None, now) < e,
        renewal_boundary_of(row) matches Some(b) ==> settled_time(row, None, now) < b,
        settled_time(row, None, now) <= now,
{
}

/// A payment that the backend saw keeps its true time, however late that is.
pub proof fn observed_payment_keeps_its_time(row: CatchUpRow, at: i64, now: i64)
    ensures
        settled_time(row, Some(at), now) == at,
{
}

// ---- durations -------------------------------------------------------------------------------

/// What a duration that cannot be read counts as, in seconds: 30 days. It is never zero, which would
/// put a timer out of order.
pub const DEFAULT_DURATION_S: i64 = 2592000;

/// The seconds that a unit stands for.
pub open spec fn unit_seconds(c: char) -> Option<int> {
    if c == 's' {
        Some(1)
    } else if c == 'm' {
        Some(60)
    } else if c == 'h' {
        Some(3600)
    } else if c == 'd' {
        Some(86400)
    } else if c == 'w' {
        Some(604800)
    } else {
        None
    }
}

/// The seconds that a duration stands for: a positive number, with a unit behind it or of seconds,
/// at most the largest 64-bit number; anything else counts as [`DEFAULT_DURATION_S`].
pub open spec fn duration_of(text: Seq<char>) -> int {
    let s = trimmed(text);
    if s.len() == 0 {
        DEFAULT_DURATION_S as int
    } else {
        let (digits, unit) = match unit_seconds(s.last()) {
            Some(u) => (s.drop_last(), u),
            None => (s, 1),
        };
        match number(trimmed(digits)) {
            Some(n) => if 0 < n <= i64::MAX {
                if n * unit <= i64::MAX {
                    n * unit
                } else {
                    i64::MAX as int
                }
            } else {
                DEFAULT_DURATION_S as int
            },
            None => DEFAULT_DURATION_S as int,
        }
    }
}

/// The seconds of a duration such as `30d`, `12h`, `90m`, `1w` or `3600`.
pub fn duration_secs(text: &str) -> (r: i64)
    ensures
        r == duration_of(text@),
{
    let s = trim(text);
    let cs = chars_of(&s);
    if cs.len() == 0 {
        return DEFAULT_DURATION_S;
    }
    let last: char = cs[cs.len() - 1];
    let (to, unit): (usize, i64) = if last == 's' {
        (cs.len() - 1, 1)
    } else if last == 'm' {
        (cs.len() - 1, 60)
    } else if last == 'h' {
        (cs.len() - 1, 3_600)
    } else if last == 'd' {
        (cs.len() - 1, 86_400)
    } else if last == 'w' {
        (cs.len() - 1, 604_800)
    } else {
        (cs.len(), 1)
    };
    let digits = s.as_str().substring_char(0, to);
    proof {
        assert(s@.last() == last);
        if to == cs@.len() {
            assert(digits@ =~= s@);
        } else {
            assert(digits@ =~= s@.drop_last());
        }
    }
    let clean = trim(digits);
    match parse_i64(&clean) {
        Some(n) => {
            if n > 0 {
                assert(0 < n * unit <= 0x7fff_ffff_ffff_ffff * 604800) by (nonlinear_arith)
                    requires
                        0 < n <= 0x7fff_ffff_ffff_ffff,
                        0 < unit <= 604800,
                ;
                let product: i128 = n as i128 * unit as i128;
                if product <= 0x7fff_ffff_ffff_ffff {
                    product as i64
                } else {
                    i64::MAX
                }
            } else {
                DEFAULT_DURATION_S
            }
        },
        None => DEFAULT_DURATION_S,
    }
}

/// A duration is never zero or negative.
pub proof fn duration_is_positive(text: Seq<char>)
    ensures
        duration_of(text) > 0,
{
    let s = trimmed(text);
    if s.len() > 0 {
        let (digits, unit) = match unit_seconds(s.last()) {
            Some(u) => (s.drop_last(), u),
            None => (s, 1int),
        };
        if let Some(n) = number(trimmed(digits)) {
            if n > 0 {
                assert(n * unit > 0) by (nonlinear_arith)
                    requires
                        n > 0,
                        unit > 0,
                ;
            }
        }
    }
}

// ---- the host's budget -----------------------------------------------------------------------

/// The budget of a host that was not onboarded yet: small and bounded.
pub open spec fn fallback() -> Budget {
    Budget { cpu: 2, mem_mb: 2048, disk_gb: 50, ports: 16 }
}

/// The id of a host that was not onboarded yet.
pub const FALLBACK_BOX_ID: &'static str = "box-0";

/// The unsigned number that a document has under a key.
pub open spec fn member_u64(members: Seq<(Seq<char>, JsonView)>, key: Seq<char>) -> Option<u64> {
    match value_of(members, key) {
        Some(JsonView::Number { unsigned, signed }) => unsigned,
        _ => None,
    }
}

/// The low 32 bits of a number.
pub open spec fn low32(n: u64) -> u32 {
    (n % 0x1_0000_0000) as u32
}

/// The budget that a capacity document gives: it must be an object with numbers for processors,
/// memory and disk; ports are none where they are missing.
pub open spec fn budget_of(doc: Result<JsonDocView, Seq<char>>) -> Option<Budget> {
    match doc {
        Ok(JsonDocView::Object(m)) => match (
            member_u64(m, "cpu"@),
            member_u64(m, "mem_mb"@),
            member_u64(m, "disk_gb"@),
        ) {
            (Some(cpu), Some(mem), Some(disk)) => Some(
                Budget {
                    cpu: low32(cpu),
                    mem_mb: low32(mem),
                    disk_gb: low32(disk),
                    ports: match member_u64(m, "ports"@) {
                        Some(p) => low32(p),
                        None => 0,
                    },
                },
            ),
            _ => None,
        },
        _ => None,
    }
}

fn find_u64(members: &Vec<JsonMember>, key: &str) -> (r: Option<u64>)
    ensures
        r == member_u64(members_view(members@), key@),
{
    match find_value(members, key) {
        Some(JsonValue::Number { unsigned, signed: _ }) => *unsigned,
        _ => None,
    }
}

fn low(n: u64) -> (r: u32)
    ensures
        r == low32(n),
{
    (n % 0x1_0000_0000) as u32
}

/// The budget that a parsed capacity document gives.
pub fn budget_from(doc: Result<JsonDoc, String>) -> (r: Option<Budget>)
    ensures
        r == budget_of(doc_view(doc)),
{
    match doc {
        Ok(JsonDoc::Object(members)) => {
            match (
                find_u64(&members, "cpu"),
                find_u64(&members, "mem_mb"),
                find_u64(&members, "disk_gb"),
            ) {
                (Some(cpu), Some(mem), Some(disk)) => {
                    let ports: u32 = match find_u64(&members, "ports") {
                        Some(p) => low(p),
                        None => 0,
                    };
                    Some(
                        Budget { cpu: low(cpu), mem_mb: low(mem), disk_gb: low(disk), ports },
                    )
                },
                _ => None,
            }
        },
        _ => None,
    }
}

/// The budget that a capacity document `{"cpu": .., "mem_mb": .., "disk_gb": .., "ports": ..}` gives.
pub fn parse_budget(capacity_json: &str) -> (r: Option<Budget>)
    ensures
        r == budget_of(json(capacity_json@)),
{
    budget_from(parse_json(capacity_json))
}

/// Whether the box at `n` is the first by id.
pub open spec fn is_first_box(boxes: Seq<HostBox>, n: int) -> bool {
    0 <= n < boxes.len() && forall|i: int|
        0 <= i < boxes.len() ==> text_le(boxes[n].id@, (#[trigger] boxes[i]).id@)
}

/// Whether these are the budget for orders and the box id for instances: those of the first host by id,
/// its budget that of the fallback where it has no readable capacity; and the fallback's where there is
/// no host.
pub open spec fn is_budget_and_box(boxes: Seq<HostBox>, budget: Budget, id: String) -> bool {
    if boxes.len() == 0 {
        budget == fallback() && id@ == FALLBACK_BOX_ID@
    } else {
        exists|n: int|
            #[trigger] is_first_box(boxes, n) && id == boxes[n].id && budget == match
                boxes[n].capacity_json {
                Some(c) => match budget_of(json(c@)) {
                    Some(b) => b,
                    None => fallback(),
                },
                None => fallback(),
            }
    }
}

/// The budget for orders and the box id for instances: those of the first host by id, its budget
/// bounded by the fallback's where it has no readable capacity; and the fallback's where there is no
/// host.
pub fn load_budget_and_box(t: &Tables) -> (r: (Budget, String))
    ensures
        is_budget_and_box(t.boxes@, r.0, r.1),
{
    let spare = Budget { cpu: 2, mem_mb: 2_048, disk_gb: 50, ports: 16 };
    if t.boxes.len() == 0 {
        return (spare, owned(FALLBACK_BOX_ID));
    }
    let mut n: usize = 0;
    let mut i: usize = 1;
    proof {
        lemma_text_le_total(t.boxes@[0].id@, t.boxes@[0].id@);
    }
    while i < t.boxes.len()
        invariant
            n < i <= t.boxes@.len(),
            forall|k: int| 0 <= k < i ==> text_le(t.boxes@[n as int].id@, (#[trigger] t.boxes@[k]).id@),
        decreases t.boxes@.len() - i,
    {
        let before = at_most(&t.boxes[n].id, &t.boxes[i].id);
        if !before {
            proof {
                let a = t.boxes@[n as int].id@;
                let b = t.boxes@[i as int].id@;
                lemma_text_le_total(a, b);
                lemma_text_le_total(b, b);
                assert forall|k: int| 0 <= k < i + 1 implies text_le(
                    b,
                    (#[trigger] t.boxes@[k]).id@,
                ) by {
                    if k < i {
                        lemma_text_le_transitive(b, a, t.boxes@[k].id@);
                    }
                }
            }
            n = i;
        }
        i = i + 1;
    }
    let found = &t.boxes[n];
    let budget: Budget = match &found.capacity_json {
        Some(c) => match parse_budget(c) {
            Some(b) => b,
            None => spare,
        },
        None => spare,
    };
    assert(is_first_box(t.boxes@, n as int));
    (budget, found.id.clone())
}

// ---- the listing -----------------------------------------------------------------------------

/// What a listing offers.
#[derive(Clone, Debug)]
pub struct ListingTerms {
    pub recipe_id: String,
    pub amount_sat: i64,
    pub period_s: i64,
    pub renew_lead_s: i64,
    pub retention_s: i64,
}

/// Whether these are the terms of a recipe's pricing.
pub open spec fn are_terms(
    terms: ListingTerms,
    recipe_id: Seq<char>,
    amount_sat: u64,
    period: Seq<char>,
    renew_lead: Seq<char>,
    retention: Seq<char>,
) -> bool {
    &&& terms.recipe_id@ == recipe_id
    &&& terms.amount_sat == crate::relay_status::as_signed(amount_sat)
    &&& terms.period_s == duration_of(period)
    &&& terms.renew_lead_s == duration_of(renew_lead)
    &&& terms.retention_s == duration_of(retention)
}

/// The terms of a recipe's pricing; the three durations are as the recipe writes them.
pub fn listing_terms(
    recipe_id: &str,
    amount_sat: u64,
    period: &str,
    renew_lead: &str,
    retention: &str,
) -> (r: ListingTerms)
    ensures
        are_terms(r, recipe_id@, amount_sat, period@, renew_lead@, retention@),
{
    let amount_sat: i64 = if amount_sat <= 0x7fff_ffff_ffff_ffff {
        amount_sat as i64
    } else {
        (amount_sat as i128 - 0x1_0000_0000_0000_0000) as i64
    };
    ListingTerms {
        recipe_id: owned(recipe_id),
        amount_sat,
        period_s: duration_secs(period),
        renew_lead_s: duration_secs(renew_lead),
        retention_s: duration_secs(retention),
    }
}

/// The coordinate of a listing: its event kind, the operator's key and the listing's tag.
pub fn listing_coordinate(operator_hex: &str, d: &str) -> (r: String)
    ensures
        r@ == "30402:"@ + operator_hex@ + ":"@ + d@,
{
    let head = cat3("30402:", operator_hex, ":");
    cat2(&head, d)
}

/// Being the listing with this id.
pub open spec fn listing_id(id: Seq<char>) -> spec_fn(ListingRow) -> bool {
    |l: ListingRow| l.id@ == id
}

/// Whether a listing offers the terms, under the recipe's id as its tag.
pub open spec fn offers(l: ListingRow, terms: ListingTerms, now: i64) -> bool {
    &&& opt_view(l.recipe_id) == Some(terms.recipe_id@)
    &&& opt_view(l.d_tag) == Some(terms.recipe_id@)
    &&& l.amount_sat == Some(terms.amount_sat)
    &&& l.period_s == Some(terms.period_s)
    &&& l.renew_lead_s == Some(terms.renew_lead_s)
    &&& l.retention_s == Some(terms.retention_s)
    &&& l.updated_at == Some(now)
}

/// Whether `new` is `old` with the listing brought up to its terms. One that is new is active; one
/// that was there keeps its state, so that one that was withdrawn stays withdrawn, and its event.
pub open spec fn listing_upserted(
    old: Seq<ListingRow>,
    new: Seq<ListingRow>,
    id: Seq<char>,
    terms: ListingTerms,
    now: i64,
) -> bool {
    let at = first_where(old, listing_id(id)) as int;
    if at < old.len() {
        &&& new == old.update(at, new[at])
        &&& new[at].id == old[at].id
        &&& new[at].state == old[at].state
        &&& new[at].event_id == old[at].event_id
        &&& offers(new[at], terms, now)
    } else {
        let l = new.last();
        &&& new == old.push(l)
        &&& l.id@ == id
        &&& l.state == ListingState::Active
        &&& l.event_id is None
        &&& offers(l, terms, now)
    }
}

fn find_listing(ls: &Vec<ListingRow>, id: &str) -> (r: usize)
    ensures
        r == first_where(ls@, listing_id(id@)),
        r <= ls@.len(),
{
    let ghost p = listing_id(id@);
    let mut i: usize = 0;
    while i < ls.len() && !same(&ls[i].id, id)
        invariant
            i <= ls@.len(),
            p == listing_id(id@),
            forall|k: int| 0 <= k < i ==> !p(#[trigger] ls@[k]),
        decreases ls@.len() - i,
    {
        i = i + 1;
    }
    proof {
        lemma_first_where_at(ls@, p, i as int);
    }
    i
}

/// Whether the listing with this id is to be published: it is active, or new.
pub open spec fn is_published(listings: Seq<ListingRow>, id: Seq<char>) -> bool {
    let at = first_where(listings, listing_id(id)) as int;
    at < listings.len() ==> listings[at].state == ListingState::Active
}

/// Brings the durable listing up to its terms, and says whether it is active and so to be published.
pub fn upsert_listing(t: &mut Tables, id: &str, terms: &ListingTerms, now: i64) -> (publish: bool)
    ensures
        listing_upserted(old(t).listings@, final(t).listings@, id@, *terms, now),
        publish == is_published(old(t).listings@, id@),
        *final(t) == (Tables { listings: final(t).listings, ..*old(t) }),
{
    let at: usize = find_listing(&t.listings, id);
    if at < t.listings.len() {
        t.listings[at].recipe_id = Some(terms.recipe_id.clone());
        t.listings[at].d_tag = Some(terms.recipe_id.clone());
        t.listings[at].amount_sat = Some(terms.amount_sat);
        t.listings[at].period_s = Some(terms.period_s);
        t.listings[at].renew_lead_s = Some(terms.renew_lead_s);
        t.listings[at].retention_s = Some(terms.retention_s);
        t.listings[at].updated_at = Some(now);
        proof {
            assert(t.listings@ =~= old(t).listings@.update(at as int, t.listings@[at as int]));
        }
        t.listings[at].state == ListingState::Active
    } else {
        t.listings.push(
            ListingRow {
                id: owned(id),
                recipe_id: Some(terms.recipe_id.clone()),
                d_tag: Some(terms.recipe_id.clone()),
                event_id: None,
                amount_sat: Some(terms.amount_sat),
                period_s: Some(terms.period_s),
                renew_lead_s: Some(terms.renew_lead_s),
                retention_s: Some(terms.retention_s),
                state: ListingState::Active,
                updated_at: Some(now),
            },
        );
        true
    }
}

/// The listings with the event under which one of them was published.
pub open spec fn with_event(listings: Seq<ListingRow>, id: Seq<char>, event_id: String) -> Seq<
    ListingRow,
> {
    let at = first_where(listings, listing_id(id)) as int;
    if at < listings.len() {
        listings.update(at, ListingRow { event_id: Some(event_id), ..listings[at] })
    } else {
        listings
    }
}

/// Notes the event under which the listing was published.
pub fn record_listing_event(t: &mut Tables, id: &str, event_id: String)
    ensures
        final(t).listings@ == with_event(old(t).listings@, id@, event_id),
        *final(t) == (Tables { listings: final(t).listings, ..*old(t) }),
{
    let at: usize = find_listing(&t.listings, id);
    if at < t.listings.len() {
        t.listings[at].event_id = Some(event_id);
        assert(t.listings@ =~= old(t).listings@.update(
            at as int,
            ListingRow { event_id: Some(event_id), ..old(t).listings@[at as int] },
        ));
    }
}

/// Publishing again never brings back a listing that was withdrawn, and changes no other listing.
pub proof fn republishing_keeps_a_withdrawal(
    old: Seq<ListingRow>,
    new: Seq<ListingRow>,
    id: Seq<char>,
    terms: ListingTerms,
    now: i64,
    i: int,
)
    requires
        listing_upserted(old, new, id, terms, now),
        0 <= i < old.len(),
    ensures
        i < new.len(),
        new[i].id == old[i].id,
        new[i].state == old[i].state,
        old[i].id@ != id ==> new[i] == old[i],
{
    lemma_first_where(old, listing_id(id));
}

/// A loop is restarted unless it was cancelled or the daemon shuts down. The restart comes after the
/// delay at hand, or after the first delay where the loop ran for as long as the cap; the next delay is
/// twice that, or the cap where that is less.
pub proof fn restart_follows_the_backoff(
    backoff: Backoff,
    delay: u64,
    exit: Exit,
    shutdown: bool,
    ran: u64,
)
    ensures
        ({
            let s = supervision(backoff, delay, exit, shutdown, ran);
            &&& s is Stop <==> shutdown || exit == Exit::Cancelled
            &&& s matches Supervision::Restart { after, next_delay } ==> {
                &&& ran >= backoff.max ==> after == backoff.base
                &&& ran < backoff.max ==> after == delay
                &&& next_delay <= backoff.max
                &&& next_delay == 2 * after || next_delay == backoff.max
                &&& 2 * after <= backoff.max ==> next_delay == 2 * after
            }
        }),
{
}

/// A maintenance pass sets the clock first, then catches up on settlements, provisions, resumes and
/// refunds, in this order, then sweeps, and flushes the outbox last, so that what the pass queued goes
/// out with it.
pub proof fn maintenance_settles_before_it_flushes()
    ensures
        full_pass().len() == 9,
        full_pass()[0] == MaintenanceStep::SyncPaymentClock,
        full_pass()[1] == MaintenanceStep::SettlementCatchUp,
        full_pass()[2] == MaintenanceStep::Provision,
        full_pass()[3] == MaintenanceStep::Resume,
        full_pass()[4] == MaintenanceStep::Refund,
        full_pass()[5] == MaintenanceStep::Sweep,
        full_pass()[6] == MaintenanceStep::LogReadiness,
        full_pass()[7] == MaintenanceStep::RelayStatus,
        full_pass().last() == MaintenanceStep::Outbox,
        !full_pass().remove(1).contains(MaintenanceStep::SettlementCatchUp),
        full_pass().remove(1).len() == 8,
{
    let rest = full_pass().remove(1);
    assert forall|i: int| 0 <= i < rest.len() implies rest[i]
        != MaintenanceStep::SettlementCatchUp by {}
}

/// Which invoices may have been paid unseen: the open ones of orders and of renewals.
pub proof fn open_orders_and_renewals_may_be_missed(i: Invoice)
    ensures
        may_be_missed()(i) <==> i.status == InvoiceStatus::Open && i.kind != InvoiceKind::Other,
{
}

/// What is looked up stands for its invoice, with nothing made up: an amount that is missing is zero,
/// and the timers are those of the first subscription with the invoice's subscription id, if there is
/// one.
pub proof fn looked_up_row_is_the_invoice(
    r: CatchUpRow,
    i: Invoice,
    subs: Seq<Subscription>,
    n: int,
)
    requires
        is_catch_up_row(r, i, subs),
    ensures
        r.id == i.id,
        r.external_id == i.external_id,
        i.amount_sat matches Some(a) ==> r.amount_sat == a,
        i.amount_sat is None ==> r.amount_sat == 0,
        r.expires_at == i.expires_at,
        r.renewal <==> i.kind == InvoiceKind::Renewal,
        i.subscription_id matches Some(s) ==> {
            &&& 0 <= n < subs.len() && subs[n].id@ == s@ && (forall|k: int|
                0 <= k < n ==> (#[trigger] subs[k]).id@ != s@) ==> r.paid_through
                == subs[n].paid_through && r.retention_s == subs[n].retention_s
                && r.suspend_not_before == subs[n].suspend_not_before
            &&& (forall|k: int| 0 <= k < subs.len() ==> (#[trigger] subs[k]).id@ != s@)
                ==> r.paid_through is None && r.retention_s is None && r.suspend_not_before is None
        },
        i.subscription_id is None ==> r.paid_through is None && r.retention_s is None
            && r.suspend_not_before is None,
{
    if let Some(s) = i.subscription_id {
        let p = sub_id(s@);
        lemma_first_where(subs, p);
        if 0 <= n < subs.len() && subs[n].id@ == s@ && (forall|k: int|
            0 <= k < n ==> (#[trigger] subs[k]).id@ != s@) {
            lemma_first_where_at(subs, p, n);
        }
        let m = first_where(subs, p) as int;
        if m < subs.len() {
            assert(p(subs[m]));
        }
    }
}

/// When a payment whose true time is unknown is dated: now, where now is before the invoice's expiry
/// and, for a renewal, before its retention after the later of what was paid for and the suspension
/// floor is over; and else one second before the earlier of these.
pub proof fn missed_payment_is_dated_now_or_just_in_time(row: CatchUpRow, now: i64)
    ensures
        ({
            let at = settled_time(row, None, now);
            let bounded = row.renewal && row.paid_through is Some && row.retention_s is Some;
            let from = if row.suspend_not_before is Some && row.suspend_not_before->0
                >= row.paid_through->0 {
                row.suspend_not_before->0
            } else {
                row.paid_through->0
            };
            let end = from + row.retention_s->0;
            let in_time = (row.expires_at is Some ==> now < row.expires_at->0) && (bounded ==> now
                < end);
            &&& in_time ==> at == now
            &&& !in_time && row.expires_at is Some && !bounded && row.expires_at->0 > i64::MIN ==> at
                == row.expires_at->0 - 1
            &&& !in_time && row.expires_at is None && bounded && end > i64::MIN ==> at == end - 1
            &&& !in_time && row.expires_at is Some && bounded && row.expires_at->0 > i64::MIN && end
                > i64::MIN ==> {
                &&& at == row.expires_at->0 - 1 || at == end - 1
                &&& at < row.expires_at->0
                &&& at < end
            }
        }),
{
}

/// An amount is captured as it is, and a negative one with 2^64 added.
pub proof fn captured_amount_wraps_around(amount: i64)
    ensures
        unsigned(amount) == amount || unsigned(amount) == amount + 0x1_0000_0000_0000_0000,
        amount >= 0 ==> unsigned(amount) == amount,
{
}

/// A duration of a positive number counts its unit that many times: a second, a minute, an hour, a day
/// or a week; without a unit it counts seconds. It never goes past the largest number.
pub proof fn durations_by_their_unit(n: i64)
    requires
        n > 0,
    ensures
        duration_of(decimal(n as int)) == n,
        duration_of(decimal(n as int).push('s')) == n,
        duration_of(decimal(n as int).push('m')) == if 60 * n <= i64::MAX {
            60 * n
        } else {
            i64::MAX as int
        },
        duration_of(decimal(n as int).push('h')) == if 3600 * n <= i64::MAX {
            3600 * n
        } else {
            i64::MAX as int
        },
        duration_of(decimal(n as int).push('d')) == if 86400 * n <= i64::MAX {
            86400 * n
        } else {
            i64::MAX as int
        },
        duration_of(decimal(n as int).push('w')) == if 604800 * n <= i64::MAX {
            604800 * n
        } else {
            i64::MAX as int
        },
{
    let d = decimal(n as int);
    let none = Seq::<char>::empty();
    lemma_digits(n as nat);
    lemma_number_of_decimal(n as int);
    assert('0' <= d[0] <= '9');
    assert('0' <= d[d.len() - 1] <= '9');
    trimming_takes_only_white_space(none, d, none);
    assert(none + d + none =~= d);
    assert(unit_seconds(d.last()) is None);
    assert(trimmed(d) == d);
    assert(duration_of(d) == n);
    assert forall|u: char| !is_space(u) implies trimmed(#[trigger] d.push(u)) == d.push(u) by {
        let t = d.push(u);
        assert(t[0] == d[0]);
        assert(t.last() == u);
        trimming_takes_only_white_space(none, t, none);
        assert(none + t + none =~= t);
    }
    assert forall|u: char| (#[trigger] d.push(u)).drop_last() == d by {
        assert(d.push(u).drop_last() =~= d);
    }
    assert(duration_of(d.push('s')) == if n * 1 <= i64::MAX {
        n * 1
    } else {
        i64::MAX as int
    }) by {
        assert(trimmed(d.push('s')) == d.push('s'));
        assert(d.push('s').last() == 's');
        assert(d.push('s').drop_last() == d);
        assert(unit_seconds('s') == Some(1int));
    }
    assert(duration_of(d.push('m')) == if n * 60 <= i64::MAX {
        n * 60
    } else {
        i64::MAX as int
    }) by {
        assert(trimmed(d.push('m')) == d.push('m'));
        assert(d.push('m').last() == 'm');
        assert(d.push('m').drop_last() == d);
        assert(unit_seconds('m') == Some(60int));
    }
    assert(duration_of(d.push('h')) == if n * 3600 <= i64::MAX {
        n * 3600
    } else {
        i64::MAX as int
    }) by {
        assert(trimmed(d.push('h')) == d.push('h'));
        assert(d.push('h').last() == 'h');
        assert(d.push('h').drop_last() == d);
        assert(unit_seconds('h') == Some(3600int));
    }
    assert(duration_of(d.push('d')) == if n * 86400 <= i64::MAX {
        n * 86400
    } else {
        i64::MAX as int
    }) by {
        assert(trimmed(d.push('d')) == d.push('d'));
        assert(d.push('d').last() == 'd');
        assert(d.push('d').drop_last() == d);
        assert(unit_seconds('d') == Some(86400int));
    }
    assert(duration_of(d.push('w')) == if n * 604800 <= i64::MAX {
        n * 604800
    } else {
        i64::MAX as int
    }) by {
        assert(trimmed(d.push('w')) == d.push('w'));
        assert(d.push('w').last() == 'w');
        assert(d.push('w').drop_last() == d);
        assert(unit_seconds('w') == Some(604800int));
    }
}

/// What is no duration counts as thirty days: an empty text, and one whose number is none or not
/// positive.
pub proof fn no_duration_counts_as_thirty_days(text: Seq<char>)
    ensures
        trimmed(text).len() == 0 ==> duration_of(text) == 30 * 24 * 60 * 60,
        ({
            let s = trimmed(text);
            let c = s.last();
            let digits = if c == 's' || c == 'm' || c == 'h' || c == 'd' || c == 'w' {
                s.drop_last()
            } else {
                s
            };
            s.len() > 0 && (number(trimmed(digits)) is None || number(trimmed(digits))->0 <= 0)
                ==> duration_of(text) == 30 * 24 * 60 * 60
        }),
{
}

/// A capacity document gives a budget exactly where it is an object with unsigned numbers for
/// processors, memory and disk. Each figure is the low 32 bits of its own number; there are no ports
/// where they are no unsigned number.
pub proof fn budget_is_what_the_document_says(m: Seq<(Seq<char>, JsonView)>)
    ensures
        ({
            let b = budget_of(Ok(JsonDocView::Object(m)));
            let cpu = member_u64(m, "cpu"@);
            let mem_mb = member_u64(m, "mem_mb"@);
            let disk_gb = member_u64(m, "disk_gb"@);
            let ports = member_u64(m, "ports"@);
            &&& b is Some <==> cpu is Some && mem_mb is Some && disk_gb is Some
            &&& b matches Some(x) ==> {
                &&& (cpu->0 - x.cpu) % 0x1_0000_0000 == 0
                &&& (mem_mb->0 - x.mem_mb) % 0x1_0000_0000 == 0
                &&& (disk_gb->0 - x.disk_gb) % 0x1_0000_0000 == 0
                &&& ports is Some ==> (ports->0 - x.ports) % 0x1_0000_0000 == 0
                &&& ports is None ==> x.ports == 0
                &&& cpu->0 <= u32::MAX ==> x.cpu == cpu->0
                &&& mem_mb->0 <= u32::MAX ==> x.mem_mb == mem_mb->0
                &&& disk_gb->0 <= u32::MAX ==> x.disk_gb == disk_gb->0
                &&& ports is Some && ports->0 <= u32::MAX ==> x.ports == ports->0
            }
        }),
        budget_of(Ok(JsonDocView::Other)) is None,
{
}

/// A member is read where the first one with its key is an unsigned number.
pub proof fn first_member_with_the_key_counts(
    members: Seq<(Seq<char>, JsonView)>,
    key: Seq<char>,
    n: int,
)
    requires
        0 <= n <= members.len(),
        forall|k: int| 0 <= k < n ==> (#[trigger] members[k]).0 != key,
        n < members.len() ==> members[n].0 == key,
    ensures
        n == members.len() ==> member_u64(members, key) is None,
        n < members.len() ==> (members[n].1 matches JsonView::Number { unsigned, signed }
            ==> member_u64(members, key) == unsigned),
        n < members.len() && !(members[n].1 is Number) ==> member_u64(members, key) is None,
{
    first_member_gives_the_value(members, key, n);
}

/// A listing that was brought up to its terms offers just these: the amount and the three durations,
/// under the recipe's id and tag, as of now. One that was there keeps its id, its state and its event; a
/// new one comes behind the others and is active.
pub proof fn listing_offers_its_terms(
    old: Seq<ListingRow>,
    new: Seq<ListingRow>,
    id: Seq<char>,
    terms: ListingTerms,
    now: i64,
    n: int,
)
    requires
        listing_upserted(old, new, id, terms, now),
        0 <= n <= old.len(),
        forall|k: int| 0 <= k < n ==> (#[trigger] old[k]).id@ != id,
        n < old.len() ==> old[n].id@ == id,
    ensures
        n < new.len(),
        new[n].id@ == id,
        new[n].recipe_id matches Some(x) && x@ == terms.recipe_id@,
        new[n].d_tag matches Some(x) && x@ == terms.recipe_id@,
        new[n].amount_sat == Some(terms.amount_sat),
        new[n].period_s == Some(terms.period_s),
        new[n].renew_lead_s == Some(terms.renew_lead_s),
        new[n].retention_s == Some(terms.retention_s),
        new[n].updated_at == Some(now),
        n < old.len() ==> new.len() == old.len() && new[n].state == old[n].state && new[n].event_id
            == old[n].event_id,
        n == old.len() ==> new.len() == old.len() + 1 && new[n].state == ListingState::Active
            && new[n].event_id is None,
        forall|k: int| 0 <= k < old.len() && k != n ==> #[trigger] new[k] == old[k],
{
    lemma_first_where_at(old, listing_id(id), n);
}

/// The inbound loop is never left in a shutdown before what it accepted is drained: whatever happens in
/// a shutdown is answered with a drain, and one is made only then. It runs where it is about to start,
/// and is restarted as any other loop is unless it was cancelled.
pub proof fn inbound_loop_is_drained_in_a_shutdown(
    backoff: Backoff,
    delay: u64,
    event: InboundEvent,
    shutdown: bool,
)
    ensures
        ({
            let s = inbound_step(backoff, delay, event, shutdown);
            let stopping = shutdown || event is ShutdownWhileRunning || event is ShutdownWhileWaiting;
            &&& stopping <==> s is DrainRunning || s is DrainStopped
            &&& s is DrainRunning <==> event is ShutdownWhileRunning
            &&& s is Run <==> event is Starting && !shutdown
            &&& s is Stop <==> !shutdown && (event matches InboundEvent::Ended { exit, ran } && exit
                == Exit::Cancelled)
            &&& s matches InboundStep::Restart { after, next_delay } ==> {
                &&& event matches InboundEvent::Ended { exit, ran }
                &&& ran >= backoff.max ==> after == backoff.base
                &&& ran < backoff.max ==> after == delay
                &&& next_delay <= backoff.max
                &&& 2 * after <= backoff.max ==> next_delay == 2 * after
                &&& 2 * after > backoff.max ==> next_delay == backoff.max
            }
        }),
{
}

/// The order of the start: the stream of settlements is open before anything else that could miss one,
/// recovery is over before any loop runs, and every loop is started. Only a stream that cannot be opened
/// and a listing that cannot be published keep the daemon from starting.
pub proof fn stream_is_open_before_anything_recovers()
    ensures
        start_order().len() == 10,
        start_order()[1] == StartStep::OpenSettlementStream,
        start_order()[2] == StartStep::PublishListing,
        start_order()[3] == StartStep::RecoverFromBoot,
        forall|i: int|
            0 <= i < 10 && is_vital(#[trigger] start_order()[i]) <==> i == 1 || i == 2,
        forall|s: StartStep|
            #![trigger start_order().contains(s)]
            start_order().contains(s),
        forall|i: int, j: int|
            0 <= i < j < 10 ==> #[trigger] start_order()[i] != #[trigger] start_order()[j],
        forall|i: int|
            4 <= i < 10 ==> (#[trigger] start_order()[i] is LogReadiness || start_order()[i]
                is SpawnIpc || start_order()[i] is SpawnInbound || start_order()[i]
                is SpawnSettlement || start_order()[i] is SpawnReconcile || start_order()[i]
                is SpawnMaintenance),
{
    let o = start_order();
    assert forall|s: StartStep| #![trigger o.contains(s)] o.contains(s) by {
        assert(o[0] is SyncPaymentClock && o[1] is OpenSettlementStream && o[2] is PublishListing
            && o[3] is RecoverFromBoot && o[4] is LogReadiness && o[5] is SpawnIpc && o[6]
            is SpawnInbound && o[7] is SpawnSettlement && o[8] is SpawnReconcile && o[9]
            is SpawnMaintenance);
    }
}

/// The order of the recovery at boot: what was interrupted comes first; the credit for downtime comes
/// before the settlements that were missed; these come before what they leave to be done; refunds come
/// before sweeps; and the outbox, which holds what all of them queued, comes last. Every step is taken
/// once.
pub proof fn recovery_credits_before_it_catches_up()
    ensures
        boot_order().len() == 9,
        boot_order()[0] == BootStep::InterruptedOps,
        boot_order()[1] == BootStep::DowntimeCredit,
        boot_order()[2] == BootStep::SettlementCatchUp,
        boot_order()[3] == BootStep::Provision,
        boot_order()[4] == BootStep::Resume,
        boot_order()[5] == BootStep::Refund,
        boot_order()[6] == BootStep::Sweep,
        boot_order()[7] == BootStep::Reconcile,
        boot_order().last() == BootStep::Outbox,
{
}

/// The order of the shutdown: the loops are told first, the inbound loop's drain is waited for before
/// the others, and the outbox is flushed when all of them have stopped.
pub proof fn shutdown_flushes_last()
    ensures
        shutdown_order().len() == 4,
        shutdown_order()[0] == ShutdownStep::SignalLoops,
        shutdown_order()[1] == ShutdownStep::AwaitInbound,
        shutdown_order()[2] == ShutdownStep::AwaitLoops,
        shutdown_order().last() == ShutdownStep::FlushOutbox,
{
}

/// A settlement leaves work for the maintenance loop unless nothing is left to be done.
pub proof fn every_unsettled_capture_leaves_work(c: Capture)
    ensures
        has_work(c) <==> c != Capture::Settled,
{
}

/// Only an invoice that the backend reports as paid is captured, and every such one is: with its own
/// ids and amount, at the time at which the backend saw the payment, if it did.
pub proof fn only_paid_invoices_are_captured(
    r: Option<Settlement>,
    row: CatchUpRow,
    looked: Result<(bool, Option<i64>), String>,
    now: i64,
)
    requires
        is_capture_of(r, row, looked, now),
    ensures
        r is Some <==> looked is Ok && looked->Ok_0.0,
        r matches Some(s) ==> {
            &&& s.invoice_id == row.id
            &&& s.external_id == row.external_id
            &&& row.amount_sat >= 0 ==> s.amount_sat == row.amount_sat
            &&& looked->Ok_0.1 matches Some(at) ==> s.settled_at == at
            &&& looked->Ok_0.1 is None ==> s.settled_at <= now
        },
{
}

/// Without a host the budget is small and bounded: two processors, 2048 megabytes, 50 gigabytes and 16
/// ports. With hosts the box is one whose id comes before or with that of every other, and the budget is
/// that of its document, or the small one where that gives none.
pub proof fn budget_is_that_of_the_first_host(
    boxes: Seq<HostBox>,
    budget: Budget,
    id: String,
    i: int,
)
    requires
        is_budget_and_box(boxes, budget, id),
    ensures
        ({
            let small = Budget { cpu: 2, mem_mb: 2048, disk_gb: 50, ports: 16 };
            &&& boxes.len() == 0 ==> budget == small && id@ == "box-0"@
            &&& 0 <= i < boxes.len() ==> text_le(id@, boxes[i].id@)
            &&& boxes.len() > 0 ==> exists|n: int|
                {
                    &&& 0 <= n < boxes.len()
                    &&& (#[trigger] boxes[n]).id == id
                    &&& boxes[n].capacity_json is None ==> budget == small
                    &&& boxes[n].capacity_json matches Some(c) ==> {
                        &&& budget_of(json(c@)) is None ==> budget == small
                        &&& budget_of(json(c@)) is Some ==> budget_of(json(c@)) == Some(budget)
                    }
                }
        }),
{
    if boxes.len() > 0 {
        let n = choose|n: int|
            #[trigger] is_first_box(boxes, n) && id == boxes[n].id && budget == match
                boxes[n].capacity_json {
                Some(c) => match budget_of(json(c@)) {
                    Some(b) => b,
                    None => fallback(),
                },
                None => fallback(),
            };
        assert(boxes[n].id == id);
    }
}

/// A listing is published exactly where it is new or the first one with its id is active; noting its
/// event changes nothing but that listing's event.
pub proof fn withdrawn_listing_is_not_published(
    listings: Seq<ListingRow>,
    id: Seq<char>,
    event_id: String,
    n: int,
    k: int,
)
    requires
        0 <= n <= listings.len(),
        forall|i: int| 0 <= i < n ==> (#[trigger] listings[i]).id@ != id,
        n < listings.len() ==> listings[n].id@ == id,
        0 <= k < listings.len(),
    ensures
        is_published(listings, id) <==> n == listings.len() || listings[n].state
            == ListingState::Active,
        with_event(listings, id, event_id).len() == listings.len(),
        with_event(listings, id, event_id)[k] == (if k == n {
            ListingRow { event_id: Some(event_id), ..listings[k] }
        } else {
            listings[k]
        }),
{
    lemma_first_where_at(listings, listing_id(id), n);
}

/// Terms take each figure from its own part of the pricing.
pub proof fn terms_are_those_of_the_pricing(
    terms: ListingTerms,
    recipe_id: Seq<char>,
    amount_sat: u64,
    period: Seq<char>,
    renew_lead: Seq<char>,
    retention: Seq<char>,
)
    requires
        are_terms(terms, recipe_id, amount_sat, period, renew_lead, retention),
    ensures
        terms.recipe_id@ == recipe_id,
        amount_sat <= i64::MAX ==> terms.amount_sat == amount_sat,
        terms.period_s == duration_of(period),
        terms.renew_lead_s == duration_of(renew_lead),
        terms.retention_s == duration_of(retention),
        terms.period_s > 0,
        terms.renew_lead_s > 0,
        terms.retention_s > 0,
{
    duration_is_positive(period);
    duration_is_positive(renew_lead);
    duration_is_positive(retention);
}

} // verus!
