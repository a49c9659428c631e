//! The daemon's durable state as plain rows: one struct per table, and [`Tables`], the whole state
//! that a store transaction reads and rewrites. A column that may be absent is an `Option`; a text
//! column with a fixed vocabulary is an enum, whose `Other` stands for any word outside it.

use vstd::prelude::*;

verus! {

/// The lifecycle state of a subscription.
#[derive(Clone, Copy, Debug, PartialEq, Eq, Structural)]
pub enum SubState {
    Pending,
    Provisioning,
    Active,
    Suspended,
    Resuming,
    RefundDue,
    Refunded,
    Expired,
    Terminated,
    Other,
    /// The column is empty.
    Null,
}

/// A rental: who bought it, where its refund would go, and how far it is paid.
#[derive(Clone, Debug)]
pub struct Subscription {
    pub id: String,
    pub recipe_id: Option<String>,
    pub instance_id: Option<String>,
    pub buyer_pubkey: Option<String>,
    pub state: SubState,
    pub refund_dest: Option<String>,
    pub renew_lead_s: Option<i64>,
    pub retention_s: Option<i64>,
    /// Hard expiry of what was paid for.
    pub paid_through: Option<i64>,
    /// Renewal is recommended from here.
    pub soft_date: Option<i64>,
    pub next_deadline: Option<i64>,
    /// Suspension floor that downtime credit sets.
    pub suspend_not_before: Option<i64>,
    pub updated_at: Option<i64>,
}

#[derive(Clone, Copy, Debug, PartialEq, Eq, Structural)]
pub enum InvoiceKind {
    Order,
    Renewal,
    Other,
}

#[derive(Clone, Copy, Debug, PartialEq, Eq, Structural)]
pub enum InvoiceStatus {
    Open,
    Paid,
    Expired,
    Other,
}

/// An invoice that the buyer pays. `external_id` is unique.
#[derive(Clone, Debug)]
pub struct Invoice {
    pub id: String,
    pub subscription_id: Option<String>,
    pub external_id: String,
    pub kind: InvoiceKind,
    pub amount_sat: Option<i64>,
    pub status: InvoiceStatus,
    pub expires_at: Option<i64>,
    /// When the settlement was applied to the subscription.
    pub applied_at: Option<i64>,
    pub issued_at: Option<i64>,
    pub settled_at: Option<i64>,
}

/// What an entry of the event log records.
#[derive(Clone, Copy, Debug, PartialEq, Eq, Structural)]
pub enum EventKind {
    Reserve,
    ReserveConsume,
    ReserveRelease,
    RefundSent,
    RefundRetry,
    RefundFailed,
    SettleUnmatchedRefund,
    SettleTerminalRefund,
    SettleOrphanRefund,
    SettleExpiredRefund,
    ProvisionCleanupPending,
    ProvisionCleanupDone,
    RenewResume,
    ResumeActive,
    ResumeFailed,
    Other,
    /// The column is empty.
    Null,
}

/// The body of an event: the members that some rule of the daemon reads, or the raw document.
#[derive(Clone, Debug)]
pub enum EventDetail {
    /// `{}`
    Empty,
    /// `{"external_id": ..}`
    Refund { external_id: String },
    /// A received payment that has to go back: `{"external_id": .., "amount_sat": ..}`. `amount_sat`
    /// is what the amount counts as; `whole` is whether it is stored as a whole number, or not at all.
    Settlement { receipt: Option<String>, amount_sat: Option<i64>, whole: bool },
    /// `{"pending_event_id": ..}`
    CleanupDone { pending_event_id: i64 },
    /// `{"external_ids": [..], "refund_ids": [..]}`
    ResumeFailed { external_ids: Vec<String>, refund_ids: Vec<String> },
    /// `{"cpu": .., "mem_mb": .., "disk_gb": ..}`
    Resources(Resources),
    /// Any other document, as it is stored.
    Raw(String),
}

/// An entry of the event log; `id` grows with every entry.
#[derive(Clone, Debug)]
pub struct Event {
    pub id: i64,
    pub subscription_id: Option<String>,
    pub kind: EventKind,
    pub detail: EventDetail,
    pub at: Option<i64>,
}

/// What a rental takes of its host.
#[derive(Clone, Copy, Debug, Default, PartialEq, Eq, Structural)]
pub struct Resources {
    pub cpu: u32,
    pub mem_mb: u32,
    pub disk_gb: u32,
}

#[derive(Clone, Copy, Debug, PartialEq, Eq, Structural)]
pub enum HoldState {
    Held,
    Consumed,
    Released,
    Other,
}

/// A stored count.
#[derive(Clone, Copy, Debug, PartialEq, Eq, Structural)]
pub enum Count {
    Number(i64),
    /// Anything that is no whole number.
    Odd,
}

/// What a stored reservation takes of its host.
#[derive(Clone, Copy, Debug, PartialEq, Eq, Structural)]
pub struct Holding {
    pub cpu: Count,
    pub mem_mb: Count,
    pub disk_gb: Count,
    pub ports: Count,
}

/// Host capacity that is set aside for one order. `order_id` is unique.
#[derive(Clone, Debug)]
pub struct Reservation {
    pub id: String,
    pub order_id: String,
    pub holding: Holding,
    pub state: HoldState,
    pub expires_at: Option<i64>,
    pub created_at: Option<i64>,
}

/// Where a refund stands.
#[derive(Clone, Debug, PartialEq, Eq)]
pub enum RefundStatus {
    Pending,
    Sent,
    Failed,
    /// Any other word, as it is stored.
    Other(String),
}

impl RefundStatus {
    /// Whether the refund is still to be paid.
    pub fn is_pending(&self) -> (r: bool)
        ensures
            r == (*self == RefundStatus::Pending),
    {
        matches!(self, RefundStatus::Pending)
    }

    /// Whether the refund went out.
    pub fn is_sent(&self) -> (r: bool)
        ensures
            r == (*self == RefundStatus::Sent),
    {
        matches!(self, RefundStatus::Sent)
    }
}

/// A refund that is owed or was paid. `idempotency_key` is unique.
#[derive(Clone, Debug)]
pub struct RefundAttempt {
    pub id: Option<String>,
    pub subscription_id: Option<String>,
    pub dest: Option<String>,
    /// The gross amount that was received.
    pub amount_sat: Option<i64>,
    pub idempotency_key: String,
    pub backend_payment_id: Option<String>,
    pub status: RefundStatus,
    pub attempts: Option<i64>,
    /// The invoice that `dest` was last resolved to, its expiry and its generation.
    pub resolved_bolt11: Option<String>,
    pub resolved_expiry: Option<i64>,
    pub resolution_gen: i64,
    pub created_at: Option<i64>,
    pub updated_at: Option<i64>,
}

#[derive(Clone, Copy, Debug, PartialEq, Eq, Structural)]
pub enum OutboxState {
    Pending,
    Sent,
    Failed,
    Other,
}

/// What the buyer is told of a refund.
#[derive(Clone, Copy, Debug, PartialEq, Eq, Structural)]
pub enum RefundNotice {
    Sent,
    Failed,
}

/// The body of a queued message.
#[derive(Clone, Debug)]
pub enum Payload {
    /// `billing.refund`: what became of the buyer's refund.
    BillingRefund { subscription_id: String, amount_sat: u64, notice: RefundNotice },
    /// `operator.alert`: the document that the alert sink prepared.
    OperatorAlert(String),
    /// Any other message.
    Raw { msg_type: String, json: String },
}

/// A message that waits to be sent. `id` is unique.
#[derive(Clone, Debug)]
pub struct OutboxRow {
    pub id: String,
    pub recipient: Option<String>,
    pub subscription_id: Option<String>,
    pub payload: Payload,
    pub state: OutboxState,
    pub attempts: Option<i64>,
    pub created_at: Option<i64>,
}

#[derive(Clone, Copy, Debug, PartialEq, Eq, Structural)]
pub enum OpState {
    Running,
    Done,
    Error,
}

/// A management operation and its cached answer.
#[derive(Clone, Debug)]
pub struct OpInvocation {
    pub sender_pubkey: String,
    pub request_id: String,
    pub state: OpState,
    pub finished_at: Option<i64>,
}

/// An order or renewal request and its cached answer.
#[derive(Clone, Debug)]
pub struct InboundRequest {
    pub sender_pubkey: String,
    pub request_id: String,
    pub created_at: Option<i64>,
}

/// A provisioned unit of work.
#[derive(Clone, Debug)]
pub struct Instance {
    pub id: String,
    pub subscription_id: Option<String>,
    pub box_id: Option<String>,
    pub kind: Option<String>,
    pub handles_json: Option<String>,
    pub state: Option<String>,
    pub updated_at: Option<i64>,
}

/// A teardown that still owes provider-side cleanup while `resolved_at` is empty.
#[derive(Clone, Debug)]
pub struct TeardownFailure {
    pub id: String,
    pub subscription_id: String,
    pub resolved_at: Option<i64>,
}

/// A ticket for interactive operations.
#[derive(Clone, Debug)]
pub struct ConnectSession {
    pub id: String,
    pub subscription_id: Option<String>,
    pub active: bool,
}

/// A host and the capacity document it was onboarded with.
#[derive(Clone, Debug)]
pub struct HostBox {
    pub id: String,
    pub capacity_json: Option<String>,
}

#[derive(Clone, Copy, Debug, PartialEq, Eq, Structural)]
pub enum ListingState {
    Active,
    Withdrawn,
    Other,
}

/// What is offered for rent: price and timers. `id` is unique.
#[derive(Clone, Debug)]
pub struct ListingRow {
    pub id: String,
    pub recipe_id: Option<String>,
    pub d_tag: Option<String>,
    pub event_id: Option<String>,
    pub amount_sat: Option<i64>,
    pub period_s: Option<i64>,
    pub renew_lead_s: Option<i64>,
    pub retention_s: Option<i64>,
    pub state: ListingState,
    pub updated_at: Option<i64>,
}

/// The whole durable state.
#[derive(Clone, Debug)]
pub struct Tables {
    pub subscriptions: Vec<Subscription>,
    pub invoices: Vec<Invoice>,
    /// In the order of their ids.
    pub events: Vec<Event>,
    /// The id that the next entry of the event log gets.
    pub next_event_id: i64,
    pub reservations: Vec<Reservation>,
    pub refunds: Vec<RefundAttempt>,
    pub outbox: Vec<OutboxRow>,
    pub op_invocations: Vec<OpInvocation>,
    pub inbound_requests: Vec<InboundRequest>,
    pub instances: Vec<Instance>,
    pub teardown_failures: Vec<TeardownFailure>,
    pub connect_sessions: Vec<ConnectSession>,
    pub boxes: Vec<HostBox>,
    pub listings: Vec<ListingRow>,
}

impl Tables {
    /// The state of a new daemon: no rows, and an event log that starts at one.
    pub fn empty() -> (r: Tables)
        ensures
            r.subscriptions@.len() == 0,
            r.invoices@.len() == 0,
            r.events@.len() == 0,
            r.next_event_id == 1,
            r.reservations@.len() == 0,
            r.refunds@.len() == 0,
            r.outbox@.len() == 0,
            r.op_invocations@.len() == 0,
            r.inbound_requests@.len() == 0,
            r.instances@.len() == 0,
            r.teardown_failures@.len() == 0,
            r.connect_sessions@.len() == 0,
            r.boxes@.len() == 0,
            r.listings@.len() == 0,
    {
        Tables {
            subscriptions: Vec::new(),
            invoices: Vec::new(),
            events: Vec::new(),
            next_event_id: 1,
            reservations: Vec::new(),
            refunds: Vec::new(),
            outbox: Vec::new(),
            op_invocations: Vec::new(),
            inbound_requests: Vec::new(),
            instances: Vec::new(),
            teardown_failures: Vec::new(),
            connect_sessions: Vec::new(),
            boxes: Vec::new(),
            listings: Vec::new(),
        }
    }
}

// ---- sequences of rows -----------------------------------------------------------------------

/// Whether some row satisfies `p`.
pub open spec fn any<A>(s: Seq<A>, p: spec_fn(A) -> bool) -> bool {
    exists|i: int| 0 <= i < s.len() && p(#[trigger] s[i])
}

/// The position of the first row that satisfies `p`, or the number of rows where none does.
pub open spec fn first_where<A>(s: Seq<A>, p: spec_fn(A) -> bool) -> nat
    decreases s.len(),
{
    if s.len() == 0 || p(s[0]) {
        0
    } else {
        1 + first_where(s.skip(1), p)
    }
}

/// What `first_where` says of the rows around it.
pub proof fn lemma_first_where<A>(s: Seq<A>, p: spec_fn(A) -> bool)
    ensures
        first_where(s, p) <= s.len(),
        first_where(s, p) < s.len() <==> any(s, p),
        first_where(s, p) < s.len() ==> p(s[first_where(s, p) as int]),
        forall|i: int| 0 <= i < first_where(s, p) ==> !p(#[trigger] s[i]),
    decreases s.len(),
{
    if s.len() > 0 && !p(s[0]) {
        let t = s.skip(1);
        lemma_first_where(t, p);
        assert forall|i: int| 0 <= i < first_where(s, p) implies !p(#[trigger] s[i]) by {
            if i > 0 {
                assert(t[i - 1] == s[i]);
            }
        }
        if any(s, p) {
            let k = choose|k: int| 0 <= k < s.len() && p(#[trigger] s[k]);
            assert(p(t[k - 1]));
        }
        if any(t, p) {
            let k = choose|k: int| 0 <= k < t.len() && p(#[trigger] t[k]);
            assert(p(s[k + 1]));
        }
    }
}

/// A row that satisfies `p`, with none before it, is the first.
pub proof fn lemma_first_where_at<A>(s: Seq<A>, p: spec_fn(A) -> bool, n: int)
    requires
        0 <= n <= s.len(),
        n < s.len() ==> p(s[n]),
        forall|i: int| 0 <= i < n ==> !p(#[trigger] s[i]),
    ensures
        first_where(s, p) == n,
{
    lemma_first_where(s, p);
    if first_where(s, p) < n {
        assert(!p(s[first_where(s, p) as int]));
    }
}

/// The rows up to and with the next one, filtered.
pub proof fn lemma_filter_next<A>(s: Seq<A>, p: spec_fn(A) -> bool, i: int)
    requires
        0 <= i < s.len(),
    ensures
        s.take(i + 1).filter(p) == if p(s[i]) {
            s.take(i).filter(p).push(s[i])
        } else {
            s.take(i).filter(p)
        },
        s.take(i).filter(p).len() <= i,
{
    reveal(Seq::filter);
    assert(s.take(i + 1).drop_last() =~= s.take(i));
    lemma_filter_len(s.take(i), p);
}

/// Filtering never makes a sequence longer.
pub proof fn lemma_filter_len<A>(s: Seq<A>, p: spec_fn(A) -> bool)
    ensures
        s.filter(p).len() <= s.len(),
    decreases s.len(),
{
    reveal(Seq::filter);
    if s.len() > 0 {
        lemma_filter_len(s.drop_last(), p);
    }
}

// ---- optional texts --------------------------------------------------------------------------

/// An optional text by its characters.
pub open spec fn opt_view(o: Option<String>) -> Option<Seq<char>> {
    match o {
        Some(s) => Some(s@),
        None => None,
    }
}

/// Whether an optional text is there and is `s`.
pub open spec fn is_text(o: Option<String>, s: Seq<char>) -> bool {
    o matches Some(x) && x@ == s
}

/// Whether an optional text is there and is `s`.
pub fn holds_text(o: &Option<String>, s: &str) -> (r: bool)
    ensures
        r == is_text(*o, s@),
{
    match o {
        Some(x) => crate::text::same(x, s),
        None => false,
    }
}

// ---- writing rows ----------------------------------------------------------------------------

/// Whether `e` is the entry of this kind, about this subscription, made at this time.
pub open spec fn is_event(e: Event, subscription: Option<Seq<char>>, kind: EventKind, at: i64) -> bool {
    &&& opt_view(e.subscription_id) == subscription
    &&& e.kind == kind
    &&& e.at == Some(at)
}

/// Whether `new` holds the event log of `old` and `n` more entries with the ids that follow.
pub open spec fn events_added(old: Tables, new: Tables, n: nat) -> bool {
    &&& new.events@.len() == old.events@.len() + n
    &&& new.events@.take(old.events@.len() as int) == old.events@
    &&& new.next_event_id == old.next_event_id + n
    &&& forall|i: int|
        old.events@.len() <= i < new.events@.len() ==> (#[trigger] new.events@[i]).id
            == old.next_event_id + (i - old.events@.len())
}

impl Tables {
    /// Appends an entry to the event log.
    pub fn journal(&mut self, subscription_id: Option<String>, kind: EventKind, detail: EventDetail, at: i64)
        requires
            old(self).next_event_id < i64::MAX,
        ensures
            final(self).events@ == old(self).events@.push(
                (Event {
                    id: old(self).next_event_id,
                    subscription_id,
                    kind,
                    detail,
                    at: Some(at),
                }),
            ),
            final(self).next_event_id == old(self).next_event_id + 1,
            *final(self) == (Tables {
                events: final(self).events,
                next_event_id: final(self).next_event_id,
                ..*old(self)
            }),
            events_added(*old(self), *final(self), 1),
    {
        let id: i64 = self.next_event_id;
        self.events.push(Event { id, subscription_id, kind, detail, at: Some(at) });
        self.next_event_id = id + 1;
        assert(self.events@.take(old(self).events@.len() as int) =~= old(self).events@);
    }
}

// ---- the order of query results --------------------------------------------------------------

/// What query results are ordered by: a time, an absent one first, and then a text, an absent one
/// first.
pub struct OrderKey {
    pub at: Option<i64>,
    pub id: Option<String>,
}

/// Whether `a` comes before or with `b` as an optional number.
pub open spec fn opt_int_le(a: Option<i64>, b: Option<i64>) -> bool {
    match (a, b) {
        (None, _) => true,
        (Some(_), None) => false,
        (Some(x), Some(y)) => x <= y,
    }
}

/// Whether `a` comes before or with `b` as an optional text.
pub open spec fn opt_text_le(a: Option<String>, b: Option<String>) -> bool {
    match (a, b) {
        (None, _) => true,
        (Some(_), None) => false,
        (Some(x), Some(y)) => crate::text::text_le(x@, y@),
    }
}

impl OrderKey {
    /// Whether `self` comes before or with `other`.
    pub open spec fn le(self, other: OrderKey) -> bool {
        if self.at == other.at {
            opt_text_le(self.id, other.id)
        } else {
            opt_int_le(self.at, other.at)
        }
    }

    /// Whether `self` comes before or with `other`.
    pub fn at_most(&self, other: &OrderKey) -> (r: bool)
        ensures
            r == self.le(*other),
    {
        match (self.at, other.at) {
            (None, Some(_)) => true,
            (Some(_), None) => false,
            (Some(x), Some(y)) if x != y => x < y,
            _ => {
                match (&self.id, &other.id) {
                    (None, _) => true,
                    (Some(_), None) => false,
                    (Some(x), Some(y)) => crate::text::at_most(x, y),
                }
            },
        }
    }
}

proof fn lemma_key_total(a: OrderKey, b: OrderKey)
    ensures
        a.le(b) || b.le(a),
{
    if let (Some(x), Some(y)) = (a.id, b.id) {
        crate::text::lemma_text_le_total(x@, y@);
    }
}

proof fn lemma_key_transitive(a: OrderKey, b: OrderKey, c: OrderKey)
    requires
        a.le(b),
        b.le(c),
    ensures
        a.le(c),
{
    if let (Some(x), Some(y), Some(z)) = (a.id, b.id, c.id) {
        if a.at == b.at && b.at == c.at {
            crate::text::lemma_text_le_transitive(x@, y@, z@);
        }
    }
}

/// Whether `order` lists every position of `keys` once, the keys in ascending order.
pub open spec fn is_order(keys: Seq<OrderKey>, order: Seq<usize>) -> bool {
    &&& order.len() == keys.len()
    &&& forall|i: int| 0 <= i < order.len() ==> 0 <= #[trigger] order[i] < keys.len()
    &&& forall|i: int, j: int|
        0 <= i < j < order.len() ==> #[trigger] order[i] != #[trigger] order[j]
    &&& forall|i: int, j: int|
        0 <= i < j < order.len() ==> keys[#[trigger] order[i] as int].le(
            keys[#[trigger] order[j] as int],
        )
}

/// The positions of `keys` in ascending order of what stands there.
pub fn order_by(keys: &Vec<OrderKey>) -> (order: Vec<usize>)
    ensures
        is_order(keys@, order@),
{
    let mut order: Vec<usize> = Vec::new();
    let mut n: usize = 0;
    while n < keys.len()
        invariant
            n <= keys@.len(),
            is_order(keys@.take(n as int), order@),
        decreases keys@.len() - n,
    {
        let ghost before = order@;
        let ghost done = keys@.take(n as int);
        let mut p: usize = 0;
        while p < order.len() && keys[order[p]].at_most(&keys[n])
            invariant
                n < keys@.len(),
                order@ == before,
                done == keys@.take(n as int),
                is_order(done, before),
                p <= order@.len(),
                forall|i: int| 0 <= i < p ==> keys@[#[trigger] before[i] as int].le(keys@[n as int]),
            decreases order@.len() - p,
        {
            p = p + 1;
        }
        proof {
            let next = keys@.take(n + 1);
            let after = before.insert(p as int, n);
            assert(forall|i: int| 0 <= i < n ==> next[i] == done[i]);
            assert(next[n as int] == keys@[n as int]);
            assert forall|i: int| p <= i < before.len() implies keys@[n as int].le(
                keys@[#[trigger] before[i] as int],
            ) by {
                lemma_key_total(keys@[n as int], keys@[before[p as int] as int]);
                if i > p {
                    assert(done[before[p as int] as int].le(done[before[i] as int]));
                    lemma_key_transitive(
                        keys@[n as int],
                        keys@[before[p as int] as int],
                        keys@[before[i] as int],
                    );
                }
            }
            assert forall|i: int| 0 <= i < after.len() implies 0 <= #[trigger] after[i]
                < next.len() by {
                if i < p {
                    assert(after[i] == before[i]);
                } else if i > p {
                    assert(after[i] == before[i - 1]);
                }
            }
            assert forall|i: int, j: int| 0 <= i < j < after.len() implies #[trigger] after[i]
                != #[trigger] after[j] && next[after[i] as int].le(next[after[j] as int]) by {
                let a = if i < p { before[i] } else if i == p { n } else { before[i - 1] };
                let b = if j < p { before[j] } else if j == p { n } else { before[j - 1] };
                assert(after[i] == a);
                assert(after[j] == b);
            }
            assert(is_order(next, after));
        }
        order.insert(p, n);
        n = n + 1;
    }
    assert(keys@.take(n as int) =~= keys@);
    order
}

/// What query results are ordered by: first the time, where none comes before any, and at the same time
/// the text, where none comes before any. Of two keys one comes first, and both do only where they are
/// alike.
pub proof fn results_are_ordered_by_time_and_text(a: OrderKey, b: OrderKey)
    ensures
        a.le(b) || b.le(a),
        a.at is None && b.at is Some ==> a.le(b) && !b.le(a),
        a.at is Some && b.at is Some && a.at->0 < b.at->0 ==> a.le(b) && !b.le(a),
        a.at == b.at && a.id is None && b.id is Some ==> a.le(b) && !b.le(a),
        a.at == b.at && a.id is Some && b.id is Some && a.id->0@ != b.id->0@
            && crate::text::text_le(a.id->0@, b.id->0@) ==> a.le(b) && !b.le(a),
        a.le(b) && b.le(a) ==> a.at == b.at && opt_view(a.id) == opt_view(b.id),
{
    lemma_key_total(a, b);
    if let (Some(x), Some(y)) = (a.id, b.id) {
        crate::text::lemma_text_le_total(x@, y@);
    }
}

} // verus!
