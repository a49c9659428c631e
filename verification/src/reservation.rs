//! Order-time capacity reservation and order-parameter validation.
//!
//! Capacity is set aside when an order is placed, in the same transaction as the check that there is
//! room, so two orders can never take the last slot. A reservation is held from the order through
//! provisioning, consumed once the instance is active, and released on expiry, refund or terminate.
//! What is available is the host's budget less the live usage: every consumed reservation, every held
//! one whose time has not run out, and every held one of an order that is paid or being provisioned.

use crate::outside::{JsonMember, JsonValue};
use crate::tables::{
    any, events_added, first_where, is_event, is_text, holds_text, lemma_filter_next,
    lemma_first_where, lemma_first_where_at, Count, Event, EventDetail, EventKind, HoldState,
    Holding, Invoice, InvoiceKind, InvoiceStatus, Reservation, Resources, SubState, Subscription, Tables,
};
use crate::text::{
    cat2, cat3, cat5, chars_of, decimal, decimal_text, find_char, first_of, lemma_first_of_at, like,
    matches_like, owned, same,
};
use vstd::prelude::*;
use vstd::string::*;

verus! {

/// The rentable budget of a host.
#[derive(Clone, Copy, Debug, PartialEq, Eq, Structural)]
pub struct Budget {
    pub cpu: u32,
    pub mem_mb: u32,
    pub disk_gb: u32,
    pub ports: u32,
}

/// What an order needs set aside.
#[derive(Clone, Copy, Debug, PartialEq, Eq, Structural)]
pub struct Request {
    pub resources: Resources,
    pub ports: u32,
}

impl Default for Request {
    fn default() -> (r: Request)
        ensures
            r == (Request { resources: Resources { cpu: 0, mem_mb: 0, disk_gb: 0 }, ports: 0 }),
    {
        Request { resources: Resources { cpu: 0, mem_mb: 0, disk_gb: 0 }, ports: 0 }
    }
}

/// The outcome of an attempt to reserve. A full host is a normal result, not an error.
#[derive(Clone, Copy, Debug, PartialEq, Eq, Structural)]
pub enum Reserve {
    Reserved,
    CapacityFull,
}

/// Why an attempt to reserve is refused as a mistake of the caller or of the stored rows.
#[derive(Clone, Debug)]
pub enum ReserveError {
    /// The order's reservation was already released; it is never held again.
    AlreadyReleased { order_id: String },
    /// The stored usage is not one that a host can have.
    UsageOutOfRange,
    /// Another order's reservation has this id.
    IdTaken { reservation_id: String },
}

impl ReserveError {
    /// The error in words.
    pub fn message(&self) -> (r: String)
        ensures
            r@ == match *self {
                ReserveError::AlreadyReleased { order_id } => "reserve: order `"@ + order_id@
                    + "` reservation is already RELEASED"@,
                ReserveError::UsageOutOfRange => "reserve: stored usage is out of range"@,
                ReserveError::IdTaken { reservation_id } => "reserve: reservation id `"@
                    + reservation_id@ + "` is taken"@,
            },
    {
        match self {
            ReserveError::AlreadyReleased { order_id } => {
                cat3("reserve: order `", order_id, "` reservation is already RELEASED")
            },
            ReserveError::UsageOutOfRange => owned("reserve: stored usage is out of range"),
            ReserveError::IdTaken { reservation_id } => {
                cat3("reserve: reservation id `", reservation_id, "` is taken")
            },
        }
    }
}

/// There was no held reservation to consume: the sole business failure of [`consume_txn`].
#[derive(Clone, Debug)]
pub struct NoHeldReservation {
    pub order_id: String,
    pub affected: usize,
}

impl NoHeldReservation {
    /// The error in words.
    pub fn message(&self) -> (r: String)
        ensures
            r@ == "consume: no HELD reservation for order `"@ + self.order_id@ + "` (affected "@
                + decimal(self.affected as int) + ")"@,
    {
        let n = decimal_text(self.affected as i128);
        cat5("consume: no HELD reservation for order `", &self.order_id, "` (affected ", &n, ")")
    }
}

// ---- order parameters ------------------------------------------------------------------------

/// A parameter that a recipe declares.
#[derive(Clone, Debug)]
pub struct ParamSpec {
    pub key: String,
    pub ty: String,
    pub required: bool,
}

/// Whether a value has the declared type. A type that is not known is the recipe's own concern.
pub open spec fn has_type(ty: Seq<char>, v: JsonValue) -> bool {
    if ty == "string"@ {
        v is Text
    } else if ty == "number"@ || ty == "int"@ || ty == "integer"@ {
        v is Number
    } else if ty == "bool"@ || ty == "boolean"@ {
        v is Bool
    } else {
        true
    }
}

/// The position of the member with this key, or the number of members where there is none.
pub open spec fn member_at(params: Seq<JsonMember>, key: Seq<char>) -> nat {
    first_where(params, |m: JsonMember| m.key@ == key)
}

/// What is wrong with the parameters as one declaration sees them, if anything is.
pub open spec fn param_fault(spec: ParamSpec, params: Seq<JsonMember>) -> Option<Seq<char>> {
    let at = member_at(params, spec.key@);
    if at == params.len() {
        if spec.required {
            Some("missing required param `"@ + spec.key@ + "`"@)
        } else {
            None
        }
    } else if has_type(spec.ty@, params[at as int].value) {
        None
    } else {
        Some(
            "param `"@ + spec.key@ + "` has the wrong type (expected "@ + spec.ty@ + ")"@,
        )
    }
}

fn type_matches(ty: &str, v: &JsonValue) -> (r: bool)
    ensures
        r == has_type(ty@, *v),
{
    if same(ty, "string") {
        matches!(v, JsonValue::Text(_))
    } else if same(ty, "number") || same(ty, "int") || same(ty, "integer") {
        matches!(v, JsonValue::Number { .. })
    } else if same(ty, "bool") || same(ty, "boolean") {
        matches!(v, JsonValue::Bool(_))
    } else {
        true
    }
}

fn find_member(params: &Vec<JsonMember>, key: &str) -> (r: usize)
    ensures
        r == member_at(params@, key@),
        r <= params@.len(),
{
    let ghost p = |m: JsonMember| m.key@ == key@;
    let mut i: usize = 0;
    while i < params.len() && !same(&params[i].key, key)
        invariant
            i <= params@.len(),
            p == (|m: JsonMember| m.key@ == key@),
            forall|k: int| 0 <= k < i ==> !p(#[trigger] params@[k]),
        decreases params@.len() - i,
    {
        i = i + 1;
    }
    proof {
        lemma_first_where_at(params@, p, i as int);
    }
    i
}

/// Validates an order's parameters against the recipe's declarations: every required one is there,
/// and each that is there has its declared type. The first fault is reported.
pub fn validate_params(specs: &Vec<ParamSpec>, params: &Vec<JsonMember>) -> (r: Result<(), String>)
    ensures
        match r {
            Ok(()) => forall|i: int|
                0 <= i < specs@.len() ==> param_fault(#[trigger] specs@[i], params@) is None,
            Err(e) => exists|i: int|
                0 <= i < specs@.len() && param_fault(#[trigger] specs@[i], params@) == Some(e@) && (
                forall|k: int| 0 <= k < i ==> param_fault(#[trigger] specs@[k], params@) is None),
        },
{
    let mut i: usize = 0;
    while i < specs.len()
        invariant
            i <= specs@.len(),
            forall|k: int| 0 <= k < i ==> param_fault(#[trigger] specs@[k], params@) is None,
        decreases specs@.len() - i,
    {
        let spec = &specs[i];
        let at: usize = find_member(params, &spec.key);
        if at == params.len() {
            if spec.required {
                let e = cat3("missing required param `", &spec.key, "`");
                assert(param_fault(specs@[i as int], params@) == Some(e@));
                return Err(e);
            }
        } else if !type_matches(&spec.ty, &params[at].value) {
            let e = cat5("param `", &spec.key, "` has the wrong type (expected ", &spec.ty, ")");
            assert(param_fault(specs@[i as int], params@) == Some(e@));
            return Err(e);
        }
        i = i + 1;
    }
    Ok(())
}

// ---- live usage ------------------------------------------------------------------------------

/// Whether the order has a paid invoice.
pub open spec fn order_paid(invoices: Seq<Invoice>, order_id: Seq<char>) -> bool {
    any(
        invoices,
        |i: Invoice|
            is_text(i.subscription_id, order_id) && i.kind == InvoiceKind::Order && i.status
                == InvoiceStatus::Paid,
    )
}

/// Whether the order is being provisioned.
pub open spec fn order_provisioning(subs: Seq<Subscription>, order_id: Seq<char>) -> bool {
    any(subs, |s: Subscription| s.id@ == order_id && s.state == SubState::Provisioning)
}

/// Whether a held reservation still counts: its time has not run out, or its order is paid or being
/// provisioned.
pub open spec fn live_hold(t: Tables, r: Reservation, now: i64) -> bool {
    &&& r.state == HoldState::Held
    &&& {
        ||| (r.expires_at matches Some(e) && e > now)
        ||| order_paid(t.invoices@, r.order_id@)
        ||| order_provisioning(t.subscriptions@, r.order_id@)
    }
}

/// Whether a reservation counts against the budget.
pub open spec fn live(t: Tables, r: Reservation, now: i64) -> bool {
    r.state == HoldState::Consumed || live_hold(t, r, now)
}

/// Capacity in use, by kind.
#[derive(Clone, Copy, Debug, PartialEq, Eq, Structural)]
pub struct Usage {
    pub cpu: u32,
    pub mem_mb: u32,
    pub disk_gb: u32,
    pub ports: u32,
}

/// Capacity in use as mathematical numbers. Stored counts may be negative.
pub struct UsageView {
    pub cpu: int,
    pub mem_mb: int,
    pub disk_gb: int,
    pub ports: int,
}

/// What a count adds.
pub open spec fn added(c: Count) -> int {
    match c {
        Count::Number(n) => n as int,
        Count::Odd => 0,
    }
}

/// Whether every count is a number.
pub open spec fn all_numbers(h: Holding) -> bool {
    h.cpu is Number && h.mem_mb is Number && h.disk_gb is Number && h.ports is Number
}

/// Whether no count takes anything away.
pub open spec fn none_negative(h: Holding) -> bool {
    added(h.cpu) >= 0 && added(h.mem_mb) >= 0 && added(h.disk_gb) >= 0 && added(h.ports) >= 0
}

/// What a request is stored as.
pub open spec fn holding_of(req: Request) -> Holding {
    Holding {
        cpu: Count::Number(req.resources.cpu as i64),
        mem_mb: Count::Number(req.resources.mem_mb as i64),
        disk_gb: Count::Number(req.resources.disk_gb as i64),
        ports: Count::Number(req.ports as i64),
    }
}

fn holding(req: Request) -> (r: Holding)
    ensures
        r == holding_of(req),
{
    Holding {
        cpu: Count::Number(req.resources.cpu as i64),
        mem_mb: Count::Number(req.resources.mem_mb as i64),
        disk_gb: Count::Number(req.resources.disk_gb as i64),
        ports: Count::Number(req.ports as i64),
    }
}

impl View for Usage {
    type V = UsageView;

    open spec fn view(&self) -> UsageView {
        UsageView {
            cpu: self.cpu as int,
            mem_mb: self.mem_mb as int,
            disk_gb: self.disk_gb as int,
            ports: self.ports as int,
        }
    }
}

impl UsageView {
    pub open spec fn zero() -> UsageView {
        UsageView { cpu: 0, mem_mb: 0, disk_gb: 0, ports: 0 }
    }

    /// The sum with what one reservation takes.
    pub open spec fn plus(self, h: Holding) -> UsageView {
        UsageView {
            cpu: self.cpu + added(h.cpu),
            mem_mb: self.mem_mb + added(h.mem_mb),
            disk_gb: self.disk_gb + added(h.disk_gb),
            ports: self.ports + added(h.ports),
        }
    }

    /// Whether each figure fits in a 64-bit number.
    pub open spec fn fits(self) -> bool {
        &&& i64::MIN <= self.cpu <= i64::MAX
        &&& i64::MIN <= self.mem_mb <= i64::MAX
        &&& i64::MIN <= self.disk_gb <= i64::MAX
        &&& i64::MIN <= self.ports <= i64::MAX
    }

    /// Whether it is within the budget.
    pub open spec fn within(self, b: Budget) -> bool {
        self.cpu <= b.cpu && self.mem_mb <= b.mem_mb && self.disk_gb <= b.disk_gb && self.ports
            <= b.ports
    }

    /// Whether each figure is one of 32 bits without a sign.
    pub open spec fn in_range(self) -> bool {
        &&& 0 <= self.cpu <= u32::MAX
        &&& 0 <= self.mem_mb <= u32::MAX
        &&& 0 <= self.disk_gb <= u32::MAX
        &&& 0 <= self.ports <= u32::MAX
    }
}

/// What the live reservations of `rs` take, that of `exclude` left out.
pub open spec fn usage_of(t: Tables, rs: Seq<Reservation>, now: i64, exclude: Seq<char>) -> UsageView
    decreases rs.len(),
{
    if rs.len() == 0 {
        UsageView::zero()
    } else {
        let u = usage_of(t, rs.drop_last(), now, exclude);
        let r = rs.last();
        if live(t, r, now) && r.order_id@ != exclude {
            u.plus(r.holding)
        } else {
            u
        }
    }
}

/// Whether what the live reservations of `rs` take can be summed one after the other, that of
/// `exclude` left out: every count is a number, and no sum on the way is beyond 64 bits.
pub open spec fn can_be_summed(t: Tables, rs: Seq<Reservation>, now: i64, exclude: Seq<char>) -> bool
    decreases rs.len(),
{
    rs.len() == 0 || {
        let r = rs.last();
        &&& can_be_summed(t, rs.drop_last(), now, exclude)
        &&& live(t, r, now) && r.order_id@ != exclude ==> all_numbers(r.holding) && usage_of(
            t,
            rs,
            now,
            exclude,
        ).fits()
    }
}

/// Whether the live usage, that of `exclude` left out, is one that a host can have.
pub open spec fn usage_is_sound(t: Tables, now: i64, exclude: Seq<char>) -> bool {
    can_be_summed(t, t.reservations@, now, exclude) && usage_of(
        t,
        t.reservations@,
        now,
        exclude,
    ).in_range()
}

/// What can be summed can be summed up to any row.
proof fn lemma_summed_so_far(t: Tables, rs: Seq<Reservation>, now: i64, exclude: Seq<char>, n: int)
    requires
        0 <= n <= rs.len(),
        can_be_summed(t, rs, now, exclude),
    ensures
        can_be_summed(t, rs.take(n), now, exclude),
    decreases rs.len(),
{
    if n < rs.len() {
        lemma_summed_so_far(t, rs.drop_last(), now, exclude, n);
        assert(rs.drop_last().take(n) =~= rs.take(n));
    } else {
        assert(rs.take(n) =~= rs);
    }
}

/// What all live reservations take.
pub open spec fn total_usage(t: Tables, rs: Seq<Reservation>, now: i64) -> UsageView
    decreases rs.len(),
{
    if rs.len() == 0 {
        UsageView::zero()
    } else {
        let u = total_usage(t, rs.drop_last(), now);
        let r = rs.last();
        if live(t, r, now) {
            u.plus(r.holding)
        } else {
            u
        }
    }
}

fn order_is_paid(invoices: &Vec<Invoice>, order_id: &str) -> (r: bool)
    ensures
        r == order_paid(invoices@, order_id@),
{
    let mut i: usize = 0;
    while i < invoices.len()
        invariant
            i <= invoices@.len(),
            forall|k: int|
                0 <= k < i ==> !(is_text((#[trigger] invoices@[k]).subscription_id, order_id@)
                    && invoices@[k].kind == InvoiceKind::Order && invoices@[k].status
                    == InvoiceStatus::Paid),
        decreases invoices@.len() - i,
    {
        let v = &invoices[i];
        if holds_text(&v.subscription_id, order_id) && v.kind == InvoiceKind::Order && v.status
            == InvoiceStatus::Paid {
            return true;
        }
        i = i + 1;
    }
    false
}

fn order_is_provisioning(subs: &Vec<Subscription>, order_id: &str) -> (r: bool)
    ensures
        r == order_provisioning(subs@, order_id@),
{
    let mut i: usize = 0;
    while i < subs.len()
        invariant
            i <= subs@.len(),
            forall|k: int|
                0 <= k < i ==> !((#[trigger] subs@[k]).id@ == order_id@ && subs@[k].state
                    == SubState::Provisioning),
        decreases subs@.len() - i,
    {
        if same(&subs[i].id, order_id) && subs[i].state == SubState::Provisioning {
            return true;
        }
        i = i + 1;
    }
    false
}

fn is_live_hold(t: &Tables, r: &Reservation, now: i64) -> (b: bool)
    ensures
        b == live_hold(*t, *r, now),
{
    if r.state != HoldState::Held {
        return false;
    }
    let unexpired = match r.expires_at {
        Some(e) => e > now,
        None => false,
    };
    unexpired || order_is_paid(&t.invoices, &r.order_id) || order_is_provisioning(
        &t.subscriptions,
        &r.order_id,
    )
}

/// The sum of two counts, where it is a number of 64 bits.
fn sum(n: i64, c: Count) -> (r: Option<i64>)
    ensures
        r is Some <==> c is Number && i64::MIN <= n + added(c) <= i64::MAX,
        r matches Some(v) ==> v == n + added(c),
{
    match c {
        Count::Number(m) => n.checked_add(m),
        Count::Odd => None,
    }
}

/// A sum as a figure of 32 bits without a sign.
fn figure(n: i64) -> (r: Option<u32>)
    ensures
        r is Some <==> 0 <= n <= u32::MAX,
        r matches Some(v) ==> v == n,
{
    if 0 <= n && n <= u32::MAX as i64 {
        Some(n as u32)
    } else {
        None
    }
}

/// The sum of live usage, the reservation of `exclude_order_id` left out; none where it is not one
/// that a host can have.
pub fn live_usage(t: &Tables, now: i64, exclude_order_id: &str) -> (r: Option<Usage>)
    ensures
        r is Some <==> usage_is_sound(*t, now, exclude_order_id@),
        r matches Some(u) ==> u@ == usage_of(*t, t.reservations@, now, exclude_order_id@),
{
    let mut cpu: i64 = 0;
    let mut mem_mb: i64 = 0;
    let mut disk_gb: i64 = 0;
    let mut ports: i64 = 0;
    let mut i: usize = 0;
    assert(t.reservations@.take(0) =~= Seq::empty());
    while i < t.reservations.len()
        invariant
            i <= t.reservations@.len(),
            can_be_summed(*t, t.reservations@.take(i as int), now, exclude_order_id@),
            usage_of(*t, t.reservations@.take(i as int), now, exclude_order_id@) == (UsageView {
                cpu: cpu as int,
                mem_mb: mem_mb as int,
                disk_gb: disk_gb as int,
                ports: ports as int,
            }),
        decreases t.reservations@.len() - i,
    {
        let r = &t.reservations[i];
        let ghost next = t.reservations@.take(i + 1);
        assert(next.drop_last() =~= t.reservations@.take(i as int));
        if (r.state == HoldState::Consumed || is_live_hold(t, r, now)) && !same(
            &r.order_id,
            exclude_order_id,
        ) {
            match (
                sum(cpu, r.holding.cpu),
                sum(mem_mb, r.holding.mem_mb),
                sum(disk_gb, r.holding.disk_gb),
                sum(ports, r.holding.ports),
            ) {
                (Some(a), Some(b), Some(c), Some(d)) => {
                    cpu = a;
                    mem_mb = b;
                    disk_gb = c;
                    ports = d;
                },
                _ => {
                    proof {
                        assert(!can_be_summed(*t, next, now, exclude_order_id@));
                        if can_be_summed(*t, t.reservations@, now, exclude_order_id@) {
                            lemma_summed_so_far(
                                *t,
                                t.reservations@,
                                now,
                                exclude_order_id@,
                                i + 1,
                            );
                        }
                    }
                    return None;
                },
            }
        }
        i = i + 1;
    }
    assert(t.reservations@.take(i as int) =~= t.reservations@);
    match (figure(cpu), figure(mem_mb), figure(disk_gb), figure(ports)) {
        (Some(cpu), Some(mem_mb), Some(disk_gb), Some(ports)) => Some(
            Usage { cpu, mem_mb, disk_gb, ports },
        ),
        _ => None,
    }
}

// ---- the cap on one sender's holds -----------------------------------------------------------

/// The position of the second colon of `s`, or the length of `s` where it has fewer than two.
pub open spec fn second_colon(s: Seq<char>) -> nat {
    let first = first_of(s, ':');
    if first < s.len() {
        first + 1 + first_of(s.skip(first as int + 1), ':')
    } else {
        s.len()
    }
}

/// The pattern that every order id of the same sender matches: the id through its second colon, and
/// then anything. `None` for an id without two colons.
pub open spec fn sender_pattern(order_id: Seq<char>) -> Option<Seq<char>> {
    if second_colon(order_id) < order_id.len() {
        Some(order_id.take(second_colon(order_id) as int + 1) + "%"@)
    } else {
        None
    }
}

/// The pattern that every order id of the same sender matches (an order id is
/// `ord:<sender>:<tail>`).
pub fn sender_like_pattern(order_id: &str) -> (r: Option<String>)
    ensures
        match r {
            Some(p) => sender_pattern(order_id@) == Some(p@),
            None => sender_pattern(order_id@) is None,
        },
{
    let cs = chars_of(order_id);
    let first: usize = find_char(&cs, ':');
    if first == cs.len() {
        return None;
    }
    let mut second: usize = first + 1;
    let ghost tail = cs@.skip(first as int + 1);
    while second < cs.len() && cs[second] != ':'
        invariant
            first < second <= cs@.len(),
            tail == cs@.skip(first as int + 1),
            forall|k: int| 0 <= k < second - first - 1 ==> #[trigger] tail[k] != ':',
        decreases cs@.len() - second,
    {
        assert(tail[second - first - 1] == cs@[second as int]);
        second = second + 1;
    }
    proof {
        if second < cs@.len() {
            assert(tail[second - first - 1] == cs@[second as int]);
        }
        lemma_first_of_at(tail, ':', second - first - 1);
    }
    if second == cs.len() {
        return None;
    }
    let head = order_id.substring_char(0, second + 1);
    assert(head@ =~= order_id@.take(second as int + 1));
    Some(cat2(head, "%"))
}

/// Whether a reservation is a live hold of a sender, other than that of the excluded order.
pub open spec fn counted_hold(
    t: Tables,
    r: Reservation,
    now: i64,
    pattern: Seq<char>,
    exclude: Seq<char>,
) -> bool {
    live_hold(t, r, now) && like(pattern, r.order_id@) && r.order_id@ != exclude
}

/// How many live holds match the pattern, that of the excluded order left out.
pub open spec fn hold_count(t: Tables, now: i64, pattern: Seq<char>, exclude: Seq<char>) -> nat {
    t.reservations@.filter(|r: Reservation| counted_hold(t, r, now, pattern, exclude)).len()
}

/// Counts the live holds of one sender. Consumed reservations do not count: the cap bounds
/// outstanding holds, not completed rentals.
pub fn live_hold_count(t: &Tables, now: i64, sender_like: &str, exclude_order_id: &str) -> (n: usize)
    ensures
        n == hold_count(*t, now, sender_like@, exclude_order_id@),
{
    let ghost p = |r: Reservation| counted_hold(*t, r, now, sender_like@, exclude_order_id@);
    let mut n: usize = 0;
    let mut i: usize = 0;
    proof {
        reveal(Seq::filter);
        assert(t.reservations@.take(0) =~= Seq::empty());
    }
    while i < t.reservations.len()
        invariant
            i <= t.reservations@.len(),
            n <= i,
            p == (|r: Reservation| counted_hold(*t, r, now, sender_like@, exclude_order_id@)),
            n == t.reservations@.take(i as int).filter(p).len(),
        decreases t.reservations@.len() - i,
    {
        let r = &t.reservations[i];
        proof {
            lemma_filter_next(t.reservations@, p, i as int);
        }
        if is_live_hold(t, r, now) && matches_like(sender_like, &r.order_id) && !same(
            &r.order_id,
            exclude_order_id,
        ) {
            n = n + 1;
        }
        i = i + 1;
    }
    assert(t.reservations@.take(i as int) =~= t.reservations@);
    n
}

// ---- reserve, consume, release ---------------------------------------------------------------

/// Being the reservation of this order.
pub open spec fn of_order(order_id: Seq<char>) -> spec_fn(Reservation) -> bool {
    |r: Reservation| r.order_id@ == order_id
}

/// The position of the order's reservation, or the number of reservations where it has none.
pub open spec fn reservation_at(rs: Seq<Reservation>, order_id: Seq<char>) -> nat {
    first_where(rs, of_order(order_id))
}

/// How an attempt to reserve is decided.
pub enum Verdict {
    /// The order's capacity is already an active instance's.
    Consumed,
    /// The order's reservation was released.
    Released,
    /// The sender has as many live holds as it may have.
    SenderFull,
    /// The host has no room.
    HostFull,
    /// The stored usage is not one that a host can have.
    OutOfRange,
    /// The order has no reservation yet, and another order's has the id.
    IdTaken,
    /// The hold is made, or made anew.
    Hold,
}

/// The decision of [`reserve`], rule by rule in this order.
pub open spec fn verdict(
    t: Tables,
    reservation_id: Seq<char>,
    order_id: Seq<char>,
    req: Request,
    budget: Budget,
    now: i64,
    max_live_holds_per_buyer: u32,
) -> Verdict {
    let rs = t.reservations@;
    let at = reservation_at(rs, order_id);
    let usage = usage_of(t, rs, now, order_id);
    if at < rs.len() && rs[at as int].state == HoldState::Consumed {
        Verdict::Consumed
    } else if at < rs.len() && rs[at as int].state == HoldState::Released {
        Verdict::Released
    } else if sender_pattern(order_id) matches Some(p) && hold_count(t, now, p, order_id)
        >= max_live_holds_per_buyer {
        Verdict::SenderFull
    } else if !usage_is_sound(t, now, order_id) {
        Verdict::OutOfRange
    } else if !usage.plus(holding_of(req)).within(budget) {
        Verdict::HostFull
    } else if at >= rs.len() && any(
        rs,
        |r: Reservation| r.id@ == reservation_id && r.order_id@ != order_id,
    ) {
        Verdict::IdTaken
    } else {
        Verdict::Hold
    }
}

/// Whether `e` records that the order's hold was made.
pub open spec fn is_reserve_event(e: Event, order_id: Seq<char>, req: Request, now: i64) -> bool {
    &&& is_event(e, Some(order_id), EventKind::Reserve, now)
    &&& e.detail matches EventDetail::Resources(x)
    &&& x == req.resources
}

/// Whether `new` is `old` with the order's hold made, or made anew, and journaled.
pub open spec fn held(
    old: Tables,
    new: Tables,
    reservation_id: Seq<char>,
    order_id: Seq<char>,
    req: Request,
    expires_at: i64,
    now: i64,
) -> bool {
    let at = reservation_at(old.reservations@, order_id) as int;
    &&& if at < old.reservations@.len() {
        new.reservations@ == old.reservations@.update(
            at,
            Reservation {
                holding: holding_of(req),
                expires_at: Some(expires_at),
                ..old.reservations@[at]
            },
        )
    } else {
        let r = new.reservations@.last();
        &&& new.reservations@ == old.reservations@.push(r)
        &&& r.id@ == reservation_id
        &&& r.order_id@ == order_id
        &&& r.holding == holding_of(req)
        &&& r.state == HoldState::Held
        &&& r.expires_at == Some(expires_at)
        &&& r.created_at == Some(now)
    }
    &&& events_added(old, new, 1)
    &&& is_reserve_event(new.events@.last(), order_id, req, now)
    &&& new == (Tables {
        reservations: new.reservations,
        events: new.events,
        next_event_id: new.next_event_id,
        ..old
    })
}

fn find_reservation(rs: &Vec<Reservation>, order_id: &str) -> (r: usize)
    ensures
        r == reservation_at(rs@, order_id@),
        r <= rs@.len(),
        r < rs@.len() ==> rs@[r as int].order_id@ == order_id@,
{
    let ghost p = of_order(order_id@);
    let mut i: usize = 0;
    while i < rs.len() && !same(&rs[i].order_id, order_id)
        invariant
            i <= rs@.len(),
            p == of_order(order_id@),
            forall|k: int| 0 <= k < i ==> !p(#[trigger] rs@[k]),
        decreases rs@.len() - i,
    {
        i = i + 1;
    }
    proof {
        lemma_first_where_at(rs@, p, i as int);
    }
    i
}

fn id_is_taken(rs: &Vec<Reservation>, reservation_id: &str, order_id: &str) -> (r: bool)
    ensures
        r == any(rs@, |r: Reservation| r.id@ == reservation_id@ && r.order_id@ != order_id@),
{
    let mut i: usize = 0;
    while i < rs.len()
        invariant
            i <= rs@.len(),
            forall|k: int|
                0 <= k < i ==> !((#[trigger] rs@[k]).id@ == reservation_id@ && rs@[k].order_id@
                    != order_id@),
        decreases rs@.len() - i,
    {
        if same(&rs[i].id, reservation_id) && !same(&rs[i].order_id, order_id) {
            return true;
        }
        i = i + 1;
    }
    false
}

/// Whether a decision is carried out: only a hold changes anything, and `r` says what was decided.
pub open spec fn is_answer(
    v: Verdict,
    old: Tables,
    new: Tables,
    reservation_id: Seq<char>,
    order_id: Seq<char>,
    req: Request,
    expires_at: i64,
    now: i64,
    r: Result<Reserve, ReserveError>,
) -> bool {
    match v {
        Verdict::Consumed => r == Ok::<Reserve, ReserveError>(Reserve::Reserved) && new == old,
        Verdict::Released => (r matches Err(ReserveError::AlreadyReleased { order_id: o }) && o@
            == order_id) && new == old,
        Verdict::SenderFull | Verdict::HostFull => r == Ok::<Reserve, ReserveError>(
            Reserve::CapacityFull,
        ) && new == old,
        Verdict::OutOfRange => (r matches Err(ReserveError::UsageOutOfRange)) && new == old,
        Verdict::IdTaken => (r matches Err(ReserveError::IdTaken { reservation_id: i }) && i@
            == reservation_id) && new == old,
        Verdict::Hold => r == Ok::<Reserve, ReserveError>(Reserve::Reserved) && held(
            old,
            new,
            reservation_id,
            order_id,
            req,
            expires_at,
            now,
        ),
    }
}

/// Checks in one step that there is room and, if there is, makes a hold for the order that runs out
/// at `expires_at`, or makes the order's own hold anew. A reservation that was consumed stays as it
/// is; one that was released is never held again. The check leaves out the order's own hold, so a
/// repeated attempt is never refused because of itself. An order that has a hold keeps its id, and
/// `reservation_id` is not looked at.
pub fn reserve(
    t: &mut Tables,
    reservation_id: &str,
    order_id: &str,
    req: Request,
    budget: Budget,
    expires_at: i64,
    now: i64,
    max_live_holds_per_buyer: u32,
) -> (r: Result<Reserve, ReserveError>)
    requires
        old(t).next_event_id < i64::MAX,
    ensures
        is_answer(
            verdict(
                *old(t),
                reservation_id@,
                order_id@,
                req,
                budget,
                now,
                max_live_holds_per_buyer,
            ),
            *old(t),
            *final(t),
            reservation_id@,
            order_id@,
            req,
            expires_at,
            now,
            r,
        ),
{
    let at: usize = find_reservation(&t.reservations, order_id);
    if at < t.reservations.len() {
        if t.reservations[at].state == HoldState::Consumed {
            return Ok(Reserve::Reserved);
        }
        if t.reservations[at].state == HoldState::Released {
            return Err(ReserveError::AlreadyReleased { order_id: owned(order_id) });
        }
    }
    if let Some(pattern) = sender_like_pattern(order_id) {
        let n: usize = live_hold_count(t, now, &pattern, order_id);
        if n >= max_live_holds_per_buyer as usize {
            return Ok(Reserve::CapacityFull);
        }
    }
    let u = match live_usage(t, now, order_id) {
        Some(u) => u,
        None => {
            return Err(ReserveError::UsageOutOfRange);
        },
    };
    if u.cpu as u64 + req.resources.cpu as u64 > budget.cpu as u64 || u.mem_mb as u64
        + req.resources.mem_mb as u64 > budget.mem_mb as u64 || u.disk_gb as u64
        + req.resources.disk_gb as u64 > budget.disk_gb as u64 || u.ports as u64 + req.ports as u64
        > budget.ports as u64 {
        return Ok(Reserve::CapacityFull);
    }
    if at == t.reservations.len() && id_is_taken(&t.reservations, reservation_id, order_id) {
        return Err(ReserveError::IdTaken { reservation_id: owned(reservation_id) });
    }
    if at < t.reservations.len() {
        t.reservations[at].holding = holding(req);
        t.reservations[at].expires_at = Some(expires_at);
    } else {
        t.reservations.push(
            Reservation {
                id: owned(reservation_id),
                order_id: owned(order_id),
                holding: holding(req),
                state: HoldState::Held,
                expires_at: Some(expires_at),
                created_at: Some(now),
            },
        );
    }
    let ghost rs = t.reservations@;
    t.journal(Some(owned(order_id)), EventKind::Reserve, EventDetail::Resources(req.resources), now);
    proof {
        let o = old(t).reservations@;
        if at < o.len() {
            assert(rs =~= o.update(
                at as int,
                Reservation {
                    holding: holding_of(req),
                    expires_at: Some(expires_at),
                    ..o[at as int]
                },
            ));
        }
        assert(held(*old(t), *t, reservation_id@, order_id@, req, expires_at, now));
    }
    Ok(Reserve::Reserved)
}

/// Whether a reservation is the order's and in one of two states.
pub open spec fn is_hold_of(r: Reservation, order_id: Seq<char>, a: HoldState, b: HoldState) -> bool {
    r.order_id@ == order_id && (r.state == a || r.state == b)
}

/// The reservations with those of the order that are in state `a` or `b` moved to state `to`.
pub open spec fn moved(
    rs: Seq<Reservation>,
    order_id: Seq<char>,
    a: HoldState,
    b: HoldState,
    to: HoldState,
) -> Seq<Reservation> {
    rs.map_values(
        |r: Reservation|
            if is_hold_of(r, order_id, a, b) {
                Reservation { state: to, ..r }
            } else {
                r
            },
    )
}

/// How many reservations are the order's and in one of two states.
pub open spec fn holds_of(rs: Seq<Reservation>, order_id: Seq<char>, a: HoldState, b: HoldState) -> nat {
    rs.filter(|r: Reservation| is_hold_of(r, order_id, a, b)).len()
}

/// A reservation in one of two states is counted among those of its order.
pub proof fn lemma_hold_is_counted(
    rs: Seq<Reservation>,
    order_id: Seq<char>,
    a: HoldState,
    b: HoldState,
    j: int,
)
    requires
        0 <= j < rs.len(),
        is_hold_of(rs[j], order_id, a, b),
    ensures
        holds_of(rs, order_id, a, b) > 0,
    decreases rs.len(),
{
    reveal(Seq::filter);
    if j < rs.len() - 1 {
        lemma_hold_is_counted(rs.drop_last(), order_id, a, b, j);
    }
}

/// What is counted among the reservations of an order in one of two states is there.
pub proof fn lemma_counted_hold_is_there(
    rs: Seq<Reservation>,
    order_id: Seq<char>,
    a: HoldState,
    b: HoldState,
)
    requires
        holds_of(rs, order_id, a, b) > 0,
    ensures
        exists|j: int| 0 <= j < rs.len() && is_hold_of(#[trigger] rs[j], order_id, a, b),
    decreases rs.len(),
{
    reveal(Seq::filter);
    if rs.len() > 0 {
        let init = rs.drop_last();
        if is_hold_of(rs.last(), order_id, a, b) {
            assert(is_hold_of(rs[rs.len() - 1], order_id, a, b));
        } else {
            lemma_counted_hold_is_there(init, order_id, a, b);
            let j = choose|j: int| 0 <= j < init.len() && is_hold_of(#[trigger] init[j], order_id, a, b);
            assert(is_hold_of(rs[j], order_id, a, b));
        }
    }
}

fn move_state(
    rs: &mut Vec<Reservation>,
    order_id: &str,
    a: HoldState,
    b: HoldState,
    to: HoldState,
) -> (n: usize)
    ensures
        final(rs)@ == moved(old(rs)@, order_id@, a, b, to),
        n == holds_of(old(rs)@, order_id@, a, b),
{
    let ghost p = |r: Reservation| is_hold_of(r, order_id@, a, b);
    let mut n: usize = 0;
    let mut i: usize = 0;
    proof {
        reveal(Seq::filter);
        assert(rs@.take(0) =~= Seq::empty());
    }
    while i < rs.len()
        invariant
            i <= rs@.len(),
            n <= i,
            rs@.len() == old(rs)@.len(),
            p == (|r: Reservation| is_hold_of(r, order_id@, a, b)),
            n == old(rs)@.take(i as int).filter(p).len(),
            forall|k: int| 0 <= k < i ==> #[trigger] rs@[k] == moved(old(rs)@, order_id@, a, b, to)[k],
            forall|k: int| i <= k < rs@.len() ==> #[trigger] rs@[k] == old(rs)@[k],
        decreases rs@.len() - i,
    {
        proof {
            lemma_filter_next(old(rs)@, p, i as int);
        }
        if same(&rs[i].order_id, order_id) && (rs[i].state == a || rs[i].state == b) {
            rs[i].state = to;
            n = n + 1;
        }
        i = i + 1;
    }
    assert(old(rs)@.take(i as int) =~= old(rs)@);
    assert(rs@ =~= moved(old(rs)@, order_id@, a, b, to));
    n
}

/// Whether `e` is an empty entry of this kind about the order.
pub open spec fn is_empty_event(e: Event, order_id: Seq<char>, kind: EventKind, now: i64) -> bool {
    is_event(e, Some(order_id), kind, now) && e.detail is Empty
}

/// Whether `new` is `old` with the order's one held reservation consumed and that journaled, or `old`
/// itself where the order has none or more than one, and `r` says so.
pub open spec fn consumed(
    old: Tables,
    new: Tables,
    order_id: Seq<char>,
    now: i64,
    r: Result<(), NoHeldReservation>,
) -> bool {
    let n = holds_of(old.reservations@, order_id, HoldState::Held, HoldState::Held);
    if n == 1 {
        &&& r is Ok
        &&& new.reservations@ == moved(
            old.reservations@,
            order_id,
            HoldState::Held,
            HoldState::Held,
            HoldState::Consumed,
        )
        &&& events_added(old, new, 1)
        &&& is_empty_event(new.events@.last(), order_id, EventKind::ReserveConsume, now)
        &&& new == (Tables {
            reservations: new.reservations,
            events: new.events,
            next_event_id: new.next_event_id,
            ..old
        })
    } else {
        &&& r matches Err(e)
        &&& e.order_id@ == order_id
        &&& e.affected == n
        &&& new == old
    }
}

/// Held to consumed, when the instance becomes active. The order must have exactly one held
/// reservation. The time at which a hold runs out plays no part: this is only reached once the order
/// is paid.
pub fn consume_txn(t: &mut Tables, order_id: &str, now: i64) -> (r: Result<(), NoHeldReservation>)
    requires
        old(t).next_event_id < i64::MAX,
    ensures
        consumed(*old(t), *final(t), order_id@, now, r),
{
    let n: usize = count_holds(&t.reservations, order_id, HoldState::Held, HoldState::Held);
    if n != 1 {
        return Err(NoHeldReservation { order_id: owned(order_id), affected: n });
    }
    let _ = move_state(
        &mut t.reservations,
        order_id,
        HoldState::Held,
        HoldState::Held,
        HoldState::Consumed,
    );
    t.journal(Some(owned(order_id)), EventKind::ReserveConsume, EventDetail::Empty, now);
    Ok(())
}

fn count_holds(rs: &Vec<Reservation>, order_id: &str, a: HoldState, b: HoldState) -> (n: usize)
    ensures
        n == holds_of(rs@, order_id@, a, b),
{
    let ghost p = |r: Reservation| is_hold_of(r, order_id@, a, b);
    let mut n: usize = 0;
    let mut i: usize = 0;
    proof {
        reveal(Seq::filter);
        assert(rs@.take(0) =~= Seq::empty());
    }
    while i < rs.len()
        invariant
            i <= rs@.len(),
            n <= i,
            p == (|r: Reservation| is_hold_of(r, order_id@, a, b)),
            n == rs@.take(i as int).filter(p).len(),
        decreases rs@.len() - i,
    {
        proof {
            lemma_filter_next(rs@, p, i as int);
        }
        if same(&rs[i].order_id, order_id) && (rs[i].state == a || rs[i].state == b) {
            n = n + 1;
        }
        i = i + 1;
    }
    assert(rs@.take(i as int) =~= rs@);
    n
}

/// Whether `new` is `old` with the order's live reservation released and that journaled, or `old`
/// itself where the order has none.
pub open spec fn released(old: Tables, new: Tables, order_id: Seq<char>, now: i64) -> bool {
    if holds_of(old.reservations@, order_id, HoldState::Held, HoldState::Consumed) > 0 {
        &&& new.reservations@ == moved(
            old.reservations@,
            order_id,
            HoldState::Held,
            HoldState::Consumed,
            HoldState::Released,
        )
        &&& events_added(old, new, 1)
        &&& is_empty_event(new.events@.last(), order_id, EventKind::ReserveRelease, now)
        &&& new == (Tables {
            reservations: new.reservations,
            events: new.events,
            next_event_id: new.next_event_id,
            ..old
        })
    } else {
        new == old
    }
}

/// Held or consumed to released, on expiry, refund or terminate. Says whether there was anything
/// live to release.
pub fn release_txn(t: &mut Tables, order_id: &str, now: i64) -> (r: bool)
    requires
        old(t).next_event_id < i64::MAX,
    ensures
        r == (holds_of(old(t).reservations@, order_id@, HoldState::Held, HoldState::Consumed) > 0),
        released(*old(t), *final(t), order_id@, now),
{
    let n: usize = count_holds(&t.reservations, order_id, HoldState::Held, HoldState::Consumed);
    if n > 0 {
        let _ = move_state(
            &mut t.reservations,
            order_id,
            HoldState::Held,
            HoldState::Consumed,
            HoldState::Released,
        );
        t.journal(Some(owned(order_id)), EventKind::ReserveRelease, EventDetail::Empty, now);
    }
    n > 0
}

// ---- laws ------------------------------------------------------------------------------------

/// Whether every order has at most one reservation.
pub open spec fn one_per_order(rs: Seq<Reservation>) -> bool {
    forall|i: int, j: int|
        0 <= i < j < rs.len() ==> (#[trigger] rs[i]).order_id@ != (#[trigger] rs[j]).order_id@
}

/// Usage with an order left out does not depend on that order's reservation.
proof fn lemma_usage_agrees(
    t: Tables,
    u: Tables,
    rs: Seq<Reservation>,
    qs: Seq<Reservation>,
    now: i64,
    order_id: Seq<char>,
)
    requires
        t.invoices == u.invoices,
        t.subscriptions == u.subscriptions,
        rs.len() == qs.len(),
        forall|i: int|
            0 <= i < rs.len() ==> (#[trigger] rs[i]).order_id@ == qs[i].order_id@ && (rs[i].order_id@
                != order_id ==> rs[i] == qs[i]),
    ensures
        usage_of(t, rs, now, order_id) == usage_of(u, qs, now, order_id),
        can_be_summed(t, rs, now, order_id) == can_be_summed(u, qs, now, order_id),
    decreases rs.len(),
{
    if rs.len() > 0 {
        lemma_usage_agrees(t, u, rs.drop_last(), qs.drop_last(), now, order_id);
    }
}

/// All usage is at most the usage without an order and what that order's reservation takes.
proof fn lemma_total_splits(
    t: Tables,
    rs: Seq<Reservation>,
    now: i64,
    order_id: Seq<char>,
    h: Holding,
)
    requires
        one_per_order(rs),
        none_negative(h),
        forall|i: int|
            0 <= i < rs.len() && (#[trigger] rs[i]).order_id@ == order_id ==> rs[i].holding == h,
    ensures
        ({
            let total = total_usage(t, rs, now);
            let rest = usage_of(t, rs, now, order_id);
            let most = rest.plus(h);
            &&& total.cpu <= most.cpu && total.mem_mb <= most.mem_mb && total.disk_gb
                <= most.disk_gb && total.ports <= most.ports
            &&& (forall|i: int| 0 <= i < rs.len() ==> (#[trigger] rs[i]).order_id@ != order_id)
                ==> total == rest
        }),
    decreases rs.len(),
{
    if rs.len() > 0 {
        let init = rs.drop_last();
        assert forall|i: int, j: int| 0 <= i < j < init.len() implies (
        #[trigger] init[i]).order_id@ != (#[trigger] init[j]).order_id@ by {
            assert(rs[i].order_id@ != rs[j].order_id@);
        }
        assert forall|i: int| 0 <= i < init.len() && (#[trigger] init[i]).order_id@
            == order_id implies init[i].holding == h by {
            assert(rs[i].order_id@ == order_id);
        }
        lemma_total_splits(t, init, now, order_id, h);
        let last = rs[rs.len() - 1];
        if last.order_id@ == order_id {
            assert forall|i: int| 0 <= i < init.len() implies (#[trigger] init[i]).order_id@
                != order_id by {
                assert(rs[i].order_id@ != rs[rs.len() - 1].order_id@);
            }
        }
        if forall|i: int| 0 <= i < rs.len() ==> (#[trigger] rs[i]).order_id@ != order_id {
            assert forall|i: int| 0 <= i < init.len() implies (#[trigger] init[i]).order_id@
                != order_id by {
                assert(rs[i].order_id@ != order_id);
            }
        }
    }
}

/// What a made hold leaves in the table: the order's reservation asks for what was requested and
/// runs out when it was told to, and every other order's reservation is as it was.
pub proof fn reserve_touches_only_its_order(
    old: Tables,
    new: Tables,
    reservation_id: Seq<char>,
    order_id: Seq<char>,
    req: Request,
    expires_at: i64,
    now: i64,
)
    requires
        one_per_order(old.reservations@),
        held(old, new, reservation_id, order_id, req, expires_at, now),
    ensures
        one_per_order(new.reservations@),
        reservation_at(new.reservations@, order_id) == reservation_at(old.reservations@, order_id),
        reservation_at(new.reservations@, order_id) < new.reservations@.len(),
        forall|i: int|
            0 <= i < new.reservations@.len() ==> if i == reservation_at(
                old.reservations@,
                order_id,
            ) {
                let r = #[trigger] new.reservations@[i];
                r.order_id@ == order_id && r.holding == holding_of(req) && r.expires_at == Some(expires_at)
            } else {
                i < old.reservations@.len() && new.reservations@[i] == old.reservations@[i]
                    && new.reservations@[i].order_id@ != order_id
            },
{
    let p = of_order(order_id);
    let o = old.reservations@;
    let n = new.reservations@;
    lemma_first_where(o, p);
    let at = reservation_at(o, order_id) as int;
    assert forall|i: int| 0 <= i < o.len() && i != at implies (#[trigger] o[i]).order_id@
        != order_id by {
        if i < at {
            assert(!p(o[i]));
        } else {
            assert(o[at].order_id@ != o[i].order_id@);
        }
    }
    assert forall|i: int, j: int| 0 <= i < j < n.len() implies (#[trigger] n[i]).order_id@ != (
    #[trigger] n[j]).order_id@ by {
        if i < o.len() && j < o.len() {
            assert(o[i].order_id@ != o[j].order_id@);
        }
    }
    assert forall|i: int| 0 <= i < at implies !p(#[trigger] n[i]) by {
        assert(!p(o[i]));
    }
    lemma_first_where_at(n, p, at);
}

/// A hold is only made where it fits: with it, all live usage is within the budget.
pub proof fn reserve_never_oversells(
    old: Tables,
    new: Tables,
    reservation_id: Seq<char>,
    order_id: Seq<char>,
    req: Request,
    budget: Budget,
    expires_at: i64,
    now: i64,
    max_live_holds_per_buyer: u32,
)
    requires
        one_per_order(old.reservations@),
        verdict(old, reservation_id, order_id, req, budget, now, max_live_holds_per_buyer) is Hold,
        held(old, new, reservation_id, order_id, req, expires_at, now),
    ensures
        total_usage(new, new.reservations@, now).within(budget),
{
    reserve_touches_only_its_order(old, new, reservation_id, order_id, req, expires_at, now);
    let o = old.reservations@;
    let n = new.reservations@;
    let at = reservation_at(o, order_id) as int;
    lemma_first_where(o, of_order(order_id));
    if at < o.len() {
        lemma_usage_agrees(old, new, o, n, now, order_id);
    } else {
        assert(n.drop_last() =~= o);
        lemma_usage_agrees(old, new, o, o, now, order_id);
        assert(n.last().order_id@ == order_id);
    }
    assert(usage_of(new, n, now, order_id) == usage_of(old, o, now, order_id));
    lemma_total_splits(new, n, now, order_id, holding_of(req));
}

/// Counts of the rows that satisfy a predicate agree where the predicates agree row by row.
proof fn lemma_filter_agrees(
    rs: Seq<Reservation>,
    p: spec_fn(Reservation) -> bool,
    qs: Seq<Reservation>,
    q: spec_fn(Reservation) -> bool,
)
    requires
        rs.len() == qs.len(),
        forall|i: int| 0 <= i < rs.len() ==> p(#[trigger] rs[i]) == q(qs[i]),
    ensures
        rs.filter(p).len() == qs.filter(q).len(),
    decreases rs.len(),
{
    reveal(Seq::filter);
    if rs.len() > 0 {
        assert forall|i: int| 0 <= i < rs.drop_last().len() implies p(
            #[trigger] rs.drop_last()[i],
        ) == q(qs.drop_last()[i]) by {
            assert(p(rs[i]) == q(qs[i]));
        }
        lemma_filter_agrees(rs.drop_last(), p, qs.drop_last(), q);
        assert(p(rs[rs.len() - 1]) == q(qs[qs.len() - 1]));
    }
}

/// An order that has no reservation yet, or holds one, gets its hold exactly where the request fits
/// what the budget leaves, and is told that the host is full where it does not. Held, it has one
/// reservation, which is held until the given time. This is of a sender below its cap and of a usage
/// that a host can have; an order that has no reservation yet brings an id that no other has.
pub proof fn request_is_held_exactly_where_it_fits(
    old: Tables,
    new: Tables,
    reservation_id: Seq<char>,
    order_id: Seq<char>,
    req: Request,
    budget: Budget,
    expires_at: i64,
    now: i64,
    max_live_holds_per_buyer: u32,
)
    requires
        one_per_order(old.reservations@),
        forall|i: int|
            0 <= i < old.reservations@.len() && (#[trigger] old.reservations@[i]).order_id@ == order_id
                ==> old.reservations@[i].state == HoldState::Held,
        sender_pattern(order_id) matches Some(p) ==> hold_count(old, now, p, order_id)
            < max_live_holds_per_buyer,
        usage_is_sound(old, now, order_id),
        any(old.reservations@, of_order(order_id)) || !any(
            old.reservations@,
            |r: Reservation| r.id@ == reservation_id && r.order_id@ != order_id,
        ),
    ensures
        verdict(old, reservation_id, order_id, req, budget, now, max_live_holds_per_buyer) == (
        if usage_of(old, old.reservations@, now, order_id).plus(holding_of(req)).within(budget) {
            Verdict::Hold
        } else {
            Verdict::HostFull
        }),
        held(old, new, reservation_id, order_id, req, expires_at, now) ==> exists|k: int|
            {
                &&& 0 <= k < new.reservations@.len()
                &&& (#[trigger] new.reservations@[k]).order_id@ == order_id
                &&& new.reservations@[k].state == HoldState::Held
                &&& new.reservations@[k].expires_at == Some(expires_at)
                &&& forall|i: int|
                    0 <= i < new.reservations@.len() && i != k ==> (
                    #[trigger] new.reservations@[i]).order_id@ != order_id
            },
{
    let o = old.reservations@;
    let n = new.reservations@;
    let p = of_order(order_id);
    lemma_first_where(o, p);
    let at = reservation_at(o, order_id) as int;
    if at < o.len() {
        assert(p(o[at]));
    } else {
        assert(!any(o, p));
    }
    if held(old, new, reservation_id, order_id, req, expires_at, now) {
        assert forall|i: int| 0 <= i < n.len() && i != at implies (#[trigger] n[i]).order_id@
            != order_id by {
            assert(n[i] == o[i]);
            assert(at >= o.len() ==> !p(o[i]));
        }
        assert(n[at].order_id@ == order_id);
    }
}

/// Reserving again for the same order, with the same arguments, succeeds and leaves the
/// reservations as they are.
pub proof fn reserve_is_idempotent(
    old: Tables,
    mid: Tables,
    new: Tables,
    reservation_id: Seq<char>,
    order_id: Seq<char>,
    req: Request,
    budget: Budget,
    expires_at: i64,
    now: i64,
    max_live_holds_per_buyer: u32,
)
    requires
        one_per_order(old.reservations@),
        verdict(old, reservation_id, order_id, req, budget, now, max_live_holds_per_buyer) is Hold,
        held(old, mid, reservation_id, order_id, req, expires_at, now),
        held(mid, new, reservation_id, order_id, req, expires_at, now),
    ensures
        verdict(mid, reservation_id, order_id, req, budget, now, max_live_holds_per_buyer) is Hold,
        new.reservations@ == mid.reservations@,
{
    reserve_touches_only_its_order(old, mid, reservation_id, order_id, req, expires_at, now);
    let o = old.reservations@;
    let m = mid.reservations@;
    let at = reservation_at(o, order_id) as int;
    lemma_first_where(o, of_order(order_id));
    if at < o.len() {
        lemma_usage_agrees(old, mid, o, m, now, order_id);
    } else {
        assert(m.drop_last() =~= o);
        lemma_usage_agrees(old, mid, o, o, now, order_id);
        assert(m.last().order_id@ == order_id);
    }
    assert(usage_of(mid, m, now, order_id) == usage_of(old, o, now, order_id));
    assert(can_be_summed(mid, m, now, order_id) == can_be_summed(old, o, now, order_id));
    if sender_pattern(order_id) is Some {
        let pattern = sender_pattern(order_id)->0;
        let p = |r: Reservation| counted_hold(old, r, now, pattern, order_id);
        let q = |r: Reservation| counted_hold(mid, r, now, pattern, order_id);
        if at < o.len() {
            assert forall|i: int| 0 <= i < o.len() implies p(#[trigger] o[i]) == q(m[i]) by {
                assert(i != at ==> m[i] == o[i]);
                assert(m[at].order_id@ == order_id && o[at].order_id@ == order_id);
            }
            lemma_filter_agrees(o, p, m, q);
        } else {
            reveal(Seq::filter);
            assert forall|i: int| 0 <= i < o.len() implies p(#[trigger] o[i]) == q(o[i]) by {}
            lemma_filter_agrees(o, p, o, q);
            assert(m.filter(q) == m.drop_last().filter(q));
        }
        assert(hold_count(mid, now, pattern, order_id) == hold_count(old, now, pattern, order_id));
    }
    let taken = |r: Reservation| r.id@ == reservation_id && r.order_id@ != order_id;
    if any(m, taken) {
        let i = choose|i: int| 0 <= i < m.len() && taken(#[trigger] m[i]);
        assert(i != at);
        assert(taken(o[i]));
    }
    reserve_touches_only_its_order(mid, new, reservation_id, order_id, req, expires_at, now);
    assert(new.reservations@ =~= m);
}

/// An order has at most one reservation in any two states, and one where its reservation is in one
/// of them.
proof fn lemma_holds_of(rs: Seq<Reservation>, order_id: Seq<char>, a: HoldState, b: HoldState)
    requires
        one_per_order(rs),
    ensures
        holds_of(rs, order_id, a, b) <= 1,
        holds_of(rs, order_id, a, b) == 1 <==> any(
            rs,
            |r: Reservation| is_hold_of(r, order_id, a, b),
        ),
    decreases rs.len(),
{
    reveal(Seq::filter);
    let p = |r: Reservation| is_hold_of(r, order_id, a, b);
    if rs.len() > 0 {
        let init = rs.drop_last();
        assert forall|i: int, j: int| 0 <= i < j < init.len() implies (
        #[trigger] init[i]).order_id@ != (#[trigger] init[j]).order_id@ by {
            assert(rs[i].order_id@ != rs[j].order_id@);
        }
        lemma_holds_of(init, order_id, a, b);
        let last = rs[rs.len() - 1];
        if any(init, p) {
            let i = choose|i: int| 0 <= i < init.len() && p(#[trigger] init[i]);
            assert(p(rs[i]));
            assert(rs[i].order_id@ != last.order_id@);
        }
        if any(rs, p) && !p(last) {
            let i = choose|i: int| 0 <= i < rs.len() && p(#[trigger] rs[i]);
            assert(p(init[i]));
        }
    }
}

/// A hold that was just made is there to be consumed, unless its reservation is in a state of its
/// own; once it is consumed, reserving for the order again changes nothing.
pub proof fn reserved_can_be_consumed(
    old: Tables,
    new: Tables,
    reservation_id: Seq<char>,
    order_id: Seq<char>,
    req: Request,
    budget: Budget,
    expires_at: i64,
    now: i64,
    max_live_holds_per_buyer: u32,
)
    requires
        one_per_order(old.reservations@),
        verdict(old, reservation_id, order_id, req, budget, now, max_live_holds_per_buyer) is Hold,
        held(old, new, reservation_id, order_id, req, expires_at, now),
        forall|i: int|
            0 <= i < old.reservations@.len() ==> (#[trigger] old.reservations@[i]).state
                != HoldState::Other,
    ensures
        holds_of(new.reservations@, order_id, HoldState::Held, HoldState::Held) == 1,
        ({
            let consumed = moved(
                new.reservations@,
                order_id,
                HoldState::Held,
                HoldState::Held,
                HoldState::Consumed,
            );
            forall|t: Tables, rid: Seq<char>, r: Request, b: Budget, at: i64, max: u32|
                t.reservations@ == consumed ==> #[trigger] verdict(
                    t,
                    rid,
                    order_id,
                    r,
                    b,
                    at,
                    max,
                ) is Consumed
        }),
{
    reserve_touches_only_its_order(old, new, reservation_id, order_id, req, expires_at, now);
    let n = new.reservations@;
    let at = reservation_at(old.reservations@, order_id) as int;
    lemma_first_where(old.reservations@, of_order(order_id));
    lemma_holds_of(n, order_id, HoldState::Held, HoldState::Held);
    assert(is_hold_of(n[at], order_id, HoldState::Held, HoldState::Held));
    assert(any(n, |r: Reservation| is_hold_of(r, order_id, HoldState::Held, HoldState::Held)));
    let consumed = moved(n, order_id, HoldState::Held, HoldState::Held, HoldState::Consumed);
    let p = of_order(order_id);
    assert forall|i: int| 0 <= i < at implies !p(#[trigger] consumed[i]) by {
        assert(n[i].order_id@ != order_id);
    }
    lemma_first_where_at(consumed, p, at);
}

/// Releasing frees the order's reservation for good: a second release finds nothing, and no later
/// attempt to reserve for the order brings it back.
pub proof fn release_is_final(old: Tables, new: Tables, order_id: Seq<char>, now: i64)
    requires
        one_per_order(old.reservations@),
        released(old, new, order_id, now),
        holds_of(old.reservations@, order_id, HoldState::Held, HoldState::Consumed) > 0,
    ensures
        one_per_order(new.reservations@),
        holds_of(new.reservations@, order_id, HoldState::Held, HoldState::Consumed) == 0,
        holds_of(new.reservations@, order_id, HoldState::Held, HoldState::Held) == 0,
        forall|rid: Seq<char>, r: Request, b: Budget, at: i64, max: u32|
            #[trigger] verdict(new, rid, order_id, r, b, at, max) is Released,
{
    let o = old.reservations@;
    let n = new.reservations@;
    let live_in = |r: Reservation| is_hold_of(r, order_id, HoldState::Held, HoldState::Consumed);
    lemma_holds_of(o, order_id, HoldState::Held, HoldState::Consumed);
    let k = choose|k: int| 0 <= k < o.len() && live_in(#[trigger] o[k]);
    assert forall|i: int, j: int| 0 <= i < j < n.len() implies (#[trigger] n[i]).order_id@ != (
    #[trigger] n[j]).order_id@ by {
        assert(o[i].order_id@ != o[j].order_id@);
    }
    assert(n[k].state == HoldState::Released && n[k].order_id@ == order_id);
    lemma_holds_of(n, order_id, HoldState::Held, HoldState::Consumed);
    lemma_holds_of(n, order_id, HoldState::Held, HoldState::Held);
    let p = of_order(order_id);
    assert forall|i: int| 0 <= i < k implies !p(#[trigger] n[i]) by {
        assert(o[i].order_id@ != o[k].order_id@);
    }
    lemma_first_where_at(n, p, k);
}

/// Releasing never raises the live usage, and consuming a live hold leaves it as it is.
proof fn lemma_moved_usage(
    t: Tables,
    u: Tables,
    rs: Seq<Reservation>,
    now: i64,
    order_id: Seq<char>,
    a: HoldState,
    b: HoldState,
    to: HoldState,
)
    requires
        t.invoices == u.invoices,
        t.subscriptions == u.subscriptions,
        to == HoldState::Released || to == HoldState::Consumed,
        to == HoldState::Consumed ==> forall|i: int|
            0 <= i < rs.len() && is_hold_of(#[trigger] rs[i], order_id, a, b) ==> live(
                t,
                rs[i],
                now,
            ),
        to == HoldState::Released ==> forall|i: int|
            0 <= i < rs.len() && is_hold_of(#[trigger] rs[i], order_id, a, b) ==> none_negative(
                rs[i].holding,
            ),
    ensures
        ({
            let before = total_usage(t, rs, now);
            let after = total_usage(u, moved(rs, order_id, a, b, to), now);
            &&& after.cpu <= before.cpu && after.mem_mb <= before.mem_mb && after.disk_gb
                <= before.disk_gb && after.ports <= before.ports
            &&& to == HoldState::Consumed ==> after == before
        }),
    decreases rs.len(),
{
    if rs.len() > 0 {
        let init = rs.drop_last();
        assert forall|i: int|
            to == HoldState::Consumed && 0 <= i < init.len() && is_hold_of(
                #[trigger] init[i],
                order_id,
                a,
                b,
            ) implies live(t, init[i], now) by {
            assert(is_hold_of(rs[i], order_id, a, b));
        }
        assert forall|i: int|
            to == HoldState::Released && 0 <= i < init.len() && is_hold_of(
                #[trigger] init[i],
                order_id,
                a,
                b,
            ) implies none_negative(init[i].holding) by {
            assert(is_hold_of(rs[i], order_id, a, b));
        }
        lemma_moved_usage(t, u, init, now, order_id, a, b, to);
        assert(moved(rs, order_id, a, b, to).drop_last() =~= moved(init, order_id, a, b, to));
        let last = rs[rs.len() - 1];
        assert(is_hold_of(last, order_id, a, b) ==> if to == HoldState::Released {
            none_negative(last.holding)
        } else {
            live(t, last, now)
        });
    }
}

/// Releasing an order never raises the live usage, where the order's counts take nothing away.
pub proof fn release_never_raises_usage(old: Tables, new: Tables, order_id: Seq<char>, now: i64, at: i64)
    requires
        released(old, new, order_id, now),
        forall|i: int|
            0 <= i < old.reservations@.len() && (#[trigger] old.reservations@[i]).order_id@ == order_id
                ==> none_negative(old.reservations@[i].holding),
    ensures
        total_usage(new, new.reservations@, at).cpu <= total_usage(old, old.reservations@, at).cpu,
        total_usage(new, new.reservations@, at).mem_mb <= total_usage(
            old,
            old.reservations@,
            at,
        ).mem_mb,
        total_usage(new, new.reservations@, at).disk_gb <= total_usage(
            old,
            old.reservations@,
            at,
        ).disk_gb,
        total_usage(new, new.reservations@, at).ports <= total_usage(
            old,
            old.reservations@,
            at,
        ).ports,
{
    lemma_moved_usage(
        old,
        new,
        old.reservations@,
        at,
        order_id,
        HoldState::Held,
        HoldState::Consumed,
        HoldState::Released,
    );
}

/// Consuming a hold that is live leaves the live usage as it is.
pub proof fn consume_keeps_usage(old: Tables, new: Tables, order_id: Seq<char>, now: i64)
    requires
        new.invoices == old.invoices,
        new.subscriptions == old.subscriptions,
        new.reservations@ == moved(
            old.reservations@,
            order_id,
            HoldState::Held,
            HoldState::Held,
            HoldState::Consumed,
        ),
        forall|i: int|
            0 <= i < old.reservations@.len() && is_hold_of(
                #[trigger] old.reservations@[i],
                order_id,
                HoldState::Held,
                HoldState::Held,
            ) ==> live(old, old.reservations@[i], now),
    ensures
        total_usage(new, new.reservations@, now) == total_usage(old, old.reservations@, now),
{
    lemma_moved_usage(
        old,
        new,
        old.reservations@,
        now,
        order_id,
        HoldState::Held,
        HoldState::Held,
        HoldState::Consumed,
    );
}

/// What counts against the budget: what was consumed, and what is held and either has time left, or is
/// of an order with a paid order invoice, or of an order that is being provisioned.
pub proof fn what_counts_against_the_budget(t: Tables, r: Reservation, now: i64)
    ensures
        ({
            let paid = exists|i: int|
                {
                    &&& 0 <= i < t.invoices@.len()
                    &&& (#[trigger] t.invoices@[i]).kind == InvoiceKind::Order
                    &&& t.invoices@[i].status == InvoiceStatus::Paid
                    &&& t.invoices@[i].subscription_id is Some
                    &&& t.invoices@[i].subscription_id->0@ == r.order_id@
                };
            let provisioning = exists|i: int|
                {
                    &&& 0 <= i < t.subscriptions@.len()
                    &&& (#[trigger] t.subscriptions@[i]).id@ == r.order_id@
                    &&& t.subscriptions@[i].state == SubState::Provisioning
                };
            let kept = r.expires_at is Some && r.expires_at->0 > now || paid || provisioning;
            &&& r.state == HoldState::Consumed ==> live(t, r, now) && !live_hold(t, r, now)
            &&& r.state == HoldState::Held ==> live(t, r, now) == kept && live_hold(t, r, now) == kept
            &&& r.state == HoldState::Released || r.state == HoldState::Other ==> !live(t, r, now)
                && !live_hold(t, r, now)
        }),
{
    let id = r.order_id@;
    let p = |i: Invoice|
        is_text(i.subscription_id, id) && i.kind == InvoiceKind::Order && i.status
            == InvoiceStatus::Paid;
    let q = |s: Subscription| s.id@ == id && s.state == SubState::Provisioning;
    if any(t.invoices@, p) {
        let i = choose|i: int| 0 <= i < t.invoices@.len() && p(#[trigger] t.invoices@[i]);
        assert(t.invoices@[i].kind == InvoiceKind::Order);
    }
    assert forall|i: int|
        0 <= i < t.invoices@.len() && (#[trigger] t.invoices@[i]).kind == InvoiceKind::Order
            && t.invoices@[i].status == InvoiceStatus::Paid && t.invoices@[i].subscription_id is Some
            && t.invoices@[i].subscription_id->0@ == id implies any(t.invoices@, p) by {
        assert(p(t.invoices@[i]));
    }
    if any(t.subscriptions@, q) {
        let i = choose|i: int| 0 <= i < t.subscriptions@.len() && q(#[trigger] t.subscriptions@[i]);
        assert(t.subscriptions@[i].id@ == id);
    }
    assert forall|i: int|
        0 <= i < t.subscriptions@.len() && (#[trigger] t.subscriptions@[i]).id@ == id
            && t.subscriptions@[i].state == SubState::Provisioning implies any(
        t.subscriptions@,
        q,
    ) by {
        assert(q(t.subscriptions@[i]));
    }
}

/// Another reservation adds to the usage what it takes, in each of the four counts, where it is live and
/// not of the order that is left out; and nothing otherwise. No reservations use nothing.
pub proof fn usage_adds_up_row_by_row(
    t: Tables,
    rs: Seq<Reservation>,
    r: Reservation,
    now: i64,
    exclude: Seq<char>,
)
    ensures
        ({
            let before = usage_of(t, rs, now, exclude);
            let after = usage_of(t, rs.push(r), now, exclude);
            let counts = live(t, r, now) && r.order_id@ != exclude;
            &&& counts ==> (r.holding.cpu matches Count::Number(n) ==> after.cpu == before.cpu + n)
            &&& counts ==> (r.holding.mem_mb matches Count::Number(n) ==> after.mem_mb
                == before.mem_mb + n)
            &&& counts ==> (r.holding.disk_gb matches Count::Number(n) ==> after.disk_gb
                == before.disk_gb + n)
            &&& counts ==> (r.holding.ports matches Count::Number(n) ==> after.ports
                == before.ports + n)
            &&& !counts ==> after == before
        }),
        usage_of(t, Seq::empty(), now, exclude) == (UsageView {
            cpu: 0,
            mem_mb: 0,
            disk_gb: 0,
            ports: 0,
        }),
{
    assert(rs.push(r).drop_last() =~= rs);
}

/// The number that a count is; anything else adds nothing.
pub open spec fn stated(c: Count) -> int {
    match c {
        Count::Number(n) => n as int,
        Count::Odd => 0,
    }
}

/// The sum of one figure over the live reservations, those of the order that is left out not among
/// them.
pub open spec fn sum_of(
    t: Tables,
    rs: Seq<Reservation>,
    now: i64,
    exclude: Option<Seq<char>>,
    f: spec_fn(Holding) -> int,
) -> int {
    rs.fold_left(
        0int,
        |sum: int, r: Reservation|
            if live(t, r, now) && exclude != Some(r.order_id@) {
                sum + f(r.holding)
            } else {
                sum
            },
    )
}

/// The usage is the sum of each figure over the live reservations.
pub proof fn usage_is_the_sum_of_each_figure(
    t: Tables,
    rs: Seq<Reservation>,
    now: i64,
    exclude: Seq<char>,
)
    ensures
        ({
            let u = usage_of(t, rs, now, exclude);
            &&& u.cpu == sum_of(t, rs, now, Some(exclude), |h: Holding| stated(h.cpu))
            &&& u.mem_mb == sum_of(t, rs, now, Some(exclude), |h: Holding| stated(h.mem_mb))
            &&& u.disk_gb == sum_of(t, rs, now, Some(exclude), |h: Holding| stated(h.disk_gb))
            &&& u.ports == sum_of(t, rs, now, Some(exclude), |h: Holding| stated(h.ports))
        }),
        ({
            let u = total_usage(t, rs, now);
            &&& u.cpu == sum_of(t, rs, now, None, |h: Holding| stated(h.cpu))
            &&& u.mem_mb == sum_of(t, rs, now, None, |h: Holding| stated(h.mem_mb))
            &&& u.disk_gb == sum_of(t, rs, now, None, |h: Holding| stated(h.disk_gb))
            &&& u.ports == sum_of(t, rs, now, None, |h: Holding| stated(h.ports))
        }),
    decreases rs.len(),
{
    reveal_with_fuel(Seq::fold_left, 2);
    if rs.len() > 0 {
        usage_is_the_sum_of_each_figure(t, rs.drop_last(), now, exclude);
    }
}

/// Once a hold is made, what all live reservations take together is within the budget, figure by
/// figure.
pub proof fn held_order_leaves_the_host_within_its_budget(
    old: Tables,
    new: Tables,
    reservation_id: Seq<char>,
    order_id: Seq<char>,
    req: Request,
    budget: Budget,
    expires_at: i64,
    now: i64,
    max_live_holds_per_buyer: u32,
)
    requires
        one_per_order(old.reservations@),
        verdict(old, reservation_id, order_id, req, budget, now, max_live_holds_per_buyer) is Hold,
        held(old, new, reservation_id, order_id, req, expires_at, now),
    ensures
        ({
            let rs = new.reservations@;
            &&& sum_of(new, rs, now, None, |h: Holding| stated(h.cpu)) <= budget.cpu
            &&& sum_of(new, rs, now, None, |h: Holding| stated(h.mem_mb)) <= budget.mem_mb
            &&& sum_of(new, rs, now, None, |h: Holding| stated(h.disk_gb)) <= budget.disk_gb
            &&& sum_of(new, rs, now, None, |h: Holding| stated(h.ports)) <= budget.ports
        }),
{
    reserve_never_oversells(
        old,
        new,
        reservation_id,
        order_id,
        req,
        budget,
        expires_at,
        now,
        max_live_holds_per_buyer,
    );
    usage_is_the_sum_of_each_figure(new, new.reservations@, now, order_id);
}

/// What is decided on a request, rule by rule. An order whose reservation was consumed or released is
/// answered by that alone. Any other order is refused first where its sender has as many other live
/// holds as it may have, then where the stored usage is not one that a host can have, and then where the
/// request does not fit beside it in each figure; a new order is refused where another has its id. What
/// is left is held.
pub proof fn request_is_decided_rule_by_rule(
    t: Tables,
    reservation_id: Seq<char>,
    order_id: Seq<char>,
    req: Request,
    budget: Budget,
    now: i64,
    max_live_holds_per_buyer: u32,
    k: int,
)
    requires
        forall|i: int|
            0 <= i < k && i < t.reservations@.len() ==> (#[trigger] t.reservations@[i]).order_id@
                != order_id,
        0 <= k <= t.reservations@.len(),
        k < t.reservations@.len() ==> t.reservations@[k].order_id@ == order_id,
    ensures
        ({
            let rs = t.reservations@;
            let v = verdict(t, reservation_id, order_id, req, budget, now, max_live_holds_per_buyer);
            let settled = k < rs.len() && (rs[k].state == HoldState::Consumed || rs[k].state
                == HoldState::Released);
            let crowded = sender_pattern(order_id) is Some && hold_count(
                t,
                now,
                sender_pattern(order_id)->0,
                order_id,
            ) >= max_live_holds_per_buyer;
            let fits = {
                &&& sum_of(t, rs, now, Some(order_id), |h: Holding| stated(h.cpu))
                    + req.resources.cpu <= budget.cpu
                &&& sum_of(t, rs, now, Some(order_id), |h: Holding| stated(h.mem_mb))
                    + req.resources.mem_mb <= budget.mem_mb
                &&& sum_of(t, rs, now, Some(order_id), |h: Holding| stated(h.disk_gb))
                    + req.resources.disk_gb <= budget.disk_gb
                &&& sum_of(t, rs, now, Some(order_id), |h: Holding| stated(h.ports)) + req.ports
                    <= budget.ports
            };
            let taken = k == rs.len() && exists|i: int|
                0 <= i < rs.len() && (#[trigger] rs[i]).id@ == reservation_id && rs[i].order_id@
                    != order_id;
            let sound = usage_is_sound(t, now, order_id);
            &&& v is Consumed <==> k < rs.len() && rs[k].state == HoldState::Consumed
            &&& v is Released <==> k < rs.len() && rs[k].state == HoldState::Released
            &&& v is SenderFull <==> !settled && crowded
            &&& v is OutOfRange <==> !settled && !crowded && !sound
            &&& v is HostFull <==> !settled && !crowded && sound && !fits
            &&& v is IdTaken <==> !settled && !crowded && sound && fits && taken
            &&& v is Hold <==> !settled && !crowded && sound && fits && !taken
        }),
{
    let rs = t.reservations@;
    let p = of_order(order_id);
    lemma_first_where_at(rs, p, k);
    usage_is_the_sum_of_each_figure(t, rs, now, order_id);
    let q = |r: Reservation| r.id@ == reservation_id && r.order_id@ != order_id;
    if any(rs, q) {
        let i = choose|i: int| 0 <= i < rs.len() && q(#[trigger] rs[i]);
        assert(rs[i].id@ == reservation_id);
    }
    assert forall|i: int|
        0 <= i < rs.len() && (#[trigger] rs[i]).id@ == reservation_id && rs[i].order_id@
            != order_id implies any(rs, q) by {
        assert(q(rs[i]));
    }
}

/// A usage that a host can have is made of numbers alone, and each of its sums is from zero to the
/// largest number of 32 bits. Where every live reservation takes numbers from zero on, and each sum is
/// at most that number, the usage is one that a host can have.
pub proof fn usage_of_a_host_is_made_of_numbers(t: Tables, now: i64, exclude: Seq<char>, i: int)
    ensures
        ({
            let rs = t.reservations@;
            let cpu = sum_of(t, rs, now, Some(exclude), |h: Holding| stated(h.cpu));
            let mem_mb = sum_of(t, rs, now, Some(exclude), |h: Holding| stated(h.mem_mb));
            let disk_gb = sum_of(t, rs, now, Some(exclude), |h: Holding| stated(h.disk_gb));
            let ports = sum_of(t, rs, now, Some(exclude), |h: Holding| stated(h.ports));
            &&& usage_is_sound(t, now, exclude) ==> {
                &&& 0 <= cpu <= 4294967295 && 0 <= mem_mb <= 4294967295
                &&& 0 <= disk_gb <= 4294967295 && 0 <= ports <= 4294967295
                &&& 0 <= i < rs.len() && live(t, rs[i], now) && rs[i].order_id@ != exclude ==> {
                    &&& rs[i].holding.cpu is Number && rs[i].holding.mem_mb is Number
                    &&& rs[i].holding.disk_gb is Number && rs[i].holding.ports is Number
                }
            }
            &&& cpu <= 4294967295 && mem_mb <= 4294967295 && disk_gb <= 4294967295 && ports
                <= 4294967295 && (forall|k: int|
                0 <= k < rs.len() && live(t, rs[k], now) && rs[k].order_id@ != exclude ==> {
                    &&& (#[trigger] rs[k]).holding.cpu is Number && rs[k].holding.cpu->0 >= 0
                    &&& rs[k].holding.mem_mb is Number && rs[k].holding.mem_mb->0 >= 0
                    &&& rs[k].holding.disk_gb is Number && rs[k].holding.disk_gb->0 >= 0
                    &&& rs[k].holding.ports is Number && rs[k].holding.ports->0 >= 0
                }) ==> usage_is_sound(t, now, exclude)
        }),
{
    let rs = t.reservations@;
    usage_is_the_sum_of_each_figure(t, rs, now, exclude);
    if can_be_summed(t, rs, now, exclude) {
        lemma_summed_is_numbers(t, rs, now, exclude, i);
    }
    if forall|k: int|
        0 <= k < rs.len() && live(t, rs[k], now) && rs[k].order_id@ != exclude ==> {
            &&& (#[trigger] rs[k]).holding.cpu is Number && rs[k].holding.cpu->0 >= 0
            &&& rs[k].holding.mem_mb is Number && rs[k].holding.mem_mb->0 >= 0
            &&& rs[k].holding.disk_gb is Number && rs[k].holding.disk_gb->0 >= 0
            &&& rs[k].holding.ports is Number && rs[k].holding.ports->0 >= 0
        } {
        assert forall|k: int|
            0 <= k < rs.len() && live(t, #[trigger] rs[k], now) && rs[k].order_id@
                != exclude implies all_numbers(rs[k].holding) && none_negative(rs[k].holding) by {}
        if usage_of(t, rs, now, exclude).cpu <= u32::MAX && usage_of(t, rs, now, exclude).mem_mb
            <= u32::MAX && usage_of(t, rs, now, exclude).disk_gb <= u32::MAX && usage_of(
            t,
            rs,
            now,
            exclude,
        ).ports <= u32::MAX {
            lemma_numbers_can_be_summed(t, rs, now, exclude);
        }
    }
}

proof fn lemma_summed_is_numbers(
    t: Tables,
    rs: Seq<Reservation>,
    now: i64,
    exclude: Seq<char>,
    i: int,
)
    requires
        can_be_summed(t, rs, now, exclude),
    ensures
        0 <= i < rs.len() && live(t, rs[i], now) && rs[i].order_id@ != exclude ==> all_numbers(
            rs[i].holding,
        ),
    decreases rs.len(),
{
    if rs.len() > 0 {
        lemma_summed_is_numbers(t, rs.drop_last(), now, exclude, i);
        if 0 <= i < rs.len() - 1 {
            assert(rs.drop_last()[i] == rs[i]);
        }
    }
}

proof fn lemma_numbers_can_be_summed(t: Tables, rs: Seq<Reservation>, now: i64, exclude: Seq<char>)
    requires
        usage_of(t, rs, now, exclude).cpu <= u32::MAX,
        usage_of(t, rs, now, exclude).mem_mb <= u32::MAX,
        usage_of(t, rs, now, exclude).disk_gb <= u32::MAX,
        usage_of(t, rs, now, exclude).ports <= u32::MAX,
        forall|k: int|
            0 <= k < rs.len() && live(t, #[trigger] rs[k], now) && rs[k].order_id@ != exclude
                ==> all_numbers(rs[k].holding) && none_negative(rs[k].holding),
    ensures
        can_be_summed(t, rs, now, exclude),
        usage_of(t, rs, now, exclude).in_range(),
    decreases rs.len(),
{
    if rs.len() > 0 {
        let init = rs.drop_last();
        assert(rs.last() == rs[rs.len() - 1]);
        assert forall|k: int|
            0 <= k < init.len() && live(t, #[trigger] init[k], now) && init[k].order_id@
                != exclude implies all_numbers(init[k].holding) && none_negative(
            init[k].holding,
        ) by {
            assert(init[k] == rs[k]);
        }
        lemma_numbers_can_be_summed(t, init, now, exclude);
    }
}

/// A hold is stored as it was asked for. The order's row takes the four figures of the request and runs
/// out at the given time; a new row comes behind the others, with its id and order, held since now. One
/// event says so, and no other table changes.
pub proof fn made_hold_is_what_was_asked_for(
    old: Tables,
    new: Tables,
    reservation_id: Seq<char>,
    order_id: Seq<char>,
    req: Request,
    expires_at: i64,
    now: i64,
    k: int,
)
    requires
        held(old, new, reservation_id, order_id, req, expires_at, now),
        forall|i: int|
            0 <= i < k && i < old.reservations@.len() ==> (#[trigger] old.reservations@[i]).order_id@
                != order_id,
        0 <= k <= old.reservations@.len(),
        k < old.reservations@.len() ==> old.reservations@[k].order_id@ == order_id,
    ensures
        ({
            let r = new.reservations@[k];
            &&& r.order_id@ == order_id
            &&& r.holding.cpu is Number && r.holding.cpu->0 == req.resources.cpu
            &&& r.holding.mem_mb is Number && r.holding.mem_mb->0 == req.resources.mem_mb
            &&& r.holding.disk_gb is Number && r.holding.disk_gb->0 == req.resources.disk_gb
            &&& r.holding.ports is Number && r.holding.ports->0 == req.ports
            &&& r.expires_at == Some(expires_at)
            &&& k < old.reservations@.len() ==> {
                &&& new.reservations@.len() == old.reservations@.len()
                &&& r.id == old.reservations@[k].id
                &&& r.state == old.reservations@[k].state
                &&& r.created_at == old.reservations@[k].created_at
            }
            &&& k == old.reservations@.len() ==> {
                &&& new.reservations@.len() == old.reservations@.len() + 1
                &&& r.id@ == reservation_id
                &&& r.state == HoldState::Held
                &&& r.created_at == Some(now)
            }
        }),
        forall|i: int|
            0 <= i < old.reservations@.len() && i != k ==> #[trigger] new.reservations@[i]
                == old.reservations@[i],
        new.events@.len() == old.events@.len() + 1,
        new.events@.last().kind == EventKind::Reserve,
        new.events@.last().at == Some(now),
        new.events@.last().subscription_id matches Some(s) && s@ == order_id,
        new.events@.last().detail == EventDetail::Resources(req.resources),
        new.subscriptions == old.subscriptions,
        new.invoices == old.invoices,
        new.refunds == old.refunds,
        new.outbox == old.outbox,
{
    lemma_first_where_at(old.reservations@, of_order(order_id), k);
}

/// Releasing an order, row by row: what the order holds or has consumed is released, and every other
/// reservation is as it was. There is one event that says so where there was something to release, and
/// nothing changes where there was not.
pub proof fn released_order_row_by_row(
    old: Tables,
    new: Tables,
    order_id: Seq<char>,
    now: i64,
    i: int,
)
    requires
        released(old, new, order_id, now),
        0 <= i < old.reservations@.len(),
    ensures
        new.reservations@.len() == old.reservations@.len(),
        ({
            let r = old.reservations@[i];
            let frees = r.order_id@ == order_id && (r.state == HoldState::Held || r.state
                == HoldState::Consumed);
            &&& new.reservations@[i] == if frees {
                Reservation { state: HoldState::Released, ..r }
            } else {
                r
            }
            &&& frees ==> {
                &&& new.events@.len() == old.events@.len() + 1
                &&& new.events@.last().kind == EventKind::ReserveRelease
                &&& new.events@.last().at == Some(now)
                &&& new.events@.last().subscription_id is Some
                &&& new.events@.last().subscription_id->0@ == order_id
                &&& new.events@.last().detail is Empty
            }
        }),
        (forall|k: int|
            0 <= k < old.reservations@.len() ==> (#[trigger] old.reservations@[k]).order_id@
                != order_id || (old.reservations@[k].state != HoldState::Held
                && old.reservations@[k].state != HoldState::Consumed)) ==> new == old,
        new.subscriptions == old.subscriptions,
        new.invoices == old.invoices,
        new.refunds == old.refunds,
        new.outbox == old.outbox,
{
    let rs = old.reservations@;
    if is_hold_of(rs[i], order_id, HoldState::Held, HoldState::Consumed) {
        lemma_hold_is_counted(rs, order_id, HoldState::Held, HoldState::Consumed, i);
    }
    if forall|k: int|
        0 <= k < rs.len() ==> (#[trigger] rs[k]).order_id@ != order_id || (rs[k].state
            != HoldState::Held && rs[k].state != HoldState::Consumed) {
        lemma_no_hold_is_counted(rs, order_id, HoldState::Held, HoldState::Consumed);
    }
}

proof fn lemma_no_hold_is_counted(
    rs: Seq<Reservation>,
    order_id: Seq<char>,
    a: HoldState,
    b: HoldState,
)
    requires
        forall|k: int|
            0 <= k < rs.len() ==> (#[trigger] rs[k]).order_id@ != order_id || (rs[k].state != a
                && rs[k].state != b),
    ensures
        holds_of(rs, order_id, a, b) == 0,
    decreases rs.len(),
{
    reveal(Seq::filter);
    if rs.len() > 0 {
        let init = rs.drop_last();
        assert forall|k: int| 0 <= k < init.len() implies (#[trigger] init[k]).order_id@ != order_id
            || (init[k].state != a && init[k].state != b) by {
            assert(init[k] == rs[k]);
        }
        lemma_no_hold_is_counted(init, order_id, a, b);
        assert(!is_hold_of(rs[rs.len() - 1], order_id, a, b));
    }
}

/// An order id of two parts and a tail, with a colon behind each part, is of the sender whose ids begin
/// with those two parts; an id without two colons is of no sender.
pub proof fn sender_is_the_first_two_parts(a: Seq<char>, b: Seq<char>, tail: Seq<char>)
    requires
        !a.contains(':'),
        !b.contains(':'),
    ensures
        sender_pattern(a + seq![':'] + b + seq![':'] + tail) == Some(
            a + seq![':'] + b + seq![':', '%'],
        ),
        sender_pattern(a + seq![':'] + b) is None,
        sender_pattern(a) is None,
{
    reveal_strlit("%");
    let n = a.len() as int;
    let m = b.len() as int;
    assert forall|i: int| 0 <= i < n implies a[i] != ':' by {
        assert(a.contains(a[i]));
    }
    assert forall|i: int| 0 <= i < m implies b[i] != ':' by {
        assert(b.contains(b[i]));
    }
    let full = a + seq![':'] + b + seq![':'] + tail;
    assert(full[n] == ':');
    lemma_first_of_at(full, ':', n);
    let rest = full.skip(n + 1);
    assert(rest =~= b + seq![':'] + tail);
    assert(rest[m] == ':');
    lemma_first_of_at(rest, ':', m);
    assert(full.take(n + 1 + m + 1) + "%"@ =~= a + seq![':'] + b + seq![':', '%']);
    let two = a + seq![':'] + b;
    assert(two[n] == ':');
    lemma_first_of_at(two, ':', n);
    assert(two.skip(n + 1) =~= b);
    lemma_first_of_at(b, ':', m);
    lemma_first_of_at(a, ':', n);
}

/// The holds of a sender are counted one by one: those that are held and live, of an order id that the
/// pattern matches, and not of the order that is left out.
pub proof fn holds_are_counted_one_by_one(
    t: Tables,
    now: i64,
    pattern: Seq<char>,
    exclude: Seq<char>,
)
    ensures
        hold_count(t, now, pattern, exclude) == t.reservations@.fold_left(
            0int,
            |n: int, r: Reservation|
                if r.state == HoldState::Held && live(t, r, now) && like(pattern, r.order_id@)
                    && r.order_id@ != exclude {
                    n + 1
                } else {
                    n
                },
        ),
{
    lemma_count_is_fold(t, t.reservations@, now, pattern, exclude);
}

proof fn lemma_count_is_fold(
    t: Tables,
    rs: Seq<Reservation>,
    now: i64,
    pattern: Seq<char>,
    exclude: Seq<char>,
)
    ensures
        rs.filter(|r: Reservation| counted_hold(t, r, now, pattern, exclude)).len() == rs.fold_left(
            0int,
            |n: int, r: Reservation|
                if r.state == HoldState::Held && live(t, r, now) && like(pattern, r.order_id@)
                    && r.order_id@ != exclude {
                    n + 1
                } else {
                    n
                },
        ),
    decreases rs.len(),
{
    reveal(Seq::filter);
    reveal_with_fuel(Seq::fold_left, 2);
    if rs.len() > 0 {
        lemma_count_is_fold(t, rs.drop_last(), now, pattern, exclude);
    }
}

/// The types that a parameter can be declared with, name by name; a value of any other type is taken.
pub proof fn parameter_types_by_name(v: JsonValue, ty: Seq<char>)
    ensures
        has_type("string"@, v) <==> v is Text,
        has_type("number"@, v) <==> v is Number,
        has_type("int"@, v) <==> v is Number,
        has_type("integer"@, v) <==> v is Number,
        has_type("bool"@, v) <==> v is Bool,
        has_type("boolean"@, v) <==> v is Bool,
        ty != "string"@ && ty != "number"@ && ty != "int"@ && ty != "integer"@ && ty != "bool"@ && ty
            != "boolean"@ ==> has_type(ty, v),
{
    reveal_strlit("string");
    reveal_strlit("number");
    reveal_strlit("int");
    reveal_strlit("integer");
    reveal_strlit("bool");
    reveal_strlit("boolean");
    assert("string"@[0] == 's');
    assert("number"@[0] == 'n');
    assert("int"@.len() == 3 && "int"@[0] == 'i');
    assert("integer"@.len() == 7 && "integer"@[0] == 'i');
    assert("bool"@[0] == 'b' && "bool"@.len() == 4);
    assert("boolean"@[0] == 'b');
}

/// A declared parameter is at fault exactly where it is required and missing, or is there and has not
/// its declared type; of members with the same key the first one counts.
pub proof fn parameter_is_missing_or_mistyped(spec: ParamSpec, params: Seq<JsonMember>, k: int)
    requires
        0 <= k <= params.len(),
        forall|i: int| 0 <= i < k ==> (#[trigger] params[i]).key@ != spec.key@,
        k < params.len() ==> params[k].key@ == spec.key@,
    ensures
        k == params.len() ==> (param_fault(spec, params) is Some <==> spec.required),
        k < params.len() ==> (param_fault(spec, params) is None <==> has_type(
            spec.ty@,
            params[k].value,
        )),
{
    lemma_first_where_at(params, |m: JsonMember| m.key@ == spec.key@, k);
}

/// What an attempt to reserve answers. It is reserved where a hold was made or the order's was already
/// consumed; a sender or a host that is full is a normal answer; a released order, a usage that no host
/// can have and an id that is taken are errors. Nothing changes unless a hold was made.
pub proof fn attempt_is_answered_as_decided(
    v: Verdict,
    old: Tables,
    new: Tables,
    reservation_id: Seq<char>,
    order_id: Seq<char>,
    req: Request,
    expires_at: i64,
    now: i64,
    r: Result<Reserve, ReserveError>,
)
    requires
        is_answer(v, old, new, reservation_id, order_id, req, expires_at, now, r),
    ensures
        r == Ok::<Reserve, ReserveError>(Reserve::Reserved) <==> v is Hold || v is Consumed,
        r == Ok::<Reserve, ReserveError>(Reserve::CapacityFull) <==> v is SenderFull || v is HostFull,
        r is Err <==> v is Released || v is OutOfRange || v is IdTaken,
        (r matches Err(ReserveError::AlreadyReleased { .. })) <==> v is Released,
        (r matches Err(ReserveError::UsageOutOfRange)) <==> v is OutOfRange,
        (r matches Err(ReserveError::IdTaken { .. })) <==> v is IdTaken,
        !(v is Hold) ==> new == old,
        v is Hold ==> held(old, new, reservation_id, order_id, req, expires_at, now),
{
}

/// Consuming, row by row: where exactly one reservation of the order is held, that one is consumed and
/// every other reservation is as it was, and one event says so; where there is none, or more than one,
/// nothing changes and their number is reported.
pub proof fn only_the_one_held_reservation_is_consumed(
    old: Tables,
    new: Tables,
    order_id: Seq<char>,
    now: i64,
    r: Result<(), NoHeldReservation>,
    i: int,
)
    requires
        consumed(old, new, order_id, now, r),
        0 <= i < old.reservations@.len(),
    ensures
        ({
            let x = old.reservations@[i];
            let mine = x.order_id@ == order_id && x.state == HoldState::Held;
            &&& r is Ok ==> {
                &&& new.reservations@.len() == old.reservations@.len()
                &&& new.reservations@[i] == if mine {
                    Reservation { state: HoldState::Consumed, ..x }
                } else {
                    x
                }
                &&& new.events@.len() == old.events@.len() + 1
                &&& new.events@.last().kind == EventKind::ReserveConsume
                &&& new.events@.last().at == Some(now)
                &&& new.events@.last().subscription_id is Some
                &&& new.events@.last().subscription_id->0@ == order_id
            }
            &&& r is Err ==> new == old
            &&& r matches Err(e) ==> e.affected != 1 && (mine ==> e.affected > 1)
            &&& (forall|k: int|
                0 <= k < old.reservations@.len() ==> (#[trigger] old.reservations@[k]).order_id@
                    != order_id || old.reservations@[k].state != HoldState::Held) ==> (r
                matches Err(e) && e.affected == 0)
        }),
        new.subscriptions == old.subscriptions,
        new.refunds == old.refunds,
        new.invoices == old.invoices,
        new.outbox == old.outbox,
{
    let rs = old.reservations@;
    if is_hold_of(rs[i], order_id, HoldState::Held, HoldState::Held) {
        lemma_hold_is_counted(rs, order_id, HoldState::Held, HoldState::Held, i);
    }
    if forall|k: int|
        0 <= k < rs.len() ==> (#[trigger] rs[k]).order_id@ != order_id || rs[k].state
            != HoldState::Held {
        lemma_no_hold_is_counted(rs, order_id, HoldState::Held, HoldState::Held);
    }
}

/// Usage is summed one reservation after the other: another one can be summed exactly where those before
/// it could, and where it counts each of its figures is a number and each sum with it is one of 64 bits.
pub proof fn usage_is_summed_within_64_bits(
    t: Tables,
    rs: Seq<Reservation>,
    r: Reservation,
    now: i64,
    exclude: Seq<char>,
)
    ensures
        ({
            let u = usage_of(t, rs, now, exclude);
            let h = r.holding;
            let counts = live(t, r, now) && r.order_id@ != exclude;
            let in_64 = |n: int| -0x8000_0000_0000_0000 <= n <= 0x7fff_ffff_ffff_ffff;
            can_be_summed(t, rs.push(r), now, exclude) <==> can_be_summed(t, rs, now, exclude) && (
            counts ==> {
                &&& h.cpu is Number && in_64(u.cpu + h.cpu->0)
                &&& h.mem_mb is Number && in_64(u.mem_mb + h.mem_mb->0)
                &&& h.disk_gb is Number && in_64(u.disk_gb + h.disk_gb->0)
                &&& h.ports is Number && in_64(u.ports + h.ports->0)
            })
        }),
        can_be_summed(t, Seq::empty(), now, exclude),
{
    assert(rs.push(r).drop_last() =~= rs);
}

} // verus!
