use lnrentd::outside::{JsonMember, JsonValue};
use lnrentd::reservation::{
    consume_txn, live_hold_count, live_usage, release_txn, reserve, sender_like_pattern,
    validate_params, Budget, ParamSpec, Request, Reserve, ReserveError,
};
use lnrentd::tables::{
    Count, EventKind, HoldState, Holding, Invoice, InvoiceKind, InvoiceStatus, Reservation,
    Resources, SubState, Subscription, Tables,
};

fn budget_one() -> Budget {
    Budget {
        cpu: 1,
        mem_mb: 1024,
        disk_gb: 20,
        ports: 1,
    }
}

fn req_one() -> Request {
    Request {
        resources: Resources {
            cpu: 1,
            mem_mb: 1024,
            disk_gb: 20,
        },
        ports: 1,
    }
}

fn hold(t: &mut Tables, rid: &str, oid: &str, expires_at: i64, now: i64) -> Reserve {
    reserve(t, rid, oid, req_one(), budget_one(), expires_at, now, u32::MAX).unwrap()
}

fn state(t: &Tables, oid: &str) -> HoldState {
    t.reservations.iter().find(|r| r.order_id == oid).unwrap().state
}

fn provisioning(t: &mut Tables, oid: &str) {
    t.subscriptions.push(Subscription {
        id: oid.into(),
        recipe_id: None,
        instance_id: None,
        buyer_pubkey: None,
        state: SubState::Provisioning,
        refund_dest: None,
        renew_lead_s: None,
        retention_s: None,
        paid_through: None,
        soft_date: None,
        next_deadline: None,
        suspend_not_before: None,
        updated_at: None,
    });
}

fn paid(t: &mut Tables, oid: &str) {
    t.invoices.push(Invoice {
        id: "i1".into(),
        subscription_id: Some(oid.into()),
        external_id: format!("order:{oid}"),
        kind: InvoiceKind::Order,
        amount_sat: None,
        status: InvoiceStatus::Paid,
        expires_at: None,
        applied_at: None,
        issued_at: None,
        settled_at: None,
    });
}

#[test]
fn concurrent_orders_race_one_slot_no_toctou() {
    let mut t = Tables::empty();
    let a = hold(&mut t, "res-a", "order-a", 1_000, 0);
    let b = hold(&mut t, "res-b", "order-b", 1_000, 0);
    assert_ne!(a, b, "the two orders must get different outcomes");
    let held = t.reservations.iter().filter(|r| r.state == HoldState::Held).count();
    assert_eq!(held, 1, "exactly one reservation is HELD");
}

#[test]
fn reserve_consume_release_lifecycle() {
    let mut t = Tables::empty();
    assert_eq!(hold(&mut t, "r1", "o1", 1_000, 0), Reserve::Reserved);
    assert_eq!(state(&t, "o1"), HoldState::Held);
    consume_txn(&mut t, "o1", 1).unwrap();
    assert_eq!(state(&t, "o1"), HoldState::Consumed);
    assert!(release_txn(&mut t, "o1", 2), "released a live reservation");
    assert_eq!(state(&t, "o1"), HoldState::Released);
    assert!(!release_txn(&mut t, "o1", 3));
    let kinds: Vec<EventKind> = t.events.iter().map(|e| e.kind).collect();
    assert_eq!(
        kinds,
        vec![EventKind::Reserve, EventKind::ReserveConsume, EventKind::ReserveRelease]
    );
    assert_eq!(t.events[2].subscription_id.as_deref(), Some("o1"));
    assert_eq!((t.events[2].id, t.events[2].at, t.next_event_id), (3, Some(2), 4));
}

#[test]
fn consume_requires_a_held_reservation() {
    let mut t = Tables::empty();
    hold(&mut t, "r1", "o1", 1_000, 0);
    let e = consume_txn(&mut t, "nope", 1).unwrap_err();
    assert_eq!(
        e.message(),
        "consume: no HELD reservation for order `nope` (affected 0)"
    );
    consume_txn(&mut t, "o1", 1).unwrap();
    assert!(
        consume_txn(&mut t, "o1", 2).is_err(),
        "already CONSUMED -> error, not silent"
    );
}

#[test]
fn consume_honors_a_paid_hold_past_its_ttl() {
    let mut t = Tables::empty();
    hold(&mut t, "r1", "o1", 100, 0);
    consume_txn(&mut t, "o1", 101).unwrap();
    assert_eq!(state(&t, "o1"), HoldState::Consumed);
}

#[test]
fn reserve_is_idempotent_when_order_already_fills_the_host() {
    let mut t = Tables::empty();
    assert_eq!(hold(&mut t, "r1", "o1", 1_000, 0), Reserve::Reserved);
    assert_eq!(hold(&mut t, "r1", "o1", 2_000, 10), Reserve::Reserved);
    assert_eq!(t.reservations.len(), 1);
    assert_eq!(
        t.reservations[0].expires_at,
        Some(2_000),
        "the HELD retry refreshed the TTL"
    );
    assert_eq!(t.reservations[0].created_at, Some(0));
}

#[test]
fn reserve_never_resurrects_consumed_or_released() {
    let mut t = Tables::empty();
    hold(&mut t, "r1", "o1", 1_000, 0);
    consume_txn(&mut t, "o1", 1).unwrap();
    assert_eq!(hold(&mut t, "r1", "o1", 2_000, 2), Reserve::Reserved);
    assert_eq!(
        state(&t, "o1"),
        HoldState::Consumed,
        "re-reserve must not downgrade CONSUMED to HELD"
    );
    release_txn(&mut t, "o1", 3);
    let e = reserve(&mut t, "r1", "o1", req_one(), budget_one(), 4_000, 4, u32::MAX).unwrap_err();
    assert_eq!(
        e.message(),
        "reserve: order `o1` reservation is already RELEASED"
    );
    assert_eq!(
        state(&t, "o1"),
        HoldState::Released,
        "the terminal reservation is untouched"
    );
}

#[test]
fn expired_held_reservation_frees_the_slot() {
    let mut t = Tables::empty();
    assert_eq!(hold(&mut t, "r1", "o1", 100, 0), Reserve::Reserved);
    assert_eq!(hold(&mut t, "r2", "o2", 200, 50), Reserve::CapacityFull);
    assert_eq!(hold(&mut t, "r3", "o3", 300, 150), Reserve::Reserved);
}

#[test]
fn hold_runs_out_at_its_time_and_not_before() {
    let mut t = Tables::empty();
    hold(&mut t, "r1", "o1", 100, 0);
    assert_eq!(live_usage(&t, 99, "").unwrap().cpu, 1);
    assert_eq!(live_usage(&t, 100, "").unwrap().cpu, 0);
    let u = live_usage(&t, 99, "").unwrap();
    assert_eq!((u.mem_mb, u.disk_gb, u.ports), (1024, 20, 1));
    assert_eq!(live_usage(&t, 99, "o1").unwrap().cpu, 0);
}

#[test]
fn paid_held_reservation_counts_even_after_ttl() {
    let mut t = Tables::empty();
    assert_eq!(hold(&mut t, "r1", "o1", 100, 0), Reserve::Reserved);
    provisioning(&mut t, "o1");
    paid(&mut t, "o1");
    assert_eq!(
        hold(&mut t, "r2", "o2", 300, 150),
        Reserve::CapacityFull,
        "a paid order keeps its HELD capacity while provisioning catches up"
    );
    // Either of the two is enough.
    t.subscriptions.clear();
    assert_eq!(hold(&mut t, "r2", "o2", 300, 150), Reserve::CapacityFull);
    t.invoices.clear();
    provisioning(&mut t, "o1");
    assert_eq!(hold(&mut t, "r2", "o2", 300, 150), Reserve::CapacityFull);
    t.subscriptions.clear();
    assert_eq!(hold(&mut t, "r2", "o2", 300, 150), Reserve::Reserved);
}

#[test]
fn each_kind_of_capacity_is_bounded() {
    for req in [
        Request { resources: Resources { cpu: 2, mem_mb: 0, disk_gb: 0 }, ports: 0 },
        Request { resources: Resources { cpu: 0, mem_mb: 1025, disk_gb: 0 }, ports: 0 },
        Request { resources: Resources { cpu: 0, mem_mb: 0, disk_gb: 21 }, ports: 0 },
        Request { resources: Resources { cpu: 0, mem_mb: 0, disk_gb: 0 }, ports: 2 },
    ] {
        let mut t = Tables::empty();
        let r = reserve(&mut t, "r", "o", req, budget_one(), 9, 0, 9).unwrap();
        assert_eq!(r, Reserve::CapacityFull);
        assert!(t.reservations.is_empty() && t.events.is_empty());
    }
    let mut t = Tables::empty();
    let r = reserve(&mut t, "r", "o", Request::default(), budget_one(), 9, 0, 9).unwrap();
    assert_eq!(r, Reserve::Reserved);
}

#[test]
fn reservation_id_of_another_order_is_refused() {
    let mut t = Tables::empty();
    reserve(&mut t, "r1", "o1", Request::default(), budget_one(), 9, 0, 9).unwrap();
    match reserve(&mut t, "r1", "o2", Request::default(), budget_one(), 9, 0, 9) {
        Err(ReserveError::IdTaken { reservation_id }) => assert_eq!(reservation_id, "r1"),
        other => panic!("{other:?}"),
    }
    assert_eq!(t.reservations.len(), 1);
}

#[test]
fn held_order_is_held_anew_whatever_id_is_passed() {
    let mut t = Tables::empty();
    reserve(&mut t, "r1", "o1", Request::default(), budget_one(), 9, 0, 9).unwrap();
    reserve(&mut t, "r2", "o2", Request::default(), budget_one(), 9, 0, 9).unwrap();
    let req = Request { resources: Resources { cpu: 1, mem_mb: 2, disk_gb: 3 }, ports: 1 };
    let r = reserve(&mut t, "r1", "o2", req, budget_one(), 50, 5, 9).unwrap();
    assert_eq!(r, Reserve::Reserved);
    assert_eq!(t.reservations.len(), 2);
    let held = &t.reservations[1];
    assert_eq!((held.id.as_str(), held.order_id.as_str()), ("r2", "o2"));
    assert_eq!((held.state, held.expires_at), (HoldState::Held, Some(50)));
    assert_eq!(held.holding, holding(1, 2, 3, 1));
}

#[test]
fn usage_beyond_a_host_is_an_error() {
    let mut t = Tables::empty();
    let big = Request { resources: Resources { cpu: u32::MAX, mem_mb: 0, disk_gb: 0 }, ports: 0 };
    let all = Budget { cpu: u32::MAX, mem_mb: 1, disk_gb: 1, ports: 1 };
    reserve(&mut t, "r1", "o1", big, all, 9, 0, 9).unwrap();
    let mut second = t.reservations[0].clone();
    second.id = "r2".into();
    second.order_id = "o2".into();
    t.reservations.push(second);
    let e = reserve(&mut t, "r3", "o3", Request::default(), all, 9, 0, 9).unwrap_err();
    assert_eq!(e.message(), "reserve: stored usage is out of range");
}

fn param(key: &str, ty: &str, required: bool) -> ParamSpec {
    ParamSpec { key: key.into(), ty: ty.into(), required }
}

fn member(key: &str, value: JsonValue) -> JsonMember {
    JsonMember { key: key.into(), value }
}

#[test]
fn params_validated_against_manifest() {
    // The wireguard recipe requires a `pubkey` string param.
    let specs = vec![param("pubkey", "string", true)];
    let ok = vec![member("pubkey", JsonValue::Text("abc".into()))];
    validate_params(&specs, &ok).expect("valid params accepted");

    assert_eq!(
        validate_params(&specs, &vec![]).unwrap_err(),
        "missing required param `pubkey`",
    );

    let number = JsonValue::Number { unsigned: Some(123), signed: Some(123) };
    assert_eq!(
        validate_params(&specs, &vec![member("pubkey", number)]).unwrap_err(),
        "param `pubkey` has the wrong type (expected string)",
    );
}

#[test]
fn params_of_every_type() {
    let number = JsonValue::Number { unsigned: None, signed: None };
    for ty in ["number", "int", "integer"] {
        let s = vec![param("n", ty, false)];
        assert!(validate_params(&s, &vec![member("n", number.clone())]).is_ok());
        assert!(validate_params(&s, &vec![member("n", JsonValue::Bool(true))]).is_err());
    }
    for ty in ["bool", "boolean"] {
        let s = vec![param("b", ty, false)];
        assert!(validate_params(&s, &vec![member("b", JsonValue::Bool(false))]).is_ok());
        assert!(validate_params(&s, &vec![member("b", JsonValue::Null)]).is_err());
    }
    assert!(validate_params(&vec![param("x", "color", true)], &vec![member("x", JsonValue::Array)]).is_ok());
    assert!(validate_params(&vec![param("x", "string", false)], &vec![]).is_ok());
}

// ---- the cap on one sender's holds ------------------------------------------

fn budget_big() -> Budget {
    Budget {
        cpu: 1000,
        mem_mb: 1_000_000,
        disk_gb: 1_000_000,
        ports: 1000,
    }
}

fn reserve_order(
    t: &mut Tables,
    sender: &str,
    tail: &str,
    expires_at: i64,
    now: i64,
    cap: u32,
) -> Reserve {
    reserve(
        t,
        &format!("res:{sender}:{tail}"),
        &format!("ord:{sender}:{tail}"),
        req_one(),
        budget_big(),
        expires_at,
        now,
        cap,
    )
    .unwrap()
}

#[test]
fn per_buyer_cap_blocks_nth_hold_only() {
    let mut t = Tables::empty();
    let cap = 2;
    assert_eq!(reserve_order(&mut t, "aaa", "1", 10_000, 0, cap), Reserve::Reserved);
    assert_eq!(reserve_order(&mut t, "aaa", "2", 10_000, 0, cap), Reserve::Reserved);
    assert_eq!(reserve_order(&mut t, "aaa", "3", 10_000, 0, cap), Reserve::CapacityFull);
    assert_eq!(reserve_order(&mut t, "bbb", "1", 10_000, 0, cap), Reserve::Reserved);
    assert_eq!(reserve_order(&mut t, "bbb", "2", 10_000, 0, cap), Reserve::Reserved);
}

#[test]
fn per_buyer_cap_zero_refuses_all_orders() {
    let mut t = Tables::empty();
    assert_eq!(reserve_order(&mut t, "aaa", "1", 10_000, 0, 0), Reserve::CapacityFull);
}

#[test]
fn per_buyer_cap_excludes_self_on_re_reserve() {
    let mut t = Tables::empty();
    let cap = 1;
    assert_eq!(reserve_order(&mut t, "aaa", "1", 10_000, 0, cap), Reserve::Reserved);
    assert_eq!(reserve_order(&mut t, "aaa", "1", 10_000, 0, cap), Reserve::Reserved);
    assert_eq!(reserve_order(&mut t, "aaa", "2", 10_000, 0, cap), Reserve::CapacityFull);
}

#[test]
fn per_buyer_cap_expired_unpaid_hold_frees_slot() {
    let mut t = Tables::empty();
    let cap = 1;
    assert_eq!(reserve_order(&mut t, "aaa", "1", 100, 0, cap), Reserve::Reserved);
    assert_eq!(reserve_order(&mut t, "aaa", "2", 10_000, 200, cap), Reserve::Reserved);
}

#[test]
fn per_buyer_cap_paid_or_provisioning_hold_still_counts() {
    let mut t = Tables::empty();
    let cap = 1;
    assert_eq!(reserve_order(&mut t, "aaa", "1", 100, 0, cap), Reserve::Reserved);
    provisioning(&mut t, "ord:aaa:1");
    paid(&mut t, "ord:aaa:1");
    assert_eq!(reserve_order(&mut t, "aaa", "2", 10_000, 200, cap), Reserve::CapacityFull);
}

#[test]
fn consumed_reservations_do_not_count_against_the_cap() {
    let mut t = Tables::empty();
    reserve_order(&mut t, "aaa", "1", 10_000, 0, 1);
    consume_txn(&mut t, "ord:aaa:1", 1).unwrap();
    assert_eq!(live_hold_count(&t, 2, "ord:aaa:%", ""), 0);
    assert_eq!(reserve_order(&mut t, "aaa", "2", 10_000, 2, 1), Reserve::Reserved);
    assert_eq!(live_hold_count(&t, 2, "ORD:AAA:%", ""), 1);
}

#[test]
fn hold_ttl_equals_order_invoice_expiry() {
    let mut t = Tables::empty();
    let expires_at = 987_654;
    assert_eq!(reserve_order(&mut t, "aaa", "1", expires_at, 0, 2), Reserve::Reserved);
    assert_eq!(
        t.reservations[0].expires_at,
        Some(expires_at),
        "hold TTL must equal the order-invoice expiry (no shortening -> no oversell)"
    );
}

#[test]
fn sender_pattern_needs_two_colons() {
    assert_eq!(sender_like_pattern("ord:ab:x:y").as_deref(), Some("ord:ab:%"));
    assert_eq!(sender_like_pattern("ord:ab:").as_deref(), Some("ord:ab:%"));
    assert_eq!(sender_like_pattern("ord:ab"), None);
    assert_eq!(sender_like_pattern("o1"), None);
    assert_eq!(sender_like_pattern("::").as_deref(), Some("::%"));
}

#[test]
fn release_leaves_other_orders_alone() {
    let mut t = Tables::empty();
    let half = Request::default();
    reserve(&mut t, "r1", "o1", half, budget_one(), 9, 0, 9).unwrap();
    reserve(&mut t, "r2", "o2", half, budget_one(), 9, 0, 9).unwrap();
    assert!(release_txn(&mut t, "o1", 5));
    assert_eq!(state(&t, "o2"), HoldState::Held);
    assert!(!release_txn(&mut t, "none", 5));
    assert_eq!(t.events.len(), 3);
}

fn holding(cpu: i64, mem_mb: i64, disk_gb: i64, ports: i64) -> Holding {
    Holding {
        cpu: Count::Number(cpu),
        mem_mb: Count::Number(mem_mb),
        disk_gb: Count::Number(disk_gb),
        ports: Count::Number(ports),
    }
}

fn stored(order: &str, state: HoldState, holding: Holding) -> Reservation {
    Reservation {
        id: format!("r-{order}"),
        order_id: order.into(),
        holding,
        state,
        expires_at: Some(9),
        created_at: None,
    }
}

#[test]
fn stored_counts_are_summed_as_they_are() {
    let mut t = Tables::empty();
    let one = Request { resources: Resources { cpu: 1, mem_mb: 0, disk_gb: 0 }, ports: 0 };
    t.reservations.push(stored("a", HoldState::Consumed, holding(3, 1, 0, 0)));
    t.reservations.push(stored("b", HoldState::Held, holding(-2, 0, 0, 0)));
    let u = live_usage(&t, 0, "x").unwrap();
    assert_eq!((u.cpu, u.mem_mb, u.disk_gb, u.ports), (1, 1, 0, 0));
    assert_eq!(reserve(&mut t, "r", "x", one, budget_one(), 9, 0, 9).unwrap(), Reserve::CapacityFull);
    // Only the sum has to be one that a host can have.
    t.reservations[1].holding = holding(-3, 0, 0, 0);
    assert_eq!(live_usage(&t, 0, "x").unwrap().cpu, 0);
    t.reservations[1].holding = holding(-4, 0, 0, 0);
    assert!(live_usage(&t, 0, "x").is_none());
    assert!(matches!(
        reserve(&mut t, "r", "x", one, budget_one(), 9, 0, 9),
        Err(ReserveError::UsageOutOfRange)
    ));
}

#[test]
fn odd_count_matters_only_where_it_is_counted() {
    let mut t = Tables::empty();
    let odd = Holding { mem_mb: Count::Odd, ..holding(0, 0, 0, 0) };
    t.reservations.push(stored("a", HoldState::Held, odd));
    assert!(live_usage(&t, 0, "x").is_none());
    assert!(live_usage(&t, 0, "a").is_some());
    assert!(live_usage(&t, 9, "x").is_some());
    t.reservations[0].state = HoldState::Released;
    assert!(live_usage(&t, 0, "x").is_some());
}

#[test]
fn sum_on_the_way_must_fit_as_well() {
    let mut t = Tables::empty();
    t.reservations.push(stored("a", HoldState::Consumed, holding(i64::MAX, 0, 0, 0)));
    t.reservations.push(stored("b", HoldState::Consumed, holding(1, 0, 0, 0)));
    t.reservations.push(stored("c", HoldState::Consumed, holding(-i64::MAX, 0, 0, 0)));
    assert!(live_usage(&t, 0, "x").is_none());
    t.reservations.swap(1, 2);
    assert_eq!(live_usage(&t, 0, "x").unwrap().cpu, 1);
}
