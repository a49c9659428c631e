use lnrentd::supervisor::{
    aborts_start, boot_steps, caught_settlement, duration_secs, has_boundary_in_range, leaves_work,
    listing_coordinate,
    listing_terms, load_budget_and_box, maintenance_steps, min_opt, open_settlements, parse_budget,
    record_listing_event, recovered_settled_at, restart_backoff, settlement_of, shutdown_steps, start_steps,
    supervise, supervise_inbound, upsert_listing, Backoff, BootStep, Capture, Exit, InboundDrain,
    InboundEvent, InboundStep, Intervals, MaintenanceStep, ShutdownStep, StartStep, Supervision,
    DEFAULT_DURATION_S,
};
use lnrentd::tables::{
    HostBox, Invoice, InvoiceKind, InvoiceStatus, ListingState, SubState, Subscription, Tables,
};

#[test]
fn recovered_settle_time_is_capped_to_the_binding_in_window_boundary() {
    assert_eq!(recovered_settled_at(900, Some(1000)), 900);
    assert_eq!(recovered_settled_at(1000, Some(1000)), 999);
    assert_eq!(recovered_settled_at(5000, Some(1000)), 999);
    assert_eq!(recovered_settled_at(1234, None), 1234);

    assert_eq!(min_opt(Some(5190), Some(1600)), Some(1600));
    assert_eq!(min_opt(Some(1600), None), Some(1600));
    assert_eq!(min_opt(None, Some(1600)), Some(1600));
    assert_eq!(min_opt(None, None), None);

    let cap = min_opt(Some(5190), Some(1000 + 600));
    assert_eq!(recovered_settled_at(1700, cap), 1599);
}

#[test]
fn duration_secs_parses_units_and_falls_back() {
    assert_eq!(duration_secs("30d"), 30 * 86_400);
    assert_eq!(duration_secs("7d"), 7 * 86_400);
    assert_eq!(duration_secs("12h"), 12 * 3_600);
    assert_eq!(duration_secs("90m"), 90 * 60);
    assert_eq!(duration_secs("1w"), 604_800);
    assert_eq!(duration_secs("3600"), 3_600);
    assert_eq!(duration_secs("nonsense"), DEFAULT_DURATION_S);
    assert_eq!(duration_secs(""), DEFAULT_DURATION_S);
    assert_eq!(duration_secs("0d"), DEFAULT_DURATION_S);
}

#[test]
fn duration_edges() {
    assert_eq!(duration_secs(" 5 h "), 5 * 3_600);
    assert_eq!(duration_secs("+3s"), 3);
    assert_eq!(duration_secs("-3s"), DEFAULT_DURATION_S);
    assert_eq!(duration_secs("d"), DEFAULT_DURATION_S);
    assert_eq!(duration_secs("9223372036854775807w"), i64::MAX);
    assert_eq!(duration_secs("9223372036854775808"), DEFAULT_DURATION_S);
    assert_eq!(DEFAULT_DURATION_S, 30 * 86_400);
}

#[test]
fn parse_budget_reads_capacity_or_none() {
    let b = parse_budget(r#"{"cpu":4,"mem_mb":8192,"disk_gb":100,"ports":32}"#).unwrap();
    assert_eq!(b.cpu, 4);
    assert_eq!(b.mem_mb, 8192);
    assert_eq!(b.disk_gb, 100);
    assert_eq!(b.ports, 32);
    assert_eq!(
        parse_budget(r#"{"cpu":2,"mem_mb":1,"disk_gb":1}"#)
            .unwrap()
            .ports,
        0
    );
    assert!(parse_budget(r#"{"mem_mb":1,"disk_gb":1}"#).is_none());
    assert!(parse_budget("not json").is_none());
}

#[test]
fn budget_takes_unsigned_numbers_of_an_object_only() {
    assert!(parse_budget("[4,1,1]").is_none());
    assert!(parse_budget(r#"{"cpu":-1,"mem_mb":1,"disk_gb":1}"#).is_none());
    assert!(parse_budget(r#"{"cpu":"4","mem_mb":1,"disk_gb":1}"#).is_none());
    let b = parse_budget(r#"{"cpu":4294967298,"mem_mb":1,"disk_gb":1,"ports":null}"#).unwrap();
    assert_eq!((b.cpu, b.ports), (2, 0));
}

#[test]
fn first_host_by_id_gives_the_budget() {
    let mut t = Tables::empty();
    let (b, id) = load_budget_and_box(&t);
    assert_eq!((b.cpu, b.mem_mb, b.disk_gb, b.ports, id.as_str()), (2, 2048, 50, 16, "box-0"));
    t.boxes.push(HostBox { id: "b".into(), capacity_json: None });
    t.boxes.push(HostBox {
        id: "a".into(),
        capacity_json: Some(r#"{"cpu":8,"mem_mb":1,"disk_gb":1}"#.into()),
    });
    let (b, id) = load_budget_and_box(&t);
    assert_eq!((b.cpu, id.as_str()), (8, "a"));
    t.boxes[1].capacity_json = Some("nope".into());
    let (b, id) = load_budget_and_box(&t);
    assert_eq!((b.cpu, id.as_str()), (2, "a"));
}

// ---- restarts ---------------------------------------------------------------

#[test]
fn crashing_loop_backs_off_up_to_the_cap() {
    let b = restart_backoff();
    assert_eq!((b.base, b.max), (100, 15_000));
    let mut delay = b.base;
    let mut waited = Vec::new();
    for _ in 0..10 {
        match supervise(b, delay, Exit::Panicked, false, 5) {
            Supervision::Restart { after, next_delay } => {
                waited.push(after);
                delay = next_delay;
            }
            Supervision::Stop => panic!("a crash is restarted"),
        }
    }
    assert_eq!(
        waited,
        vec![100, 200, 400, 800, 1_600, 3_200, 6_400, 12_800, 15_000, 15_000]
    );
    // A loop that ran for as long as the cap starts over.
    assert_eq!(
        supervise(b, delay, Exit::Error, false, 15_000),
        Supervision::Restart { after: 100, next_delay: 200 }
    );
    assert_eq!(
        supervise(b, 400, Exit::Clean, false, 14_999),
        Supervision::Restart { after: 400, next_delay: 800 }
    );
    assert_eq!(supervise(b, 400, Exit::Cancelled, false, 1), Supervision::Stop);
    assert_eq!(supervise(b, 400, Exit::Panicked, true, 1), Supervision::Stop);
    let huge = Backoff { base: 1, max: u64::MAX };
    assert_eq!(
        supervise(huge, u64::MAX - 1, Exit::Error, false, 0),
        Supervision::Restart { after: u64::MAX - 1, next_delay: u64::MAX }
    );
    assert_eq!(
        Intervals::production(),
        Intervals { reconcile: 60_000, maintenance: 5_000 }
    );
}

#[test]
fn inbound_is_drained_before_it_stops() {
    let b = restart_backoff();
    let ended = InboundEvent::Ended { exit: Exit::Error, ran: 1 };
    assert_eq!(supervise_inbound(b, 100, InboundEvent::Starting, false), InboundStep::Run);
    assert_eq!(
        supervise_inbound(b, 100, InboundEvent::Starting, true),
        InboundStep::DrainStopped
    );
    assert_eq!(
        supervise_inbound(b, 100, InboundEvent::ShutdownWhileRunning, true),
        InboundStep::DrainRunning
    );
    assert_eq!(
        supervise_inbound(b, 100, InboundEvent::ShutdownWhileWaiting, true),
        InboundStep::DrainStopped
    );
    assert_eq!(supervise_inbound(b, 100, ended, true), InboundStep::DrainStopped);
    assert_eq!(
        supervise_inbound(b, 100, ended, false),
        InboundStep::Restart { after: 100, next_delay: 200 }
    );
    let cancelled = InboundEvent::Ended { exit: Exit::Cancelled, ran: 1 };
    assert_eq!(supervise_inbound(b, 100, cancelled, false), InboundStep::Stop);

    let mut d = InboundDrain::new();
    d.enter();
    d.enter();
    assert_eq!(d.active_count(), 2);
    d.leave();
    assert_eq!(d.active_count(), 1);
}

#[test]
fn shutdown_drains_inbound_handler_before_final_outbox_flush() {
    let s = shutdown_steps();
    let at = |x: ShutdownStep| s.iter().position(|y| *y == x).unwrap();
    assert!(at(ShutdownStep::AwaitInbound) < at(ShutdownStep::FlushOutbox));
    assert!(at(ShutdownStep::AwaitLoops) < at(ShutdownStep::FlushOutbox));
    assert_eq!(s.last(), Some(&ShutdownStep::FlushOutbox));
}

#[test]
fn downtime_credit_precedes_settlement_catch_up_for_same_outage_renewal() {
    let s = boot_steps();
    let at = |x: BootStep| s.iter().position(|y| *y == x).unwrap();
    assert!(at(BootStep::DowntimeCredit) < at(BootStep::SettlementCatchUp));
    assert!(at(BootStep::Refund) < at(BootStep::Sweep));
    assert_eq!(s.len(), 9);

    // Paid through 1000, retention 500: the outage [950,1600] credits a floor at 1650, which makes
    // the boundary 2150. Caught up at 1600, the payment counts from 1600.
    let mut t = Tables::empty();
    t.subscriptions.push(sub("s1", 1_000, 500, Some(1_650)));
    t.invoices.push(renewal("s1", "renew:auto:s1:1000", 8_000));
    let row = open_settlements(&t).remove(0);
    assert_eq!(settlement_of(row, Ok((true, None)), 1_600).unwrap().settled_at, 1_600);
    // Without the credit it would have been dated before the end of the raw time.
    t.subscriptions[0].suspend_not_before = None;
    let row = open_settlements(&t).remove(0);
    assert_eq!(settlement_of(row, Ok((true, None)), 1_600).unwrap().settled_at, 1_499);
}

#[test]
fn nudged_maintenance_does_not_catch_up() {
    let full = maintenance_steps(true);
    let nudged = maintenance_steps(false);
    assert!(full.contains(&MaintenanceStep::SettlementCatchUp));
    assert!(!nudged.contains(&MaintenanceStep::SettlementCatchUp));
    assert_eq!(full.len(), nudged.len() + 1);
    assert_eq!(nudged[0], MaintenanceStep::SyncPaymentClock);
    assert_eq!(nudged.last(), Some(&MaintenanceStep::Outbox));
}

#[test]
fn only_the_stream_and_the_listing_stop_a_start() {
    let s = start_steps();
    let aborting: Vec<StartStep> = s.iter().copied().filter(|x| aborts_start(*x)).collect();
    assert_eq!(
        aborting,
        vec![StartStep::OpenSettlementStream, StartStep::PublishListing]
    );
    assert!(
        s.iter().position(|x| *x == StartStep::OpenSettlementStream)
            < s.iter().position(|x| *x == StartStep::RecoverFromBoot)
    );
    assert!(leaves_work(Capture::Captured) && leaves_work(Capture::Resumed));
    assert!(leaves_work(Capture::RefundDue) && !leaves_work(Capture::Settled));
}

// ---- missed settlements -----------------------------------------------------

fn sub(id: &str, paid_through: i64, retention: i64, floor: Option<i64>) -> Subscription {
    Subscription {
        id: id.into(),
        recipe_id: None,
        instance_id: None,
        buyer_pubkey: None,
        state: SubState::Suspended,
        refund_dest: None,
        renew_lead_s: None,
        retention_s: Some(retention),
        paid_through: Some(paid_through),
        soft_date: None,
        next_deadline: None,
        suspend_not_before: floor,
        updated_at: None,
    }
}

fn invoice(id: &str, sub: &str, kind: InvoiceKind, status: InvoiceStatus, expires: i64) -> Invoice {
    Invoice {
        id: id.into(),
        subscription_id: Some(sub.into()),
        external_id: format!("ext-{id}"),
        kind,
        amount_sat: Some(500),
        status,
        expires_at: Some(expires),
        applied_at: None,
        issued_at: None,
        settled_at: None,
    }
}

fn renewal(sub: &str, ext: &str, expires: i64) -> Invoice {
    Invoice {
        external_id: ext.into(),
        amount_sat: Some(1_000),
        issued_at: Some(0),
        ..invoice("inv", sub, InvoiceKind::Renewal, InvoiceStatus::Open, expires)
    }
}

#[test]
fn settlement_catch_up_caps_credited_renewal_at_effective_boundary() {
    // Paid through 1000, credited to 1300, retention 500: the boundary is 1800, not 1500.
    let mut t = Tables::empty();
    t.subscriptions.push(sub("s1", 1_000, 500, Some(1_300)));
    t.invoices.push(renewal("s1", "renew:auto:s1:1000", 8_000));
    let row = open_settlements(&t).remove(0);
    let s = settlement_of(row, Ok((true, None)), 1_600).unwrap();
    assert_eq!(s.settled_at, 1_600);
    assert_eq!(
        (s.invoice_id.as_str(), s.external_id.as_str(), s.amount_sat),
        ("inv", "renew:auto:s1:1000", 1_000)
    );
}

#[test]
fn recovered_renewal_is_dated_before_its_credited_boundary() {
    let mut t = Tables::empty();
    // Paid through 1000, credited to 1300, retention 600: the boundary is 1900, not 1600.
    t.subscriptions.push(sub("s", 1_000, 600, Some(1_300)));
    t.invoices.push(invoice("r", "s", InvoiceKind::Renewal, InvoiceStatus::Open, 9_999));
    let rows = open_settlements(&t);
    assert_eq!(rows.len(), 1);
    let s = caught_settlement(rows[0].clone(), None, 1_700);
    assert_eq!(s.settled_at, 1_700);
    assert_eq!((s.invoice_id.as_str(), s.external_id.as_str(), s.amount_sat), ("r", "ext-r", 500));
    let s = caught_settlement(rows[0].clone(), None, 2_500);
    assert_eq!(s.settled_at, 1_899);
    // A floor below what was paid for does not count.
    t.subscriptions[0].suspend_not_before = Some(900);
    let s = caught_settlement(open_settlements(&t)[0].clone(), None, 2_500);
    assert_eq!(s.settled_at, 1_599);
}

#[test]
fn settlement_catch_up_refunds_late_live_order_but_caps_recovery() {
    let mut t = Tables::empty();
    for (s, ext) in [("s_live", "order:live"), ("s_rec", "order:rec")] {
        t.subscriptions.push(Subscription {
            state: SubState::Pending,
            paid_through: None,
            ..sub(s, 0, 500, None)
        });
        t.invoices.push(Invoice {
            external_id: ext.into(),
            amount_sat: Some(1_000),
            ..invoice(s, s, InvoiceKind::Order, InvoiceStatus::Open, 1_000)
        });
    }
    let mut rows = open_settlements(&t);
    assert_eq!(rows.len(), 2);
    let (rec, live) = (rows.remove(1), rows.remove(0));
    let live = settlement_of(live, Ok((true, Some(1_000))), 1_500).unwrap();
    assert_eq!((live.external_id.as_str(), live.settled_at), ("order:live", 1_000));
    let rec = settlement_of(rec, Ok((true, None)), 1_500).unwrap();
    assert_eq!((rec.external_id.as_str(), rec.settled_at), ("order:rec", 999));
}

#[test]
fn only_a_paid_invoice_is_captured() {
    let mut t = Tables::empty();
    t.invoices.push(invoice("o", "s", InvoiceKind::Order, InvoiceStatus::Open, 1_000));
    let row = open_settlements(&t).remove(0);
    assert!(settlement_of(row.clone(), Ok((false, None)), 500).is_none());
    assert!(settlement_of(row.clone(), Ok((false, Some(400))), 500).is_none());
    assert!(settlement_of(row.clone(), Err("gateway down".into()), 500).is_none());
    assert_eq!(settlement_of(row, Ok((true, Some(400))), 500).unwrap().settled_at, 400);
}

#[test]
fn boundary_beyond_the_clock_only_matters_where_it_is_needed() {
    let mut t = Tables::empty();
    t.subscriptions.push(sub("s", i64::MAX, 1, None));
    t.invoices.push(renewal("s", "ext", 1_000));
    let row = open_settlements(&t).remove(0);
    assert!(!has_boundary_in_range(&row));
    assert_eq!(settlement_of(row.clone(), Ok((true, Some(7))), 9).unwrap().settled_at, 7);
    assert!(settlement_of(row, Ok((false, None)), 9).is_none());
    t.subscriptions[0].paid_through = Some(i64::MAX - 1);
    assert!(has_boundary_in_range(&open_settlements(&t)[0]));
}

#[test]
fn observed_and_recovered_times_of_an_order() {
    let mut t = Tables::empty();
    t.subscriptions.push(sub("s", 10, 10, None));
    t.invoices.push(invoice("o", "s", InvoiceKind::Order, InvoiceStatus::Open, 1_000));
    let row = open_settlements(&t).remove(0);
    // The backend saw it, late: its own time stands, past the expiry.
    assert_eq!(caught_settlement(row.clone(), Some(1_200), 5_000).settled_at, 1_200);
    // Nobody saw it: just inside the expiry; the renewal's boundary does not bind an order.
    assert_eq!(caught_settlement(row.clone(), None, 5_000).settled_at, 999);
    assert_eq!(caught_settlement(row, None, 500).settled_at, 500);
}

#[test]
fn only_open_order_and_renewal_invoices_are_caught_up() {
    let mut t = Tables::empty();
    t.invoices.push(invoice("a", "gone", InvoiceKind::Order, InvoiceStatus::Paid, 1));
    t.invoices.push(invoice("b", "gone", InvoiceKind::Other, InvoiceStatus::Open, 1));
    t.invoices.push(invoice("c", "gone", InvoiceKind::Renewal, InvoiceStatus::Open, 1));
    t.invoices.push(invoice("d", "gone", InvoiceKind::Order, InvoiceStatus::Expired, 1));
    let rows = open_settlements(&t);
    let ids: Vec<&str> = rows.iter().map(|r| r.id.as_str()).collect();
    assert_eq!(ids, vec!["c"]);
    assert!(rows[0].renewal && rows[0].paid_through.is_none() && rows[0].retention_s.is_none());
}

// ---- the listing ------------------------------------------------------------

#[test]
fn republished_listing_keeps_its_state() {
    let mut t = Tables::empty();
    let terms = listing_terms("vps", 1_000, "30d", "3d", "7d");
    let id = listing_coordinate("ab12", "vps");
    assert_eq!(id, "30402:ab12:vps");
    assert!(upsert_listing(&mut t, &id, &terms, 10));
    record_listing_event(&mut t, &id, "ev1".into());
    assert_eq!(t.listings[0].event_id.as_deref(), Some("ev1"));
    assert_eq!(t.listings[0].period_s, Some(30 * 86_400));
    assert_eq!(t.listings[0].d_tag.as_deref(), Some("vps"));

    t.listings[0].state = ListingState::Withdrawn;
    let dearer = listing_terms("vps", 2_000, "30d", "3d", "7d");
    assert!(!upsert_listing(&mut t, &id, &dearer, 20));
    assert_eq!(t.listings.len(), 1);
    assert_eq!(t.listings[0].state, ListingState::Withdrawn);
    assert_eq!(t.listings[0].amount_sat, Some(2_000));
    assert_eq!(t.listings[0].updated_at, Some(20));
    assert_eq!(t.listings[0].event_id.as_deref(), Some("ev1"));

    assert!(upsert_listing(&mut t, "other", &terms, 30));
    assert_eq!(t.listings.len(), 2);
    record_listing_event(&mut t, "missing", "ev2".into());
    assert_eq!(t.listings[1].event_id, None);
}
