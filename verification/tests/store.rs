use lnrentd::schema::DbError;
use lnrentd::store::{
    load_refund_readiness_liabilities, positive_sat, IdempotencyPruneReport, LiabilityError,
    ReapCounts, RefundReadinessSource, Store, Write, WriteEnd, IDEMPOTENCY_CACHE_RETENTION_SECS,
    TERMINAL_ROW_RETENTION_SECS,
};
use lnrentd::tables::{
    ConnectSession, Count, Event, EventDetail, EventKind, HoldState, Holding, InboundRequest,
    Instance, Invoice, InvoiceKind, InvoiceStatus, OpInvocation, OpState, OutboxRow, OutboxState,
    Payload, RefundAttempt, RefundStatus, Reservation, SubState, Subscription, Tables,
    TeardownFailure,
};

/// A wall clock that is ahead of every clock of these tests but one.
const WALL: i64 = 1_800_000_000;

fn sub(t: &mut Tables, id: &str, state: SubState, updated_at: i64) {
    t.subscriptions.push(Subscription {
        id: id.into(),
        recipe_id: None,
        instance_id: None,
        buyer_pubkey: None,
        state,
        refund_dest: None,
        renew_lead_s: None,
        retention_s: None,
        paid_through: None,
        soft_date: None,
        next_deadline: None,
        suspend_not_before: None,
        updated_at: Some(updated_at),
    });
}

fn invoice(
    t: &mut Tables,
    id: &str,
    sub: Option<&str>,
    ext: &str,
    kind: InvoiceKind,
    status: InvoiceStatus,
    at: i64,
    settled_at: Option<i64>,
) {
    t.invoices.push(Invoice {
        id: id.into(),
        subscription_id: sub.map(|s| s.into()),
        external_id: ext.into(),
        kind,
        amount_sat: Some(100),
        status,
        expires_at: Some(at),
        applied_at: None,
        issued_at: Some(at),
        settled_at,
    });
}

fn event(t: &mut Tables, sub: Option<&str>, kind: EventKind, detail: EventDetail, at: i64) -> i64 {
    let id = t.next_event_id;
    t.events.push(Event {
        id,
        subscription_id: sub.map(|s| s.into()),
        kind,
        detail,
        at: Some(at),
    });
    t.next_event_id += 1;
    id
}

fn receipt(ext: &str, amount: Option<i64>) -> EventDetail {
    EventDetail::Settlement { receipt: Some(ext.into()), amount_sat: amount, whole: true }
}

fn reservation(t: &mut Tables, id: &str, order: &str, state: HoldState, created_at: i64) {
    t.reservations.push(Reservation {
        id: id.into(),
        order_id: order.into(),
        holding: Holding {
            cpu: Count::Number(1),
            mem_mb: Count::Number(1),
            disk_gb: Count::Number(1),
            ports: Count::Number(0),
        },
        state,
        expires_at: None,
        created_at: Some(created_at),
    });
}

fn instance(t: &mut Tables, id: &str, sub: Option<&str>, updated_at: i64) {
    t.instances.push(Instance {
        id: id.into(),
        subscription_id: sub.map(|s| s.into()),
        box_id: None,
        kind: None,
        handles_json: None,
        state: Some("RUNNING".into()),
        updated_at: Some(updated_at),
    });
}

fn refund(t: &mut Tables, id: Option<&str>, sub: Option<&str>, key: &str, status: RefundStatus) {
    t.refunds.push(RefundAttempt {
        id: id.map(|s| s.into()),
        subscription_id: sub.map(|s| s.into()),
        dest: None,
        amount_sat: None,
        idempotency_key: key.into(),
        backend_payment_id: None,
        status,
        attempts: Some(0),
        resolved_bolt11: None,
        resolved_expiry: None,
        resolution_gen: 0,
        created_at: Some(1),
        updated_at: Some(1),
    });
}

fn has_sub(t: &Tables, id: &str) -> bool {
    t.subscriptions.iter().any(|s| s.id == id)
}

fn has_invoice(t: &Tables, id: &str) -> bool {
    t.invoices.iter().any(|s| s.id == id)
}

fn has_reservation(t: &Tables, id: &str) -> bool {
    t.reservations.iter().any(|s| s.id == id)
}

fn has_instance(t: &Tables, id: &str) -> bool {
    t.instances.iter().any(|s| s.id == id)
}

fn reap(t: &mut Tables, now: i64) -> ReapCounts {
    Store::new().reap_terminal_rows(t, WALL, now).unwrap()
}

#[test]
fn prune_idempotency_caches_removes_only_old_terminal_rows() {
    let mut t = Tables::empty();
    let now = 2 * IDEMPOTENCY_CACHE_RETENTION_SECS;
    let old = now - IDEMPOTENCY_CACHE_RETENTION_SECS - 1;
    let recent = now - IDEMPOTENCY_CACHE_RETENTION_SECS + 1;
    for (id, state, at) in [
        ("old-done", OpState::Done, old),
        ("old-error", OpState::Error, old),
        ("old-running", OpState::Running, old),
        ("recent-done", OpState::Done, recent),
    ] {
        t.op_invocations.push(OpInvocation {
            sender_pubkey: "buyer".into(),
            request_id: id.into(),
            state,
            finished_at: Some(at),
        });
    }
    for (id, at) in [("old-order", old), ("recent-order", recent)] {
        t.inbound_requests.push(InboundRequest {
            sender_pubkey: "buyer".into(),
            request_id: id.into(),
            created_at: Some(at),
        });
    }
    let s = Store::new();
    let pruned = s.prune_idempotency_caches(&mut t, WALL, now).unwrap();
    assert_eq!(
        pruned,
        IdempotencyPruneReport {
            op_invocation: 2,
            inbound_request: 1,
        }
    );
    assert_eq!(pruned.total(), 3);
    let ops: Vec<&str> = t.op_invocations.iter().map(|o| o.request_id.as_str()).collect();
    assert_eq!(
        ops,
        vec!["old-running", "recent-done"],
        "RUNNING rows keep their in-flight idempotency claim"
    );
    let requests: Vec<&str> = t.inbound_requests.iter().map(|r| r.request_id.as_str()).collect();
    assert_eq!(requests, vec!["recent-order"]);
    assert_eq!(
        s.prune_idempotency_caches(&mut t, WALL, now).unwrap(),
        IdempotencyPruneReport::default(),
        "re-running the sweep is idempotent"
    );
}

#[test]
fn reap_deletes_only_terminal_rows_past_window() {
    let mut t = Tables::empty();
    let now = 2 * TERMINAL_ROW_RETENTION_SECS;
    let cutoff = TERMINAL_ROW_RETENTION_SECS;
    let (old, boundary, recent) = (cutoff - 1, cutoff, now);

    reservation(&mut t, "r-old", "o-r-old", HoldState::Released, old);
    reservation(&mut t, "r-boundary", "o-r-boundary", HoldState::Released, boundary);
    reservation(&mut t, "r-held", "o-r-held", HoldState::Held, old);
    reservation(&mut t, "r-recent", "o-r-recent", HoldState::Released, recent);
    let (o, e) = (InvoiceKind::Order, InvoiceStatus::Expired);
    invoice(&mut t, "i-old-exp", None, "x-old-exp", o, e, old, None);
    invoice(&mut t, "i-recent-exp", None, "x-recent-exp", o, e, recent, None);
    invoice(&mut t, "i-old-settled", None, "x-old-settled", o, e, old, Some(old));
    event(&mut t, None, EventKind::Other, EventDetail::Empty, old);
    event(&mut t, None, EventKind::Other, EventDetail::Empty, recent);
    event(&mut t, Some("s"), EventKind::SettleUnmatchedRefund, receipt("x-refund", Some(1)), old);
    instance(&mut t, "n-old", None, old);
    instance(&mut t, "n-boundary", None, boundary);
    instance(&mut t, "n-recent", None, recent);

    let reaped = reap(&mut t, now);
    assert_eq!(
        reaped,
        ReapCounts {
            reservation: 1,
            invoice: 1,
            event_log: 1,
            instance: 1,
            subscription: 0,
        }
    );
    assert_eq!(reaped.total(), 4);

    assert!(has_reservation(&t, "r-boundary"));
    assert!(!has_reservation(&t, "r-old"));
    assert!(has_reservation(&t, "r-held"), "non-terminal (HELD) reservation kept");
    assert!(has_reservation(&t, "r-recent"));
    assert!(!has_invoice(&t, "i-old-exp"));
    assert!(has_invoice(&t, "i-recent-exp"));
    assert!(has_invoice(&t, "i-old-settled"), "a settled invoice is a ledger receipt — kept");
    assert_eq!(t.events.len(), 2);
    assert!(t.events.iter().any(|e| e.kind == EventKind::Other && e.at == Some(recent)));
    assert!(
        t.events.iter().any(|e| e.kind == EventKind::SettleUnmatchedRefund),
        "settle-refund journal row kept even past the window"
    );
    assert!(!has_instance(&t, "n-old"));
    assert!(
        has_instance(&t, "n-boundary"),
        "instance stamped EXACTLY at the cutoff survives (strict `<`)"
    );
    assert!(has_instance(&t, "n-recent"));

    assert_eq!(reap(&mut t, now), ReapCounts::default(), "re-running the reap is idempotent");
}

#[test]
fn reap_of_subscription_is_child_and_money_safe() {
    let mut t = Tables::empty();
    let now = 2 * TERMINAL_ROW_RETENTION_SECS;
    let old = TERMINAL_ROW_RETENTION_SECS - 1;
    let o = InvoiceKind::Order;

    sub(&mut t, "sub-flood", SubState::Expired, old);
    invoice(&mut t, "i-flood", Some("sub-flood"), "x-flood", o, InvoiceStatus::Expired, old, None);
    reservation(&mut t, "res-flood", "sub-flood", HoldState::Released, old);
    event(&mut t, Some("sub-flood"), EventKind::Other, EventDetail::Empty, old);
    event(&mut t, Some("sub-flood"), EventKind::Other, EventDetail::Empty, old);
    sub(&mut t, "sub-paid", SubState::Terminated, old);
    invoice(&mut t, "i-paid", Some("sub-paid"), "x-paid", o, InvoiceStatus::Paid, old, Some(old));
    sub(&mut t, "sub-owed", SubState::Refunded, old);
    refund(&mut t, Some("ref-owed"), Some("sub-owed"), "refund:x-owed", RefundStatus::Pending);
    sub(&mut t, "sub-recent", SubState::Expired, now);
    sub(&mut t, "sub-active", SubState::Active, old);

    assert_eq!(
        reap(&mut t, now),
        ReapCounts {
            reservation: 1,
            invoice: 1,
            event_log: 2,
            instance: 0,
            subscription: 1,
        },
        "the fully-lapsed flood order is reaped whole (hold + journals + invoice + sub)"
    );
    assert!(!has_sub(&t, "sub-flood"));
    assert!(!has_invoice(&t, "i-flood"));
    assert!(t.reservations.is_empty() && t.events.is_empty());
    assert!(has_sub(&t, "sub-paid"), "a receipt invoice blocks the sub reap (no orphan)");
    assert!(has_invoice(&t, "i-paid"));
    assert!(has_sub(&t, "sub-owed"), "an open (non-SENT) refund => money owed => sub kept");
    assert!(has_sub(&t, "sub-recent"));
    assert!(has_sub(&t, "sub-active"));
}

#[test]
fn reap_reservation_follows_owning_subscription_window() {
    let mut t = Tables::empty();
    let now = 2 * TERMINAL_ROW_RETENTION_SECS;
    let old = TERMINAL_ROW_RETENTION_SECS - 1;
    sub(&mut t, "sub-fresh-term", SubState::Terminated, now);
    reservation(&mut t, "res-fresh", "sub-fresh-term", HoldState::Released, old);
    sub(&mut t, "sub-consumed", SubState::Expired, old);
    reservation(&mut t, "res-consumed", "sub-consumed", HoldState::Consumed, old);
    assert_eq!(
        reap(&mut t, now),
        ReapCounts::default(),
        "nothing reaped: one sub too recent, one hold still consumed"
    );
    assert!(has_reservation(&t, "res-fresh"));
    assert!(has_sub(&t, "sub-consumed"), "a still-CONSUMED hold keeps its sub (no orphan)");
    assert!(has_reservation(&t, "res-consumed"));
}

#[test]
fn reap_instance_follows_owning_subscription_window() {
    let mut t = Tables::empty();
    let now = 2 * TERMINAL_ROW_RETENTION_SECS;
    let old = TERMINAL_ROW_RETENTION_SECS - 1;
    sub(&mut t, "sub-live", SubState::Active, old);
    instance(&mut t, "n-live", Some("sub-live"), old);
    sub(&mut t, "sub-fresh-term", SubState::Terminated, now);
    instance(&mut t, "n-fresh", Some("sub-fresh-term"), old);
    sub(&mut t, "sub-gone", SubState::Terminated, old);
    instance(&mut t, "n-gone", Some("sub-gone"), old);
    assert_eq!(
        reap(&mut t, now),
        ReapCounts {
            instance: 1,
            subscription: 1,
            ..ReapCounts::default()
        },
        "only the past-window terminated sub's instance — then the now-childless sub — is reaped"
    );
    assert!(has_instance(&t, "n-live"), "a live sub's RUNNING instance is never reaped");
    assert!(has_instance(&t, "n-fresh"));
    assert!(!has_instance(&t, "n-gone"));
    assert!(!has_sub(&t, "sub-gone"));
    assert!(has_sub(&t, "sub-live"));
    assert!(has_sub(&t, "sub-fresh-term"));
}

#[test]
fn reap_preserves_unresolved_recovery_journals() {
    let mut t = Tables::empty();
    let now = 2 * TERMINAL_ROW_RETENTION_SECS;
    let old = TERMINAL_ROW_RETENTION_SECS - 1;
    sub(&mut t, "sub-cleanup", SubState::RefundDue, old);
    sub(&mut t, "sub-resume", SubState::Resuming, old);
    let pending = event(
        &mut t,
        Some("sub-cleanup"),
        EventKind::ProvisionCleanupPending,
        EventDetail::Raw("{\"handles\":\"lost\"}".into()),
        old,
    );
    event(&mut t, Some("sub-resume"), EventKind::RenewResume, EventDetail::Empty, old);

    assert_eq!(
        reap(&mut t, now).event_log,
        0,
        "unresolved recovery journals are still live retry state"
    );
    assert_eq!(t.events.len(), 2);

    event(
        &mut t,
        Some("sub-cleanup"),
        EventKind::ProvisionCleanupDone,
        EventDetail::CleanupDone { pending_event_id: pending },
        old,
    );
    event(&mut t, Some("sub-resume"), EventKind::ResumeActive, EventDetail::Empty, old);
    assert_eq!(
        reap(&mut t, now).event_log,
        4,
        "resolved recovery journals are ordinary old non-money journals"
    );
    assert!(t.events.is_empty());
}

#[test]
fn reap_keeps_settle_refund_journal_and_invoices_behind_open_refunds() {
    let mut t = Tables::empty();
    let now = 2 * TERMINAL_ROW_RETENTION_SECS;
    let old = TERMINAL_ROW_RETENTION_SECS - 1;
    let k = EventKind::SettleTerminalRefund;
    event(&mut t, Some("s-open"), k, receipt("ext-open", Some(5)), old);
    event(&mut t, Some("s-sent"), k, receipt("ext-sent", Some(5)), old);
    invoice(
        &mut t,
        "i-open",
        Some("s-open"),
        "ext-open",
        InvoiceKind::Order,
        InvoiceStatus::Expired,
        old,
        None,
    );
    refund(&mut t, Some("ref-open"), Some("s-open"), "refund:ext-open", RefundStatus::Pending);
    refund(&mut t, Some("ref-sent"), Some("s-sent"), "refund:ext-sent", RefundStatus::Sent);

    assert_eq!(
        reap(&mut t, now),
        ReapCounts::default(),
        "no money row is reaped while a liability is open"
    );
    assert_eq!(t.events.len(), 2);
    assert!(has_invoice(&t, "i-open"), "invoice behind an OPEN refund kept (money owed)");

    t.refunds[0].status = RefundStatus::Sent;
    assert_eq!(reap(&mut t, now).invoice, 1);
    assert!(!has_invoice(&t, "i-open"));
    assert_eq!(t.events.len(), 2, "settle-refund journal rows kept even with all refunds SENT");
}

#[test]
fn reap_invoice_gc_survives_a_null_derived_open_refund_key() {
    let mut t = Tables::empty();
    let now = 2 * TERMINAL_ROW_RETENTION_SECS;
    let old = TERMINAL_ROW_RETENTION_SECS - 1;
    refund(&mut t, None, None, "legacy-non-refund-key", RefundStatus::Pending);
    invoice(
        &mut t,
        "i-unrelated",
        None,
        "x-unrelated",
        InvoiceKind::Order,
        InvoiceStatus::Expired,
        old,
        None,
    );
    assert_eq!(
        reap(&mut t, now).invoice,
        1,
        "a NULL-derived open-refund key does not stall the invoice GC"
    );
    assert!(!has_invoice(&t, "i-unrelated"));
}

#[test]
fn reap_expired_invoices_regardless_of_sub_liveness() {
    let mut t = Tables::empty();
    let now = 2 * TERMINAL_ROW_RETENTION_SECS;
    let old = TERMINAL_ROW_RETENTION_SECS - 1;
    let (r, e) = (InvoiceKind::Renewal, InvoiceStatus::Expired);
    sub(&mut t, "sub-live", SubState::Active, old);
    sub(&mut t, "sub-dead", SubState::Expired, old);
    invoice(&mut t, "i-renew-old", Some("sub-live"), "x-renew-old", r, e, old, None);
    invoice(&mut t, "i-renew-recent", Some("sub-live"), "x-renew-recent", r, e, now, None);
    invoice(
        &mut t,
        "i-renew-settled",
        Some("sub-live"),
        "x-renew-settled",
        r,
        InvoiceStatus::Paid,
        old,
        Some(old),
    );
    invoice(&mut t, "i-dead", Some("sub-dead"), "x-dead", InvoiceKind::Order, e, old, None);

    let reaped = reap(&mut t, now);
    assert_eq!(reaped.invoice, 2);
    assert_eq!(reaped.subscription, 1, "only the terminal childless sub is reaped");
    assert!(!has_invoice(&t, "i-renew-old"));
    assert!(has_invoice(&t, "i-renew-recent"));
    assert!(has_invoice(&t, "i-renew-settled"));
    assert!(!has_invoice(&t, "i-dead"));
    assert!(has_sub(&t, "sub-live"));
    assert!(!has_sub(&t, "sub-dead"));
}

#[test]
fn reap_of_subscription_waits_for_open_operational_obligations() {
    let mut t = Tables::empty();
    let now = 2 * TERMINAL_ROW_RETENTION_SECS;
    let old = TERMINAL_ROW_RETENTION_SECS - 1;
    sub(&mut t, "sub-td", SubState::Terminated, old);
    sub(&mut t, "sub-ob", SubState::Expired, old);
    sub(&mut t, "sub-ncs", SubState::Terminated, old);
    sub(&mut t, "sub-done", SubState::Terminated, old);
    for (s, resolved_at) in [("sub-td", None), ("sub-done", Some(old))] {
        t.teardown_failures.push(TeardownFailure {
            id: format!("td:{s}:destroy"),
            subscription_id: s.into(),
            resolved_at,
        });
    }
    for (s, state) in [("sub-ob", OutboxState::Pending), ("sub-done", OutboxState::Sent)] {
        t.outbox.push(OutboxRow {
            id: format!("ob:{s}:1"),
            recipient: None,
            subscription_id: Some(s.into()),
            payload: Payload::Raw { msg_type: "billing.receipt".into(), json: "{}".into() },
            state,
            attempts: Some(1),
            created_at: Some(old),
        });
    }
    for (s, active) in [("sub-ncs", true), ("sub-done", false)] {
        t.connect_sessions.push(ConnectSession {
            id: format!("ncs:{s}:1"),
            subscription_id: Some(s.into()),
            active,
        });
    }

    assert_eq!(
        reap(&mut t, now).subscription,
        1,
        "only the sub with all obligations closed is reaped"
    );
    assert!(!has_sub(&t, "sub-done"));
    for (id, why) in [
        ("sub-td", "unresolved teardown_failure blocks the reap"),
        ("sub-ob", "PENDING outbox DM blocks the reap"),
        ("sub-ncs", "ACTIVE connect session blocks the reap"),
    ] {
        assert!(has_sub(&t, id), "{why}");
    }

    t.teardown_failures[0].resolved_at = Some(old);
    t.outbox[0].state = OutboxState::Sent;
    t.connect_sessions[0].active = false;
    assert_eq!(
        reap(&mut t, now).subscription,
        3,
        "all three reap once their obligations close"
    );
    assert!(t.subscriptions.is_empty());
}

#[test]
fn reap_clock_cap_prevents_over_pruning_with_a_fast_clock() {
    let mut t = Tables::empty();
    let future = 4_000_000_000_i64;
    let now = future + 2 * TERMINAL_ROW_RETENTION_SECS;
    reservation(&mut t, "r-future", "o-future", HoldState::Released, future);
    invoice(
        &mut t,
        "i-future",
        None,
        "x-future",
        InvoiceKind::Order,
        InvoiceStatus::Expired,
        future,
        None,
    );
    event(&mut t, None, EventKind::Other, EventDetail::Empty, future);
    sub(&mut t, "sub-future", SubState::Expired, future);
    assert_eq!(
        reap(&mut t, now),
        ReapCounts::default(),
        "clock-capped cutoff prevents over-pruning future-stamped rows"
    );
    assert_eq!(
        (t.reservations.len(), t.invoices.len(), t.events.len(), t.subscriptions.len()),
        (1, 1, 1, 1)
    );
}

// ---- the latch --------------------------------------------------------------

fn sqlite(code: i32) -> DbError {
    DbError::Sqlite { code, message: Some("synthetic".into()) }
}

#[test]
fn fatal_error_trips_degraded_and_refuses_subsequent_writes() {
    let mut s = Store::new();
    assert!(!s.is_degraded(), "healthy store is not degraded");
    assert!(s.allow_write().is_ok());
    // SQLITE_IOERR_WRITE, an extended code of SQLITE_IOERR.
    assert!(s.note_error(&sqlite(778)));
    assert!(s.is_degraded());
    let refused = s.allow_write().unwrap_err();
    assert!(refused.contains("degraded read-only mode"));

    let mut t = Tables::empty();
    let now = 2 * TERMINAL_ROW_RETENTION_SECS;
    instance(&mut t, "n", None, 0);
    assert_eq!(s.reap_terminal_rows(&mut t, WALL, now).unwrap_err(), refused);
    assert!(s.prune_idempotency_caches(&mut t, WALL, now).is_err());
    assert_eq!(t.instances.len(), 1, "the refused write leaves no partial state");
    assert!(s.refund_readiness_liabilities(&t).unwrap().is_empty(), "reads still serve");
    // It never unlatches.
    assert!(!s.note_error(&sqlite(19)));
    assert!(s.is_degraded());
}

#[test]
fn business_error_does_not_trip_degraded() {
    let mut s = Store::new();
    assert!(!s.note_error(&sqlite(19)));
    assert!(!s.note_error(&sqlite(5)));
    assert!(!s.note_error(&DbError::Other { message: "no rows".into() }));
    assert!(!s.is_degraded() && s.allow_write().is_ok());
    s.latch_degraded();
    assert!(s.is_degraded());
}

// ---- liabilities ------------------------------------------------------------

#[test]
fn liabilities_are_listed_source_by_source() {
    let mut t = Tables::empty();
    let paid = InvoiceStatus::Paid;
    sub(&mut t, "s-due", SubState::RefundDue, 1);
    sub(&mut t, "s-exp", SubState::Expired, 1);
    // A refund of the ledger.
    invoice(&mut t, "i1", Some("s-due"), "e1", InvoiceKind::Order, paid, 1, Some(5));
    refund(&mut t, Some("ref-e1"), Some("s-due"), "refund:e1", RefundStatus::Pending);
    // A paid order that was not delivered.
    invoice(&mut t, "i2", Some("s-due"), "e2", InvoiceKind::Order, paid, 1, Some(6));
    // A settlement that was never applied, of a subscription past its end.
    invoice(&mut t, "i3", Some("s-exp"), "e3", InvoiceKind::Order, InvoiceStatus::Expired, 1, Some(7));
    // A journaled receipt; the larger of its amounts counts.
    event(&mut t, None, EventKind::SettleOrphanRefund, receipt("e4", Some(40)), 1);
    event(&mut t, None, EventKind::SettleOrphanRefund, receipt("e4", Some(41)), 2);
    event(&mut t, None, EventKind::SettleOrphanRefund, receipt("e4", None), 3);
    let ls = load_refund_readiness_liabilities(&t).unwrap();
    let seen: Vec<(&str, u64)> = ls.iter().map(|l| (l.external_id.as_str(), l.gross_sat)).collect();
    assert_eq!(seen, vec![("e1", 100), ("e2", 100), ("e3", 100), ("e4", 41)]);
    match &ls[0].source {
        RefundReadinessSource::RefundAttempt(a) => {
            assert_eq!((a.status.as_str(), a.idempotency_key.as_str()), ("PENDING", "refund:e1"))
        }
        other => panic!("{other:?}"),
    }
    assert!(matches!(ls[1].source, RefundReadinessSource::PaidUndeliveredOrder));
    assert!(matches!(ls[2].source, RefundReadinessSource::UnreconciledSettlement));
    assert!(matches!(ls[3].source, RefundReadinessSource::UnreconciledSettlement));
}

#[test]
fn rows_without_an_external_id_are_reported() {
    let mut t = Tables::empty();
    event(
        &mut t,
        None,
        EventKind::SettleExpiredRefund,
        EventDetail::Settlement { receipt: None, amount_sat: Some(5), whole: true },
        1,
    );
    assert_eq!(
        load_refund_readiness_liabilities(&t).unwrap_err(),
        LiabilityError::ReceiptWithoutId
    );
    refund(&mut t, None, None, "other-key", RefundStatus::Sent);
    assert_eq!(
        load_refund_readiness_liabilities(&t).unwrap_err(),
        LiabilityError::RefundWithoutId
    );
}

#[test]
fn receipts_that_cannot_be_read_are_reported() {
    let mut t = Tables::empty();
    sub(&mut t, "s", SubState::Active, 1);
    let broken = EventDetail::Raw("{".into());
    event(&mut t, Some("s"), EventKind::SettleExpiredRefund, broken.clone(), 1);
    assert_eq!(
        load_refund_readiness_liabilities(&t).unwrap_err(),
        LiabilityError::ReceiptUnreadable
    );
    t.events.clear();
    event(&mut t, Some("s"), EventKind::Other, broken, 1);
    assert!(load_refund_readiness_liabilities(&t).unwrap().is_empty());
}

#[test]
fn odd_amount_of_a_receipt_does_not_hide_a_real_one() {
    let mut t = Tables::empty();
    let odd = |n: i64| EventDetail::Settlement {
        receipt: Some("e1".into()),
        amount_sat: Some(n),
        whole: false,
    };
    event(&mut t, None, EventKind::SettleOrphanRefund, odd(0), 1);
    event(&mut t, None, EventKind::SettleOrphanRefund, receipt("e1", Some(40)), 2);
    let ls = load_refund_readiness_liabilities(&t).unwrap();
    assert_eq!((ls.len(), ls[0].gross_sat), (1, 40));
    event(&mut t, None, EventKind::SettleOrphanRefund, odd(41), 3);
    assert_eq!(load_refund_readiness_liabilities(&t).unwrap()[0].gross_sat, 41);
}

#[test]
fn status_of_a_refund_is_handed_on_as_it_is_stored() {
    let mut t = Tables::empty();
    let paid = InvoiceStatus::Paid;
    invoice(&mut t, "i1", None, "e1", InvoiceKind::Other, paid, 1, None);
    let held = RefundStatus::Other("ON_HOLD".into());
    refund(&mut t, Some("ref-e1"), None, "refund:e1", held);
    match &load_refund_readiness_liabilities(&t).unwrap()[0].source {
        RefundReadinessSource::RefundAttempt(a) => assert_eq!(a.status, "ON_HOLD"),
        other => panic!("{other:?}"),
    }
}

#[test]
fn second_reap_finds_nothing() {
    let mut t = Tables::empty();
    sub(&mut t, "gone", SubState::Terminated, 1);
    instance(&mut t, "n", Some("gone"), 1);
    reservation(&mut t, "r", "gone", HoldState::Released, 1);
    event(&mut t, Some("gone"), EventKind::Other, EventDetail::Empty, 1);
    let now = TERMINAL_ROW_RETENTION_SECS + 100;
    assert_eq!(reap(&mut t, now).total(), 4);
    assert_eq!(reap(&mut t, now), ReapCounts::default());
}

#[test]
fn write_is_stored_only_where_every_step_succeeds() {
    let mut s = Store::new();
    let mut w = s.begin_write();
    assert!(matches!(w, Write::Beginning));
    w = s.write_step(w, Ok(()));
    assert!(matches!(w, Write::Working));
    w = s.write_step(w, Ok(()));
    assert!(matches!(w, Write::Committing));
    w = s.write_step(w, Ok(()));
    assert!(matches!(w, Write::Over(WriteEnd::Stored)));
    // What is over stays over, whatever is said of it.
    w = s.write_step(w, Err(sqlite(13)));
    assert!(matches!(w, Write::Over(WriteEnd::Stored)) && !s.is_degraded());

    // An ordinary error undoes a write and latches nothing.
    let begun = s.begin_write();
    let w = s.write_step(begun, Ok(()));
    let w = s.write_step(w, Err(DbError::Other { message: "no hold".into() }));
    assert!(matches!(w, Write::Over(WriteEnd::Undone(DbError::Other { .. }))) && !s.is_degraded());

    // A fatal one at the commit does both, and the next write is refused.
    let begun = s.begin_write();
    let w = s.write_step(begun, Ok(()));
    let w = s.write_step(w, Ok(()));
    let w = s.write_step(w, Err(sqlite(13)));
    assert!(matches!(w, Write::Over(WriteEnd::Undone(DbError::Sqlite { .. }))) && s.is_degraded());
    assert!(matches!(s.begin_write(), Write::Over(WriteEnd::Refused)));
}

#[test]
fn amounts_count_where_positive() {
    assert_eq!(positive_sat(Some(5)), Some(5));
    assert_eq!(positive_sat(Some(0)), None);
    assert_eq!(positive_sat(Some(-5)), None);
    assert_eq!(positive_sat(None), None);
}
