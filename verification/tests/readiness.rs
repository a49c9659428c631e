use lnrentd::readiness::{
    needs_price, readiness_log, refund_readiness_report_with_probe, Loudness, PriceAsk, PriceEvent,
    Pricing, RefundReadinessProbe, RefundReadinessReport, RefundReadinessWarning,
};
use lnrentd::refund::PayStatus;
use lnrentd::store::{load_refund_readiness_liabilities, RefundReadinessSource};
use lnrentd::tables::{
    Invoice, InvoiceKind, InvoiceStatus, RefundAttempt, RefundStatus, SubState, Subscription,
    Tables,
};

fn seed_subscription(t: &mut Tables, id: &str, state: SubState) {
    t.subscriptions.push(Subscription {
        id: id.into(),
        recipe_id: None,
        instance_id: None,
        buyer_pubkey: None,
        state,
        refund_dest: None,
        renew_lead_s: None,
        retention_s: None,
        paid_through: None,
        soft_date: None,
        next_deadline: None,
        suspend_not_before: None,
        updated_at: None,
    });
}

fn seed_invoice(
    t: &mut Tables,
    sub: &str,
    ext: &str,
    kind: InvoiceKind,
    amount: i64,
    status: InvoiceStatus,
    settled_at: Option<i64>,
    applied_at: Option<i64>,
) {
    t.invoices.push(Invoice {
        id: format!("inv-{ext}"),
        subscription_id: Some(sub.into()),
        external_id: ext.into(),
        kind,
        amount_sat: Some(amount),
        status,
        expires_at: None,
        applied_at,
        issued_at: Some(1),
        settled_at,
    });
}

fn seed_refund(t: &mut Tables, ext: &str, status: RefundStatus, resolved: Option<&str>, gen: i64) {
    t.refunds.push(RefundAttempt {
        id: Some(format!("ref-{ext}")),
        subscription_id: Some("sub-1".into()),
        dest: Some("user@example.com".into()),
        amount_sat: Some(2),
        idempotency_key: format!("refund:{ext}"),
        backend_payment_id: None,
        status,
        attempts: Some(0),
        resolved_bolt11: resolved.map(|s| s.into()),
        resolved_expiry: None,
        resolution_gen: gen,
        created_at: Some(1),
        updated_at: Some(1),
    });
}

fn paid_order(t: &mut Tables, state: SubState, amount: i64) {
    seed_subscription(t, "sub-1", state);
    let (k, s) = (InvoiceKind::Order, InvoiceStatus::Paid);
    seed_invoice(t, "sub-1", "order:sub-1", k, amount, s, Some(10), Some(10));
}

/// A payment backend that knows the status of one key.
struct Backend {
    gateway: bool,
    federation: bool,
    status: PayStatus,
    started: bool,
    required: Result<u128, String>,
}

fn backend() -> Backend {
    Backend {
        gateway: true,
        federation: true,
        status: PayStatus::Unknown,
        started: false,
        required: Ok(0),
    }
}

fn readiness(t: &Tables, b: &Backend, expected: u128) -> RefundReadinessReport {
    let ls = load_refund_readiness_liabilities(t).unwrap();
    let mut prices = Vec::new();
    for l in &ls {
        let mut price = Err("not priced".to_string());
        if let RefundReadinessSource::RefundAttempt(a) = &l.source {
            if needs_price(l) {
                let mut p = Pricing::start(l, a);
                price = loop {
                    p = match p.ask() {
                        PriceAsk::Status { key } => {
                            assert_eq!(key, "refund:order:sub-1:g1");
                            p.step(PriceEvent::Status(Ok(b.status)))
                        }
                        PriceAsk::Started { .. } => p.step(PriceEvent::Started(Ok(b.started))),
                        PriceAsk::Outlay { gross_sat, .. } => {
                            assert_eq!(gross_sat, 2);
                            p.step(PriceEvent::Outlay(b.required.clone()))
                        }
                        PriceAsk::Done(r) => break r,
                    };
                };
            }
        }
        prices.push(price);
    }
    let probe = RefundReadinessProbe::from_answers(Ok(b.gateway), Ok(b.federation));
    refund_readiness_report_with_probe(&ls, &prices, expected, &probe)
}

#[test]
fn readiness_no_warning_at_zero_expected_with_zero_liability() {
    let report = readiness(&Tables::empty(), &backend(), 0);
    assert_eq!(report.liability_count, 0);
    assert_eq!(report.expected_msat, 0);
    assert_eq!(report.warning, None);
    assert_eq!(report, RefundReadinessReport::default());
    assert_eq!(readiness_log(&report), None);
}

#[test]
fn readiness_warns_when_required_exceeds_expected() {
    let mut t = Tables::empty();
    paid_order(&mut t, SubState::Provisioning, 2);
    let report = readiness(&t, &backend(), 1_000);
    assert_eq!(report.required_msat, 2_000);
    assert_eq!(report.expected_msat, 1_000);
    assert_eq!(
        report.warning,
        Some(RefundReadinessWarning::InsufficientBalance)
    );
}

#[test]
fn readiness_warns_gateway_down_with_liabilities() {
    let mut t = Tables::empty();
    paid_order(&mut t, SubState::Provisioning, 1);
    let report = readiness(&t, &Backend { gateway: false, ..backend() }, 1_000);
    assert_eq!(
        report.warning,
        Some(RefundReadinessWarning::GatewayUnavailable)
    );
    assert_eq!(
        readiness_log(&report),
        Some((
            Loudness::Warn,
            "refund readiness warning: gateway unreachable: cannot create invoices or pay refunds"
        ))
    );
}

#[test]
fn readiness_warns_federation_down_distinct_from_gateway() {
    let mut t = Tables::empty();
    paid_order(&mut t, SubState::Provisioning, 1);
    for gateway in [true, false] {
        let b = Backend { gateway, federation: false, ..backend() };
        let report = readiness(&t, &b, 1_000);
        assert_eq!(
            report.warning,
            Some(RefundReadinessWarning::FederationDown),
            "federation-down takes priority over gateway-down"
        );
    }
}

#[test]
fn readiness_surfaces_federation_down_even_with_zero_liabilities() {
    let t = Tables::empty();
    let report = readiness(&t, &Backend { federation: false, ..backend() }, 0);
    assert_eq!(
        report.warning,
        Some(RefundReadinessWarning::FederationDown),
        "federation-down surfaces with no liabilities"
    );
    assert!(!report.federation_ok);
    assert_eq!(readiness_log(&report).unwrap().0, Loudness::Error);

    let ok_report = readiness(&t, &backend(), 0);
    assert_eq!(ok_report.warning, None, "a healthy idle daemon is READY");
    assert!(ok_report.federation_ok);
    // A gateway that is down is no concern of an idle daemon.
    let b = Backend { gateway: false, ..backend() };
    assert_eq!(readiness(&t, &b, 0).warning, None);
}

#[test]
fn readiness_ignores_old_paid_renewals_on_later_inactive_subscriptions() {
    let mut t = Tables::empty();
    for (sub, state) in [("sub-s", SubState::Suspended), ("sub-t", SubState::Terminated)] {
        seed_subscription(&mut t, sub, state);
        seed_invoice(
            &mut t,
            sub,
            &format!("renew:auto:{sub}:1000"),
            InvoiceKind::Renewal,
            1,
            InvoiceStatus::Paid,
            Some(900),
            Some(900),
        );
    }
    let report = readiness(&t, &backend(), 0);
    assert_eq!(report.liability_count, 0);
    assert_eq!(report.warning, None);
}

#[test]
fn readiness_reports_parked_failed_refunds_as_manual_liabilities() {
    let mut t = Tables::empty();
    paid_order(&mut t, SubState::RefundDue, 2);
    seed_refund(&mut t, "order:sub-1", RefundStatus::Failed, None, 0);
    let report = readiness(&t, &backend(), 2_000);
    assert_eq!(report.gross_liability_sat, 2);
    assert_eq!(report.required_msat, 0);
    assert_eq!(report.parked_count, 1);
    assert_eq!(report.warning, Some(RefundReadinessWarning::ParkedManual));
}

#[test]
fn readiness_covers_when_expected_equals_required_exactly() {
    let mut t = Tables::empty();
    paid_order(&mut t, SubState::RefundDue, 2);
    seed_refund(&mut t, "order:sub-1", RefundStatus::Pending, None, 0);
    let b = Backend { required: Ok(1_500), ..backend() };
    let report = readiness(&t, &b, 1_500);
    assert_eq!(report.required_msat, 1_500);
    assert_eq!(report.expected_msat, 1_500);
    assert_eq!(report.warning, None);
    assert_eq!(
        readiness_log(&report),
        Some((Loudness::Info, "refund liabilities covered"))
    );
    assert_eq!(
        readiness(&t, &b, 1_499).warning,
        Some(RefundReadinessWarning::InsufficientBalance)
    );
}

#[test]
fn readiness_in_flight_pending_generation_does_not_inflate_required() {
    let mut t = Tables::empty();
    paid_order(&mut t, SubState::RefundDue, 2);
    seed_refund(&mut t, "order:sub-1", RefundStatus::Pending, Some("persisted-bolt11"), 1);
    let b = Backend { status: PayStatus::Pending, required: Ok(2_000), ..backend() };
    let report = readiness(&t, &b, 0);
    assert_eq!(report.gross_liability_sat, 2);
    assert_eq!(report.required_msat, 0);
    assert_eq!(report.warning, None);
}

#[test]
fn readiness_unpriceable_pending_liability_warns_not_covered() {
    let mut t = Tables::empty();
    paid_order(&mut t, SubState::RefundDue, 2);
    seed_refund(&mut t, "order:sub-1", RefundStatus::Pending, Some("persisted-bolt11"), 1);
    let b = Backend {
        status: PayStatus::Failed,
        required: Err("no route".into()),
        ..backend()
    };
    let report = readiness(&t, &b, 2_000);
    assert_eq!(report.unpriceable_count, 1);
    assert_eq!(report.required_msat, 0);
    assert_eq!(report.warning, Some(RefundReadinessWarning::Unpriceable));
}

#[test]
fn readiness_unknown_without_started_attempt_still_requires_liquidity() {
    let mut t = Tables::empty();
    paid_order(&mut t, SubState::RefundDue, 2);
    seed_refund(&mut t, "order:sub-1", RefundStatus::Pending, Some("persisted-bolt11"), 1);
    let b = Backend { required: Ok(2_000), ..backend() };
    let report = readiness(&t, &b, 1_999);
    assert_eq!(report.required_msat, 2_000);
    assert_eq!(report.expected_msat, 1_999);
    assert_eq!(
        report.warning,
        Some(RefundReadinessWarning::InsufficientBalance)
    );
}

#[test]
fn readiness_in_flight_unknown_started_key_does_not_inflate_required() {
    let mut t = Tables::empty();
    paid_order(&mut t, SubState::RefundDue, 2);
    seed_refund(&mut t, "order:sub-1", RefundStatus::Pending, Some("persisted-bolt11"), 1);
    let b = Backend { started: true, required: Ok(2_000), ..backend() };
    let report = readiness(&t, &b, 0);
    assert_eq!(report.gross_liability_sat, 2);
    assert_eq!(report.required_msat, 0);
    assert_eq!(report.expected_msat, 0);
    assert_eq!(report.warning, None);
}

#[test]
fn readiness_dedups_paid_pending_order_against_unreconciled_settlement() {
    let mut t = Tables::empty();
    seed_subscription(&mut t, "sub-1", SubState::Pending);
    let (k, s) = (InvoiceKind::Order, InvoiceStatus::Paid);
    seed_invoice(&mut t, "sub-1", "order:sub-1", k, 1, s, Some(10), None);
    let report = readiness(&t, &backend(), 1_000);
    assert_eq!(report.liability_count, 1);
    assert_eq!(report.gross_liability_sat, 1);
    assert_eq!(report.required_msat, 1_000);
    assert_eq!(report.warning, None);
}

#[test]
fn readiness_sent_refund_blocks_terminal_invoice_residual_bucket() {
    let mut t = Tables::empty();
    seed_subscription(&mut t, "sub-1", SubState::Expired);
    let (k, s) = (InvoiceKind::Order, InvoiceStatus::Expired);
    seed_invoice(&mut t, "sub-1", "order:sub-1", k, 2, s, Some(10), None);
    seed_refund(&mut t, "order:sub-1", RefundStatus::Sent, None, 0);
    let report = readiness(&t, &backend(), 0);
    assert_eq!(report.liability_count, 0);
    assert_eq!(report.warning, None);
}

#[test]
fn required_outlay_is_held_at_the_largest_number() {
    let mut t = Tables::empty();
    paid_order(&mut t, SubState::RefundDue, 2);
    seed_refund(&mut t, "order:sub-1", RefundStatus::Pending, None, 0);
    seed_subscription(&mut t, "sub-2", SubState::RefundDue);
    let (k, s) = (InvoiceKind::Order, InvoiceStatus::Paid);
    seed_invoice(&mut t, "sub-2", "order:sub-2", k, 7, s, Some(10), Some(10));
    let b = Backend { required: Ok(u128::MAX - 10), ..backend() };
    let report = readiness(&t, &b, u128::MAX);
    assert_eq!(report.required_msat, u128::MAX);
    assert_eq!(report.gross_liability_sat, 9);
}

#[test]
fn failed_probes_count_as_unreachable() {
    let p = RefundReadinessProbe::from_answers(Err("refused".into()), Err("quorum".into()));
    assert!(!p.gateway_ok() && !p.federation_ok());
    assert_eq!(p.gateway_error.as_deref(), Some("refused"));
    assert_eq!(p.federation_error.as_deref(), Some("quorum"));
    let p = RefundReadinessProbe::from_answers(Ok(false), Ok(true));
    assert!(!p.gateway_ok() && p.federation_ok() && p.gateway_error.is_none());
}

#[test]
fn money_view_shows_the_report() {
    let mut t = Tables::empty();
    paid_order(&mut t, SubState::Provisioning, 2);
    let report = readiness(&t, &backend(), 5);
    let v = report.to_money_value(false, true);
    assert_eq!((v.expected_msat, v.required_msat, v.gross_liability_sat), (5, 2_000, 2));
    assert!(!v.ready && !v.gateway_ok && v.federation_ok);
    assert_eq!(v.warning, Some("InsufficientBalance"));
    let idle = RefundReadinessReport::default().to_money_value(true, true);
    assert!(idle.ready && idle.warning.is_none());
    for (w, name) in [
        (RefundReadinessWarning::FederationDown, "FederationDown"),
        (RefundReadinessWarning::GatewayUnavailable, "GatewayUnavailable"),
        (RefundReadinessWarning::Unpriceable, "Unpriceable"),
        (RefundReadinessWarning::ParkedManual, "ParkedManual"),
    ] {
        assert_eq!(w.as_str(), name);
    }
}

#[test]
fn failed_answers_leave_a_refund_unpriced() {
    let mut t = Tables::empty();
    paid_order(&mut t, SubState::RefundDue, 2);
    seed_refund(&mut t, "order:sub-1", RefundStatus::Pending, Some("x"), 1);
    let ls = load_refund_readiness_liabilities(&t).unwrap();
    let RefundReadinessSource::RefundAttempt(a) = &ls[0].source else { panic!() };
    let p = Pricing::start(&ls[0], a).step(PriceEvent::Status(Err("down".into())));
    assert!(matches!(p.ask(), PriceAsk::Done(Err(e)) if e == "down"));
    let p = Pricing::start(&ls[0], a)
        .step(PriceEvent::Status(Ok(PayStatus::Unknown)))
        .step(PriceEvent::Started(Err("db".into())));
    assert!(matches!(p.ask(), PriceAsk::Done(Err(e)) if e == "db"));
    // An answer that was not asked for is passed over.
    let p = Pricing::start(&ls[0], a).step(PriceEvent::Outlay(Ok(1)));
    assert!(matches!(p.ask(), PriceAsk::Status { .. }));
}
