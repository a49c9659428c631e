use bitcoin::hashes::sha256;
use bitcoin::secp256k1::{Secp256k1, SecretKey};
use lightning_invoice::{Currency, InvoiceBuilder, PaymentSecret};
use lnrentd::refund::{
    commit_park_failed, commit_pay_failure, commit_resolution_retry, commit_sent, exhausted_reason,
    external_id_from, gen_key, lookup_received_amount, net_cap, parked_detail, parked_reason,
    parse_whole_sat, pending_refunds, persist_resolution, record, refund_outbox_id, report_of,
    stuck_detail,
    verify_refund_provenance, AlertRow, Commit, Drain, DrainAsk, DrainEvent, Outcome, PayStatus,
    PlanAsk, PlanError, PlanEvent, ProvenanceCheck, RefundReport, RefundRow,
    ReceiptError, MAX_REFUND_ATTEMPTS, RESOLUTION_STUCK_ALERT_S,
};
use lnrentd::refund_resolver::{PassThroughResolver, RefundResolver, ResolveError, Resolved, Stage};
use lnrentd::tables::{
    Count, Event, EventDetail, EventKind, HoldState, Holding, Invoice, InvoiceKind, InvoiceStatus,
    Payload, RefundAttempt, RefundNotice, RefundStatus, Reservation, SubState, Subscription, Tables,
};
use std::collections::{HashMap, HashSet};
use std::time::Duration;

const LN_ADDR: &str = "lnaddr@buyer";
const ID: &str = "ref-order:sub-1";

fn digest(bytes: &[u8]) -> sha256::Hash {
    <sha256::Hash as bitcoin::hashes::Hash>::hash(bytes)
}

fn mint_bolt11(amount_msat: u64, metadata: &str, ts_secs: u64, expiry_s: u64) -> String {
    let sk = SecretKey::from_slice(&[0x11u8; 32]).unwrap();
    InvoiceBuilder::new(Currency::Regtest)
        .amount_milli_satoshis(amount_msat)
        .description_hash(digest(metadata.as_bytes()))
        .payment_hash(digest(&[0u8; 32]))
        .payment_secret(PaymentSecret([42u8; 32]))
        .duration_since_epoch(Duration::from_secs(ts_secs))
        .min_final_cltv_expiry_delta(144)
        .expiry_time(Duration::from_secs(expiry_s))
        .build_signed(|h| Secp256k1::new().sign_ecdsa_recoverable(h, &sk))
        .unwrap()
        .to_string()
}

/// A payment backend that never pays a key twice and counts what it is asked.
#[derive(Default)]
struct TestPayment {
    paid: HashMap<String, u64>,
    dests: HashMap<String, String>,
    key_status: HashMap<String, PayStatus>,
    attempted: HashSet<String>,
    started: HashSet<String>,
    pay_calls: usize,
    net_calls: usize,
    fail: bool,
    failed_status: Option<PayStatus>,
    settle_then_fail: bool,
    status_lookup_fails: bool,
    net_cap: Option<u64>,
}

impl TestPayment {
    fn status(&self, key: &str) -> Result<PayStatus, String> {
        if self.status_lookup_fails {
            return Err("test backend: status lookup failed".into());
        }
        Ok(if self.paid.contains_key(key) {
            PayStatus::Succeeded
        } else if let Some(s) = self.key_status.get(key) {
            *s
        } else if self.attempted.contains(key) {
            self.failed_status.unwrap_or(PayStatus::Unknown)
        } else {
            PayStatus::Unknown
        })
    }

    fn pay(&mut self, dest: &str, sat: u64, key: &str) -> Result<String, String> {
        self.pay_calls += 1;
        self.attempted.insert(key.into());
        self.dests.insert(key.into(), dest.into());
        if self.settle_then_fail {
            self.paid.entry(key.into()).or_insert(sat);
            return Err("test backend: settled but pay reported an error".into());
        }
        if self.fail {
            return Err("test backend: pay failed".into());
        }
        self.paid.entry(key.into()).or_insert(sat);
        Ok(format!("test-pay-{key}"))
    }
}

/// A resolver that gives a new invoice with every call, or fails.
#[derive(Default)]
struct TestResolver {
    calls: Vec<(String, u64, i64)>,
    expiry: i64,
    bolt11: Option<String>,
    structural: bool,
    transient: bool,
    pass_through: bool,
    terminalizes: bool,
}

impl TestResolver {
    fn new(expiry: i64) -> Self {
        TestResolver { expiry, ..TestResolver::default() }
    }

    fn pass_through() -> Self {
        TestResolver { pass_through: true, ..TestResolver::default() }
    }

    fn resolve(&mut self, dest: &str, owed: u64, now: i64) -> Result<Resolved, ResolveError> {
        self.calls.push((dest.into(), owed, now));
        if self.structural {
            return Err(ResolveError::Permanent("test structural failure".into()));
        }
        if self.transient {
            return Err(ResolveError::Transient("test transient failure".into()));
        }
        if self.pass_through {
            return match PassThroughResolver.resolve(dest, owed, now).stage {
                Stage::Done(r) => r,
                other => panic!("{other:?}"),
            };
        }
        Ok(Resolved {
            bolt11: self
                .bolt11
                .clone()
                .unwrap_or(format!("resolved-bolt11-{}", self.calls.len())),
            expiry: self.expiry,
        })
    }
}

fn alert(kind: &str, row: &RefundRow, detail: String) -> Option<AlertRow> {
    Some(AlertRow {
        id: format!("alert:{kind}:{}", row.id),
        recipient: "op-npub-hex".into(),
        payload: detail,
    })
}

/// One drive over the pending refunds. Returns the report and the stuck alerts it called for.
fn drive(
    t: &mut Tables,
    pay: &mut TestPayment,
    res: &mut TestResolver,
    now: i64,
) -> (RefundReport, Vec<String>) {
    let mut outcomes = Vec::new();
    let mut stuck = Vec::new();
    for row in pending_refunds(t).unwrap() {
        let received = lookup_received_amount(t, &row.external_id_of()).unwrap();
        let mut d = Drain::start(&row, received, now);
        let commit = loop {
            let event = match d.ask() {
                DrainAsk::Plan(PlanAsk::Status { key }) => {
                    DrainEvent::Answer(PlanEvent::Status(pay.status(&key)))
                }
                DrainAsk::Plan(PlanAsk::Started { key }) => {
                    DrainEvent::Answer(PlanEvent::Started(Ok(pay.started.contains(&key))))
                }
                DrainAsk::Plan(PlanAsk::Quote { gross }) => {
                    pay.net_calls += 1;
                    DrainEvent::Answer(PlanEvent::Quote(Ok(pay.net_cap.unwrap_or(gross))))
                }
                DrainAsk::Plan(PlanAsk::Resolve { dest, owed_msat, now }) => {
                    if res.terminalizes {
                        t.refunds[0].status = RefundStatus::Failed;
                    }
                    DrainEvent::Answer(PlanEvent::Resolution(res.resolve(&dest, owed_msat, now)))
                }
                DrainAsk::Plan(PlanAsk::Persist { bolt11, expiry, gen }) => {
                    let r = persist_resolution(t, &row.id, Resolved { bolt11, expiry }, gen, now);
                    DrainEvent::Answer(PlanEvent::Persisted(Ok(r)))
                }
                DrainAsk::Plan(PlanAsk::Done(_)) => panic!("a finished plan is not asked about"),
                DrainAsk::Pay { bolt11, pay_sat, gross, key } => {
                    assert!(pay_sat <= gross);
                    DrainEvent::Paid(pay.pay(&bolt11, pay_sat, &key))
                }
                DrainAsk::Commit(c) => break c,
            };
            d = d.step(event);
        };
        let a = parked_reason(&commit)
            .and_then(|reason| alert("refund_parked", &row, parked_detail(&row, &reason)));
        let outcome = record(t, &row, commit, a, now);
        if outcome == Outcome::Retried {
            stuck.extend(stuck_detail(&row, now));
        }
        outcomes.push(outcome);
    }
    (report_of(&outcomes), stuck)
}

fn seed_sub(t: &mut Tables, state: SubState) {
    t.subscriptions.push(Subscription {
        id: "sub-1".into(),
        recipe_id: None,
        instance_id: None,
        buyer_pubkey: Some("buyer-hex".into()),
        state,
        refund_dest: None,
        renew_lead_s: None,
        retention_s: None,
        paid_through: None,
        soft_date: None,
        next_deadline: None,
        suspend_not_before: None,
        updated_at: Some(0),
    });
}

fn seed_bare(t: &mut Tables, dest: Option<&str>, amount: Option<i64>) {
    t.refunds.push(RefundAttempt {
        id: Some(ID.into()),
        subscription_id: Some("sub-1".into()),
        dest: dest.map(|d| d.into()),
        amount_sat: amount,
        idempotency_key: "refund:order:sub-1".into(),
        backend_payment_id: None,
        status: RefundStatus::Pending,
        attempts: Some(0),
        resolved_bolt11: None,
        resolved_expiry: None,
        resolution_gen: 0,
        created_at: Some(0),
        updated_at: Some(0),
    });
}

fn seed_invoice(t: &mut Tables, status: InvoiceStatus, settled: Option<i64>, amount: Option<i64>) {
    t.invoices.push(Invoice {
        id: "inv-order:sub-1".into(),
        subscription_id: Some("sub-1".into()),
        external_id: "order:sub-1".into(),
        kind: InvoiceKind::Order,
        amount_sat: amount,
        status,
        expires_at: None,
        applied_at: None,
        issued_at: Some(0),
        settled_at: settled,
    });
}

fn seed_reservation(t: &mut Tables) {
    t.reservations.push(Reservation {
        id: "res-sub-1".into(),
        order_id: "sub-1".into(),
        holding: Holding {
            cpu: Count::Number(1),
            mem_mb: Count::Number(0),
            disk_gb: Count::Number(0),
            ports: Count::Number(0),
        },
        state: HoldState::Held,
        expires_at: Some(0),
        created_at: Some(0),
    });
}

/// A subscription that waits for a refund of 500, with its received payment and its hold.
fn seeded(dest: Option<&str>, amount: Option<i64>) -> Tables {
    let mut t = Tables::empty();
    seed_sub(&mut t, SubState::RefundDue);
    seed_bare(&mut t, dest, amount);
    seed_invoice(&mut t, InvoiceStatus::Paid, Some(30), amount);
    seed_reservation(&mut t);
    t
}

fn resolved(bolt11: &str, expiry: i64, gen: i64) -> Tables {
    let mut t = seeded(Some(LN_ADDR), Some(500));
    t.refunds[0].resolved_bolt11 = Some(bolt11.into());
    t.refunds[0].resolved_expiry = Some(expiry);
    t.refunds[0].resolution_gen = gen;
    t
}

fn notices(t: &Tables) -> Vec<(RefundNotice, u64)> {
    t.outbox
        .iter()
        .filter_map(|o| match &o.payload {
            Payload::BillingRefund { notice, amount_sat, .. } => Some((*notice, *amount_sat)),
            _ => None,
        })
        .collect()
}

fn alerts(t: &Tables) -> Vec<(String, String)> {
    t.outbox
        .iter()
        .filter(|o| matches!(o.payload, Payload::OperatorAlert(_)))
        .map(|o| (o.recipient.clone().unwrap(), o.id.clone()))
        .collect()
}

fn is(t: &Tables, status: RefundStatus, attempts: i64) {
    assert_eq!((&t.refunds[0].status, t.refunds[0].attempts), (&status, Some(attempts)));
}

#[test]
fn provision_fail_refund_completes_and_releases() {
    let mut t = seeded(Some(LN_ADDR), Some(500));
    let (mut p, mut r) = (TestPayment::default(), TestResolver::pass_through());
    let (report, _) = drive(&mut t, &mut p, &mut r, 1_000);
    assert_eq!(report.sent, 1);
    is(&t, RefundStatus::Sent, 1);
    assert!(t.refunds[0].backend_payment_id.is_some());
    assert_eq!(t.subscriptions[0].state, SubState::Refunded);
    assert_eq!(
        t.reservations[0].state,
        HoldState::Released,
        "the still-HELD reservation is released in the same txn"
    );
    assert_eq!(notices(&t), vec![(RefundNotice::Sent, 500)]);
    assert_eq!(t.outbox[0].id, "outbox:refund:order:sub-1");
    assert_eq!(t.outbox[0].recipient.as_deref(), Some("buyer-hex"));
    let kinds: Vec<EventKind> = t.events.iter().map(|e| e.kind).collect();
    assert_eq!(kinds, vec![EventKind::ReserveRelease, EventKind::RefundSent]);
}

#[test]
fn repeated_pay_failure_parks_failed_and_alerts() {
    let mut t = seeded(Some(LN_ADDR), Some(500));
    let mut p = TestPayment {
        fail: true,
        failed_status: Some(PayStatus::Failed),
        ..TestPayment::default()
    };
    let mut r = TestResolver::pass_through();
    for i in 1..MAX_REFUND_ATTEMPTS {
        let (report, _) = drive(&mut t, &mut p, &mut r, 1_000);
        assert_eq!(report.retried, 1);
        is(&t, RefundStatus::Pending, i);
        assert_eq!(t.subscriptions[0].state, SubState::RefundDue);
        assert!(t.outbox.is_empty());
    }
    let (report, _) = drive(&mut t, &mut p, &mut r, 1_000);
    assert_eq!(report.failed, 1);
    is(&t, RefundStatus::Failed, MAX_REFUND_ATTEMPTS);
    assert_eq!(
        t.subscriptions[0].state,
        SubState::RefundDue,
        "a stuck refund leaves the sub REFUND_DUE"
    );
    assert_eq!(
        t.reservations[0].state,
        HoldState::Held,
        "no reservation release on the failed path"
    );
    assert_eq!(notices(&t), vec![(RefundNotice::Failed, 500)]);
}

#[test]
fn ambiguous_pay_failure_stays_recoverable_at_cap() {
    for status in [PayStatus::Pending, PayStatus::Unknown] {
        let mut t = seeded(Some(LN_ADDR), Some(500));
        let mut p = TestPayment {
            fail: true,
            failed_status: Some(status),
            ..TestPayment::default()
        };
        let mut r = TestResolver::pass_through();
        for _ in 0..MAX_REFUND_ATTEMPTS {
            let (report, _) = drive(&mut t, &mut p, &mut r, 1_000);
            assert_eq!((report.retried, report.failed), (1, 0));
        }
        is(&t, RefundStatus::Pending, MAX_REFUND_ATTEMPTS);
        assert_eq!(t.subscriptions[0].state, SubState::RefundDue);
        assert_eq!(t.reservations[0].state, HoldState::Held);
        assert!(notices(&t).is_empty());
    }
}

#[test]
fn legacy_null_destination_is_failed_without_pay() {
    let mut t = seeded(None, Some(500));
    let (mut p, mut r) = (TestPayment::default(), TestResolver::pass_through());
    let (report, _) = drive(&mut t, &mut p, &mut r, 1_000);
    assert_eq!(report.failed, 1);
    assert_eq!(p.pay_calls, 0, "missing dest never calls pay");
    is(&t, RefundStatus::Failed, 1);
    assert_eq!(t.subscriptions[0].state, SubState::RefundDue);
    assert_eq!(t.reservations[0].state, HoldState::Held);
    assert_eq!(notices(&t), vec![(RefundNotice::Failed, 500)]);
}

#[test]
fn pay_exhaustion_park_enqueues_one_operator_alert() {
    let mut t = seeded(Some(LN_ADDR), Some(500));
    let mut p = TestPayment {
        fail: true,
        failed_status: Some(PayStatus::Failed),
        ..TestPayment::default()
    };
    let mut r = TestResolver::pass_through();
    for _ in 1..MAX_REFUND_ATTEMPTS {
        drive(&mut t, &mut p, &mut r, 1_000);
        assert!(alerts(&t).is_empty(), "no alert before the cap is reached");
    }
    assert_eq!(drive(&mut t, &mut p, &mut r, 1_000).0.failed, 1);
    assert_eq!(
        alerts(&t),
        vec![("op-npub-hex".to_string(), format!("alert:refund_parked:{ID}"))]
    );
    match &t.outbox[1].payload {
        Payload::OperatorAlert(d) => assert_eq!(
            d,
            "refund ref-order:sub-1 parked FAILED (exhausted 5 pay attempts); sub sub-1"
        ),
        other => panic!("{other:?}"),
    }
}

#[test]
fn structural_park_enqueues_one_operator_alert() {
    let mut t = seeded(None, Some(500));
    let (mut p, mut r) = (TestPayment::default(), TestResolver::pass_through());
    assert_eq!(drive(&mut t, &mut p, &mut r, 1_000).0.failed, 1);
    assert_eq!(p.pay_calls, 0, "structural park never calls pay");
    assert_eq!(alerts(&t).len(), 1, "exactly one alert on the structural park");
}

#[test]
fn pay_stuck_ambiguous_refund_emits_refund_stuck_alert() {
    let mut t = seeded(Some(LN_ADDR), Some(500));
    let mut p = TestPayment {
        fail: true,
        failed_status: Some(PayStatus::Pending),
        ..TestPayment::default()
    };
    let mut r = TestResolver::pass_through();
    let (report, stuck) = drive(&mut t, &mut p, &mut r, RESOLUTION_STUCK_ALERT_S + 1);
    assert_eq!((report.retried, report.failed), (1, 0));
    assert_eq!(
        stuck,
        vec!["refund ref-order:sub-1 stuck PENDING 604801s without progress; sub sub-1"]
    );
}

#[test]
fn second_drive_does_not_double_pay() {
    let mut t = seeded(Some(LN_ADDR), Some(500));
    let (mut p, mut r) = (TestPayment::default(), TestResolver::pass_through());
    let (first, _) = drive(&mut t, &mut p, &mut r, 1_000);
    let (second, _) = drive(&mut t, &mut p, &mut r, 1_000);
    assert_eq!(first.sent, 1);
    assert_eq!(second, RefundReport::default(), "second drive is a no-op");
    assert_eq!(p.pay_calls, 1, "pay invoked exactly once");
    is(&t, RefundStatus::Sent, 1);
    assert_eq!(notices(&t).len(), 1);
}

#[test]
fn fast_skip_completes_without_second_pay() {
    let mut t = resolved("resolved-bolt11-1", i64::MAX, 1);
    let (mut p, mut r) = (TestPayment::default(), TestResolver::pass_through());
    p.paid.insert("refund:order:sub-1:g1".into(), 500);
    let (report, _) = drive(&mut t, &mut p, &mut r, 1_000);
    assert_eq!(report.sent, 1);
    assert_eq!(p.pay_calls, 0, "fast-skip never calls pay again");
    assert_eq!(t.refunds[0].status, RefundStatus::Sent);
    assert_eq!(t.subscriptions[0].state, SubState::Refunded);
    assert_eq!(notices(&t), vec![(RefundNotice::Sent, 500)]);
}

#[test]
fn legacy_stable_key_paid_before_upgrade_is_not_double_paid() {
    let bolt11 = mint_bolt11(500_000, "meta", 1_000, 86_400);
    let mut t = seeded(Some(&bolt11), Some(500));
    let (mut p, mut r) = (TestPayment::default(), TestResolver::new(10_000));
    p.paid.insert("refund:order:sub-1".into(), 500);
    assert_eq!(drive(&mut t, &mut p, &mut r, 1_000).0.sent, 1);
    assert_eq!(p.pay_calls, 0, "a legacy-paid refund is never re-paid across the upgrade");
    assert!(r.calls.is_empty(), "a legacy-paid refund is never (re-)resolved");
    assert_eq!(t.refunds[0].status, RefundStatus::Sent);
    assert_eq!(t.subscriptions[0].state, SubState::Refunded);
}

#[test]
fn pending_row_is_not_stranded() {
    let mut t = seeded(Some(LN_ADDR), Some(500));
    t.reservations.clear();
    let (mut p, mut r) = (TestPayment::default(), TestResolver::pass_through());
    assert_eq!(drive(&mut t, &mut p, &mut r, 1_000).0.sent, 1);
    assert_eq!(p.pay_calls, 1, "pay(key) runs for the un-paid row");
    assert!(t.refunds[0].backend_payment_id.is_some());
    assert_eq!(t.events.len(), 1, "no hold, no release");
}

#[test]
fn terminal_sub_is_refunded_without_resurrection() {
    let mut t = seeded(Some(LN_ADDR), Some(500));
    t.subscriptions[0].state = SubState::Terminated;
    let (mut p, mut r) = (TestPayment::default(), TestResolver::pass_through());
    assert_eq!(drive(&mut t, &mut p, &mut r, 1_000).0.sent, 1);
    assert_eq!(t.refunds[0].status, RefundStatus::Sent);
    assert_eq!(
        t.subscriptions[0].state,
        SubState::Terminated,
        "a terminal sub is not resurrected by the refund"
    );
    assert_eq!(t.reservations[0].state, HoldState::Held);
    assert_eq!(notices(&t), vec![(RefundNotice::Sent, 500)]);
}

#[test]
fn ambiguous_pay_error_that_settled_records_sent() {
    let mut t = seeded(Some(LN_ADDR), Some(500));
    let mut p = TestPayment { settle_then_fail: true, ..TestPayment::default() };
    let mut r = TestResolver::pass_through();
    let (report, _) = drive(&mut t, &mut p, &mut r, 1_000);
    assert_eq!((report.sent, report.failed), (1, 0));
    assert_eq!(p.pay_calls, 1, "pay attempted exactly once");
    is(&t, RefundStatus::Sent, 1);
    assert_eq!(t.subscriptions[0].state, SubState::Refunded);
    assert_eq!(notices(&t), vec![(RefundNotice::Sent, 500)]);
}

#[test]
fn null_amount_parks_failed_under_inv3() {
    let mut t = seeded(Some(LN_ADDR), None);
    let (mut p, mut r) = (TestPayment::default(), TestResolver::pass_through());
    assert_eq!(drive(&mut t, &mut p, &mut r, 1_000).0.failed, 1);
    assert_eq!(p.pay_calls, 0, "a NULL-amount refund never pays");
    assert_eq!(t.refunds[0].status, RefundStatus::Failed);
    assert_eq!(notices(&t), vec![(RefundNotice::Failed, 0)]);
}

#[test]
fn bolt11_dest_pays_generation_zero_under_bare_key() {
    let bolt11 = mint_bolt11(500_000, "meta", 1_000, 86_400);
    let mut t = seeded(Some(&bolt11), Some(500));
    let (mut p, mut r) = (TestPayment::default(), TestResolver::new(i64::MAX));
    assert_eq!(drive(&mut t, &mut p, &mut r, 1_000).0.sent, 1);
    assert!(r.calls.is_empty(), "a bolt11 dest is never resolved");
    assert!(p.paid.contains_key("refund:order:sub-1"), "paid under the BARE gen-0 key");
    assert!(!p.paid.contains_key("refund:order:sub-1:g0"), "gen 0 never suffixes `:g0`");
    assert_eq!(t.refunds[0].resolved_bolt11, None);
    assert_eq!(t.refunds[0].resolution_gen, 0);
}

#[test]
fn first_resolution_persists_generation_one_and_pays() {
    let mut t = seeded(Some(LN_ADDR), Some(500));
    let (mut p, mut r) = (TestPayment::default(), TestResolver::new(10_000));
    assert_eq!(drive(&mut t, &mut p, &mut r, 1_000).0.sent, 1);
    assert_eq!(r.calls.len(), 1, "resolved exactly once");
    assert!(p.paid.contains_key("refund:order:sub-1:g1"), "paid the gen-1 key");
    assert_eq!(t.refunds[0].resolved_bolt11.as_deref(), Some("resolved-bolt11-1"));
    assert_eq!(t.refunds[0].resolved_expiry, Some(10_000));
    assert_eq!(t.refunds[0].resolution_gen, 1, "first resolution is generation 1");
}

#[test]
fn injected_resolver_result_is_paid_for_ln_address_refund() {
    let bolt11 = mint_bolt11(500_000, "meta", 1_000, 86_400);
    let mut t = seeded(Some(LN_ADDR), Some(500));
    let mut p = TestPayment::default();
    let mut r = TestResolver { bolt11: Some(bolt11.clone()), ..TestResolver::new(10_000) };
    assert_eq!(drive(&mut t, &mut p, &mut r, 1_000).0.sent, 1);
    assert_eq!(r.calls, vec![(LN_ADDR.to_string(), 500_000, 1_000)]);
    assert_eq!(
        p.dests.get("refund:order:sub-1:g1"),
        Some(&bolt11),
        "payment backend receives the resolved bolt11, not the raw LN-address"
    );
    assert_eq!(t.refunds[0].resolved_bolt11, Some(bolt11));
    assert_eq!(t.refunds[0].resolution_gen, 1);
}

#[test]
fn gen_a_failed_and_expired_reresolves_to_gen_b() {
    let mut t = resolved("bolt11-g1", 100, 1);
    let (mut p, mut r) = (TestPayment::default(), TestResolver::new(10_000));
    p.key_status.insert("refund:order:sub-1:g1".into(), PayStatus::Failed);
    assert_eq!(drive(&mut t, &mut p, &mut r, 200).0.sent, 1);
    assert_eq!(r.calls.len(), 1, "exactly one re-resolution");
    assert_eq!(t.refunds[0].resolution_gen, 2, "generation bumped to 2");
    assert_eq!(t.refunds[0].resolved_bolt11.as_deref(), Some("resolved-bolt11-1"));
    assert!(p.paid.contains_key("refund:order:sub-1:g2"), "paid the gen-2 key");
}

#[test]
fn gen_b_unknown_crash_window_reuses_without_reresolve() {
    let mut t = resolved("bolt11-g2", 10_000, 2);
    let (mut p, mut r) = (TestPayment::default(), TestResolver::new(10_000));
    assert_eq!(drive(&mut t, &mut p, &mut r, 200).0.sent, 1);
    assert!(r.calls.is_empty(), "Unknown REUSES, never re-resolves");
    assert_eq!(t.refunds[0].resolution_gen, 2, "generation unchanged");
    assert_eq!(t.refunds[0].resolved_bolt11.as_deref(), Some("bolt11-g2"));
    assert!(p.paid.contains_key("refund:order:sub-1:g2"), "re-paid the gen-2 key");
}

#[test]
fn gen_unknown_and_expired_reuses_never_reresolves() {
    let mut t = resolved("bolt11-g1", 100, 1);
    let (mut p, mut r) = (TestPayment::default(), TestResolver::new(10_000));
    assert_eq!(drive(&mut t, &mut p, &mut r, 200).0.sent, 1);
    assert!(
        r.calls.is_empty(),
        "an Unknown (in-flight) invoice REUSES even when expired — never re-resolves (no double-pay)"
    );
    assert_eq!(t.refunds[0].resolution_gen, 1);
    assert_eq!(t.refunds[0].resolved_bolt11.as_deref(), Some("bolt11-g1"));
    assert!(p.paid.contains_key("refund:order:sub-1:g1"), "re-paid the gen-1 key");
}

#[test]
fn status_lookup_error_is_transient_never_reresolves() {
    let mut t = resolved("bolt11-g1", 100, 1);
    let mut p = TestPayment { status_lookup_fails: true, ..TestPayment::default() };
    let mut r = TestResolver::new(10_000);
    let (report, _) = drive(&mut t, &mut p, &mut r, 200);
    assert_eq!(report.retried, 1, "a failed status lookup leaves the row PENDING");
    assert!(r.calls.is_empty(), "never re-resolves against an unqueryable backend (no double-pay)");
    assert_eq!(p.pay_calls, 0, "and never pays");
    is(&t, RefundStatus::Pending, 0);
}

#[test]
fn stale_gen_a_failed_does_not_reresolve_live_gen_b() {
    let mut t = resolved("bolt11-g2", 100, 2);
    let (mut p, mut r) = (TestPayment::default(), TestResolver::new(10_000));
    p.key_status.insert("refund:order:sub-1:g1".into(), PayStatus::Failed);
    p.key_status.insert("refund:order:sub-1:g2".into(), PayStatus::Pending);
    assert_eq!(drive(&mut t, &mut p, &mut r, 200).0.sent, 1);
    assert!(
        r.calls.is_empty(),
        "the stale gen-1 Failed never triggers a re-resolution of the live gen-2"
    );
    assert_eq!(t.refunds[0].resolution_gen, 2);
}

#[test]
fn gen_failed_but_unexpired_reuses_same_invoice() {
    let mut t = resolved("bolt11-g1", 10_000, 1);
    let (mut p, mut r) = (TestPayment::default(), TestResolver::new(10_000));
    p.key_status.insert("refund:order:sub-1:g1".into(), PayStatus::Failed);
    assert_eq!(drive(&mut t, &mut p, &mut r, 200).0.sent, 1);
    assert!(r.calls.is_empty(), "unexpired Failed reuses, never re-resolves");
    assert_eq!(t.refunds[0].resolution_gen, 1, "generation unchanged");
    assert_eq!(t.refunds[0].resolved_bolt11.as_deref(), Some("bolt11-g1"));
}

#[test]
fn structural_resolution_failure_parks_immediately_without_burning_cap() {
    let mut t = seeded(Some(LN_ADDR), Some(500));
    let mut p = TestPayment::default();
    let mut r = TestResolver { structural: true, ..TestResolver::new(10_000) };
    assert_eq!(drive(&mut t, &mut p, &mut r, 1_000).0.failed, 1);
    assert_eq!(p.pay_calls, 0, "structural failure never pays");
    is(&t, RefundStatus::Failed, 1);
    assert_eq!(t.subscriptions[0].state, SubState::RefundDue);
    assert_eq!(notices(&t), vec![(RefundNotice::Failed, 500)]);
}

#[test]
fn zero_row_resolution_persist_does_not_pay() {
    let mut t = seeded(Some(LN_ADDR), Some(500));
    let mut p = TestPayment::default();
    let mut r = TestResolver { terminalizes: true, ..TestResolver::new(i64::MAX) };
    let (report, _) = drive(&mut t, &mut p, &mut r, 1_000);
    assert_eq!(
        p.pay_calls, 0,
        "a 0-row resolution persist must never pay an unpersisted invoice"
    );
    assert_eq!(
        report,
        RefundReport::default(),
        "the terminalized row is a no-op this drive"
    );
    assert_eq!(t.refunds[0].status, RefundStatus::Failed);
    assert_eq!(t.refunds[0].resolved_bolt11, None);
}

#[test]
fn bolt12_dest_parks_immediately() {
    let mut t = seeded(
        Some("lno1pqps7sjqpgtyzm3qv4uxzmtsd3jjqer9wd3hy6tsw35k7"),
        Some(500),
    );
    let (mut p, mut r) = (TestPayment::default(), TestResolver::pass_through());
    assert_eq!(drive(&mut t, &mut p, &mut r, 1_000).0.failed, 1);
    assert_eq!(p.pay_calls, 0, "BOLT12 never pays");
    is(&t, RefundStatus::Failed, 1);
}

#[test]
fn transient_resolution_failure_stays_pending_and_retries() {
    let mut t = seeded(Some(LN_ADDR), Some(500));
    let mut p = TestPayment::default();
    let mut r = TestResolver { transient: true, ..TestResolver::new(10_000) };
    for _ in 1..=3 {
        let (report, stuck) = drive(&mut t, &mut p, &mut r, 1_000);
        assert_eq!((report.retried, report.failed), (1, 0), "transient is NEVER terminal");
        is(&t, RefundStatus::Pending, 0);
        assert!(stuck.is_empty());
    }
    assert_eq!(p.pay_calls, 0, "a failed resolution never pays");
    assert_eq!(r.calls.len(), 3, "re-resolved each drive (nothing persisted)");
    assert!(t.outbox.is_empty());
}

#[test]
fn stuck_transient_resolution_alerts_but_stays_pending() {
    let mut t = seeded(Some(LN_ADDR), Some(500));
    let mut p = TestPayment::default();
    let mut r = TestResolver { transient: true, ..TestResolver::new(10_000) };
    let (report, stuck) = drive(&mut t, &mut p, &mut r, RESOLUTION_STUCK_ALERT_S + 1);
    assert_eq!((report.retried, report.failed), (1, 0));
    assert_eq!(stuck.len(), 1);
    is(&t, RefundStatus::Pending, 0);
    assert_eq!(p.pay_calls, 0);
    assert!(
        notices(&t).is_empty(),
        "no buyer DM — the refund is not declared failed, only escalated to the operator"
    );
}

#[test]
fn legacy_bare_key_pending_bolt11_reenters_pay() {
    let bolt11 = mint_bolt11(500_000, "meta", 1_000, 86_400);
    let mut t = seeded(Some(&bolt11), Some(500));
    let (mut p, mut r) = (TestPayment::default(), TestResolver::new(10_000));
    p.key_status.insert("refund:order:sub-1".into(), PayStatus::Pending);
    assert_eq!(drive(&mut t, &mut p, &mut r, 1_000).0.sent, 1);
    assert_eq!(p.pay_calls, 1, "re-enters pay() on the bare key");
    assert!(r.calls.is_empty(), "a bolt11 dest is never resolved");
    assert!(p.paid.contains_key("refund:order:sub-1"));
    assert_eq!(
        drive(&mut t, &mut p, &mut r, 1_000).0,
        RefundReport::default(),
        "second drive is a no-op"
    );
    assert_eq!(p.pay_calls, 1, "never double-pays the legacy refund");
    assert_eq!(notices(&t), vec![(RefundNotice::Sent, 500)]);
}

#[test]
fn inv1_pending_generation_reuses_persisted_amount_no_requote() {
    let b = mint_bolt11(500_000, "meta", 1_000, 86_400);
    let mut t = resolved(&b, 10_000, 1);
    let (mut p, mut r) = (TestPayment::default(), TestResolver::new(10_000));
    p.key_status.insert("refund:order:sub-1:g1".into(), PayStatus::Pending);
    p.net_cap = Some(400);
    assert_eq!(drive(&mut t, &mut p, &mut r, 200).0.sent, 1);
    assert_eq!(p.net_calls, 0, "a re-await never re-quotes the fee");
    assert!(r.calls.is_empty(), "and never re-resolves");
    assert_eq!(
        p.paid.get("refund:order:sub-1:g1"),
        Some(&500),
        "reused the persisted 500-sat invoice, not the new 400 cap"
    );
}

#[test]
fn inv1_failed_expired_generation_requotes_new_cap() {
    let b = mint_bolt11(500_000, "meta", 1_000, 86_400);
    let mut t = resolved(&b, 100, 1);
    let (mut p, mut r) = (TestPayment::default(), TestResolver::new(10_000));
    p.key_status.insert("refund:order:sub-1:g1".into(), PayStatus::Failed);
    p.net_cap = Some(400);
    assert_eq!(drive(&mut t, &mut p, &mut r, 200).0.sent, 1);
    assert_eq!(p.net_calls, 1, "a Failed+expired gen quotes a fresh cap");
    assert_eq!(r.calls.len(), 1, "and re-resolves a new invoice");
    assert_eq!(t.refunds[0].resolution_gen, 2, "generation bumped");
    assert_eq!(
        p.paid.get("refund:order:sub-1:g2"),
        Some(&400),
        "paid the NEW 400-sat cap, not the old 500"
    );
}

#[test]
fn gen_failed_over_cap_reresolves_at_current_fee_even_unexpired() {
    let b = mint_bolt11(500_000, "meta", 1_000, 86_400);
    let mut t = resolved(&b, 10_000, 1);
    let (mut p, mut r) = (TestPayment::default(), TestResolver::new(10_000));
    p.key_status.insert("refund:order:sub-1:g1".into(), PayStatus::Failed);
    p.net_cap = Some(400);
    assert_eq!(drive(&mut t, &mut p, &mut r, 200).0.sent, 1);
    assert_eq!(r.calls.len(), 1, "re-resolved at the new fee despite the invoice not being expired");
    assert_eq!(t.refunds[0].resolution_gen, 2);
    assert_eq!(
        p.paid.get("refund:order:sub-1:g2"),
        Some(&400),
        "paid the new 400-sat cap, not the stale over-cap 500"
    );
}

#[test]
fn sent_dm_reports_net_paid_not_gross() {
    let bolt11 = mint_bolt11(400_000, "meta", 1_000, 86_400);
    let mut t = seeded(Some(&bolt11), Some(500));
    let (mut p, mut r) = (TestPayment::default(), TestResolver::pass_through());
    assert_eq!(drive(&mut t, &mut p, &mut r, 1_000).0.sent, 1);
    assert_eq!(p.pay_calls, 1);
    assert_eq!(
        notices(&t),
        vec![(RefundNotice::Sent, 400)],
        "the DM reports the net 400 paid, not the 500 gross"
    );
    assert_eq!(
        t.refunds[0].amount_sat,
        Some(500),
        "the gross liability ledger figure is unchanged by the fee deduction"
    );
}

#[test]
fn gen0_unknown_started_reawaits_without_requote() {
    let bolt11 = mint_bolt11(400_000, "meta", 1_000, 86_400);
    let mut t = seeded(Some(&bolt11), Some(500));
    let (mut p, mut r) = (TestPayment::default(), TestResolver::pass_through());
    p.key_status.insert("refund:order:sub-1".into(), PayStatus::Unknown);
    p.started.insert("refund:order:sub-1".into());
    p.net_cap = Some(100);
    assert_eq!(
        drive(&mut t, &mut p, &mut r, 1_000).0.sent,
        1,
        "the in-flight gen-0 Unknown was re-awaited, not re-quoted/parked"
    );
    assert!(p.paid.contains_key("refund:order:sub-1"), "paid on the same gen-0 key");
    // Never started: the cap binds, and the invoice is above it.
    let mut t = seeded(Some(&bolt11), Some(500));
    let mut p = TestPayment { net_cap: Some(100), ..TestPayment::default() };
    assert_eq!(drive(&mut t, &mut p, &mut r, 1_000).0.failed, 1);
    match &t.outbox[1].payload {
        Payload::OperatorAlert(d) => assert!(d.contains(
            "buyer's fixed bolt11 (400 sat) exceeds the fee-adjusted refund cap (100 sat)"
        )),
        other => panic!("{other:?}"),
    }
}

#[test]
fn inv3_no_provenance_parks_failed() {
    let mut t = Tables::empty();
    seed_sub(&mut t, SubState::RefundDue);
    seed_bare(&mut t, Some(LN_ADDR), Some(500));
    let (mut p, mut r) = (TestPayment::default(), TestResolver::pass_through());
    assert_eq!(drive(&mut t, &mut p, &mut r, 1_000).0.failed, 1);
    assert_eq!(p.pay_calls, 0, "no provenance never pays");
    assert_eq!(t.refunds[0].status, RefundStatus::Failed);
    assert_eq!(notices(&t), vec![(RefundNotice::Failed, 500)]);
}

#[test]
fn inv3_amount_mismatch_parks_failed() {
    let mut t = Tables::empty();
    seed_sub(&mut t, SubState::RefundDue);
    seed_bare(&mut t, Some(LN_ADDR), Some(400));
    seed_invoice(&mut t, InvoiceStatus::Paid, Some(30), Some(500));
    let (mut p, mut r) = (TestPayment::default(), TestResolver::pass_through());
    assert_eq!(drive(&mut t, &mut p, &mut r, 1_000).0.failed, 1);
    assert_eq!(p.pay_calls, 0, "an amount mismatch never pays");
    assert_eq!(t.refunds[0].status, RefundStatus::Failed);
}

#[test]
fn inv3_late_terminal_settled_provenance_is_accepted() {
    let mut t = Tables::empty();
    seed_sub(&mut t, SubState::RefundDue);
    seed_bare(&mut t, Some(LN_ADDR), Some(500));
    seed_invoice(&mut t, InvoiceStatus::Expired, Some(30), Some(500));
    let (mut p, mut r) = (TestPayment::default(), TestResolver::pass_through());
    assert_eq!(
        drive(&mut t, &mut p, &mut r, 1_000).0.sent,
        1,
        "settled_at provenance is accepted even when status != PAID"
    );
    assert_eq!(p.pay_calls, 1);
    assert_eq!(t.refunds[0].status, RefundStatus::Sent);
}

#[test]
fn inv3_settle_refund_journal_provenance_is_accepted() {
    let mut t = Tables::empty();
    seed_sub(&mut t, SubState::RefundDue);
    seed_bare(&mut t, Some(LN_ADDR), Some(500));
    t.events.push(Event {
        id: 1,
        subscription_id: Some("sub-1".into()),
        kind: EventKind::SettleUnmatchedRefund,
        detail: EventDetail::Settlement {
            receipt: Some("order:sub-1".into()),
            amount_sat: Some(500),
            whole: true,
        },
        at: Some(0),
    });
    t.next_event_id = 2;
    let (mut p, mut r) = (TestPayment::default(), TestResolver::pass_through());
    assert_eq!(
        drive(&mut t, &mut p, &mut r, 1_000).0.sent,
        1,
        "a settle-refund journal entry is valid provenance"
    );
    assert_eq!(t.refunds[0].status, RefundStatus::Sent);
}

// ---- pieces -----------------------------------------------------------------

#[test]
fn keys_and_ids() {
    assert_eq!(gen_key("e", 0), "refund:e");
    assert_eq!(gen_key("e", 12), "refund:e:g12");
    assert_eq!(gen_key("e", -1), "refund:e:g-1");
    assert_eq!(external_id_from("refund:e", "ref-x"), "e");
    assert_eq!(external_id_from("other", "ref-x"), "x");
    assert_eq!(external_id_from("other", "x"), "x");
    assert_eq!(refund_outbox_id("refund:e", "ref-x"), "outbox:refund:e");
}

#[test]
fn whole_satoshis_only() {
    assert_eq!(parse_whole_sat(&mint_bolt11(500_000, "m", 1, 9)), Ok(500));
    assert_eq!(
        parse_whole_sat(&mint_bolt11(500_001, "m", 1, 9)).unwrap_err(),
        "bolt11 amount 500001 msat is not a whole number of sats"
    );
    assert!(parse_whole_sat("junk").unwrap_err().starts_with("bolt11 parse error: "));
}

#[test]
fn quotes() {
    assert!(matches!(net_cap(Ok(5)), Ok(5)));
    match net_cap(Ok(0)) {
        Err(PlanError::Permanent(m)) => assert!(m.contains("below the network fee")),
        other => panic!("{other:?}"),
    }
    match net_cap(Err("down".into())) {
        Err(PlanError::Transient(m)) => assert_eq!(m, "refund fee quote failed: down"),
        other => panic!("{other:?}"),
    }
}

#[test]
fn cap_that_overflows_millisatoshis_is_parked() {
    let mut t = seeded(Some(LN_ADDR), Some(i64::MAX));
    let (mut p, mut r) = (TestPayment::default(), TestResolver::pass_through());
    assert_eq!(drive(&mut t, &mut p, &mut r, 1_000).0.failed, 1);
    match &t.outbox[1].payload {
        Payload::OperatorAlert(d) => assert!(d.contains("sat overflows u64 msats"), "{d}"),
        other => panic!("{other:?}"),
    }
}

#[test]
fn provenance_words() {
    let words = |r, a| match verify_refund_provenance(r, a, "e") {
        ProvenanceCheck::Received(n) => format!("{n}"),
        ProvenanceCheck::Forbidden(m) => m,
    };
    let head = "refund without matching received payment — forbidden: ";
    assert_eq!(words(Some(5), Some(5)), "5");
    assert_eq!(words(None, Some(5)), format!("{head}no received-payment provenance for e"));
    assert_eq!(
        words(Some(0), Some(0)),
        format!("{head}provenance for e has a non-positive received amount")
    );
    assert_eq!(words(Some(5), Some(4)), format!("{head}refund amount 4 != received 5 for e"));
    assert_eq!(
        words(Some(5), None),
        format!("{head}refund row has no amount but 5 was received for e")
    );
}

#[test]
fn pending_rows_come_oldest_first_and_then_by_id() {
    let mut t = Tables::empty();
    for (id, at) in [("ref-c", Some(5)), ("ref-b", Some(5)), ("ref-a", Some(9)), ("ref-d", None)] {
        seed_bare(&mut t, None, None);
        let r = t.refunds.last_mut().unwrap();
        r.id = Some(id.into());
        r.created_at = at;
    }
    t.refunds.last_mut().unwrap().status = RefundStatus::Pending;
    let ids: Vec<String> = pending_refunds(&t).unwrap().into_iter().map(|r| r.id).collect();
    assert_eq!(ids, vec!["ref-d", "ref-b", "ref-c", "ref-a"]);
    t.refunds[0].id = None;
    assert!(pending_refunds(&t).is_none());
    t.refunds[0].status = RefundStatus::Sent;
    assert_eq!(pending_refunds(&t).unwrap().len(), 3);
}

#[test]
fn timed_out_resolution_is_retried() {
    let t = seeded(Some(LN_ADDR), Some(500));
    let row = pending_refunds(&t).unwrap().remove(0);
    let d = Drain::start(&row, Some(500), 1_000)
        .step(DrainEvent::Answer(PlanEvent::Quote(Ok(490))))
        .step(DrainEvent::Answer(PlanEvent::ResolutionTimedOut));
    match d.ask() {
        DrainAsk::Commit(Commit::Retry { reason }) => {
            assert_eq!(reason, "refund resolution exceeded the 60s per-row deadline")
        }
        other => panic!("{other:?}"),
    }
    // An answer that was not asked for leads nowhere.
    let d = Drain::start(&row, Some(500), 1_000).step(DrainEvent::Paid(Ok("x".into())));
    assert!(matches!(d.ask(), DrainAsk::Plan(PlanAsk::Quote { gross: 500 })));
}

#[test]
fn commits_of_a_row_that_is_no_longer_pending_do_nothing() {
    let mut t = seeded(Some(LN_ADDR), Some(500));
    let row = pending_refunds(&t).unwrap().remove(0);
    t.refunds[0].status = RefundStatus::Sent;
    assert!(!commit_sent(&mut t, &row, None, 1, 9));
    assert_eq!(commit_park_failed(&mut t, &row, 1, None, 9), Outcome::Noop);
    assert_eq!(commit_pay_failure(&mut t, &row, 1, None, 9, true), Outcome::Noop);
    assert_eq!(commit_resolution_retry(&mut t, &row, 9), Outcome::Noop);
    assert!(t.outbox.is_empty() && t.events.is_empty());
    assert_eq!(t.refunds[0].updated_at, Some(0));
}

#[test]
fn decisions_are_recorded_each_in_its_own_way() {
    let fresh = || {
        let t = seeded(Some(LN_ADDR), Some(500));
        let row = pending_refunds(&t).unwrap().remove(0);
        (t, row)
    };
    let (mut t, row) = fresh();
    let sent = Commit::Sent { backend_payment_id: Some("p1".into()), pay_sat: 490 };
    assert_eq!(parked_reason(&sent), None);
    assert_eq!(record(&mut t, &row, sent, None, 9), Outcome::Sent);
    assert_eq!(t.refunds[0].status, RefundStatus::Sent);
    assert_eq!(t.refunds[0].backend_payment_id.as_deref(), Some("p1"));

    let (mut t, row) = fresh();
    let park = Commit::Park { amount: 500, reason: "no destination".into() };
    assert_eq!(parked_reason(&park).as_deref(), Some("no destination"));
    assert_eq!(record(&mut t, &row, park, None, 9), Outcome::Failed);
    assert_eq!(t.refunds[0].status, RefundStatus::Failed);

    let (mut t, row) = fresh();
    t.refunds[0].attempts = Some(MAX_REFUND_ATTEMPTS - 1);
    let ambiguous = Commit::PayFailure { amount: 500, definite: false };
    assert_eq!(parked_reason(&ambiguous), Some(exhausted_reason()));
    assert_eq!(record(&mut t, &row, ambiguous, None, 9), Outcome::Retried);
    is(&t, RefundStatus::Pending, MAX_REFUND_ATTEMPTS);
    let definite = Commit::PayFailure { amount: 500, definite: true };
    assert_eq!(record(&mut t, &row, definite, None, 9), Outcome::Failed);

    let (mut t, row) = fresh();
    let retry = Commit::Retry { reason: "offline".into() };
    assert_eq!(parked_reason(&retry), None);
    assert_eq!(record(&mut t, &row, retry, None, 9), Outcome::Retried);
    is(&t, RefundStatus::Pending, 0);

    let events = t.events.len();
    assert_eq!(record(&mut t, &row, Commit::Nothing, None, 9), Outcome::Noop);
    assert_eq!(t.events.len(), events);
}

#[test]
fn full_counter_of_another_refund_holds_nothing_up() {
    let mut t = seeded(Some(LN_ADDR), Some(500));
    let row = pending_refunds(&t).unwrap().remove(0);
    let mut other = t.refunds[0].clone();
    other.id = Some("ref-other".into());
    other.idempotency_key = "refund:other".into();
    other.attempts = Some(i64::MAX);
    t.refunds.push(other);
    let park = Commit::Park { amount: 500, reason: "x".into() };
    assert_eq!(record(&mut t, &row, park, None, 9), Outcome::Failed);
    assert_eq!(t.refunds[1].attempts, Some(i64::MAX));
    let full = pending_refunds(&t).unwrap().remove(0);
    assert_eq!(commit_resolution_retry(&mut t, &full, 10), Outcome::Retried);
    let resolved = Resolved { bolt11: "ln1".into(), expiry: 5 };
    assert!(persist_resolution(&mut t, &full.id, resolved, 1, 11));
    assert_eq!(t.refunds[1].attempts, Some(i64::MAX));
}

#[test]
fn receipts_that_cannot_be_read_leave_the_amount_open() {
    let mut t = seeded(Some(LN_ADDR), Some(500));
    t.events.push(Event {
        id: 1,
        subscription_id: None,
        kind: EventKind::SettleOrphanRefund,
        detail: EventDetail::Raw("{".into()),
        at: None,
    });
    // An invoice decides by itself.
    assert_eq!(lookup_received_amount(&t, "order:sub-1"), Ok(Some(500)));
    assert_eq!(lookup_received_amount(&t, "other"), Err(ReceiptError::Unreadable));
    t.events.clear();
    assert_eq!(lookup_received_amount(&t, "other"), Ok(None));
}

#[test]
fn odd_amount_only_holds_up_the_receipt_that_has_it() {
    let mut t = seeded(Some(LN_ADDR), Some(500));
    for (id, ext, amount, whole) in
        [(1, "odd", 5, false), (2, "even", 6, true), (3, "odd", 7, true), (4, "even", 8, false)]
    {
        t.events.push(Event {
            id,
            subscription_id: None,
            kind: EventKind::SettleUnmatchedRefund,
            detail: EventDetail::Settlement {
                receipt: Some(ext.into()),
                amount_sat: Some(amount),
                whole,
            },
            at: None,
        });
    }
    assert_eq!(lookup_received_amount(&t, "odd"), Err(ReceiptError::NotWhole));
    assert_eq!(lookup_received_amount(&t, "even"), Ok(Some(6)));
    assert_eq!(lookup_received_amount(&t, "other"), Ok(None));
    assert_eq!(lookup_received_amount(&t, "order:sub-1"), Ok(Some(500)));
}
