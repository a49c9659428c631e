use lnrentd::resume::{
    after_try, drive_step, driven_count, fail_to_suspended_refund, lifecycle_input, load_target,
    mark_active, parse_renew_resume_baseline, pending_renew_resumes, resuming_ids,
    validate_renewals, BaselineError, DriveStep, HookStep, RenewResumeBaseline, ResumeError,
    ResumeFailureWrite, ResumeOutcome,
};
use lnrentd::tables::{
    Count, Event, EventDetail, EventKind, HoldState, Holding, Instance, RefundStatus, Reservation,
    SubState, Subscription, Tables,
};

fn seeded(state: SubState) -> Tables {
    let mut t = Tables::empty();
    t.subscriptions.push(Subscription {
        id: "s1".into(),
        recipe_id: Some("vps".into()),
        instance_id: Some("n1".into()),
        buyer_pubkey: Some("buyer".into()),
        state,
        refund_dest: Some("u@example.com".into()),
        renew_lead_s: Some(100),
        retention_s: Some(1_000),
        paid_through: Some(9_000),
        soft_date: Some(8_900),
        next_deadline: Some(9_000),
        suspend_not_before: None,
        updated_at: Some(1),
    });
    t.instances.push(Instance {
        id: "n1".into(),
        subscription_id: Some("s1".into()),
        box_id: Some("box-0".into()),
        kind: Some("vm".into()),
        handles_json: Some(r#"{"ip":"203.0.113.9"}"#.into()),
        state: Some("RUNNING".into()),
        updated_at: Some(1),
    });
    t.reservations.push(Reservation {
        id: "r1".into(),
        order_id: "s1".into(),
        holding: Holding {
            cpu: Count::Number(1),
            mem_mb: Count::Number(1),
            disk_gb: Count::Number(1),
            ports: Count::Number(0),
        },
        state: HoldState::Consumed,
        expires_at: None,
        created_at: None,
    });
    t
}

fn renewed(t: &mut Tables, ext: &str, amount: i64, paid_through: &str, floor: &str) {
    let raw = format!(
        r#"{{"external_id":"{ext}","amount_sat":{amount},"previous_paid_through":{paid_through},"previous_suspend_not_before":{floor}}}"#
    );
    journal(t, EventKind::RenewResume, EventDetail::Raw(raw));
}

fn journal(t: &mut Tables, kind: EventKind, detail: EventDetail) {
    t.events.push(Event {
        id: t.next_event_id,
        subscription_id: Some("s1".into()),
        kind,
        detail,
        at: Some(5),
    });
    t.next_event_id += 1;
}

#[test]
fn resume_success_makes_active_once() {
    let mut t = seeded(SubState::Resuming);
    assert_eq!(mark_active(&mut t, "s1", 50), ResumeOutcome::Active);
    assert_eq!(t.subscriptions[0].state, SubState::Active);
    assert_eq!(t.subscriptions[0].updated_at, Some(50));
    assert_eq!(t.subscriptions[0].paid_through, Some(9_000));
    assert_eq!(t.events[0].kind, EventKind::ResumeActive);
    assert_eq!(mark_active(&mut t, "s1", 60), ResumeOutcome::Skipped);
    assert_eq!(t.events.len(), 1);
    assert_eq!(mark_active(&mut t, "other", 60), ResumeOutcome::Skipped);
}

#[test]
fn resume_failure_restores_timers_and_refunds_every_renewal() {
    let mut t = seeded(SubState::Resuming);
    renewed(&mut t, "renew:1", 500, "2000", "2300");
    renewed(&mut t, "renew:2", 600, "4000", "null");
    let target = load_target(&t, "s1").unwrap();
    let out = fail_to_suspended_refund(&mut t, "s1", &target, 77).unwrap();
    assert_eq!(out, ResumeOutcome::SuspendedRefundPending);

    let s = &t.subscriptions[0];
    assert_eq!(s.state, SubState::Suspended);
    assert_eq!(s.paid_through, Some(2_000));
    assert_eq!(s.soft_date, Some(1_900));
    assert_eq!(s.next_deadline, Some(3_300), "from the later of the two, the floor");
    assert_eq!(s.suspend_not_before, Some(2_300));
    assert_eq!(s.updated_at, Some(77));

    assert_eq!(t.refunds.len(), 2);
    for (r, (ext, amount)) in t.refunds.iter().zip([("renew:1", 500), ("renew:2", 600)]) {
        assert_eq!(r.id, Some(format!("ref-{ext}")));
        assert_eq!(r.idempotency_key, format!("refund:{ext}"));
        assert_eq!(r.amount_sat, Some(amount));
        assert_eq!(r.status, RefundStatus::Pending);
        assert_eq!(r.dest.as_deref(), Some("u@example.com"));
        assert_eq!((r.attempts, r.resolution_gen, r.created_at), (Some(0), 0, Some(77)));
    }
    let last = t.events.last().unwrap();
    assert_eq!(last.kind, EventKind::ResumeFailed);
    match &last.detail {
        EventDetail::ResumeFailed { external_ids, refund_ids } => {
            assert_eq!(external_ids, &vec!["renew:1".to_string(), "renew:2".to_string()]);
            assert_eq!(refund_ids, &vec!["ref-renew:1".to_string(), "ref-renew:2".to_string()]);
        }
        other => panic!("{other:?}"),
    }
    // The instance and the reservation are left alone.
    assert_eq!(t.instances.len(), 1);
    assert_eq!(t.reservations[0].state, HoldState::Consumed);

    // What was resolved is not refunded again.
    assert!(pending_renew_resumes(&t, "s1").unwrap().is_empty());
    match fail_to_suspended_refund(&mut t, "s1", &target, 88) {
        Err(ResumeError::Renewals(m)) => assert_eq!(
            m,
            "resume: RESUMING sub `s1` has no renew_resume journal baseline"
        ),
        other => panic!("{other:?}"),
    }
    assert_eq!(t.refunds.len(), 2);
}

#[test]
fn refund_that_is_in_the_ledger_is_not_added_again() {
    let mut t = seeded(SubState::Resuming);
    renewed(&mut t, "renew:1", 500, "2000", "null");
    renewed(&mut t, "renew:1", 500, "2000", "null");
    let target = load_target(&t, "s1").unwrap();
    fail_to_suspended_refund(&mut t, "s1", &target, 77).unwrap();
    assert_eq!(t.refunds.len(), 1);
    t.refunds[0].status = RefundStatus::Sent;
    t.subscriptions[0].state = SubState::Resuming;
    renewed(&mut t, "renew:1", 500, "2000", "null");
    fail_to_suspended_refund(&mut t, "s1", &target, 99).unwrap();
    assert_eq!(t.refunds.len(), 1);
    assert_eq!(t.refunds[0].status, RefundStatus::Sent);
}

#[test]
fn resume_failure_that_lost_the_race_changes_nothing() {
    let mut t = seeded(SubState::Active);
    renewed(&mut t, "renew:1", 500, "2000", "null");
    let target = load_target(&t, "s1").unwrap();
    let out = fail_to_suspended_refund(&mut t, "s1", &target, 77).unwrap();
    assert_eq!(out, ResumeOutcome::Skipped);
    assert!(t.refunds.is_empty());
    assert_eq!(t.events.len(), 1);
    assert_eq!(t.subscriptions[0].state, SubState::Active);
    let w = ResumeFailureWrite::new("s1", &target, 77);
    let b = pending_renew_resumes(&t, "s1").unwrap();
    assert!(!w.write(&mut t, &b));
}

#[test]
fn timers_of_a_renewal_without_a_past() {
    let mut t = seeded(SubState::Resuming);
    renewed(&mut t, "renew:1", 500, "null", "null");
    let target = load_target(&t, "s1").unwrap();
    fail_to_suspended_refund(&mut t, "s1", &target, 77).unwrap();
    let s = &t.subscriptions[0];
    assert_eq!((s.paid_through, s.soft_date, s.next_deadline), (None, None, None));
}

#[test]
fn timers_out_of_range_are_refused() {
    let mut t = seeded(SubState::Resuming);
    renewed(&mut t, "renew:1", 500, "9223372036854775807", "null");
    let target = load_target(&t, "s1").unwrap();
    assert!(matches!(
        fail_to_suspended_refund(&mut t, "s1", &target, 77),
        Err(ResumeError::Timers)
    ));
    assert_eq!(t.subscriptions[0].state, SubState::Resuming);
}

#[test]
fn baselines_are_read_since_the_last_resolution() {
    let mut t = seeded(SubState::Resuming);
    renewed(&mut t, "old", 1, "1", "null");
    journal(&mut t, EventKind::ResumeActive, EventDetail::Empty);
    journal(&mut t, EventKind::RenewResume, EventDetail::Raw("{}".into()));
    renewed(&mut t, "new", 2, "2", "null");
    let b = pending_renew_resumes(&t, "s1").unwrap();
    let exts: Vec<&str> = b.iter().map(|x| x.external_id.as_str()).collect();
    assert_eq!(exts, vec!["new"]);
    assert!(pending_renew_resumes(&t, "other").unwrap().is_empty());
    journal(&mut t, EventKind::RenewResume, EventDetail::Raw("nope".into()));
    assert!(matches!(
        pending_renew_resumes(&t, "s1"),
        Err(BaselineError::NotJson(_))
    ));
}

#[test]
fn baseline_documents() {
    let ok = parse_renew_resume_baseline(
        r#"{"external_id":"e","previous_paid_through":null,"previous_suspend_not_before":5}"#,
    )
    .unwrap()
    .unwrap();
    assert_eq!((ok.external_id.as_str(), ok.amount_sat), ("e", None));
    assert_eq!(ok.previous_suspend_not_before, Some(5));
    for raw in [
        "[]",
        "{}",
        r#"{"external_id":"e","previous_paid_through":1}"#,
        r#"{"external_id":"e","previous_suspend_not_before":1}"#,
    ] {
        assert!(parse_renew_resume_baseline(raw).unwrap().is_none(), "{raw}");
    }
    for (raw, member) in [
        (r#"{"previous_paid_through":1,"previous_suspend_not_before":1}"#, "external_id"),
        (
            r#"{"external_id":"e","amount_sat":"5","previous_paid_through":1,"previous_suspend_not_before":1}"#,
            "amount_sat",
        ),
        (
            r#"{"external_id":"e","previous_paid_through":1.5,"previous_suspend_not_before":1}"#,
            "previous_paid_through",
        ),
    ] {
        match parse_renew_resume_baseline(raw) {
            Err(BaselineError::BadMember(m)) => assert_eq!(m, member),
            other => panic!("{other:?}"),
        }
    }
}

#[test]
fn renewals_need_an_external_id() {
    let b = |ext: &str| RenewResumeBaseline {
        external_id: ext.into(),
        amount_sat: None,
        previous_paid_through: None,
        previous_suspend_not_before: None,
    };
    assert!(validate_renewals("s", &vec![b("x")]).is_ok());
    assert_eq!(
        validate_renewals("s", &vec![b("x"), b(" \t")]).unwrap_err(),
        "resume: RESUMING sub `s` has an empty renewal external_id"
    );
    assert!(validate_renewals("s", &vec![]).is_err());
}

#[test]
fn only_this_recipes_waiting_subscriptions_are_driven() {
    let mut t = seeded(SubState::Resuming);
    let mut other = t.subscriptions[0].clone();
    other.id = "s2".into();
    other.recipe_id = Some("other".into());
    t.subscriptions.push(other);
    let mut lost = t.subscriptions[0].clone();
    lost.id = "s3".into();
    lost.instance_id = Some("gone".into());
    t.subscriptions.push(lost);
    let mut done = t.subscriptions[0].clone();
    done.id = "s4".into();
    done.state = SubState::Active;
    t.subscriptions.push(done);
    assert_eq!(resuming_ids(&t, "vps"), vec!["s1", "s3"]);
    assert_eq!(drive_step(&load_target(&t, "s1"), "vps"), DriveStep::RunHook);
    assert_eq!(drive_step(&load_target(&t, "s2"), "vps"), DriveStep::Skip);
    assert_eq!(drive_step(&load_target(&t, "s3"), "vps"), DriveStep::Fail);
    assert_eq!(drive_step(&load_target(&t, "s4"), "vps"), DriveStep::Skip);
    assert_eq!(drive_step(&load_target(&t, "none"), "vps"), DriveStep::Skip);
}

#[test]
fn hook_is_tried_three_times() {
    assert_eq!(after_try(1, false), HookStep::RetryAfter(250));
    assert_eq!(after_try(2, false), HookStep::RetryAfter(250));
    assert_eq!(after_try(3, false), HookStep::GiveUp);
    assert_eq!(after_try(3, true), HookStep::Succeeded);
    let outs = vec![
        ResumeOutcome::Active,
        ResumeOutcome::Skipped,
        ResumeOutcome::SuspendedRefundPending,
    ];
    assert_eq!(driven_count(&outs), 2);
}

#[test]
fn hook_is_told_the_instance_and_its_handles() {
    let mut t = seeded(SubState::Resuming);
    let target = load_target(&t, "s1").unwrap();
    assert_eq!((target.renew_lead_s, target.retention_s), (100, 1_000));
    let i = lifecycle_input("s1", &target.buyer_hex, target.instance.as_ref().unwrap());
    assert_eq!((i.subscription_id.as_str(), i.buyer_pubkey.as_str()), ("s1", "buyer"));
    assert_eq!((i.instance_id.as_str(), i.kind.as_deref()), ("n1", Some("vm")));
    assert_eq!(i.handles_json.as_deref(), Some(r#"{"ip":"203.0.113.9"}"#));
    t.instances[0].handles_json = Some("not json".into());
    let target = load_target(&t, "s1").unwrap();
    let i = lifecycle_input("s1", "b", target.instance.as_ref().unwrap());
    assert_eq!(i.handles_json, None);
}
