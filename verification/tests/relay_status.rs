use lnrentd::relay_status::{
    all_disconnected, blackout_detail, blackout_subject, project, RelayBlackoutMonitor,
    RelayStatusCell, RelayStatusRow, RELAY_BLACKOUT_ALERT_S,
};

fn row(url: &str, connected: bool, last: Option<i64>) -> RelayStatusRow {
    RelayStatusRow {
        url: url.to_string(),
        connected,
        status: if connected { "Connected" } else { "Disconnected" }.to_string(),
        last_connected_at: last,
    }
}

#[test]
fn project_maps_pool_fields_and_never_connected_is_none() {
    let connected = project("wss://a".into(), "Connected", true, 1000);
    assert_eq!(
        connected,
        RelayStatusRow {
            url: "wss://a".into(),
            connected: true,
            status: "Connected".into(),
            last_connected_at: Some(1000),
        }
    );
    let fresh = project("wss://b".into(), "Pending", false, 0);
    assert_eq!(fresh.last_connected_at, None);
    assert!(!fresh.connected);
    assert_eq!(fresh.status, "Pending");
}

#[test]
fn all_disconnected_predicate() {
    assert!(!all_disconnected(&[]), "empty pool is never a blackout");
    assert!(!all_disconnected(&[row("a", true, Some(1)), row("b", false, None)]));
    assert!(all_disconnected(&[row("a", false, Some(1)), row("b", false, None)]));
}

#[test]
fn monitor_fires_once_per_onset_after_threshold_and_rearms() {
    let mut m = RelayBlackoutMonitor::new();
    let down = [row("a", false, Some(100)), row("b", false, None)];
    let up = [row("a", true, Some(100)), row("b", false, None)];

    assert!(!m.observe(&down, 1000), "onset alone does not fire");
    assert!(
        !m.observe(&down, 1000 + RELAY_BLACKOUT_ALERT_S - 1),
        "one second short of the threshold does not fire"
    );
    assert!(
        m.observe(&down, 1000 + RELAY_BLACKOUT_ALERT_S),
        "fires once the pool has been dark for the threshold"
    );
    assert!(
        !m.observe(&down, 1000 + RELAY_BLACKOUT_ALERT_S + 60),
        "does not re-fire for the same onset"
    );

    assert!(!m.observe(&up, 2000));
    assert!(!m.observe(&down, 3000), "new onset, not yet past threshold");
    assert!(
        m.observe(&down, 3000 + RELAY_BLACKOUT_ALERT_S),
        "the next onset re-alerts after reconnect"
    );
}

#[test]
fn empty_pool_never_fires() {
    let mut m = RelayBlackoutMonitor::new();
    assert!(!m.observe(&[], 1_000_000));
    assert!(!m.observe(&[], 1_000_000 + RELAY_BLACKOUT_ALERT_S * 10));
}

#[test]
fn relay_times_past_the_signed_range_wrap() {
    assert_eq!(project("a".into(), "x", true, u64::MAX).last_connected_at, Some(-1));
    assert_eq!(
        project("a".into(), "x", true, i64::MAX as u64).last_connected_at,
        Some(i64::MAX)
    );
}

#[test]
fn status_cell_holds_the_last_snapshot() {
    let mut cell = RelayStatusCell::new();
    assert!(cell.get().is_empty());
    cell.set(vec![row("a", true, Some(1))]);
    cell.set(vec![row("b", false, None), row("c", true, Some(2))]);
    assert_eq!(cell.get(), vec![row("b", false, None), row("c", true, Some(2))]);
}

#[test]
fn relay_blackout_alert_is_edge_triggered_and_re_alerts_per_onset() {
    let mut m = RelayBlackoutMonitor::new();
    let down = [row("wss://a", false, None)];
    let up = [row("wss://a", true, Some(5))];
    assert!(!m.onset_due(&down, 10_000));
    // The alert that could not be queued is due again at the next look.
    assert!(m.onset_due(&down, 10_000 + RELAY_BLACKOUT_ALERT_S));
    assert!(m.onset_due(&down, 10_000 + RELAY_BLACKOUT_ALERT_S + 30));
    assert_eq!(blackout_subject(m.onset().unwrap()), "relay-pool@10000");
    m.mark_fired();
    assert!(!m.onset_due(&down, 10_000 + RELAY_BLACKOUT_ALERT_S + 60));
    assert!(!m.onset_due(&up, 20_000));
    assert_eq!(m.onset(), None);
    assert!(!m.onset_due(&down, 30_000));
    assert!(m.onset_due(&down, 30_000 + RELAY_BLACKOUT_ALERT_S));
    assert_eq!(blackout_subject(m.onset().unwrap()), "relay-pool@30000");
}

#[test]
fn blackout_detail_names_the_pool_size_and_the_threshold() {
    let d = blackout_detail(3);
    assert!(d.starts_with(
        "all 3 configured relay(s) have been disconnected for over 15min. "
    ));
    assert!(d.contains("lnrent relays"));
}

#[test]
fn defaults_have_seen_nothing() {
    assert!(RelayStatusCell::default().get().is_empty());
    let mut m = RelayBlackoutMonitor::default();
    assert_eq!(m.onset(), None);
    let down = row("wss://a", false, None);
    assert!(!m.observe(std::slice::from_ref(&down), 5));
    assert_eq!(m.onset(), Some(5));
}
