use lnrentd::documents::{cleanup_id, count_of, detail_of, receipt_detail, ReceiptMembers, Stored};
use lnrentd::tables::{Count, EventDetail, EventKind};

fn read(external_id: Stored, amount_sat: Stored, amount_cast: Option<i64>) -> (Option<String>, Option<i64>, bool) {
    match receipt_detail(ReceiptMembers { external_id, amount_sat, amount_cast }) {
        EventDetail::Settlement { receipt, amount_sat, whole } => (receipt, amount_sat, whole),
        other => panic!("{other:?}"),
    }
}

#[test]
fn receipts_are_read_from_their_members() {
    let e1 = || Stored::Text("e1".into());
    assert_eq!(read(e1(), Stored::Integer(500), Some(500)), (Some("e1".into()), Some(500), true));
    assert_eq!(read(e1(), Stored::Integer(-3), Some(-3)), (Some("e1".into()), Some(-3), true));
    assert_eq!(read(e1(), Stored::Null, None), (Some("e1".into()), None, true));
    assert_eq!(read(e1(), Stored::Text("5x".into()), Some(5)), (Some("e1".into()), Some(5), false));
    assert_eq!(read(e1(), Stored::Other, Some(1)), (Some("e1".into()), Some(1), false));
    assert_eq!(read(Stored::Integer(7), Stored::Integer(5), Some(5)), (None, Some(5), true));
    assert_eq!(read(Stored::Null, Stored::Null, None), (None, None, true));
}

#[test]
fn receipts_that_cannot_be_read_stay_as_they_are() {
    match detail_of(EventKind::SettleOrphanRefund, Some("{".into()), None) {
        EventDetail::Raw(raw) => assert_eq!(raw, "{"),
        other => panic!("{other:?}"),
    }
    let none = ReceiptMembers { external_id: Stored::Null, amount_sat: Stored::Null, amount_cast: None };
    let d = detail_of(EventKind::SettleExpiredRefund, None, Some(none));
    assert!(matches!(d, EventDetail::Settlement { receipt: None, amount_sat: None, whole: true }));
}

#[test]
fn cleanup_is_told_by_its_very_text() {
    assert_eq!(cleanup_id(r#"{"pending_event_id":42}"#), Some(42));
    assert_eq!(cleanup_id(r#"{"pending_event_id":-1}"#), Some(-1));
    assert_eq!(cleanup_id(r#"{"pending_event_id":9223372036854775807}"#), Some(i64::MAX));
    for text in [
        "",
        r#"{"pending_event_id":"#,
        r#"{"pending_event_id":}"#,
        r#"{"pending_event_id": 42}"#,
        r#"{"pending_event_id":042}"#,
        r#"{"pending_event_id":+42}"#,
        r#"{"pending_event_id":42}}"#,
        r#"{"pending_event_id":9223372036854775808}"#,
    ] {
        assert_eq!(cleanup_id(text), None, "{text}");
    }
    let done = detail_of(EventKind::ProvisionCleanupDone, Some(r#"{"pending_event_id":42}"#.into()), None);
    assert!(matches!(done, EventDetail::CleanupDone { pending_event_id: 42 }));
    let other = detail_of(EventKind::ProvisionCleanupDone, Some("{}".into()), None);
    assert!(matches!(other, EventDetail::Raw(x) if x == "{}"));
}

#[test]
fn other_documents_stay_as_they_are() {
    let d = detail_of(EventKind::RenewResume, Some("not json".into()), None);
    assert!(matches!(d, EventDetail::Raw(x) if x == "not json"));
    assert!(matches!(detail_of(EventKind::Other, None, None), EventDetail::Raw(x) if x.is_empty()));
}

#[test]
fn counts_are_whole_numbers_or_odd() {
    assert_eq!(count_of(Some(Stored::Null)), Count::Number(0));
    assert_eq!(count_of(Some(Stored::Integer(-1))), Count::Number(-1));
    assert_eq!(count_of(Some(Stored::Integer(2))), Count::Number(2));
    assert_eq!(count_of(Some(Stored::Other)), Count::Odd);
    assert_eq!(count_of(Some(Stored::Text("5".into()))), Count::Odd);
    assert_eq!(count_of(None), Count::Odd);
}
