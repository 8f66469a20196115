use ttl_legacy::insurance::{
    decode_time, insurance_row, policy_from_row, time_text, InsuranceRow, RowError,
    TtlInsurancePolicy,
};
use ttl_legacy::models::Timestamp;

fn at(secs: i64) -> Timestamp {
    Timestamp { secs, nanos: 0 }
}

#[test]
fn stored_policy_reads_back() {
    let p = TtlInsurancePolicy {
        vault_id: u64::MAX,
        extension_seconds: 3_600,
        inactivity_threshold_seconds: 86_400,
        enabled: true,
        purchased_at: at(1_700_000_000),
        last_extended_at: Some(Timestamp { secs: 1_700_003_600, nanos: 123_000_000 }),
    };
    let row = insurance_row(&p).unwrap();
    assert_eq!(row.vault_id, -1);
    assert_eq!(row.enabled, 1);
    assert_eq!(row.purchased_at, "2023-11-14T22:13:20+00:00");
    assert_eq!(row.last_extended_at.as_deref(), Some("2023-11-14T23:13:20.123+00:00"));
    assert_eq!(policy_from_row(&row), Ok(p));
    let q = TtlInsurancePolicy { enabled: false, last_extended_at: None, ..p };
    let row = insurance_row(&q).unwrap();
    assert_eq!(row.enabled, 0);
    assert!(row.last_extended_at.is_none());
    assert_eq!(policy_from_row(&row), Ok(q));
}

#[test]
fn unreadable_time_is_refused() {
    let row = InsuranceRow {
        vault_id: 1,
        extension_seconds: 2,
        inactivity_threshold_seconds: 3,
        enabled: 7,
        purchased_at: "yesterday".to_string(),
        last_extended_at: None,
    };
    assert_eq!(policy_from_row(&row), Err(RowError::InvalidTimestamp));
    let row = InsuranceRow {
        purchased_at: "2024-01-01T00:00:00Z".to_string(),
        last_extended_at: Some("2024-13-01T00:00:00Z".to_string()),
        ..row
    };
    assert_eq!(policy_from_row(&row), Err(RowError::InvalidTimestamp));
    let row = InsuranceRow { last_extended_at: Some("2024-01-01T01:00:00+01:00".to_string()), ..row };
    let p = policy_from_row(&row).unwrap();
    assert!(p.enabled);
    assert_eq!(p.purchased_at, at(1_704_067_200));
    assert_eq!(p.last_extended_at, Some(at(1_704_067_200)));
}

#[test]
fn times_outside_chrono_range_have_no_row() {
    assert!(time_text(at(i64::MAX)).is_none());
    let p = TtlInsurancePolicy {
        vault_id: 1,
        extension_seconds: 1,
        inactivity_threshold_seconds: 1,
        enabled: true,
        purchased_at: at(0),
        last_extended_at: Some(at(i64::MIN)),
    };
    assert!(insurance_row(&p).is_none());
    assert_eq!(time_text(at(0)).unwrap(), "1970-01-01T00:00:00+00:00");
    assert_eq!(decode_time("1970-01-01T00:00:10+00:00"), Ok(at(10)));
    assert_eq!(
        decode_time("1970-01-01T00:00:10.000000500Z"),
        Ok(Timestamp { secs: 10, nanos: 500 })
    );
    assert!(time_text(Timestamp { secs: 0, nanos: 1_000_000_000 }).is_none());
}
