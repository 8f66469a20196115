use ttl_legacy::handlers::{
    compare_vaults_handler, export_compliance_report, export_vaults_handler,
    generate_compliance_report, search_vaults_handler, ExportOutput, ReportOutput,
};
use ttl_legacy::models::{
    AuditEntry, ComplianceReport, EventType, SearchQuery, Timestamp, Vault, VaultBackup, VaultEvent,
    VaultNotificationPreferences, VaultShare, VaultStatus, Locale,
};
use ttl_legacy::store::{
    add_vault_share, create_audit_store, create_backup_store, create_event_store,
    create_notification_store, create_share_store, create_vault_store, get_backup,
    get_notification_preferences, get_vault_audit_log, get_vault_history, get_vault_shares,
    search_vaults, set_notification_preferences, store_backup,
};
use ttl_legacy::analytics::compute_vault_analytics;
use ttl_legacy::outside::now_timestamp;

fn at(secs: i64) -> Timestamp {
    Timestamp { secs, nanos: 0 }
}

fn vault(id: &str, owner: &str, balance: i128, interval: u64, ttl: u64) -> Vault {
    let now = now_timestamp();
    Vault {
        id: id.to_string(),
        owner: owner.to_string(),
        beneficiary: "ben1".to_string(),
        balance,
        check_in_interval: interval,
        last_check_in: now,
        created_at: now,
        status: VaultStatus::Active,
        ttl_remaining: Some(ttl),
    }
}

fn owner_query(owner: &str, page: Option<u32>, limit: Option<u32>) -> SearchQuery {
    SearchQuery {
        owner: Some(owner.to_string()),
        beneficiary: None,
        status: None,
        created_after: None,
        created_before: None,
        page,
        limit,
    }
}

fn event(vault_id: &str, event_type: EventType, secs: i64, data: &str) -> VaultEvent {
    VaultEvent {
        vault_id: vault_id.to_string(),
        event_type,
        timestamp: at(secs),
        data: data.to_string(),
    }
}

#[test]
fn test_search_vaults_by_owner() {
    let mut store = create_vault_store();
    store.insert("v1".to_string(), vault("v1", "owner1", 1000, 86400, 100000));
    let query = owner_query("owner1", None, None);
    let result = search_vaults(&store, &query);
    assert_eq!(result.vaults.len(), 1);
    assert_eq!(result.total, 1);
}

#[test]
fn test_search_vaults_pagination() {
    let mut store = create_vault_store();
    for i in 0..25 {
        store.insert(format!("v{}", i), vault(&format!("v{}", i), "owner1", 1000, 86400, 100000));
    }
    let query = owner_query("owner1", Some(2), Some(10));
    let result = search_vaults(&store, &query);
    assert_eq!(result.vaults.len(), 10);
    assert_eq!(result.total, 25);
    assert_eq!(result.page, 2);
}

#[test]
fn search_filters_and_last_page() {
    let mut store = create_vault_store();
    for i in 0..25 {
        let owner = if i % 2 == 0 { "even" } else { "odd" };
        store.insert(format!("v{}", i), vault(&format!("v{}", i), owner, 1000, 86400, 100000));
    }
    let result = search_vaults(&store, &owner_query("even", Some(2), Some(10)));
    assert_eq!(result.total, 13);
    assert_eq!(result.vaults.len(), 3);
    assert!(result.vaults.iter().all(|v| v.owner == "even"));
    assert_eq!(result.limit, 10);
    let beyond = search_vaults(&store, &owner_query("even", Some(5), Some(10)));
    assert!(beyond.vaults.is_empty());
    assert_eq!(beyond.total, 13);
    let none = search_vaults(&store, &owner_query("nobody", None, None));
    assert_eq!(none.total, 0);
}

#[test]
fn test_search_vaults_handler() {
    let mut store = create_vault_store();
    store.insert("v1".to_string(), vault("v1", "owner1", 1000, 86400, 100000));
    let result = search_vaults_handler(&store, owner_query("owner1", None, None));
    assert_eq!(result.vaults.len(), 1);
}

#[test]
fn test_compare_vaults_handler() {
    let mut store = create_vault_store();
    store.insert("v1".to_string(), vault("v1", "owner1", 1000, 86400, 100000));
    store.insert("v2".to_string(), vault("v2", "owner2", 2000, 172800, 200000));
    let result = compare_vaults_handler(&store, vec!["v1".to_string(), "v2".to_string()]);
    assert_eq!(result.vaults.len(), 2);
}

#[test]
fn compare_skips_unknown_ids_and_keeps_order() {
    let mut store = create_vault_store();
    store.insert("v1".to_string(), vault("v1", "owner1", 1000, 86400, 100000));
    store.insert("v2".to_string(), vault("v2", "owner2", 2000, 172800, 200000));
    let result = compare_vaults_handler(
        &store,
        vec!["v2".to_string(), "zz".to_string(), "v1".to_string()],
    );
    assert_eq!(result.vaults.len(), 2);
    assert_eq!(result.vaults[0].id, "v2");
    assert_eq!(result.vaults[1].id, "v1");
}

#[test]
fn test_export_vaults_handler_json() {
    let mut store = create_vault_store();
    let event_store = create_event_store();
    let audit_store = create_audit_store();
    store.insert("v1".to_string(), vault("v1", "owner1", 1000, 86400, 100000));
    let result = export_vaults_handler(&store, &event_store, &audit_store, "v1", "json");
    assert!(result.is_ok());
    match result.unwrap() {
        ExportOutput::Json(data) => assert!(data.vault.id.contains("v1")),
        ExportOutput::Text(_) => panic!("expected data for JSON"),
    }
}

#[test]
fn test_export_vaults_handler_csv() {
    let mut store = create_vault_store();
    let event_store = create_event_store();
    let audit_store = create_audit_store();
    store.insert("v1".to_string(), vault("v1", "owner1", 1000, 86400, 100000));
    let result = export_vaults_handler(&store, &event_store, &audit_store, "v1", "csv");
    assert!(result.is_ok());
    match result.unwrap() {
        ExportOutput::Text(csv_str) => assert!(csv_str.contains("v1")),
        ExportOutput::Json(_) => panic!("expected CSV text"),
    }
}

#[test]
fn export_csv_lists_vault_and_events() {
    let mut store = create_vault_store();
    let mut event_store = create_event_store();
    let audit_store = create_audit_store();
    let mut v = vault("v1", "owner1", 1000, 86400, 100000);
    v.created_at = at(0);
    v.last_check_in = at(0);
    store.insert("v1".to_string(), v);
    event_store.events.push(event("v1", EventType::Deposit, 0, "{\"amount\":5}"));
    event_store.events.push(event("v2", EventType::Deposit, 0, "{}"));
    let result = export_vaults_handler(&store, &event_store, &audit_store, "v1", "csv").unwrap();
    let text = match result {
        ExportOutput::Text(t) => t,
        ExportOutput::Json(_) => panic!("expected CSV text"),
    };
    let lines: Vec<&str> = text.lines().collect();
    assert_eq!(lines[0], "Type,ID,Owner,Beneficiary,Balance,Status,Created");
    assert!(lines[1].starts_with("Vault,v1,owner1,ben1,1000,Active,1970-01-01T00:00:00"));
    assert_eq!(lines.len(), 5);
    assert!(lines[4].starts_with("Event,Deposit,1970-01-01T00:00:00"));
}

#[test]
fn export_errors() {
    let mut store = create_vault_store();
    let event_store = create_event_store();
    let audit_store = create_audit_store();
    store.insert("v1".to_string(), vault("v1", "owner1", 1000, 86400, 100000));
    let missing = export_vaults_handler(&store, &event_store, &audit_store, "nope", "json");
    assert_eq!(missing.err().unwrap(), "Vault not found");
    let bad = export_vaults_handler(&store, &event_store, &audit_store, "v1", "xml");
    assert_eq!(bad.err().unwrap(), "Unsupported format");
}

#[test]
fn test_generate_compliance_report() {
    let mut store = create_vault_store();
    let event_store = create_event_store();
    store.insert("v1".to_string(), vault("v1", "owner1", 1000, 86400, 100000));
    let result = generate_compliance_report(&store, &event_store, "v1");
    assert!(result.is_ok());
    let report = result.unwrap();
    assert_eq!(report.vault_id, "v1");
    assert_eq!(report.owner, "owner1");
    assert_eq!(report.current_balance, 1000);
}

#[test]
fn compliance_report_totals_movements() {
    let mut store = create_vault_store();
    let mut event_store = create_event_store();
    store.insert("v1".to_string(), vault("v1", "owner1", 1000, 86400, 100000));
    event_store.events.push(event("v1", EventType::Deposit, 10, "{\"amount\":300}"));
    event_store.events.push(event("v1", EventType::Withdrawal, 20, "{\"amount\":100}"));
    event_store.events.push(event("v1", EventType::Deposit, 30, "{\"amount\":50}"));
    event_store.events.push(event("v1", EventType::TtlUpdate, 40, "{\"ttl_remaining\":77}"));
    event_store.events.push(event("v2", EventType::Deposit, 50, "{\"amount\":9999}"));
    let report = generate_compliance_report(&store, &event_store, "v1").unwrap();
    assert_eq!(report.total_deposits, 350);
    assert_eq!(report.total_withdrawals, 100);
    assert_eq!(report.fund_movements.len(), 3);
    assert_eq!(report.ttl_history.len(), 1);
    assert_eq!(report.ttl_history[0].ttl_remaining, Some(77));
    assert!(generate_compliance_report(&store, &event_store, "v9").is_err());
}

fn sample_report() -> ComplianceReport {
    ComplianceReport {
        vault_id: "v1".to_string(),
        owner: "owner1".to_string(),
        beneficiary: "ben1".to_string(),
        report_generated_at: now_timestamp(),
        fund_movements: vec![],
        beneficiary_changes: vec![],
        ttl_history: vec![],
        total_deposits: 1000,
        total_withdrawals: 0,
        current_balance: 1000,
    }
}

#[test]
fn test_export_compliance_report_json() {
    let report = sample_report();
    let result = export_compliance_report(&report, "json");
    assert!(result.is_ok());
    assert!(matches!(result.unwrap(), ReportOutput::Json));
    assert!(report.vault_id.contains("v1"));
}

#[test]
fn test_export_compliance_report_pdf() {
    let report = sample_report();
    let result = export_compliance_report(&report, "pdf");
    assert!(result.is_ok());
    let pdf_str = match result.unwrap() {
        ReportOutput::Text(t) => t,
        ReportOutput::Json => panic!("expected text"),
    };
    assert!(pdf_str.contains("COMPLIANCE REPORT"));
    assert!(pdf_str.contains("v1"));
}

#[test]
fn compliance_report_refuses_other_formats() {
    let report = sample_report();
    assert_eq!(export_compliance_report(&report, "csv").err().unwrap(), "Unsupported format");
}

#[test]
fn history_and_audit_log_are_per_vault() {
    let mut event_store = create_event_store();
    event_store.events.push(event("a", EventType::Created, 1, "{}"));
    event_store.events.push(event("b", EventType::Created, 2, "{}"));
    event_store.events.push(event("a", EventType::CheckIn, 3, "{}"));
    let history = get_vault_history(&event_store, "a");
    assert_eq!(history.len(), 2);
    assert_eq!(history[1].timestamp, at(3));
    let mut audit_store = create_audit_store();
    audit_store.entries.push(AuditEntry {
        action: "update".to_string(),
        actor: "owner".to_string(),
        timestamp: at(5),
        details: "{\"vault_id\":\"a\"}".to_string(),
    });
    audit_store.entries.push(AuditEntry {
        action: "update".to_string(),
        actor: "owner".to_string(),
        timestamp: at(6),
        details: "{\"vault_id\":\"b\"}".to_string(),
    });
    let log = get_vault_audit_log(&audit_store, "a");
    assert_eq!(log.len(), 1);
    assert_eq!(log[0].timestamp, at(5));
}

#[test]
fn backups_read_what_was_written() {
    let mut backups = create_backup_store();
    store_backup(&mut backups, VaultBackup {
        backup_id: "b1".to_string(),
        vault_id: "v1".to_string(),
        data: "{}".to_string(),
        created_at: at(7),
    });
    assert_eq!(get_backup(&backups, "b1").unwrap().vault_id, "v1");
    assert!(get_backup(&backups, "b2").is_none());
}

#[test]
fn shares_are_listed_per_vault() {
    let mut shares = create_share_store();
    for (v, who) in [("v1", "x"), ("v2", "y"), ("v1", "z")] {
        add_vault_share(&mut shares, VaultShare {
            vault_id: v.to_string(),
            shared_with: who.to_string(),
            permission: "read".to_string(),
            created_at: at(0),
        });
    }
    let listed = get_vault_shares(&shares, "v1");
    assert_eq!(listed.len(), 2);
    assert_eq!(listed[0].shared_with, "x");
    assert_eq!(listed[1].shared_with, "z");
}

#[test]
fn notification_preferences_read_after_write() {
    let mut prefs = create_notification_store();
    set_notification_preferences(&mut prefs, VaultNotificationPreferences {
        owner: "alice".to_string(),
        locale: Some(Locale::De),
        email_enabled: true,
        hours_before_expiry: 12,
    });
    let got = get_notification_preferences(&prefs, "alice").unwrap();
    assert_eq!(got.locale, Some(Locale::De));
    assert_eq!(got.hours_before_expiry, 12);
    assert!(get_notification_preferences(&prefs, "bob").is_none());
}

#[test]
fn analytics_counts_vaults() {
    let mut store = create_vault_store();
    let mut a = vault("a", "o", 1, 100, 1);
    a.created_at = at(86_400 * 3 + 5);
    let mut b = vault("b", "o", 1, 300, 1);
    b.created_at = at(86_400 * 3 + 9);
    b.status = VaultStatus::Released;
    store.insert("a".to_string(), a);
    store.insert("b".to_string(), b);
    let stats = compute_vault_analytics(&store);
    assert_eq!(stats.total_vaults, 2);
    assert_eq!(stats.active_vaults, 1);
    assert_eq!(stats.released_vaults, 1);
    assert_eq!(stats.total_check_in_interval, 400);
    assert_eq!(stats.time_series.len(), 1);
    assert_eq!(stats.time_series[0].day, 3);
    assert_eq!(stats.time_series[0].vaults_created, 2);
    assert_eq!(stats.time_series[0].vaults_released, 1);
}

#[test]
fn series_days_have_calendar_dates() {
    assert_eq!(ttl_legacy::analytics::day_date(0).unwrap(), "1970-01-01");
    assert_eq!(ttl_legacy::analytics::day_date(19_675).unwrap(), "2023-11-14");
    assert!(ttl_legacy::analytics::day_date(i64::MAX).is_none());
}

#[test]
fn pages_together_cover_every_match_once() {
    let mut store = create_vault_store();
    for i in 0..23 {
        store.insert(format!("v{}", i), vault(&format!("v{}", i), "o", 1, 1, 1));
    }
    let mut seen: Vec<String> = Vec::new();
    for page in 1..=3u32 {
        let r = search_vaults(&store, &owner_query("o", Some(page), Some(10)));
        seen.extend(r.vaults.into_iter().map(|v| v.id));
    }
    assert_eq!(seen.len(), 23);
    let mut sorted = seen.clone();
    sorted.sort();
    sorted.dedup();
    assert_eq!(sorted.len(), 23);
    assert!(search_vaults(&store, &owner_query("o", Some(4), Some(10))).vaults.is_empty());
}

#[test]
fn series_counts_add_up_to_the_vaults() {
    let mut store = create_vault_store();
    for (i, day) in [0i64, 0, 2, 5, 5, 5].iter().enumerate() {
        let mut v = vault(&format!("v{}", i), "o", 1, 1, 1);
        v.created_at = at(day * 86_400 + 7);
        store.insert(format!("v{}", i), v);
    }
    let stats = compute_vault_analytics(&store);
    let sum: u64 = stats.time_series.iter().map(|p| p.vaults_created).sum();
    assert_eq!(sum, stats.total_vaults);
    assert_eq!(stats.time_series.len(), 3);
}

#[test]
fn search_bounds_compare_fractions_of_a_second() {
    let mut store = create_vault_store();
    let mut v = vault("v1", "owner1", 1, 1, 1);
    v.created_at = Timestamp { secs: 100, nanos: 500_000_000 };
    store.insert("v1".to_string(), v);
    let mut q = owner_query("owner1", None, None);
    q.created_after = Some(Timestamp { secs: 100, nanos: 600_000_000 });
    assert_eq!(search_vaults(&store, &q).total, 0);
    q.created_after = Some(Timestamp { secs: 100, nanos: 500_000_000 });
    assert_eq!(search_vaults(&store, &q).total, 1);
    q.created_before = Some(Timestamp { secs: 100, nanos: 499_999_999 });
    assert_eq!(search_vaults(&store, &q).total, 0);
}

#[test]
fn export_csv_keeps_fractions_of_a_second() {
    let mut store = create_vault_store();
    let event_store = create_event_store();
    let audit_store = create_audit_store();
    let mut v = vault("v1", "owner1", 1000, 86400, 100000);
    v.created_at = Timestamp { secs: 0, nanos: 250_000_000 };
    store.insert("v1".to_string(), v);
    let text = match export_vaults_handler(&store, &event_store, &audit_store, "v1", "csv").unwrap() {
        ExportOutput::Text(t) => t,
        ExportOutput::Json(_) => panic!("expected CSV text"),
    };
    let lines: Vec<&str> = text.lines().collect();
    assert_eq!(lines[1], "Vault,v1,owner1,ben1,1000,Active,1970-01-01T00:00:00.250+00:00");
}

#[test]
fn export_csv_quotes_fields_that_need_it() {
    let mut store = create_vault_store();
    let mut event_store = create_event_store();
    let audit_store = create_audit_store();
    let mut v = vault("v1", "Smith, J", 1000, 86400, 100000);
    v.created_at = at(0);
    store.insert("v1".to_string(), v);
    event_store.events.push(event("v1", EventType::Deposit, 0, "{\"amount\":5}"));
    let text = match export_vaults_handler(&store, &event_store, &audit_store, "v1", "csv").unwrap() {
        ExportOutput::Text(t) => t,
        ExportOutput::Json(_) => panic!("expected CSV text"),
    };
    let lines: Vec<&str> = text.lines().collect();
    assert_eq!(lines[1], "Vault,v1,\"Smith, J\",ben1,1000,Active,1970-01-01T00:00:00+00:00");
    assert_eq!(lines[2], ",,,,,,");
    assert_eq!(lines[4], "Event,Deposit,1970-01-01T00:00:00+00:00,\"{\"\"amount\"\":5}\",,,");
}
