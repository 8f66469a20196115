use ttl_legacy::models::{Locale, NotificationType, VaultStatus};
use ttl_legacy::store::create_vault_store;
use ttl_legacy::templates::{
    create_vault_from_template, email_body, email_subject, get_vault_templates, resolve_locale,
};

#[test]
fn test_get_vault_templates() {
    let templates = get_vault_templates();
    assert_eq!(templates.templates.len(), 3);
    assert!(templates.templates.iter().any(|t| t.id == "simple-inheritance"));
    assert!(templates.templates.iter().any(|t| t.id == "family-trust"));
    assert!(templates.templates.iter().any(|t| t.id == "business-succession"));
}

#[test]
fn test_simple_inheritance_template() {
    let templates = get_vault_templates();
    let template = templates
        .templates
        .iter()
        .find(|t| t.id == "simple-inheritance")
        .unwrap();
    assert_eq!(template.check_in_interval, 86400 * 30);
    assert!(template.description.contains("single beneficiary"));
}

#[test]
fn test_family_trust_template() {
    let templates = get_vault_templates();
    let template = templates
        .templates
        .iter()
        .find(|t| t.id == "family-trust")
        .unwrap();
    assert_eq!(template.check_in_interval, 86400 * 90);
    assert!(template.description.contains("Multi-beneficiary"));
}

#[test]
fn test_business_succession_template() {
    let templates = get_vault_templates();
    let template = templates
        .templates
        .iter()
        .find(|t| t.id == "business-succession")
        .unwrap();
    assert_eq!(template.check_in_interval, 86400 * 60);
    assert!(template.description.contains("business"));
}

#[test]
fn test_create_vault_from_template() {
    let mut store = create_vault_store();
    let result = create_vault_from_template(
        &mut store,
        "simple-inheritance",
        "owner1".to_string(),
        "ben1".to_string(),
    );
    assert!(result.is_ok());
    let vault = result.unwrap();
    assert_eq!(vault.owner, "owner1");
    assert_eq!(vault.beneficiary, "ben1");
    assert_eq!(vault.check_in_interval, 86400 * 30);
}

#[test]
fn test_create_vault_from_family_trust_template() {
    let mut store = create_vault_store();
    let result = create_vault_from_template(
        &mut store,
        "family-trust",
        "owner1".to_string(),
        "ben1".to_string(),
    );
    assert!(result.is_ok());
    let vault = result.unwrap();
    assert_eq!(vault.check_in_interval, 86400 * 90);
}

#[test]
fn test_create_vault_from_invalid_template() {
    let mut store = create_vault_store();
    let result = create_vault_from_template(
        &mut store,
        "invalid-template",
        "owner1".to_string(),
        "ben1".to_string(),
    );
    assert!(result.is_err());
    assert!(result.unwrap_err().contains("not found"));
}

#[test]
fn created_vault_is_stored_active_with_fresh_id() {
    let mut store = create_vault_store();
    let vault = create_vault_from_template(
        &mut store,
        "business-succession",
        "o".to_string(),
        "b".to_string(),
    )
    .unwrap();
    assert_eq!(vault.balance, 0);
    assert_eq!(vault.status, VaultStatus::Active);
    assert_eq!(vault.ttl_remaining, Some(86400 * 60));
    assert_eq!(vault.id.len(), 36);
    assert_eq!(store.vaults.len(), 1);
    let stored = store.vaults.get(&vault.id).unwrap();
    assert_eq!(stored.owner, "o");
    let second = create_vault_from_template(
        &mut store,
        "business-succession",
        "o".to_string(),
        "b".to_string(),
    )
    .unwrap();
    assert_ne!(second.id, vault.id);
    assert_eq!(store.vaults.len(), 2);
}

#[test]
fn invalid_template_leaves_store_unchanged() {
    let mut store = create_vault_store();
    let result = create_vault_from_template(&mut store, "", "o".to_string(), "b".to_string());
    assert_eq!(result.unwrap_err(), "Template not found");
    assert_eq!(store.vaults.len(), 0);
}

#[test]
fn test_english_expiry_subject() {
    let subject = email_subject(&NotificationType::ExpiryWarning, &None);
    assert!(subject.contains("expiring"));
}

#[test]
fn test_english_is_default_locale() {
    let subject_none = email_subject(&NotificationType::ExpiryWarning, &None);
    let subject_en = email_subject(&NotificationType::ExpiryWarning, &Some(Locale::En));
    assert_eq!(subject_none, subject_en);
}

#[test]
fn test_spanish_templates() {
    let locale = Some(Locale::Es);
    let subject = email_subject(&NotificationType::ExpiryWarning, &locale);
    assert!(subject.contains("vencer"));
    let body = email_body(&NotificationType::ExpiryWarning, &locale, "v1", Some(12));
    assert!(body.contains("12"));
    assert!(body.contains("v1"));
}

#[test]
fn test_french_templates() {
    let locale = Some(Locale::Fr);
    let subject = email_subject(&NotificationType::CheckInReminder, &locale);
    assert!(subject.contains("enregistrer"));
    let body = email_body(&NotificationType::CheckInReminder, &locale, "v1", None);
    assert!(body.contains("v1"));
}

#[test]
fn test_german_templates() {
    let locale = Some(Locale::De);
    let subject = email_subject(&NotificationType::VaultReleased, &locale);
    assert!(subject.contains("freigegeben"));
    let body = email_body(&NotificationType::VaultReleased, &locale, "v1", None);
    assert!(body.contains("v1"));
}

#[test]
fn test_all_notification_types_have_templates() {
    let types = [
        NotificationType::ExpiryWarning,
        NotificationType::CheckInReminder,
        NotificationType::VaultReleased,
        NotificationType::VaultPaused,
    ];
    let locales = [
        Some(Locale::En),
        Some(Locale::Es),
        Some(Locale::Fr),
        Some(Locale::De),
    ];
    for locale in &locales {
        for nt in &types {
            let subject = email_subject(nt, locale);
            assert!(!subject.is_empty());
            let body = email_body(nt, locale, "v1", Some(24));
            assert!(!body.is_empty());
            assert!(body.contains("v1"));
        }
    }
}

#[test]
fn test_fallback_to_english() {
    let subject = email_subject(&NotificationType::VaultPaused, &None);
    let subject_en = email_subject(&NotificationType::VaultPaused, &Some(Locale::En));
    assert_eq!(subject, subject_en);
}

#[test]
fn test_expiry_body_includes_hours() {
    let body = email_body(&NotificationType::ExpiryWarning, &Some(Locale::En), "v1", Some(6));
    assert!(body.contains("6"));
}

#[test]
fn test_expiry_body_defaults_to_24_hours() {
    let body = email_body(&NotificationType::ExpiryWarning, &Some(Locale::En), "v1", None);
    assert!(body.contains("24"));
}

#[test]
fn resolve_locale_defaults_to_english() {
    assert_eq!(resolve_locale(&None), Locale::En);
    assert_eq!(resolve_locale(&Some(Locale::Fr)), Locale::Fr);
}

#[test]
fn expiry_body_shows_large_hour_counts() {
    let body = email_body(&NotificationType::ExpiryWarning, &None, "vault-7", Some(1234));
    assert!(body.contains("1234"));
    assert!(body.contains("vault-7"));
}
