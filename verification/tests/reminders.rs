use ttl_legacy::models::{Channel, Frequency, ReminderPreferences, SetPreferencesRequest, Timestamp};
use ttl_legacy::reminders::{
    idempotency_fresh, parse_setting, prepare_preferences, reminder_channels, should_notify,
    unsubscribe_token_fresh, PoolConfig, PreferencesError,
};

fn at(secs: i64) -> Timestamp {
    Timestamp { secs, nanos: 0 }
}

#[test]
fn pool_config_defaults_follow_the_documentation() {
    let config = PoolConfig::default();
    assert_eq!(config.min, 5);
    assert_eq!(config.max, 20);
    assert_eq!(config.timeout_secs, 30);
    assert_eq!(PoolConfig::from_settings(None, None, None), config);
}

#[test]
fn pool_config_reads_settings_with_fallbacks() {
    let config = PoolConfig::from_settings(Some("4"), Some("x"), None);
    assert_eq!(config, PoolConfig { min: 4, max: 20, timeout_secs: 30 });
    let config = PoolConfig::from_settings(Some("+7"), Some("4294967295"), Some("4294967296"));
    assert_eq!(config, PoolConfig { min: 7, max: 4_294_967_295, timeout_secs: 30 });
}

#[test]
fn parse_setting_follows_decimal_grammar() {
    assert_eq!(parse_setting("15"), Some(15));
    assert_eq!(parse_setting("007"), Some(7));
    assert_eq!(parse_setting("+0"), Some(0));
    assert_eq!(parse_setting(""), None);
    assert_eq!(parse_setting("+"), None);
    assert_eq!(parse_setting("-1"), None);
    assert_eq!(parse_setting(" 1"), None);
    assert_eq!(parse_setting("12a"), None);
    assert_eq!(parse_setting("99999999999999999999"), None);
    for text in ["0", "42", "+42", "4294967295", "4294967296", "-0", "1_0", "++1"] {
        assert_eq!(parse_setting(text), text.parse::<u32>().ok());
    }
}

#[test]
fn test_set_empty_channels_rejected() {
    let body = SetPreferencesRequest {
        channels: vec![],
        hours_before_expiry: 24,
        frequency: Frequency::Once,
    };
    let err = prepare_preferences(1, body).unwrap_err();
    assert_eq!(err, PreferencesError::EmptyChannels);
    assert_eq!(err.message(), "channels must not be empty");
}

#[test]
fn test_set_zero_hours_rejected() {
    let body = SetPreferencesRequest {
        channels: vec![Channel::Push],
        hours_before_expiry: 0,
        frequency: Frequency::Hourly,
    };
    let err = prepare_preferences(1, body).unwrap_err();
    assert_eq!(err, PreferencesError::ZeroHours);
    assert_eq!(err.message(), "hours_before_expiry must be > 0");
}

#[test]
fn empty_channels_are_reported_before_zero_hours() {
    let body = SetPreferencesRequest { channels: vec![], hours_before_expiry: 0, frequency: Frequency::Daily };
    assert_eq!(prepare_preferences(3, body).unwrap_err(), PreferencesError::EmptyChannels);
}

#[test]
fn accepted_preferences_keep_the_request() {
    let body = SetPreferencesRequest {
        channels: vec![Channel::Email, Channel::Sms],
        hours_before_expiry: 48,
        frequency: Frequency::Daily,
    };
    let prefs = prepare_preferences(1, body).unwrap();
    assert_eq!(prefs.vault_id, 1);
    assert_eq!(prefs.channels, vec![Channel::Email, Channel::Sms]);
    assert_eq!(prefs.hours_before_expiry, 48);
    assert_eq!(prefs.frequency, Frequency::Daily);
}

#[test]
fn notification_rules_per_frequency() {
    assert!(should_notify(Frequency::Once, 24, 24));
    assert!(!should_notify(Frequency::Once, 23, 24));
    assert!(!should_notify(Frequency::Once, 25, 24));
    assert!(should_notify(Frequency::Daily, 48, 72));
    assert!(!should_notify(Frequency::Daily, 47, 72));
    assert!(should_notify(Frequency::Daily, 0, 72));
    assert!(should_notify(Frequency::Hourly, 1, 72));
    assert!(!should_notify(Frequency::Hourly, 73, 72));
    assert!(!should_notify(Frequency::Hourly, u32::MAX, 72));
    assert!(!should_notify(Frequency::Once, 0, 0));
}

#[test]
fn reminder_goes_to_every_channel_when_due() {
    let prefs = ReminderPreferences {
        vault_id: 9,
        channels: vec![Channel::Sms, Channel::Push],
        hours_before_expiry: 12,
        frequency: Frequency::Hourly,
    };
    assert_eq!(reminder_channels(&prefs, 5), vec![Channel::Sms, Channel::Push]);
    assert!(reminder_channels(&prefs, 13).is_empty());
}

#[test]
fn idempotent_responses_expire_after_a_day() {
    assert!(idempotency_fresh(at(1_000), at(1_000 + 86_400)));
    assert!(idempotency_fresh(at(1_000), Timestamp { secs: 1_000 + 86_400, nanos: 999_999_999 }));
    assert!(!idempotency_fresh(at(1_000), at(1_000 + 86_401)));
    assert!(!idempotency_fresh(
        Timestamp { secs: 1_000, nanos: 1 },
        Timestamp { secs: 1_000 + 86_401, nanos: 1 }
    ));
    assert!(idempotency_fresh(at(1_000), at(500)));
    assert!(!idempotency_fresh(at(i64::MIN), at(i64::MAX)));
}

#[test]
fn reminders_only_inside_the_window() {
    for f in [Frequency::Once, Frequency::Daily, Frequency::Hourly] {
        for window in [0u32, 1, 24, 48] {
            for ttl in 0u32..100 {
                if should_notify(f, ttl, window) {
                    assert!(ttl <= window);
                }
            }
        }
    }
}

#[test]
fn unsubscribe_tokens_expire_after_thirty_days() {
    assert!(unsubscribe_token_fresh(at(0), at(30 * 86_400)));
    assert!(unsubscribe_token_fresh(at(0), Timestamp { secs: 30 * 86_400, nanos: 500 }));
    assert!(!unsubscribe_token_fresh(at(0), at(30 * 86_400 + 1)));
    assert!(!unsubscribe_token_fresh(at(i64::MIN), at(i64::MAX)));
}
