use std::time::Duration;
use ttl_legacy::models::{EventType, Timestamp, VaultEvent};
use ttl_legacy::websocket::{
    extract_token_from_header, is_authorized_event, reconnect_with_backoff, ClientFrame,
    HeartbeatAction, HeartbeatState, HEARTBEAT_INTERVAL_SECS, MAX_BACKOFF_MS, PONG_TIMEOUT_SECS,
};

#[test]
fn test_reconnect_backoff() {
    let result = reconnect_with_backoff(3, 10).outcome;
    assert!(result.is_ok());
}

#[test]
fn test_reconnect_max_retries() {
    let result = reconnect_with_backoff(0, 10).outcome;
    assert!(result.is_err());
}

#[test]
fn backoff_doubles_up_to_the_limit() {
    let plan = reconnect_with_backoff(3, 10);
    assert_eq!(plan.delays, vec![10, 20, 40]);
    let plan = reconnect_with_backoff(6, 10_000);
    assert_eq!(plan.delays, vec![10_000, 20_000, 30_000, 30_000, 30_000, 30_000]);
    let failed = reconnect_with_backoff(0, 10);
    assert!(failed.delays.is_empty());
    assert_eq!(failed.outcome.unwrap_err(), "Max retries exceeded");
}

#[test]
fn test_extract_token_from_bearer_header() {
    let header = "Bearer eyJhbGciOiJIUzI1NiJ9.test.sig";
    let token = extract_token_from_header(header);
    assert_eq!(token, Some("eyJhbGciOiJIUzI1NiJ9.test.sig"));
}

#[test]
fn test_extract_token_missing_bearer_prefix() {
    let header = "Basic some-credentials";
    assert!(extract_token_from_header(header).is_none());
}

#[test]
fn test_extract_token_empty_header() {
    assert!(extract_token_from_header("").is_none());
}

#[test]
fn extract_token_edge_cases() {
    assert_eq!(extract_token_from_header("Bearer "), Some(""));
    assert!(extract_token_from_header("bearer abc").is_none());
    assert!(extract_token_from_header("Bearer").is_none());
}

#[test]
fn test_authorized_vault_ids_filtering() {
    let authorized = vec!["v1".to_string(), "v3".to_string()];
    let now = ttl_legacy::outside::now_timestamp();
    let event_v1 = VaultEvent {
        vault_id: "v1".to_string(),
        event_type: EventType::CheckIn,
        timestamp: now,
        data: "{}".to_string(),
    };
    let event_v2 = VaultEvent {
        vault_id: "v2".to_string(),
        event_type: EventType::CheckIn,
        timestamp: now,
        data: "{}".to_string(),
    };
    assert!(is_authorized_event(&authorized, &event_v1.vault_id));
    assert!(!is_authorized_event(&authorized, &event_v2.vault_id));
}

#[test]
fn test_heartbeat_interval_is_30_seconds() {
    assert_eq!(Duration::from_secs(HEARTBEAT_INTERVAL_SECS), Duration::from_secs(30));
}

#[test]
fn test_pong_timeout_is_10_seconds() {
    assert_eq!(Duration::from_secs(PONG_TIMEOUT_SECS), Duration::from_secs(10));
}

#[test]
fn test_connection_cleanup_on_missed_pong() {
    let elapsed = Duration::from_secs(HEARTBEAT_INTERVAL_SECS) + Duration::from_secs(PONG_TIMEOUT_SECS);
    assert_eq!(elapsed, Duration::from_secs(40));
    let mut state = HeartbeatState::start(0);
    assert_eq!(state.on_heartbeat(30_000), HeartbeatAction::Ping);
    assert_eq!(state.on_heartbeat(40_000), HeartbeatAction::Ping);
    assert_eq!(state.on_heartbeat(40_001), HeartbeatAction::Disconnect);
}

#[test]
fn pong_keeps_the_connection_alive() {
    let mut state = HeartbeatState::start(0);
    assert_eq!(state.on_heartbeat(30_000), HeartbeatAction::Ping);
    assert!(state.on_client_frame(ClientFrame::Pong, 31_000));
    assert!(!state.awaiting_pong);
    assert_eq!(state.last_pong_ms, 31_000);
    assert_eq!(state.on_heartbeat(100_000), HeartbeatAction::Ping);
    assert!(state.on_client_frame(ClientFrame::Other, 100_500));
    assert!(!state.on_client_frame(ClientFrame::Close, 101_000));
    assert!(!state.on_client_frame(ClientFrame::Ended, 101_000));
    assert_eq!(MAX_BACKOFF_MS, 30_000);
}

#[test]
fn stream_messages_only_for_authorized_vaults() {
    let authorized = vec!["v1".to_string()];
    let event = VaultEvent {
        vault_id: "v1".to_string(),
        event_type: EventType::Deposit,
        timestamp: Timestamp { secs: 0, nanos: 0 },
        data: "{\"amount\":3}".to_string(),
    };
    let m = ttl_legacy::websocket::stream_message(&authorized, &event).unwrap();
    assert_eq!(m.message_type, "Deposit");
    assert_eq!(m.data, "{\"amount\":3}");
    let other = VaultEvent { vault_id: "v2".to_string(), ..event };
    assert!(ttl_legacy::websocket::stream_message(&authorized, &other).is_none());
    assert!(ttl_legacy::websocket::backoff_fits(0, u64::MAX));
    assert!(!ttl_legacy::websocket::backoff_fits(1, u64::MAX));
}
