use todo_sync::accounts::{Claims, extract_token};
use todo_sync::clock::{format_rfc3339, parse_rfc3339, parse_watermark};
use todo_sync::errors::SyncError;
use todo_sync::pull::{SyncPullRequest, sync_full, sync_pull};
use todo_sync::store::Store;

#[test]
fn parse_watermark_accepts_absent_and_valid() {
    assert_eq!(parse_watermark(&None), Ok(None));
    let w = parse_watermark(&Some("2024-01-01T00:00:00Z".to_string()));
    assert_eq!(w, Ok(Some(1704067200000000)));
    // The parser is relaxed about the offset's form.
    let w2 = parse_watermark(&Some("2024-01-01T00:00:00+00:00".to_string()));
    assert_eq!(w2, Ok(Some(1704067200000000)));
}

#[test]
fn parse_watermark_rejects_malformed_text() {
    assert_eq!(
        parse_watermark(&Some("yesterday-ish".to_string())),
        Err(SyncError::BadRequest)
    );
    assert_eq!(parse_watermark(&Some("".to_string())), Err(SyncError::BadRequest));
}

#[test]
fn timestamp_text_round_trips() {
    let t: i64 = 1704067200000000;
    let text = format_rfc3339(t).unwrap();
    assert_eq!(text, "2024-01-01T00:00:00+00:00");
    assert_eq!(parse_rfc3339(&text), Some(t));
    // Sub-second precision survives the round trip.
    let t2: i64 = 1704067200123456;
    let text2 = format_rfc3339(t2).unwrap();
    assert_eq!(parse_rfc3339(&text2), Some(t2));
}

#[test]
fn sync_pull_rejects_malformed_watermark_before_reading() {
    let store = Store::new();
    let r = sync_pull(
        &store,
        &"user-1".to_string(),
        &SyncPullRequest { last_sync: Some("garbage".to_string()) },
    );
    assert!(matches!(r, Err(SyncError::BadRequest)));
}

#[test]
fn sync_pull_and_sync_full_stamp_server_time() {
    let store = Store::new();
    let owner = "user-1".to_string();
    let pulled = sync_pull(&store, &owner, &SyncPullRequest { last_sync: None }).unwrap();
    assert!(pulled.lists.is_empty());
    assert!(!pulled.server_time.is_empty());
    // The stamp parses back as an instant, fit to replay as a watermark.
    assert!(parse_rfc3339(&pulled.server_time).is_some());
    let snap = sync_full(&store, &owner);
    assert!(parse_rfc3339(&snap.server_time).is_some());
}

#[test]
fn extract_token_takes_bearer_scheme_only() {
    assert_eq!(extract_token("Bearer abc.def"), Some("abc.def".to_string()));
    assert_eq!(extract_token("Bearer "), Some("".to_string()));
    assert_eq!(extract_token("Token abc"), None);
    assert_eq!(extract_token("bearer abc"), None);
    assert_eq!(extract_token("Bear"), None);
    assert_eq!(extract_token(""), None);
}

#[test]
fn claims_window_spans_expiration() {
    let c = Claims::new("u1".to_string(), "u1@example.com".to_string(), 3600);
    assert_eq!(c.user_id, "u1");
    assert_eq!(c.email, "u1@example.com");
    assert_eq!(c.exp - c.iat, 3600);
}

#[test]
fn error_messages_name_the_class() {
    assert_eq!(SyncError::BadRequest.message(), "malformed request");
    assert_eq!(SyncError::NotFound.message(), "resource not found");
}
