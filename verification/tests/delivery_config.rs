use mailgate::bimi::{get_bimi_logo, parse_bimi_record};
use mailgate::config::{parse_port, resolve_config};
use mailgate::delivery::{
    complete_send, compose_message, prepare_send, DeliveryStatus, RemoteDeliveryOutcome,
};
use mailgate::errors::DeliveryError;
use mailgate::models::{ApiResponse, SendEmailRequest};

fn request(to: Vec<&str>) -> SendEmailRequest {
    SendEmailRequest {
        to: to.into_iter().map(|s| s.to_string()).collect(),
        subject: "x".to_string(),
        body: "y".to_string(),
        cc: None,
        bcc: None,
    }
}

#[test]
fn test_send_no_recipients() {
    let r = prepare_send(&request(vec![]));
    assert!(matches!(r, Err(DeliveryError::NoRecipients)));
}

#[test]
fn test_send_accepted() {
    let msg = prepare_send(&request(vec!["a@b.c"])).expect("one recipient suffices");
    assert_eq!(msg.status, DeliveryStatus::Queued);
    assert_eq!(msg.id.len(), 36);
    assert_eq!(msg.to, vec!["a@b.c".to_string()]);
    let tracking = msg.id.clone();
    let (done, outcome) = complete_send(msg, RemoteDeliveryOutcome::Accepted);
    assert_eq!(done.status, DeliveryStatus::Sent);
    assert_eq!(outcome, Ok(tracking));
}

#[test]
fn test_send_rejected_and_unreachable() {
    let msg = prepare_send(&request(vec!["a@b.c"])).expect("accepted");
    let (done, outcome) = complete_send(msg, RemoteDeliveryOutcome::RejectedByServer);
    assert_eq!(done.status, DeliveryStatus::Failed);
    assert_eq!(outcome, Err(DeliveryError::Rejected));

    let msg = prepare_send(&request(vec!["a@b.c"])).expect("accepted");
    let (done, outcome) = complete_send(msg, RemoteDeliveryOutcome::ConnectionFailed);
    // Unreachable is retryable by the caller: the message stays queued.
    assert_eq!(done.status, DeliveryStatus::Queued);
    assert_eq!(outcome, Err(DeliveryError::Unreachable));
}

#[test]
fn test_tracking_ids_differ() {
    let a = prepare_send(&request(vec!["a@b.c"])).expect("accepted");
    let b = prepare_send(&request(vec!["a@b.c"])).expect("accepted");
    assert_ne!(a.id, b.id);
}

#[test]
fn test_compose_message() {
    let mut req = request(vec!["a@b.c", "d@e.f"]);
    req.cc = Some(vec!["g@h.i".to_string()]);
    let msg = prepare_send(&req).expect("accepted");
    let wire = compose_message("me@mythofy.net", &msg);
    assert_eq!(
        wire,
        "From: me@mythofy.net\r\nTo: a@b.c, d@e.f\r\nCc: g@h.i\r\nSubject: x\r\n\r\ny"
    );
}

#[test]
fn test_parse_port_values() {
    assert_eq!(parse_port("993"), Some(993));
    assert_eq!(parse_port("+587"), Some(587));
    assert_eq!(parse_port("00993"), Some(993));
    assert_eq!(parse_port("65535"), Some(65535));
    assert_eq!(parse_port("65536"), None);
    assert_eq!(parse_port("70000"), None);
    assert_eq!(parse_port("999999999999999999999"), None);
    assert_eq!(parse_port("abc"), None);
    assert_eq!(parse_port(""), None);
    assert_eq!(parse_port("+"), None);
    assert_eq!(parse_port("9 3"), None);
}

#[test]
fn test_resolve_config_defaults() {
    let cfg = resolve_config(
        None,
        Some("SECRET-REDACTED".to_string()),
        None,
        None,
        None,
        Some("2525".to_string()),
        None,
        Some("mysql://localhost/mail".to_string()),
        None,
    );
    assert_eq!(cfg.mailcow_api_url, "https://mail.mythofy.net");
    assert_eq!(cfg.mailcow_api_key, "SECRET-REDACTED");
    assert_eq!(cfg.imap_host, "mail.mythofy.net");
    assert_eq!(cfg.imap_port, 993);
    assert_eq!(cfg.smtp_port, 2525);
    assert_eq!(cfg.redis_url, "redis://127.0.0.1");
    assert_eq!(cfg.database_url, "mysql://localhost/mail");
    assert_eq!(cfg.jwt_secret, "change-me-in-production");
    // An unreadable port falls back to its default.
    let cfg = resolve_config(
        None,
        Some("k".to_string()),
        None,
        Some("many".to_string()),
        None,
        None,
        None,
        Some("db".to_string()),
        None,
    );
    assert_eq!(cfg.imap_port, 993);
    assert_eq!(cfg.smtp_port, 587);
}

#[test]
fn test_bimi_parsing() {
    assert_eq!(
        parse_bimi_record("v=BIMI1; l=https://example.com/logo.svg;"),
        Some("https://example.com/logo.svg".to_string())
    );
    // A quote ends the field too, and surrounding spaces are trimmed.
    assert_eq!(
        parse_bimi_record("\"v=BIMI1; l= https://example.com/a.svg\""),
        Some("https://example.com/a.svg".to_string())
    );
    // The field may run to the end of its line.
    assert_eq!(
        parse_bimi_record("v=BIMI1; l=https://x.test/y.svg\nother"),
        Some("https://x.test/y.svg".to_string())
    );
    assert_eq!(parse_bimi_record("v=BIMI1;"), None);
    assert_eq!(parse_bimi_record(""), None);
}

#[test]
fn test_bimi_response() {
    let r = get_bimi_logo("example.com".to_string(), Some("https://x/l.svg".to_string()));
    assert_eq!(r.domain, "example.com");
    assert_eq!(r.logo_url.as_deref(), Some("https://x/l.svg"));
    assert!(r.verified);
    let r = get_bimi_logo("example.com".to_string(), None);
    assert_eq!(r.logo_url, None);
    assert!(!r.verified);
}

#[test]
fn test_api_response_envelope() {
    let ok: ApiResponse<u32> = ApiResponse::success(7);
    assert!(ok.success);
    assert_eq!(ok.data, Some(7));
    assert!(ok.error.is_none());
    let err: ApiResponse<u32> = ApiResponse::error("boom".to_string());
    assert!(!err.success);
    assert!(err.data.is_none());
    assert_eq!(err.error, Some("boom".to_string()));
}
