use mailgate::auth::{authenticate, RemoteAuthOutcome};
use mailgate::errors::AuthError;
use mailgate::session::SessionCache;
use mailgate::token::{issue, verify};

#[test]
fn test_login_scenario() {
    let mut cache = SessionCache::new();
    let r = authenticate(
        &mut cache,
        "secret",
        "sarah@example.com",
        RemoteAuthOutcome::Accepted,
        1_000_000,
    );
    let resp = r.expect("accepted login must succeed");
    assert!(!resp.token.is_empty());
    assert_eq!(resp.user.email, "sarah@example.com");
    assert_eq!(resp.user.name, "sarah");
    assert!(cache.is_live(&resp.token, 1_000_100));
}

#[test]
fn test_login_rejected() {
    let mut cache = SessionCache::new();
    let r = authenticate(
        &mut cache,
        "secret",
        "sarah@example.com",
        RemoteAuthOutcome::Rejected,
        1_000_000,
    );
    assert!(matches!(r, Err(AuthError::InvalidCredentials)));
}

#[test]
fn test_login_unreachable_and_timeout() {
    let mut cache = SessionCache::new();
    let r = authenticate(
        &mut cache,
        "secret",
        "a@b.c",
        RemoteAuthOutcome::Unreachable,
        0,
    );
    assert!(matches!(r, Err(AuthError::Unreachable)));
    let r = authenticate(&mut cache, "secret", "a@b.c", RemoteAuthOutcome::TimedOut, 0);
    assert!(matches!(r, Err(AuthError::Timeout)));
}

#[test]
fn test_logout_idempotent() {
    let mut cache = SessionCache::new();
    let resp = authenticate(
        &mut cache,
        "secret",
        "sarah@example.com",
        RemoteAuthOutcome::Accepted,
        1_000_000,
    )
    .expect("login");
    assert!(cache.is_live(&resp.token, 1_000_001));
    cache.logout(&resp.token);
    assert!(!cache.is_live(&resp.token, 1_000_001));
    // A second logout with the same token never errors and changes nothing.
    cache.logout(&resp.token);
    assert!(!cache.is_live(&resp.token, 1_000_001));
    // Logging out an unknown token is also fine.
    cache.logout("nonsense");
}

#[test]
fn test_stable_identity() {
    let mut cache = SessionCache::new();
    let first = authenticate(
        &mut cache,
        "secret",
        "sarah@example.com",
        RemoteAuthOutcome::Accepted,
        1_000_000,
    )
    .expect("login");
    cache.logout(&first.token);
    let second = authenticate(
        &mut cache,
        "secret",
        "sarah@example.com",
        RemoteAuthOutcome::Accepted,
        2_000_000,
    )
    .expect("login again");
    assert_eq!(first.user.id, second.user.id);
}

#[test]
fn test_token_round_trip() {
    let token = issue("secret", 424242, 1_000_000);
    assert_eq!(token.len(), 62);
    assert_eq!(verify("secret", &token, 1_000_100), Ok(424242));
    // Past the expiry window the same token reads expired.
    assert_eq!(verify("secret", &token, 1_000_000 + 3600), Err(AuthError::Expired));
}

#[test]
fn test_token_invalid() {
    let token = issue("secret", 7, 1_000_000);
    // A wrong secret fails the signature.
    assert_eq!(verify("other", &token, 1_000_100), Err(AuthError::Invalid));
    // Tampering with a digit fails the signature.
    let mut tampered: Vec<char> = token.chars().collect();
    tampered[0] = if tampered[0] == '9' { '8' } else { '9' };
    let tampered: String = tampered.into_iter().collect();
    assert_eq!(verify("secret", &tampered, 1_000_100), Err(AuthError::Invalid));
    // Garbage is invalid, not a panic.
    assert_eq!(verify("secret", "not-a-token", 0), Err(AuthError::Invalid));
    assert_eq!(verify("secret", "", 0), Err(AuthError::Invalid));
}

#[test]
fn test_session_identity_lookup() {
    let mut cache = SessionCache::new();
    let resp = authenticate(
        &mut cache,
        "secret",
        "sarah@example.com",
        RemoteAuthOutcome::Accepted,
        1_000_000,
    )
    .expect("login");
    let ident = cache.identity_of(&resp.token, 1_000_001);
    assert_eq!(ident.as_deref(), Some(resp.user.id.as_str()));
    // After expiry the token resolves to nothing.
    assert_eq!(cache.identity_of(&resp.token, 1_000_000 + 3600), None);
}
