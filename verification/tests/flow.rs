//! Authorization URL building and code extraction.

use spotifalc::errors::AuthError;
use spotifalc::flow::build_authorize_url;
use spotifalc::flow::extract_code;
use spotifalc::flow::ClientConfig;

fn config(scopes: &[&str]) -> ClientConfig {
    ClientConfig::new(
        "abc123".to_string(),
        "secret".to_string(),
        "http://localhost:3001/callback".to_string(),
        scopes.iter().map(|s| s.to_string()).collect(),
    )
    .expect("credentials are present")
}

#[test]
fn config_refuses_empty_credentials() {
    assert!(ClientConfig::new("".to_string(), "s".to_string(), "u".to_string(), vec![]).is_none());
    assert!(ClientConfig::new("i".to_string(), "".to_string(), "u".to_string(), vec![]).is_none());
    assert!(ClientConfig::new("i".to_string(), "s".to_string(), "u".to_string(), vec![]).is_some());
}

#[test]
fn authorize_url_is_exactly_the_registered_shape() {
    let cfg = config(&["user-read-currently-playing", "user-modify-playback-state"]);
    let url = build_authorize_url(&cfg);
    assert_eq!(
        url,
        "https://accounts.spotify.com/authorize?response_type=code&client_id=abc123\
         &redirect_uri=http%3A%2F%2Flocalhost%3A3001%2Fcallback\
         &scope=user-read-currently-playing%20user-modify-playback-state"
    );
}

#[test]
fn authorize_url_with_single_scope_has_no_separator() {
    let cfg = config(&["user-read-currently-playing"]);
    let url = build_authorize_url(&cfg);
    assert!(url.ends_with("&scope=user-read-currently-playing"));
}

#[test]
fn extract_code_finds_the_code_parameter() {
    assert_eq!(
        extract_code("localhost:3001/callback?code=abc123&state=xyz"),
        Ok("abc123".to_string())
    );
    // The code parameter need not come first.
    assert_eq!(
        extract_code("http://localhost:3001/callback?state=xyz&code=zz9"),
        Ok("zz9".to_string())
    );
}

#[test]
fn extract_code_with_empty_value() {
    assert_eq!(extract_code("x?code=&state=1"), Ok("".to_string()));
    assert_eq!(extract_code("x?code"), Ok("".to_string()));
}

#[test]
fn denied_consent_redirect_has_no_code() {
    assert_eq!(
        extract_code("localhost:3001/callback?error=access_denied"),
        Err(AuthError::AuthorizationDenied)
    );
}

#[test]
fn redirect_without_query_has_no_code() {
    assert_eq!(
        extract_code("localhost:3001/callback"),
        Err(AuthError::AuthorizationDenied)
    );
}

#[test]
fn code_must_match_the_key_exactly() {
    assert_eq!(
        extract_code("x?codex=1&mycode=2&cod=3"),
        Err(AuthError::AuthorizationDenied)
    );
}
