use cli_switch::auth::{
    admission, header_text, is_authorized, presented_token, Admission, AuthToken, TokenQuery,
    UNAUTHORIZED_BODY, UNAUTHORIZED_STATUS,
};

#[test]
fn keeps_the_value_it_was_given() {
    assert_eq!(AuthToken::new("s3cret").as_str(), "s3cret");
}

#[test]
fn matches_only_the_exact_token() {
    let token = AuthToken::new("s3cret-value");

    assert!(token.matches("s3cret-value"));
    assert!(!token.matches(""));
    assert!(!token.matches("s3cret-valu"));
    assert!(!token.matches("s3cret-valuex"));
    assert!(!token.matches("S3CRET-VALUE"));
}

/// Multi-byte input must not panic the comparison, which slices bytes.
#[test]
fn handles_non_ascii_candidates() {
    let token = AuthToken::new("mật-khẩu");
    assert!(token.matches("mật-khẩu"));
    assert!(!token.matches("mat-khau"));
}

#[test]
fn same_byte_length_different_text_is_refused() {
    // "é" and "ab" both take two bytes in UTF-8.
    let token = AuthToken::new("é");
    assert!(!token.matches("ab"));
}

#[test]
fn bearer_header_is_accepted() {
    let token = AuthToken::new("s3cret");
    let query = TokenQuery::new(None);
    assert!(is_authorized(&token, Some(b"Bearer s3cret".as_slice()), &query));
    assert!(!is_authorized(&token, Some(b"Bearer wrong".as_slice()), &query));
    assert!(!is_authorized(&token, Some(b"bearer s3cret".as_slice()), &query));
    assert!(!is_authorized(&token, Some(b"s3cret".as_slice()), &query));
}

#[test]
fn query_token_is_accepted() {
    let token = AuthToken::new("s3cret");
    assert!(is_authorized(&token, None, &TokenQuery::new(Some("s3cret".to_string()))));
    assert!(!is_authorized(&token, None, &TokenQuery::new(Some("nope".to_string()))));
    assert!(!is_authorized(&token, None, &TokenQuery::new(None)));
}

#[test]
fn header_credential_takes_precedence_over_query() {
    let token = AuthToken::new("s3cret");
    let query = TokenQuery::new(Some("s3cret".to_string()));
    assert!(!is_authorized(&token, Some(b"Bearer other".as_slice()), &query));
    let presented = presented_token(Some(b"Bearer other".as_slice()), &query);
    assert_eq!(presented.as_deref(), Some("other"));
}

#[test]
fn unreadable_header_falls_back_to_query() {
    let token = AuthToken::new("s3cret");
    let query = TokenQuery::new(Some("s3cret".to_string()));
    // A byte outside visible ASCII makes the header unreadable as text.
    assert!(is_authorized(&token, Some(b"Bearer s3cret\x01".as_slice()), &query));
    // A header without the `Bearer ` scheme does not count either.
    assert!(is_authorized(&token, Some(b"Basic abc".as_slice()), &query));
}

#[test]
fn header_text_requires_visible_ascii() {
    assert_eq!(header_text(b"Bearer a\tb"), Some(vec!['B', 'e', 'a', 'r', 'e', 'r', ' ', 'a', '\t', 'b']));
    assert_eq!(header_text(b"caf\xc3\xa9"), None);
    assert_eq!(header_text(b"a\x7f"), None);
    assert_eq!(header_text(b""), Some(vec![]));
}

#[test]
fn empty_bearer_value_matches_only_an_empty_token() {
    let token = AuthToken::new("s3cret");
    assert!(!is_authorized(&token, Some(b"Bearer ".as_slice()), &TokenQuery::new(None)));
}

#[test]
fn admission_is_open_without_a_token() {
    assert_eq!(admission(&None, None, &TokenQuery::new(None)), Admission::Pass);
    assert_eq!(
        admission(&None, Some(b"Bearer anything".as_slice()), &TokenQuery::new(None)),
        Admission::Pass
    );
}

#[test]
fn admission_refuses_with_401_and_the_error_body() {
    let required = Some(AuthToken::new("s3cret"));
    assert_eq!(
        admission(&required, Some(b"Bearer s3cret".as_slice()), &TokenQuery::new(None)),
        Admission::Pass
    );
    assert_eq!(
        admission(&required, None, &TokenQuery::new(Some("wrong".to_string()))),
        Admission::Refuse { status: 401, body: "{\"error\":\"missing or invalid token\"}" }
    );
    assert_eq!(UNAUTHORIZED_STATUS, 401);
    assert_eq!(UNAUTHORIZED_BODY, r#"{"error":"missing or invalid token"}"#);
}

#[test]
fn a_clone_keeps_the_value() {
    for raw in ["s3cret", "", "   ", "mật-khẩu"] {
        let token = AuthToken::new(raw);
        let copy = token.clone();
        assert_eq!(copy.as_str(), raw);
        assert_eq!(token.as_str(), raw);
    }
}
