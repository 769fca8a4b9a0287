use std::collections::BTreeMap;

use k8s_ldap_auth::error::ErrorChain;
use k8s_ldap_auth::map::TextMap;
use k8s_ldap_auth::search::SearchEntry;
use k8s_ldap_auth::token::begin_tokenreview_request;
use k8s_ldap_auth::token::create_tokenreview_status;
use k8s_ldap_auth::token::finish_review;
use k8s_ldap_auth::token::group_of;
use k8s_ldap_auth::token::groups_have_names;
use k8s_ldap_auth::token::handle_tokenreview_request;
use k8s_ldap_auth::token::has_group_name;
use k8s_ldap_auth::token::query_from_review;
use k8s_ldap_auth::token::retrieve_user_pass_from_token;
use k8s_ldap_auth::token::split_user_pass;
use k8s_ldap_auth::token::user_pass_from_bytes;
use k8s_ldap_auth::token::Review;
use k8s_openapi::api::authentication::v1::TokenReview;
use k8s_openapi::api::authentication::v1::UserInfo;

fn make_entry(dn: &str, attrs: &[(&str, &[&str])]) -> SearchEntry {
    let mut map = TextMap::new();
    for (key, values) in attrs {
        map.insert(key.to_string(), values.iter().map(|v| v.to_string()).collect());
    }
    SearchEntry { dn: dn.to_string(), attrs: map }
}

fn make_attrs(pairs: &[(&str, &str)]) -> TextMap<String> {
    let mut map = TextMap::new();
    for (key, value) in pairs {
        map.insert(key.to_string(), value.to_string());
    }
    map
}

fn get_tokenreview_body(token: &str) -> String {
    format!(
        r#"
                {{
                    "apiVersion":"authentication.k8s.io/v1",
                    "kind":"TokenReview",
                    "spec":{{
                        "token":"{}",
                        "audiences": ["https://example.test", "https://internal.example.test"]
                    }}
                }}
            "#,
        token
    )
}

fn get_ldap_entry() -> SearchEntry {
    make_entry(
        "uid=johndoe,cn=users,cn=accounts,dc=example,dc=test",
        &[
            ("cn", &["John Doe"]),
            ("givenName", &["John"]),
            (
                "memberOf",
                &[
                    "cn=group1,cn=groups,cn=accounts,dc=example,dc=test",
                    "cn=group2,cn=groups,cn=accounts,dc=example,dc=test",
                ],
            ),
            ("uid", &["johndoe"]),
        ],
    )
}

fn get_ldap_attrs() -> TextMap<String> {
    make_attrs(&[
        ("k8s_extra_cn", "cn"),
        ("k8s_extra_givenName", "givenName"),
        ("groups", "memberOf"),
    ])
}

/// Answers a request with what the directory says of whatever user it asks about.
fn handle(
    body: &str,
    found: Result<SearchEntry, ErrorChain>,
    attrs: &TextMap<String>,
) -> Result<(String, String, bool), ErrorChain> {
    let query = begin_tokenreview_request(body)?;
    if let Ok(entry) = &found {
        assert!(groups_have_names(attrs, entry));
    }
    handle_tokenreview_request(query, found, attrs)
}

#[test]
fn test_token_tokenreview_status_all_fields() {
    let body = get_tokenreview_body("am9obmRvZTpwYXNzd29yZA==");
    let answer = handle(&body, Ok(get_ldap_entry()), &get_ldap_attrs()).unwrap().0;
    let response = serde_json::from_str::<TokenReview>(&answer).unwrap();

    assert_eq!(
        response.status.clone().unwrap().audiences.unwrap(),
        vec!["https://example.test", "https://internal.example.test"]
    );

    assert_eq!(
        response.status.clone().unwrap().user.unwrap(),
        UserInfo {
            extra: Some(BTreeMap::from([
                ("cn".to_string(), vec!["John Doe".to_string()]),
                ("givenName".to_string(), vec!["John".to_string()])
            ])),
            groups: Some(vec!["group1".to_string(), "group2".to_string()]),
            uid: None,
            username: Some("johndoe".to_string())
        }
    );

    assert_eq!(response.spec.token, None);
    assert_eq!(response.spec.audiences, None);
}

#[test]
fn test_token_valid_user_authenticated() {
    let body = get_tokenreview_body("am9obmRvZTpwYXNzd29yZA==");
    let (resp, user, is_authenticated) =
        handle(&body, Ok(get_ldap_entry()), &get_ldap_attrs()).unwrap();
    assert!(resp.contains("\"authenticated\":true"));
    assert_eq!(user, "johndoe");
    assert!(is_authenticated);
}

#[test]
fn test_token_invalid_credentials_unauthenticated() {
    let body = get_tokenreview_body("am9obmRvZTpwYXNzd29yZGQ=");
    let denied = ErrorChain::msg("Invalid Credentials".to_string());
    let (resp, user, is_authenticated) =
        handle(&body, Err(denied), &TextMap::new()).unwrap();
    assert!(resp.contains("\"authenticated\":false"));
    assert_eq!(user, "johndoe");
    assert!(!is_authenticated);
    assert!(resp.contains("\"error\":\"Invalid Credentials\""));
    assert!(!resp.contains("example.test"));
}

#[test]
fn test_token_malformed_body_returns_err() {
    let resp = handle("not json", Ok(get_ldap_entry()), &get_ldap_attrs());
    assert!(resp.is_err());
    let error = resp.err().unwrap();
    assert_eq!(error.message, "Error parsing JSON from request");
    assert_eq!(error.causes.len(), 1);
    assert!(error.causes[0].contains("line 1 column 2"));
}

#[test]
fn test_token_malformed() {
    let body = get_tokenreview_body("dGVzdDpwYXNzd29");
    let resp = handle(&body, Ok(get_ldap_entry()), &get_ldap_attrs());
    assert!(resp.is_err());
    let error = resp.err().unwrap();
    assert_eq!(error.message, "Error retrieving user and password from token");
    assert_eq!(error.causes, vec!["Error token not provided in request".to_string()]);
}

#[test]
fn request_without_a_token() {
    let error = handle("{}", Ok(get_ldap_entry()), &get_ldap_attrs()).err().unwrap();
    assert_eq!(error.message, "Error retrieving user and password from token");
    assert_eq!(error.causes, vec!["Error reading token provided in request".to_string()]);
}

#[test]
fn passwords_may_hold_colons() {
    // johndoe:pa:ss
    let (user, password) =
        retrieve_user_pass_from_token(Some("am9obmRvZTpwYTpzcw==".to_string())).unwrap();
    assert_eq!(user, "johndoe");
    assert_eq!(password, "pa:ss");
}

#[test]
fn errors_of_tokens() {
    let message = |token: Option<&str>| {
        retrieve_user_pass_from_token(token.map(|t| t.to_string())).err().unwrap().message
    };
    assert_eq!(message(None), "Error reading token provided in request");
    assert_eq!(message(Some("?")), "Error token not provided in request");
    // the byte 0xff
    assert_eq!(message(Some("/w==")), "Error converting token to UTF-8 string");
    // johndoe
    assert_eq!(message(Some("am9obmRvZQ==")), "Token is not a <user>:<password> string");
}

#[test]
fn bytes_that_are_no_text() {
    let error = user_pass_from_bytes(vec![0x61, 0xff]).err().unwrap();
    assert_eq!(error.message, "Error converting token to UTF-8 string");
    assert_eq!(
        error.causes,
        vec!["invalid utf-8 sequence of 1 bytes from index 1".to_string()]
    );
}

#[test]
fn user_and_password_in_a_text() {
    assert_eq!(split_user_pass(":").unwrap(), ("".to_string(), "".to_string()));
    assert_eq!(split_user_pass("a:").unwrap(), ("a".to_string(), "".to_string()));
    assert_eq!(split_user_pass("ä:ö").unwrap(), ("ä".to_string(), "ö".to_string()));
    assert!(split_user_pass("").is_err());
}

#[test]
fn names_of_groups() {
    assert_eq!(group_of("cn=infra,ou=groups,dc=example,dc=test"), "infra");
    assert_eq!(group_of("cn=ärzte"), "ärzte");
    assert_eq!(group_of("cn=,ou=groups"), "");
    assert!(has_group_name("cn="));
    assert!(!has_group_name("cn"));
    assert!(!has_group_name("o,cn=infra"));
    // the third byte is in the middle of a character
    assert!(!has_group_name("aaé"));
    assert!(has_group_name("aé="));
}

#[test]
fn groups_without_a_name_are_noticed() {
    let attrs = make_attrs(&[("groups", "memberOf")]);
    assert!(groups_have_names(&attrs, &make_entry("x", &[])));
    assert!(groups_have_names(&attrs, &make_entry("x", &[("memberOf", &["cn=a", "cn=b"])])));
    assert!(!groups_have_names(&attrs, &make_entry("x", &[("memberOf", &["cn=a", "b"])])));
}

#[test]
fn uid_is_the_first_value() {
    let attrs = make_attrs(&[("uid", "uidNumber")]);
    let entry = make_entry("x", &[("uidNumber", &["1000", "1001"])]);
    let status = create_tokenreview_status(Some(entry), None, true, None, "john", &attrs).unwrap();
    let user = status.user.unwrap();
    assert_eq!(user.uid, Some("1000".to_string()));
    assert_eq!(user.groups, None);
    assert!(user.extra.is_none());
    assert_eq!(status.audiences, None);
}

#[test]
fn extra_keys_without_values_are_left_out() {
    let attrs = make_attrs(&[("k8s_extra_mail", "mail"), ("k8s_extra_sn", "sn"), ("mail", "mail")]);
    let entry = make_entry("x", &[("mail", &["a@example.test", "b@example.test"])]);
    let status = create_tokenreview_status(Some(entry), None, true, None, "john", &attrs).unwrap();
    assert_eq!(
        status.user.unwrap().extra.unwrap(),
        vec![(
            "mail".to_string(),
            vec!["a@example.test".to_string(), "b@example.test".to_string()]
        )]
    );
}

#[test]
fn denied_status_tells_nothing_but_the_error() {
    let status = create_tokenreview_status(
        None,
        Some(vec!["https://example.test".to_string()]),
        false,
        Some("no".to_string()),
        "john",
        &TextMap::new(),
    )
    .unwrap();
    assert_eq!(status.authenticated, Some(false));
    assert_eq!(status.error, Some("no".to_string()));
    assert!(status.user.is_none());
    assert!(status.audiences.is_none());
}

#[test]
fn query_from_what_was_read() {
    let review = Review {
        token: Some("am9obmRvZTpwYXNzd29yZA==".to_string()),
        audiences: None,
        status: None,
    };
    let query = query_from_review("the request", Ok(review)).unwrap();
    assert_eq!(query.user(), "johndoe");
    assert_eq!(query.password(), "password");

    let error = query_from_review("the request", Err("broken".to_string())).err().unwrap();
    assert_eq!(error.message, "Error parsing JSON from request");
    assert_eq!(error.causes, vec!["broken".to_string()]);
}

#[test]
fn finished_reviews() {
    let ok = finish_review(Ok("{}".to_string()), "john".to_string(), true).unwrap();
    assert_eq!(ok, ("{}".to_string(), "john".to_string(), true));
    let error = finish_review(Err("broken".to_string()), "john".to_string(), true).err().unwrap();
    assert_eq!(error.message, "broken");
    assert!(error.causes.is_empty());
}

#[test]
fn status_of_the_request_is_replaced() {
    let body = r#"{"metadata":{"name":"kept"},
        "spec":{"token":"am9obmRvZTpwYXNzd29yZA=="},
        "status":{"authenticated":true,"error":"old","user":{"extra":{"a":["b"]}}}}"#;
    let denied = ErrorChain::msg("inner".to_string()).context("outer".to_string());
    let (answer, _, _) = handle(body, Err(denied), &TextMap::new()).unwrap();
    assert!(answer.starts_with(
        "{\"apiVersion\":\"authentication.k8s.io/v1\",\"kind\":\"TokenReview\",\
        \"metadata\":{\"name\":\"kept\"},\"spec\":{},\"status\":"
    ));
    let response = serde_json::from_str::<TokenReview>(&answer).unwrap();
    let status = response.status.unwrap();
    assert_eq!(response.metadata.name, Some("kept".to_string()));
    assert_eq!(status.authenticated, Some(false));
    assert_eq!(status.error, Some("outer".to_string()));
    assert_eq!(status.user, None);
}

#[test]
fn answer_does_not_tell_the_password() {
    let answer = |token: &str| {
        let denied = ErrorChain::msg("no".to_string());
        handle(&get_tokenreview_body(token), Err(denied), &TextMap::new()).unwrap().0
    };
    // johndoe:password and johndoe:passwordd
    assert_eq!(answer("am9obmRvZTpwYXNzd29yZA=="), answer("am9obmRvZTpwYXNzd29yZGQ="));
    assert!(!answer("am9obmRvZTpwYXNzd29yZA==").contains("am9obmRvZTpwYXNzd29yZA=="));
}
