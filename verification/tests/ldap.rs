use k8s_ldap_auth::error::ErrorChain;
use k8s_ldap_auth::ldap::ldap_rc_to_str;
use k8s_ldap_auth::ldap::loaded_ca;
use k8s_ldap_auth::ldap::LdapArgs;
use k8s_ldap_auth::ldap::LdapConnector;
use k8s_ldap_auth::map::TextMap;
use k8s_ldap_auth::search::chosen_result;
use k8s_ldap_auth::search::Found;
use k8s_ldap_auth::search::Reply;
use k8s_ldap_auth::search::SearchEntry;
use k8s_ldap_auth::search::SearchScope;
use k8s_ldap_auth::search::SearchStep;

/// The certificate of a CA.
const CA_PEM: &str = "\
-----BEGIN CERTIFICATE-----
MIIBizCCATGgAwIBAgIUEN+Dr2binE5Awg9G0uj8Q80QTFcwCgYIKoZIzj0EAwIw
GjEYMBYGA1UEAwwPY2EuZXhhbXBsZS50ZXN0MCAXDTI2MTExNjA5MTM0MFoYDzIx
MjYxMDIzMDkxMzQwWjAaMRgwFgYDVQQDDA9jYS5leGFtcGxlLnRlc3QwWTATBgcq
hkjOPQIBBggqhkjOPQMBBwNCAATRXcOhNH2ZEBlBsqKtH6p8IPi8UrJFFCMCVaKf
diwEBntl4JWEx5IfLH5vaneBwNWTWHUrsaFPAhKlQmOpiyqUo1MwUTAdBgNVHQ4E
FgQUdGWvKF1q/5xJai8tGxALokicfQ4wHwYDVR0jBBgwFoAUdGWvKF1q/5xJai8t
GxALokicfQ4wDwYDVR0TAQH/BAUwAwEB/zAKBggqhkjOPQQDAgNIADBFAiEA8Ra3
YTtxZaKsVyDcSZeloAmJ8OGCtInZxwXoDLHKAScCIBiNc6jklS2Pg6ATo0P4AmoL
bf6W9T4R9YzmHRx3WUop
-----END CERTIFICATE-----
";

fn args(url: &str, user_attr: &str, attrs: &str, timeout: &str, ca: Option<&str>) -> LdapArgs {
    LdapArgs::new(
        url.to_string(),
        "cn=admin,dc=example,dc=test".to_string(),
        "secret".to_string(),
        "dc=example,dc=test".to_string(),
        user_attr.to_string(),
        attrs.to_string(),
        timeout.to_string(),
        ca.map(|path| path.to_string()),
    )
}

fn get_base_ldap_args() -> LdapArgs {
    args("ldap://localhost", "uid", "", "40", None)
}

fn connector(attrs: &str) -> LdapConnector {
    LdapConnector::new(args("ldap://localhost", "uid", attrs, "40", None), None).ok().unwrap()
}

fn entry(dn: &str) -> SearchEntry {
    SearchEntry { dn: dn.to_string(), attrs: TextMap::new() }
}

/// Lets a dialogue run with the given replies.
fn run(
    user: &str,
    opened: Result<(), ErrorChain>,
    service: Reply,
    found: Found,
    bound: Reply,
) -> (Result<SearchEntry, ErrorChain>, bool) {
    let connector = connector("");
    let stage = match connector.search_user(user, "password").opened(opened) {
        Ok(stage) => stage,
        Err(error) => return (Err(error), false),
    };
    let stage = match stage.answered(service) {
        Ok(stage) => stage,
        Err(error) => return (Err(error), false),
    };
    match stage.answered(found) {
        SearchStep::Bind(stage) => stage.answered(bound),
        SearchStep::Over(error, unbind) => (Err(error), unbind),
    }
}

fn message(result: (Result<SearchEntry, ErrorChain>, bool)) -> String {
    result.0.err().unwrap().message
}

#[test]
fn test_ldap_new_ldapconnector_instance() {
    assert!(LdapConnector::new(get_base_ldap_args(), None).is_ok());
}

#[test]
fn test_ldap_new_invalid_scheme() {
    let wrong = args("http://localhost", "uid", "", "40", None);
    let error = LdapConnector::new(wrong, None).err().unwrap();
    assert_eq!(error.message, "Provide a valid URL that starts with ldap or ldaps");
}

#[test]
fn test_ldap_new_starttls_flag() {
    let c = LdapConnector::new(args("ldaps://localhost", "uid", "", "40", None), None);
    assert!(c.ok().unwrap().starttls());
    assert!(!connector("").starttls());
}

#[test]
fn test_ldap_new_custom_attrs_parsed() {
    let c = connector("username:uid,mail:mail");
    assert_eq!(c.get_attrs().get("username").unwrap(), "uid");
    assert_eq!(c.get_attrs().get("mail").unwrap(), "mail");
}

#[test]
fn test_ldap_user_filter() {
    let c = LdapConnector::new(args("ldap://localhost", "sAMAccountName", "", "40", None), None);
    assert_eq!(c.ok().unwrap().search_filter(), "(sAMAccountName={})");
}

#[test]
fn test_ldap_new_invalid_ldap_ca_cert() {
    let secured = || args("ldaps://localhost", "uid", "", "40", Some("./ca.crt"));
    let error = LdapConnector::new(secured(), Some(Ok(b"no certificate".to_vec()))).err().unwrap();
    assert_eq!(error.message, "Error loading LDAP server CA");
    assert_eq!(error.causes.len(), 1);
    assert!(!error.causes[0].is_empty());

    let unread = ErrorChain::msg("gone".to_string());
    let error = LdapConnector::new(secured(), Some(Err(unread))).err().unwrap();
    assert_eq!(error.message, "gone");

    let plain = args("ldap://localhost", "uid", "", "40", Some("./ca.crt"));
    let unread = ErrorChain::msg("gone".to_string());
    assert!(LdapConnector::new(plain, Some(Err(unread))).is_ok());
}

#[test]
fn test_ldap_new_valid_ldap_ca_cert() {
    let secured = args("ldaps://localhost", "uid", "", "40", Some("./pki/ca/ca.crt"));
    let c = LdapConnector::new(secured, Some(Ok(CA_PEM.as_bytes().to_vec()))).ok().unwrap();
    assert!(c.starttls());
    assert!(c.ca_certificate().is_some());

    let plain = args("ldap://localhost", "uid", "", "40", Some("./pki/ca/ca.crt"));
    let c = LdapConnector::new(plain, Some(Ok(CA_PEM.as_bytes().to_vec()))).ok().unwrap();
    assert!(c.ca_certificate().is_none());

    let trusting = args("ldaps://localhost", "uid", "", "40", None);
    let c = LdapConnector::new(trusting, None).ok().unwrap();
    assert!(c.ca_certificate().is_none());
}

#[test]
fn what_loading_the_ca_comes_to() {
    let read = native_tls::Certificate::from_pem(CA_PEM.as_bytes());
    let der = read.as_ref().ok().unwrap().to_der().ok().unwrap();
    assert_eq!(loaded_ca(read).ok().unwrap().to_der().ok().unwrap(), der);

    let read = native_tls::Certificate::from_pem(b"no certificate");
    let text = read.as_ref().err().unwrap().to_string();
    let error = loaded_ca(read).err().unwrap();
    assert_eq!(error.message, "Error loading LDAP server CA");
    assert_eq!(error.causes, vec![text]);
}

#[test]
fn ca_is_read_for_secured_connections_only() {
    let path = |url: &str, ca: Option<&str>| args(url, "uid", "", "40", ca).ca_path();
    assert_eq!(path("ldaps://a", Some("ca.crt")), Some("ca.crt".to_string()));
    assert_eq!(path("ldaps://a", None), None);
    assert_eq!(path("ldap://a", Some("ca.crt")), None);
    assert_eq!(path("http://a", Some("ca.crt")), None);
}

#[test]
fn timeouts_are_bounded() {
    let millis = |timeout: &str| {
        let c = LdapConnector::new(args("ldap://a", "uid", "", timeout, None), None).ok().unwrap();
        c.get_timeout().secs * 1000 + c.get_timeout().millis as u64
    };
    assert_eq!(millis("40"), 40000);
    assert_eq!(millis("60"), 60000);
    assert_eq!(millis("61"), 60000);
    assert_eq!(millis("0"), 0);
    assert_eq!(millis("abc"), 10000);
    assert_eq!(millis("-1"), 10000);
    assert_eq!(millis("18446744073709551616"), 10000);
}

#[test]
fn attributes_of_pairs() {
    let c = connector("a:1,b,c:x:y,a:2,");
    assert_eq!(c.get_attrs().len(), 2);
    assert_eq!(c.get_attrs().get("a").unwrap(), "2");
    assert_eq!(c.get_attrs().get("c").unwrap(), "x:y");
    assert!(c.get_attrs().get("b").is_none());
}

#[test]
fn what_is_sent_to_the_directory() {
    let c = connector("groups:memberOf,k8s_extra_mail:mail");
    let stage = c.search_user("johndoe", "password").opened(Ok(())).ok().unwrap();
    assert_eq!(c.ldap_url(), "ldap://localhost");
    assert_eq!(stage.credentials(), ("cn=admin,dc=example,dc=test", "secret"));
    let stage = stage.answered(Reply::Granted).ok().unwrap();
    assert_eq!(stage.base(), "dc=example,dc=test");
    assert_eq!(stage.scope(), SearchScope::Subtree);
    assert_eq!(stage.filter(), "(uid=johndoe)");
    assert_eq!(stage.attributes(), vec!["memberOf".to_string(), "mail".to_string()]);
    match stage.answered(Found::Entry(entry("uid=johndoe,dc=example,dc=test"))) {
        SearchStep::Bind(stage) => {
            assert_eq!(stage.credentials(), ("uid=johndoe,dc=example,dc=test", "password"));
        }
        SearchStep::Over(_, _) => panic!("the user is to be bound"),
    }
}

#[test]
fn every_pair_of_braces_is_filled() {
    let args = args("ldap://localhost", "{}{", "", "40", None);
    let c = LdapConnector::new(args, None).ok().unwrap();
    let stage = c.search_user("u", "p").opened(Ok(())).ok().unwrap();
    let stage = stage.answered(Reply::Granted).ok().unwrap();
    assert_eq!(stage.filter(), "(u{=u)");
}

#[test]
fn only_a_granted_bind_authenticates() {
    let found = || Found::Entry(entry("uid=johndoe"));
    let (result, unbind) = run("johndoe", Ok(()), Reply::Granted, found(), Reply::Granted);
    assert_eq!(result.ok().unwrap().dn, "uid=johndoe");
    assert!(unbind);
    let (result, unbind) = run("johndoe", Ok(()), Reply::Granted, found(), Reply::Refused(49));
    assert_eq!(
        result.err().unwrap().message,
        "LDAP authentication failed for johndoe. Reason: Invalid Credentials"
    );
    assert!(unbind);
}

#[test]
fn errors_of_the_dialogue() {
    let found = || Found::Entry(entry("uid=a"));
    let failed = || ErrorChain::msg("broken pipe".to_string());
    let unopened = run("a", Err(failed()), Reply::Granted, found(), Reply::Granted);
    assert_eq!(
        unopened.0.err().unwrap().causes,
        vec!["broken pipe".to_string()]
    );
    assert_eq!(
        message(run("a", Err(failed()), Reply::Granted, found(), Reply::Granted)),
        "Error on opening connection with LDAP server"
    );
    assert_eq!(
        message(run("a", Ok(()), Reply::Refused(53), found(), Reply::Granted)),
        "LDAP bind user authentication failed. Reason: Unwilling To Perform"
    );
    assert_eq!(
        message(run("a", Ok(()), Reply::Unclear, found(), Reply::Granted)),
        "LDAP bind user authentication failed"
    );
    assert_eq!(
        message(run("a", Ok(()), Reply::Failed(failed()), found(), Reply::Granted)),
        "broken pipe"
    );
    assert_eq!(
        message(run("a", Ok(()), Reply::Granted, Found::Refused(32), Reply::Granted)),
        "LDAP search failed for a.Reason No Such Object"
    );
    assert_eq!(
        message(run("a", Ok(()), Reply::Granted, Found::Unclear, Reply::Granted)),
        "LDAP search unknown error"
    );
    assert_eq!(
        message(run("a", Ok(()), Reply::Granted, Found::Failed(failed()), Reply::Granted)),
        "broken pipe"
    );
    assert_eq!(
        message(run("alicecooper", Ok(()), Reply::Granted, Found::Nothing, Reply::Granted)),
        "LDAP user alicecooper not found"
    );
    assert_eq!(
        message(run("a", Ok(()), Reply::Granted, found(), Reply::Unclear)),
        "LDAP authentication failed"
    );
    let (result, unbind) = run("a", Ok(()), Reply::Granted, found(), Reply::Failed(failed()));
    assert_eq!(result.err().unwrap().message, "broken pipe");
    assert!(!unbind);
}

#[test]
fn last_result_is_taken() {
    assert_eq!(chosen_result(vec![1, 2, 3]), Some(3));
    assert_eq!(chosen_result(Vec::<u8>::new()), None);
}

#[test]
fn names_of_result_codes() {
    assert_eq!(ldap_rc_to_str(0), "Success");
    assert_eq!(ldap_rc_to_str(49), "Invalid Credentials");
    assert_eq!(ldap_rc_to_str(80), "Other");
    assert_eq!(ldap_rc_to_str(9), "Unknown");
    assert_eq!(ldap_rc_to_str(4096), "Unknown");
}
