use k8s_ldap_auth::args::options;
use k8s_ldap_auth::args::parse_port;
use k8s_ldap_auth::args::possible_env_vars;
use k8s_ldap_auth::args::Args;
use k8s_ldap_auth::args::LogLevel;
use k8s_ldap_auth::args::MatchedArgs;
use k8s_ldap_auth::ldap::LdapArgs;

/// The values of the options when only the required ones are given.
fn base_args() -> MatchedArgs {
    let value = |name: &str| {
        let option = options().into_iter().find(|o| o.name == name).unwrap();
        option.default_value.unwrap_or("").to_string()
    };
    MatchedArgs {
        log_level: value("log-level"),
        log_file_path: value("log-file-path"),
        ip_address: value("ip-address"),
        port: value("port"),
        key: value("key"),
        cert: value("cert"),
        cacert: value("cacert"),
        ldap_url: "ldaps://localhost".to_string(),
        ldap_bind_user: "cn=admin,dc=example,dc=test".to_string(),
        ldap_bind_password: "secret".to_string(),
        ldap_search_base: "dc=example,dc=test".to_string(),
        ldap_user_attr: value("ldap-user-attr"),
        ldap_search_attrs: vec![value("ldap-search-attrs")],
        ldap_timeout_conn: value("ldap-timeout-conn"),
        ldap_cacert_path: None,
        ldap_token_attr: value("ldap-token-attr"),
    }
}

fn ldap_args(search_attrs: &str, timeout: &str, cacert: Option<&str>) -> LdapArgs {
    LdapArgs::new(
        "ldaps://localhost".to_string(),
        "cn=admin,dc=example,dc=test".to_string(),
        "secret".to_string(),
        "dc=example,dc=test".to_string(),
        "uid".to_string(),
        search_attrs.to_string(),
        timeout.to_string(),
        cacert.map(|path| path.to_string()),
    )
}

#[test]
fn test_args_parse_log_level() {
    assert!(matches!(Args::parse_log_level("DEBUG"), LogLevel::DEBUG));
    assert!(matches!(Args::parse_log_level("info"), LogLevel::INFO));
    assert!(matches!(Args::parse_log_level("Warn"), LogLevel::WARN));
    assert!(matches!(Args::parse_log_level("ERROR"), LogLevel::ERROR));
    assert!(matches!(Args::parse_log_level("critical"), LogLevel::CRITICAL));
    assert!(matches!(Args::parse_log_level("garbage"), LogLevel::INFO));
    assert!(matches!(Args::parse_log_level(""), LogLevel::INFO));
}

#[test]
fn test_args_default_args() {
    let mut matched = base_args();
    matched.ldap_cacert_path = Some("ldap-ca.crt".to_string());
    let args = Args::new(matched);
    assert!(args.log_level() == LogLevel::INFO);
    assert_eq!(args.log_file_path(), None);
    let ((ip, port), (key, cert, cacert), ldap) = args.get_all_args();
    assert_eq!(ip, "0.0.0.0");
    assert_eq!(port, 7878u16);
    assert_eq!(key, "./pki/server/webhook-server.key");
    assert_eq!(cert, "./pki/server/webhook-server.pem");
    assert_eq!(cacert, "./pki/ca/ca.crt");
    assert_eq!(ldap, ldap_args("", "10", Some("ldap-ca.crt")));
}

#[test]
fn test_args_custom_args() {
    let mut matched = base_args();
    matched.ip_address = "127.0.0.1".to_string();
    matched.port = "9443".to_string();
    matched.key = "webhook-server.key".to_string();
    matched.cert = "webhook-server.pem".to_string();
    matched.cacert = "ca.crt".to_string();
    matched.log_file_path = "/var/log/auth.log".to_string();
    matched.ldap_cacert_path = Some("/path/to/ca.crt".to_string());
    matched.ldap_search_attrs = vec!["k8s_extra_sn:sn".to_string(), "username:uid".to_string()];
    let args = Args::new(matched);
    assert_eq!(args.log_file_path(), Some("/var/log/auth.log".to_string()));
    let ((ip, port), (key, cert, cacert), ldap) = args.get_all_args();
    assert_eq!(ip, "127.0.0.1");
    assert_eq!(port, 9443u16);
    assert_eq!(key, "webhook-server.key");
    assert_eq!(cert, "webhook-server.pem");
    assert_eq!(cacert, "ca.crt");
    assert_eq!(ldap, ldap_args("k8s_extra_sn:sn,username:uid", "10", Some("/path/to/ca.crt")));
}

#[test]
fn test_args_invalid_port_falls_back_to_7878() {
    let mut matched = base_args();
    matched.port = "nonsensevalue".to_string();
    let ((_, port), _, _) = Args::new(matched).get_all_args();
    assert_eq!(port, 7878u16);
}

#[test]
fn test_args_log_level_from_cli() {
    let cases = [
        ("DEBUG", LogLevel::DEBUG),
        ("INFO", LogLevel::INFO),
        ("WARN", LogLevel::WARN),
        ("ERROR", LogLevel::ERROR),
        ("CRITICAL", LogLevel::CRITICAL),
    ];
    for (name, level) in cases {
        let mut matched = base_args();
        matched.log_level = name.to_string();
        assert!(Args::new(matched).log_level() == level);
    }
}

#[test]
fn test_args_ldap_cacert_absent() {
    let (_, _, ldap) = Args::new(base_args()).get_all_args();
    assert_eq!(ldap, ldap_args("", "10", None));
}

#[test]
fn test_args_ldap_cacert_present() {
    let mut matched = base_args();
    matched.ldap_cacert_path = Some("/etc/ssl/ldap-ca.crt".to_string());
    let (_, _, ldap) = Args::new(matched).get_all_args();
    assert_eq!(ldap, ldap_args("", "10", Some("/etc/ssl/ldap-ca.crt")));
}

#[test]
fn test_args_ldap_timeout_custom() {
    let mut matched = base_args();
    matched.ldap_timeout_conn = "30".to_string();
    let (_, _, ldap) = Args::new(matched).get_all_args();
    assert_eq!(ldap, ldap_args("", "30", None));
}

#[test]
fn ports_at_the_edge_of_the_range() {
    assert_eq!(parse_port("0"), 0);
    assert_eq!(parse_port("65535"), 65535);
    assert_eq!(parse_port("65536"), 7878);
    assert_eq!(parse_port("+80"), 80);
    assert_eq!(parse_port("-80"), 7878);
    assert_eq!(parse_port(""), 7878);
}

#[test]
fn required_options_have_no_default() {
    let required: Vec<&str> =
        options().iter().filter(|o| o.required).map(|o| o.name).collect();
    assert_eq!(
        required,
        vec!["ldap-url", "ldap-bind-user", "ldap-bind-password", "ldap-search-base"]
    );
    for option in options() {
        if option.required {
            assert!(option.default_value.is_none());
            assert!(option.env.unwrap().starts_with("K8S_LDAP_AUTH"));
        }
    }
}

#[test]
fn environment_variables_and_what_stands_in_for_them() {
    let vars = possible_env_vars();
    assert_eq!(vars.len(), 14);
    assert_eq!(vars[0], ("K8S_LDAP_AUTH_LOG_LEVEL", "INFO"));
    assert!(vars.contains(&("K8S_LDAP_AUTH_LDAP_URL", "")));
    assert!(vars.contains(&("K8S_LDAP_AUTH_LDAP_TIMEOUT_CONN", "10")));
    assert!(vars.contains(&("K8S_LDAP_AUTH_LDAP_TOKEN_ATTR", "k8sToken")));
}

#[test]
fn only_variables_of_the_program_are_reported() {
    let names = vec![
        "HOME".to_string(),
        "K8S_LDAP_AUTH_KEY_PATH".to_string(),
        "XK8S_LDAP_AUTH".to_string(),
    ];
    assert_eq!(
        Args::check_env_vars(&names),
        vec!["Loaded environment variable K8S_LDAP_AUTH_KEY_PATH".to_string()]
    );
}

#[test]
fn attribute_of_the_token() {
    assert_eq!(Args::new(base_args()).ldap_token_attr(), "k8sToken");
    let mut matched = base_args();
    matched.ldap_token_attr = "myToken".to_string();
    assert_eq!(Args::new(matched).ldap_token_attr(), "myToken");
    let option = options().into_iter().find(|o| o.name == "ldap-token-attr").unwrap();
    assert_eq!(option.env, Some("K8S_LDAP_AUTH_LDAP_TOKEN_ATTR"));
    assert!(!option.required);
    assert!(!option.many);
}
