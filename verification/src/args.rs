//! The options of the program and the values that they were given.
use vstd::prelude::*;

use crate::ldap::attrs_of;
use crate::ldap::connector_of;
use crate::ldap::LdapArgs;
use crate::ldap::LdapArgsView;
use crate::number;
use crate::number::parsed;
use crate::text;
use crate::text::ascii_upper_cased;
use crate::text::joined;
use crate::text::law_split_undoes_join;
use crate::text::lemma_position_is;
use crate::text::split;
use crate::text::upper_cased;
use crate::ldap::law_connector_waits_as_told;
use crate::ldap::law_one_pair_more;
use crate::number::decimal;
use crate::number::is_digit;
use crate::number::law_decimal_reads_back;
use crate::number::law_large_numbers_are_refused;
use crate::number::law_parsed;

verus! {

/// How much is logged.
#[derive(Clone, Copy, Debug, PartialEq, Eq, Structural)]
pub enum LogLevel {
    DEBUG,
    INFO,
    WARN,
    ERROR,
    CRITICAL,
}

/// The level that a name in upper case stands for.
pub open spec fn level_named(upper: Seq<char>) -> LogLevel {
    if upper == "DEBUG"@ {
        LogLevel::DEBUG
    } else if upper == "WARN"@ {
        LogLevel::WARN
    } else if upper == "ERROR"@ {
        LogLevel::ERROR
    } else if upper == "CRITICAL"@ {
        LogLevel::CRITICAL
    } else {
        LogLevel::INFO
    }
}

impl LogLevel {
    /// The level that a name in upper case stands for; any other name stands
    /// for `INFO`.
    pub fn named(upper: &str) -> (r: LogLevel)
        ensures
            r == level_named(upper@),
    {
        if text::same(upper, "DEBUG") {
            LogLevel::DEBUG
        } else if text::same(upper, "WARN") {
            LogLevel::WARN
        } else if text::same(upper, "ERROR") {
            LogLevel::ERROR
        } else if text::same(upper, "CRITICAL") {
            LogLevel::CRITICAL
        } else {
            LogLevel::INFO
        }
    }
}

/// The port that is listened on when the one given is not a port number.
pub const DEFAULT_PORT: u16 = 7878;

/// The port that a text names.
pub open spec fn port_named(s: Seq<char>) -> u16 {
    match parsed(s, u16::MAX as nat) {
        Some(n) => n as u16,
        None => DEFAULT_PORT,
    }
}

/// The port that a text names, or the default port when it names none.
pub fn parse_port(s: &str) -> (r: u16)
    ensures
        r == port_named(s@),
{
    match number::parse(s, 65535) {
        Some(n) => n as u16,
        None => DEFAULT_PORT,
    }
}

/// The values of the options as the command line, the environment and the
/// defaults give them.
pub struct MatchedArgs {
    pub log_level: String,
    pub log_file_path: String,
    pub ip_address: String,
    pub port: String,
    pub key: String,
    pub cert: String,
    pub cacert: String,
    pub ldap_url: String,
    pub ldap_bind_user: String,
    pub ldap_bind_password: String,
    pub ldap_search_base: String,
    pub ldap_user_attr: String,
    pub ldap_search_attrs: Vec<String>,
    pub ldap_timeout_conn: String,
    pub ldap_cacert_path: Option<String>,
    pub ldap_token_attr: String,
}

/// The arguments of the program.
pub struct Args {
    log_level: LogLevel,
    log_file_path: Option<String>,
    socket_args: (String, u16),
    tls_args: (String, String, String),
    ldap_args: LdapArgs,
    ldap_token_attr: String,
}

/// The values of the arguments.
pub struct ArgsView {
    pub log_level: LogLevel,
    pub log_file_path: Option<Seq<char>>,
    pub socket_args: (Seq<char>, u16),
    pub tls_args: (Seq<char>, Seq<char>, Seq<char>),
    pub ldap_args: LdapArgsView,
    pub ldap_token_attr: Seq<char>,
}

impl View for Args {
    type V = ArgsView;

    closed spec fn view(&self) -> ArgsView {
        ArgsView {
            log_level: self.log_level,
            log_file_path: self.log_file_path.deep_view(),
            socket_args: (self.socket_args.0@, self.socket_args.1),
            tls_args: (self.tls_args.0@, self.tls_args.1@, self.tls_args.2@),
            ldap_args: self.ldap_args@,
            ldap_token_attr: self.ldap_token_attr@,
        }
    }
}

/// The arguments that the values of the options stand for.
pub open spec fn args_of(matched: MatchedArgs) -> ArgsView {
    ArgsView {
        log_level: level_named(upper_cased(matched.log_level@)),
        log_file_path: if matched.log_file_path@.len() == 0 {
            None
        } else {
            Some(matched.log_file_path@)
        },
        socket_args: (matched.ip_address@, port_named(matched.port@)),
        tls_args: (matched.key@, matched.cert@, matched.cacert@),
        ldap_args: LdapArgsView {
            ldap_url: matched.ldap_url@,
            ldap_bind_user: matched.ldap_bind_user@,
            ldap_bind_password: matched.ldap_bind_password@,
            ldap_search_base: matched.ldap_search_base@,
            ldap_user_attr: matched.ldap_user_attr@,
            search_attrs: joined(matched.ldap_search_attrs.deep_view(), ","@),
            ldap_timeout_conn: matched.ldap_timeout_conn@,
            ldap_cacert_file_path: matched.ldap_cacert_path.deep_view(),
        },
        ldap_token_attr: matched.ldap_token_attr@,
    }
}

impl Args {
    /// Reads the values of the options.
    pub fn new(matched: MatchedArgs) -> (r: Self)
        ensures
            r@ == args_of(matched),
            ascii_upper_cased(matched.log_level@),
    {
        let log_level = Self::parse_log_level(matched.log_level.as_str());
        let port: u16 = parse_port(matched.port.as_str());
        let search_attrs = text::join(&matched.ldap_search_attrs, ",");
        let log_file_path = if matched.log_file_path.as_str().is_empty() {
            None
        } else {
            Some(matched.log_file_path)
        };
        Args {
            log_level,
            log_file_path,
            socket_args: (matched.ip_address, port),
            tls_args: (matched.key, matched.cert, matched.cacert),
            ldap_args: LdapArgs::new(
                matched.ldap_url,
                matched.ldap_bind_user,
                matched.ldap_bind_password,
                matched.ldap_search_base,
                matched.ldap_user_attr,
                search_attrs,
                matched.ldap_timeout_conn,
                matched.ldap_cacert_path,
            ),
            ldap_token_attr: matched.ldap_token_attr,
        }
    }

    /// The log level that a name stands for in whatever case it is written.
    pub fn parse_log_level(log_level: &str) -> (r: LogLevel)
        ensures
            r == level_named(upper_cased(log_level@)),
            ascii_upper_cased(log_level@),
    {
        let upper = text::to_upper(log_level);
        LogLevel::named(upper.as_str())
    }

    /// The address and port of the socket, the paths of the key, the
    /// certificate and the CA certificate, and the LDAP arguments.
    pub fn get_all_args(self) -> (r: ((String, u16), (String, String, String), LdapArgs))
        ensures
            (r.0.0@, r.0.1) == self@.socket_args,
            (r.1.0@, r.1.1@, r.1.2@) == self@.tls_args,
            r.2@ == self@.ldap_args,
    {
        (self.socket_args, self.tls_args, self.ldap_args)
    }

    /// The log level.
    pub fn log_level(&self) -> (r: LogLevel)
        ensures
            r == self@.log_level,
    {
        self.log_level
    }

    /// The name of the attribute that holds the hashed token of a user.
    pub fn ldap_token_attr(&self) -> (r: &str)
        ensures
            r@ == self@.ldap_token_attr,
    {
        self.ldap_token_attr.as_str()
    }

    /// The path of the log file, if one is to be written.
    pub fn log_file_path(&self) -> (r: Option<String>)
        ensures
            r.deep_view() == self@.log_file_path,
    {
        self.log_file_path.clone()
    }
}

/// What the names of the environment variables of the program start with.
pub const ENV_PREFIX: &'static str = "K8S_LDAP_AUTH";

/// An option of the command line. It is written with two dashes before its
/// name and takes one value; if `many` is set it takes any number of them,
/// separated by commas, and may be repeated.
#[derive(Clone, Copy)]
pub struct CliOption {
    pub name: &'static str,
    /// The environment variable that gives the value when the command line does
    /// not.
    pub env: Option<&'static str>,
    /// The value when neither gives one.
    pub default_value: Option<&'static str>,
    pub value_name: &'static str,
    pub required: bool,
    pub ignore_case: bool,
    pub many: bool,
    pub help: &'static str,
}

/// The options of the command line.
pub open spec fn option_table() -> Seq<CliOption> {
    seq![
        CliOption {
            name: "env-file",
            env: None,
            default_value: Some(".env"),
            value_name: "PATH",
            required: false,
            ignore_case: false,
            many: false,
            help: "",
        },
        CliOption {
            name: "log-level",
            env: Some("K8S_LDAP_AUTH_LOG_LEVEL"),
            default_value: Some("INFO"),
            value_name: "LEVEL",
            required: false,
            ignore_case: true,
            many: false,
            help: "",
        },
        CliOption {
            name: "log-file-path",
            env: Some("K8S_LDAP_AUTH_LOG_FILE_PATH"),
            default_value: Some(""),
            value_name: "PATH",
            required: false,
            ignore_case: false,
            many: false,
            help: "Path to the log file. If empty, the output is only written to the standard output",
        },
        CliOption {
            name: "ip-address",
            env: None,
            default_value: Some("0.0.0.0"),
            value_name: "ADDRESS",
            required: false,
            ignore_case: false,
            many: false,
            help: "IP address of the socket",
        },
        CliOption {
            name: "port",
            env: None,
            default_value: Some("7878"),
            value_name: "PORT",
            required: false,
            ignore_case: false,
            many: false,
            help: "Port of the socket",
        },
        CliOption {
            name: "key",
            env: Some("K8S_LDAP_AUTH_KEY_PATH"),
            default_value: Some("./pki/server/webhook-server.key"),
            value_name: "PATH",
            required: false,
            ignore_case: false,
            many: false,
            help: "Path to the private key file",
        },
        CliOption {
            name: "cert",
            env: Some("K8S_LDAP_AUTH_CERT_PATH"),
            default_value: Some("./pki/server/webhook-server.pem"),
            value_name: "PATH",
            required: false,
            ignore_case: false,
            many: false,
            help: "Path to the certificate of the server",
        },
        CliOption {
            name: "cacert",
            env: Some("K8S_LDAP_AUTH_CA_CERT_PATH"),
            default_value: Some("./pki/ca/ca.crt"),
            value_name: "PATH",
            required: false,
            ignore_case: false,
            many: false,
            help: "Path to the CA certificate to authenticate the clients",
        },
        CliOption {
            name: "ldap-url",
            env: Some("K8S_LDAP_AUTH_LDAP_URL"),
            default_value: None,
            value_name: "URL",
            required: true,
            ignore_case: false,
            many: false,
            help: "LDAP URL to authenticate the users",
        },
        CliOption {
            name: "ldap-bind-user",
            env: Some("K8S_LDAP_AUTH_LDAP_BIND_USER"),
            default_value: None,
            value_name: "BIND-USER",
            required: true,
            ignore_case: false,
            many: false,
            help: "LDAP bind user that will search the users",
        },
        CliOption {
            name: "ldap-bind-password",
            env: Some("K8S_LDAP_AUTH_LDAP_BIND_PASSWORD"),
            default_value: None,
            value_name: "BIND-PASSWORD",
            required: true,
            ignore_case: false,
            many: false,
            help: "Password of the LDAP bind user that will search the users (Preferred to pass as environment variable)",
        },
        CliOption {
            name: "ldap-search-base",
            env: Some("K8S_LDAP_AUTH_LDAP_SEARCH_BASE"),
            default_value: None,
            value_name: "SEARCH-BASE-DN",
            required: true,
            ignore_case: false,
            many: false,
            help: "DN specifying the subtree to look for the users",
        },
        CliOption {
            name: "ldap-user-attr",
            env: Some("K8S_LDAP_AUTH_LDAP_USER_ATTR"),
            default_value: Some("uid"),
            value_name: "PARAM",
            required: false,
            ignore_case: false,
            many: false,
            help: "Attribute that will be used to match the username from the token",
        },
        CliOption {
            name: "ldap-search-attrs",
            env: Some("K8S_LDAP_AUTH_LDAP_SEARCH_ATTRS"),
            default_value: Some(""),
            value_name: "ATTR_IN_K8S:ATTR_IN_LDAP_SERVER",
            required: false,
            ignore_case: false,
            many: true,
            help: "Attributes to retrieve from LDAP server. Note: This is an array of key:value values separated by comma",
        },
        CliOption {
            name: "ldap-timeout-conn",
            env: Some("K8S_LDAP_AUTH_LDAP_TIMEOUT_CONN"),
            default_value: Some("10"),
            value_name: "TIMEOUT",
            required: false,
            ignore_case: false,
            many: false,
            help: "Timeout for LDAP connection",
        },
        CliOption {
            name: "ldap-cacert-path",
            env: Some("K8S_LDAP_AUTH_LDAP_CA_CERT_PATH"),
            default_value: None,
            value_name: "PATH",
            required: false,
            ignore_case: false,
            many: false,
            help: "Path to the LDAP CA file to check the LDAP server",
        },
        CliOption {
            name: "ldap-token-attr",
            env: Some("K8S_LDAP_AUTH_LDAP_TOKEN_ATTR"),
            default_value: Some("k8sToken"),
            value_name: "ATTR",
            required: false,
            ignore_case: false,
            many: false,
            help: "LDAP attribute containing the hashed token (sha256:<hash> or sha512:<hash>)",
        },
    ]
}

/// The options of the command line.
pub fn options() -> (r: Vec<CliOption>)
    ensures
        r@ == option_table(),
{
    let r = vec![
        CliOption {
            name: "env-file",
            env: None,
            default_value: Some(".env"),
            value_name: "PATH",
            required: false,
            ignore_case: false,
            many: false,
            help: "",
        },
        CliOption {
            name: "log-level",
            env: Some("K8S_LDAP_AUTH_LOG_LEVEL"),
            default_value: Some("INFO"),
            value_name: "LEVEL",
            required: false,
            ignore_case: true,
            many: false,
            help: "",
        },
        CliOption {
            name: "log-file-path",
            env: Some("K8S_LDAP_AUTH_LOG_FILE_PATH"),
            default_value: Some(""),
            value_name: "PATH",
            required: false,
            ignore_case: false,
            many: false,
            help: "Path to the log file. If empty, the output is only written to the standard output",
        },
        CliOption {
            name: "ip-address",
            env: None,
            default_value: Some("0.0.0.0"),
            value_name: "ADDRESS",
            required: false,
            ignore_case: false,
            many: false,
            help: "IP address of the socket",
        },
        CliOption {
            name: "port",
            env: None,
            default_value: Some("7878"),
            value_name: "PORT",
            required: false,
            ignore_case: false,
            many: false,
            help: "Port of the socket",
        },
        CliOption {
            name: "key",
            env: Some("K8S_LDAP_AUTH_KEY_PATH"),
            default_value: Some("./pki/server/webhook-server.key"),
            value_name: "PATH",
            required: false,
            ignore_case: false,
            many: false,
            help: "Path to the private key file",
        },
        CliOption {
            name: "cert",
            env: Some("K8S_LDAP_AUTH_CERT_PATH"),
            default_value: Some("./pki/server/webhook-server.pem"),
            value_name: "PATH",
            required: false,
            ignore_case: false,
            many: false,
            help: "Path to the certificate of the server",
        },
        CliOption {
            name: "cacert",
            env: Some("K8S_LDAP_AUTH_CA_CERT_PATH"),
            default_value: Some("./pki/ca/ca.crt"),
            value_name: "PATH",
            required: false,
            ignore_case: false,
            many: false,
            help: "Path to the CA certificate to authenticate the clients",
        },
        CliOption {
            name: "ldap-url",
            env: Some("K8S_LDAP_AUTH_LDAP_URL"),
            default_value: None,
            value_name: "URL",
            required: true,
            ignore_case: false,
            many: false,
            help: "LDAP URL to authenticate the users",
        },
        CliOption {
            name: "ldap-bind-user",
            env: Some("K8S_LDAP_AUTH_LDAP_BIND_USER"),
            default_value: None,
            value_name: "BIND-USER",
            required: true,
            ignore_case: false,
            many: false,
            help: "LDAP bind user that will search the users",
        },
        CliOption {
            name: "ldap-bind-password",
            env: Some("K8S_LDAP_AUTH_LDAP_BIND_PASSWORD"),
            default_value: None,
            value_name: "BIND-PASSWORD",
            required: true,
            ignore_case: false,
            many: false,
            help: "Password of the LDAP bind user that will search the users (Preferred to pass as environment variable)",
        },
        CliOption {
            name: "ldap-search-base",
            env: Some("K8S_LDAP_AUTH_LDAP_SEARCH_BASE"),
            default_value: None,
            value_name: "SEARCH-BASE-DN",
            required: true,
            ignore_case: false,
            many: false,
            help: "DN specifying the subtree to look for the users",
        },
        CliOption {
            name: "ldap-user-attr",
            env: Some("K8S_LDAP_AUTH_LDAP_USER_ATTR"),
            default_value: Some("uid"),
            value_name: "PARAM",
            required: false,
            ignore_case: false,
            many: false,
            help: "Attribute that will be used to match the username from the token",
        },
        CliOption {
            name: "ldap-search-attrs",
            env: Some("K8S_LDAP_AUTH_LDAP_SEARCH_ATTRS"),
            default_value: Some(""),
            value_name: "ATTR_IN_K8S:ATTR_IN_LDAP_SERVER",
            required: false,
            ignore_case: false,
            many: true,
            help: "Attributes to retrieve from LDAP server. Note: This is an array of key:value values separated by comma",
        },
        CliOption {
            name: "ldap-timeout-conn",
            env: Some("K8S_LDAP_AUTH_LDAP_TIMEOUT_CONN"),
            default_value: Some("10"),
            value_name: "TIMEOUT",
            required: false,
            ignore_case: false,
            many: false,
            help: "Timeout for LDAP connection",
        },
        CliOption {
            name: "ldap-cacert-path",
            env: Some("K8S_LDAP_AUTH_LDAP_CA_CERT_PATH"),
            default_value: None,
            value_name: "PATH",
            required: false,
            ignore_case: false,
            many: false,
            help: "Path to the LDAP CA file to check the LDAP server",
        },
        CliOption {
            name: "ldap-token-attr",
            env: Some("K8S_LDAP_AUTH_LDAP_TOKEN_ATTR"),
            default_value: Some("k8sToken"),
            value_name: "ATTR",
            required: false,
            ignore_case: false,
            many: false,
            help: "LDAP attribute containing the hashed token (sha256:<hash> or sha512:<hash>)",
        },
    ];
    assert(r@ == option_table());
    r
}

/// Every environment variable that gives an option carries the prefix of the
/// program; an option that has to be given has no default and can be given by
/// the environment; and only the path of the LDAP CA may be left out without a
/// default.
pub proof fn law_option_table()
    ensures
        forall|i: int|
            0 <= i < option_table().len() ==> {
                &&& (#[trigger] option_table()[i]).env matches Some(env) ==> ENV_PREFIX@.is_prefix_of(
                    env@,
                )
                &&& option_table()[i].required ==> option_table()[i].default_value is None
                    && option_table()[i].env is Some
                &&& option_table()[i].default_value is None ==> option_table()[i].required
                    || option_table()[i].name@ == "ldap-cacert-path"@
            },
{
    reveal_strlit("K8S_LDAP_AUTH");
    reveal_strlit("K8S_LDAP_AUTH_LOG_LEVEL");
    reveal_strlit("K8S_LDAP_AUTH_LOG_FILE_PATH");
    reveal_strlit("K8S_LDAP_AUTH_KEY_PATH");
    reveal_strlit("K8S_LDAP_AUTH_CERT_PATH");
    reveal_strlit("K8S_LDAP_AUTH_CA_CERT_PATH");
    reveal_strlit("K8S_LDAP_AUTH_LDAP_URL");
    reveal_strlit("K8S_LDAP_AUTH_LDAP_BIND_USER");
    reveal_strlit("K8S_LDAP_AUTH_LDAP_BIND_PASSWORD");
    reveal_strlit("K8S_LDAP_AUTH_LDAP_SEARCH_BASE");
    reveal_strlit("K8S_LDAP_AUTH_LDAP_USER_ATTR");
    reveal_strlit("K8S_LDAP_AUTH_LDAP_SEARCH_ATTRS");
    reveal_strlit("K8S_LDAP_AUTH_LDAP_TIMEOUT_CONN");
    reveal_strlit("K8S_LDAP_AUTH_LDAP_CA_CERT_PATH");
    reveal_strlit("K8S_LDAP_AUTH_LDAP_TOKEN_ATTR");
    assert forall|i: int| 0 <= i < option_table().len() implies ((
    #[trigger] option_table()[i]).env matches Some(env) ==> ENV_PREFIX@.is_prefix_of(env@)) by {
        if let Some(env) = option_table()[i].env {
            assert(env@.take(13) == ENV_PREFIX@);
        }
    }
}

/// The environment variables that give options, each with the value that is
/// used in its place; an empty one if there is none.
pub open spec fn env_vars_of(table: Seq<CliOption>) -> Seq<(Seq<char>, Seq<char>)>
    decreases table.len(),
{
    if table.len() == 0 {
        seq![]
    } else {
        let front = env_vars_of(table.drop_last());
        match table.last().env {
            Some(env) => front.push(
                (
                    env@,
                    match table.last().default_value {
                        Some(value) => value@,
                        None => ""@,
                    },
                ),
            ),
            None => front,
        }
    }
}

/// The environment variables that give options, each with the value that is
/// used in its place.
pub fn possible_env_vars() -> (r: Vec<(&'static str, &'static str)>)
    ensures
        r@.map_values(|v: (&'static str, &'static str)| (v.0@, v.1@)) == env_vars_of(
            option_table(),
        ),
{
    let table = options();
    let n: usize = table.len();
    let mut r: Vec<(&'static str, &'static str)> = Vec::new();
    let mut i: usize = 0;
    proof {
        assert(table@.take(0) == Seq::<CliOption>::empty());
        assert(r@.map_values(|v: (&'static str, &'static str)| (v.0@, v.1@)) == env_vars_of(
            table@.take(0),
        ));
    }
    while i < n
        invariant
            i <= n,
            n == table@.len(),
            r@.map_values(|v: (&'static str, &'static str)| (v.0@, v.1@)) == env_vars_of(
                table@.take(i as int),
            ),
        decreases n - i,
    {
        let ghost before = r@.map_values(|v: (&'static str, &'static str)| (v.0@, v.1@));
        proof {
            assert(table@.take(i + 1).drop_last() == table@.take(i as int));
            assert(table@.take(i + 1).last() == table@[i as int]);
        }
        match table[i].env {
            Some(env) => {
                let value = match table[i].default_value {
                    Some(value) => value,
                    None => "",
                };
                r.push((env, value));
                assert(r@.map_values(|v: (&'static str, &'static str)| (v.0@, v.1@))
                    == before.push((env@, value@)));
            },
            None => {},
        }
        i += 1;
    }
    assert(table@.take(n as int) == table@);
    r
}

/// The messages for the environment variables of the program among `names`.
pub open spec fn env_messages(names: Seq<Seq<char>>) -> Seq<Seq<char>>
    decreases names.len(),
{
    if names.len() == 0 {
        seq![]
    } else if ENV_PREFIX@.is_prefix_of(names.last()) {
        env_messages(names.drop_last()).push("Loaded environment variable "@ + names.last())
    } else {
        env_messages(names.drop_last())
    }
}

impl Args {
    /// One message for each environment variable of the program among `names`.
    pub fn check_env_vars(names: &Vec<String>) -> (r: Vec<String>)
        ensures
            r.deep_view() == env_messages(names.deep_view()),
    {
        let ghost all = names.deep_view();
        let n: usize = names.len();
        let mut r: Vec<String> = Vec::new();
        let mut i: usize = 0;
        proof {
            assert(all.take(0) == Seq::<Seq<char>>::empty());
            assert(r.deep_view() == env_messages(all.take(0)));
        }
        while i < n
            invariant
                i <= n,
                n == names@.len(),
                all == names.deep_view(),
                r.deep_view() == env_messages(all.take(i as int)),
            decreases n - i,
        {
            proof {
                assert(all.take(i + 1).drop_last() == all.take(i as int));
                assert(all.take(i + 1).last() == names@[i as int]@);
            }
            let ghost before = r.deep_view();
            if text::starts_with(text::to_chars(names[i].as_str()).as_slice(), ENV_PREFIX) {
                let mut message = "Loaded environment variable ".to_string();
                message.append(names[i].as_str());
                r.push(message);
                assert(r.deep_view() == before.push(message@));
            }
            i += 1;
        }
        assert(all.take(n as int) == all);
        r
    }
}

/// The attributes that the connector asks for are those of the `key:value`
/// pairs that were given, however they were spread over the command line.
pub proof fn law_search_attrs_reach_the_connector(
    matched: MatchedArgs,
    starttls: bool,
    ca: Option<native_tls::Certificate>,
)
    requires
        forall|i: int|
            0 <= i < matched.ldap_search_attrs.deep_view().len() ==> !(
            #[trigger] matched.ldap_search_attrs.deep_view()[i]).contains(','),
    ensures
        connector_of(args_of(matched).ldap_args, starttls, ca).attrs == attrs_of(
            matched.ldap_search_attrs.deep_view(),
        ),
{
    reveal_strlit(",");
    let list = matched.ldap_search_attrs.deep_view();
    assert(","@ == seq![',']);
    if list.len() == 0 {
        let none = Seq::<char>::empty();
        lemma_position_is(none, ',', 0);
        lemma_position_is(none, ':', 0);
        assert(split(none, ',') == seq![none]);
        assert(seq![none].drop_last() == list);
        assert(attrs_of(seq![none]) == attrs_of(list));
    } else {
        law_split_undoes_join(list, ',');
    }
}

/// The names of the levels lead to the levels, and any other name to `INFO`.
pub proof fn law_levels_by_name(upper: Seq<char>)
    ensures
        level_named("DEBUG"@) == LogLevel::DEBUG,
        level_named("INFO"@) == LogLevel::INFO,
        level_named("WARN"@) == LogLevel::WARN,
        level_named("ERROR"@) == LogLevel::ERROR,
        level_named("CRITICAL"@) == LogLevel::CRITICAL,
        upper != "DEBUG"@ && upper != "WARN"@ && upper != "ERROR"@ && upper != "CRITICAL"@
            ==> level_named(upper) == LogLevel::INFO,
{
    reveal_strlit("DEBUG");
    reveal_strlit("INFO");
    reveal_strlit("WARN");
    reveal_strlit("ERROR");
    reveal_strlit("CRITICAL");
    assert("DEBUG"@[0] != "ERROR"@[0]);
    assert("INFO"@[0] != "WARN"@[0]);
}

/// A port is read from its number; a number that is no port, and a text that is
/// no number, lead to port 7878.
pub proof fn law_ports(n: nat, s: Seq<char>, i: int)
    ensures
        n <= 65535 ==> port_named(decimal(n)) == n,
        n > 65535 ==> port_named(decimal(n)) == 7878,
        s.len() == 0 ==> port_named(s) == 7878,
        0 < i < s.len() && !is_digit(s[i]) ==> port_named(s) == 7878,
        s.len() > 0 && !is_digit(s[0]) && s[0] != '+' ==> port_named(s) == 7878,
{
    law_decimal_reads_back(n, u16::MAX as nat);
    if n > 65535 {
        law_large_numbers_are_refused(n, u16::MAX as nat);
    }
    law_parsed(s, u16::MAX as nat);
}

/// What is given for an option reaches the arguments unchanged, each value at
/// its own place; an empty path stands for no log file.
pub proof fn law_values_reach_the_arguments(matched: MatchedArgs)
    ensures
        ({
            let args = args_of(matched);
            &&& args.socket_args.0 == matched.ip_address@
            &&& args.tls_args == (matched.key@, matched.cert@, matched.cacert@)
            &&& args.ldap_args.ldap_url == matched.ldap_url@
            &&& args.ldap_args.ldap_bind_user == matched.ldap_bind_user@
            &&& args.ldap_args.ldap_bind_password == matched.ldap_bind_password@
            &&& args.ldap_args.ldap_search_base == matched.ldap_search_base@
            &&& args.ldap_args.ldap_user_attr == matched.ldap_user_attr@
            &&& args.ldap_args.ldap_timeout_conn == matched.ldap_timeout_conn@
            &&& args.ldap_args.ldap_cacert_file_path == matched.ldap_cacert_path.deep_view()
            &&& args.ldap_token_attr == matched.ldap_token_attr@
            &&& args.log_file_path is None <==> matched.log_file_path@.len() == 0
            &&& args.log_file_path matches Some(path) ==> path == matched.log_file_path@
        }),
{
}

/// A level, a port and the search attributes are read from what is given for
/// them: the level in whatever case it is written, the port as a number, the
/// attributes as a list that commas separate.
pub proof fn law_values_that_are_read(matched: MatchedArgs, port: u16)
    ensures
        upper_cased(matched.log_level@) == "DEBUG"@ ==> args_of(matched).log_level
            == LogLevel::DEBUG,
        upper_cased(matched.log_level@) == "CRITICAL"@ ==> args_of(matched).log_level
            == LogLevel::CRITICAL,
        upper_cased(matched.log_level@) == "ERROR"@ ==> args_of(matched).log_level
            == LogLevel::ERROR,
        upper_cased(matched.log_level@) == "WARN"@ ==> args_of(matched).log_level == LogLevel::WARN,
        upper_cased(matched.log_level@) == "INFO"@ ==> args_of(matched).log_level == LogLevel::INFO,
        matched.port@ == decimal(port as nat) ==> args_of(matched).socket_args.1 == port,
        args_of(matched).ldap_args.search_attrs == joined(
            matched.ldap_search_attrs.deep_view(),
            seq![','],
        ),
{
    reveal_strlit(",");
    assert(","@ == seq![',']);
    law_levels_by_name(upper_cased(matched.log_level@));
    law_ports(port as nat, matched.port@, 0);
}

/// The options by name, with the environment variable that gives each and the
/// value that stands in for it.
pub open spec fn documented_options() -> Seq<(Seq<char>, Option<Seq<char>>, Option<Seq<char>>)> {
    seq![
        ("env-file"@, None::<Seq<char>>, Some(".env"@)),
        ("log-level"@, Some("K8S_LDAP_AUTH_LOG_LEVEL"@), Some("INFO"@)),
        ("log-file-path"@, Some("K8S_LDAP_AUTH_LOG_FILE_PATH"@), Some(""@)),
        ("ip-address"@, None::<Seq<char>>, Some("0.0.0.0"@)),
        ("port"@, None::<Seq<char>>, Some("7878"@)),
        ("key"@, Some("K8S_LDAP_AUTH_KEY_PATH"@), Some("./pki/server/webhook-server.key"@)),
        ("cert"@, Some("K8S_LDAP_AUTH_CERT_PATH"@), Some("./pki/server/webhook-server.pem"@)),
        ("cacert"@, Some("K8S_LDAP_AUTH_CA_CERT_PATH"@), Some("./pki/ca/ca.crt"@)),
        ("ldap-url"@, Some("K8S_LDAP_AUTH_LDAP_URL"@), None::<Seq<char>>),
        ("ldap-bind-user"@, Some("K8S_LDAP_AUTH_LDAP_BIND_USER"@), None::<Seq<char>>),
        ("ldap-bind-password"@, Some("K8S_LDAP_AUTH_LDAP_BIND_PASSWORD"@), None::<Seq<char>>),
        ("ldap-search-base"@, Some("K8S_LDAP_AUTH_LDAP_SEARCH_BASE"@), None::<Seq<char>>),
        ("ldap-user-attr"@, Some("K8S_LDAP_AUTH_LDAP_USER_ATTR"@), Some("uid"@)),
        ("ldap-search-attrs"@, Some("K8S_LDAP_AUTH_LDAP_SEARCH_ATTRS"@), Some(""@)),
        ("ldap-timeout-conn"@, Some("K8S_LDAP_AUTH_LDAP_TIMEOUT_CONN"@), Some("10"@)),
        ("ldap-cacert-path"@, Some("K8S_LDAP_AUTH_LDAP_CA_CERT_PATH"@), None::<Seq<char>>),
        ("ldap-token-attr"@, Some("K8S_LDAP_AUTH_LDAP_TOKEN_ATTR"@), Some("k8sToken"@)),
    ]
}

/// Every option that is documented is there, under its name, with its variable
/// and its default, and no other is. Only the level is read in whatever case it
/// is written, and only the search attributes may be repeated.
pub proof fn law_options_are_the_documented_ones()
    ensures
        option_table().len() == documented_options().len(),
        forall|i: int|
            0 <= i < option_table().len() ==> {
                &&& (#[trigger] option_table()[i]).name@ == documented_options()[i].0
                &&& option_table()[i].env.deep_view() == documented_options()[i].1
                &&& option_table()[i].default_value.deep_view() == documented_options()[i].2
                &&& option_table()[i].ignore_case <==> option_table()[i].name@ == "log-level"@
                &&& option_table()[i].many <==> option_table()[i].name@ == "ldap-search-attrs"@
            },
{
    reveal_strlit("env-file");
    reveal_strlit("log-level");
    reveal_strlit("log-file-path");
    reveal_strlit("ip-address");
    reveal_strlit("port");
    reveal_strlit("key");
    reveal_strlit("cert");
    reveal_strlit("cacert");
    reveal_strlit("ldap-url");
    reveal_strlit("ldap-bind-user");
    reveal_strlit("ldap-bind-password");
    reveal_strlit("ldap-search-base");
    reveal_strlit("ldap-user-attr");
    reveal_strlit("ldap-search-attrs");
    reveal_strlit("ldap-timeout-conn");
    reveal_strlit("ldap-cacert-path");
    reveal_strlit("ldap-token-attr");
    assert forall|i: int| 0 <= i < option_table().len() implies {
        &&& ((#[trigger] option_table()[i]).ignore_case <==> option_table()[i].name@
            == "log-level"@)
        &&& (option_table()[i].many <==> option_table()[i].name@ == "ldap-search-attrs"@)
    } by {
        let name = option_table()[i].name@;
        assert(name.len() == 9 && i != 1 ==> name[0] != "log-level"@[0] || name[4]
            != "log-level"@[4]);
        assert(name.len() == 17 && i != 13 ==> name[5] != "ldap-search-attrs"@[5]);
    }
}

/// The defaults say what they are there for: port 7878 on every address, the
/// level `INFO`, no log file, ten seconds for the directory, no attributes, and
/// users that are found by their `uid`.
pub proof fn law_defaults_are_read_as_meant(
    matched: MatchedArgs,
    starttls: bool,
    ca: Option<native_tls::Certificate>,
)
    requires
        matched.port@ == option_table()[4].default_value->0@,
        matched.log_file_path@ == option_table()[2].default_value->0@,
        matched.ldap_timeout_conn@ == option_table()[14].default_value->0@,
        matched.ldap_user_attr@ == option_table()[12].default_value->0@,
        matched.ldap_search_attrs.deep_view() == seq![option_table()[13].default_value->0@],
    ensures
        args_of(matched).socket_args.1 == 7878,
        args_of(matched).log_file_path is None,
        level_named(option_table()[1].default_value->0@) == LogLevel::INFO,
        connector_of(args_of(matched).ldap_args, starttls, ca).timeout == 10000,
        connector_of(args_of(matched).ldap_args, starttls, ca).search_filter == "(uid={})"@,
        connector_of(args_of(matched).ldap_args, starttls, ca).attrs == Map::<
            Seq<char>,
            Seq<char>,
        >::empty(),
{
    reveal_strlit("7878");
    reveal_strlit("10");
    reveal_strlit("");
    reveal_strlit("uid");
    reveal_strlit("(");
    reveal_strlit("={})");
    reveal_strlit("(uid={})");
    reveal_with_fuel(decimal, 5);
    assert(decimal(7878) == "7878"@);
    assert(decimal(10) == "10"@);
    law_ports(7878, Seq::empty(), 0);
    law_levels_by_name("INFO"@);
    law_connector_waits_as_told(args_of(matched).ldap_args, starttls, ca, 10);
    assert("("@ + "uid"@ + "={})"@ == "(uid={})"@);
    let none = Seq::<char>::empty();
    assert(""@ == none);
    let list = matched.ldap_search_attrs.deep_view();
    assert(list == seq![none]);
    assert forall|i: int| 0 <= i < list.len() implies !(#[trigger] list[i]).contains(',') by {}
    law_search_attrs_reach_the_connector(matched, starttls, ca);
    law_one_pair_more(Seq::empty(), (none, none), none);
    assert(list == Seq::<Seq<char>>::empty().push(none));
}

/// A variable of an option is listed with what stands in for it, and no other
/// is.
pub proof fn law_listed_variables(table: Seq<CliOption>, i: int)
    requires
        0 <= i < table.len(),
    ensures
        table[i].env matches Some(env) ==> env_vars_of(table).contains(
            (
                env@,
                match table[i].default_value {
                    Some(value) => value@,
                    None => ""@,
                },
            ),
        ),
        env_vars_of(table).len() <= table.len(),
    decreases table.len(),
{
    let front = table.drop_last();
    let earlier = env_vars_of(front);
    let all = env_vars_of(table);
    if i < front.len() {
        law_listed_variables(front, i);
        assert(front[i] == table[i]);
        if let Some(env) = table[i].env {
            let entry = (
                env@,
                match table[i].default_value {
                    Some(value) => value@,
                    None => ""@,
                },
            );
            let k = choose|k: int| 0 <= k < earlier.len() && earlier[k] == entry;
            assert(all[k] == entry);
        }
    } else {
        if front.len() > 0 {
            law_listed_variables(front, 0);
        }
        if table[i].env is Some {
            assert(all[all.len() - 1] == all.last());
        }
    }
}

/// A variable is reported exactly when its name starts with the prefix of the
/// program, in the order in which the names come.
pub proof fn law_reported_variables(names: Seq<Seq<char>>, rest: Seq<char>, other: Seq<char>)
    requires
        !"K8S_LDAP_AUTH"@.is_prefix_of(other),
    ensures
        env_messages(names.push("K8S_LDAP_AUTH"@ + rest)) == env_messages(names).push(
            "Loaded environment variable K8S_LDAP_AUTH"@ + rest,
        ),
        env_messages(names.push(other)) == env_messages(names),
        env_messages(Seq::empty()) == Seq::<Seq<char>>::empty(),
{
    reveal_strlit("K8S_LDAP_AUTH");
    reveal_strlit("Loaded environment variable ");
    reveal_strlit("Loaded environment variable K8S_LDAP_AUTH");
    let own = "K8S_LDAP_AUTH"@ + rest;
    assert(own.take("K8S_LDAP_AUTH"@.len() as int) == "K8S_LDAP_AUTH"@);
    assert(names.push(own).drop_last() == names);
    assert(names.push(other).drop_last() == names);
    assert("Loaded environment variable "@ + own == "Loaded environment variable K8S_LDAP_AUTH"@
        + rest);
}

} // verus!
