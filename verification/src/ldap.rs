//! The LDAP side of an authentication.
use vstd::prelude::*;

use crate::error::ErrorChain;
use crate::map::TextMap;
use crate::number;
use crate::number::parsed;
use crate::request::Timeout;
use crate::text;
use crate::text::pieces;
use crate::text::split;
use crate::text::split_at_first;
use crate::map::distinct_keys;
use crate::map::lemma_map_of_entry;
use crate::map::lemma_map_of_keys;
use crate::map::map_of;
use crate::number::decimal;
use crate::number::is_digit;
use crate::number::law_decimal_reads_back;
use crate::number::law_large_numbers_are_refused;
use crate::number::law_parsed;
use crate::text::joined;
use crate::text::law_split_at_first;
use crate::text::law_split_at_first_finds;
use crate::text::law_split_undoes_join;

verus! {

/// What the command line and the environment say of the LDAP server.
#[derive(PartialEq, Eq, Debug)]
pub struct LdapArgs {
    ldap_url: String,
    ldap_bind_user: String,
    ldap_bind_password: String,
    ldap_search_base: String,
    ldap_user_attr: String,
    search_attrs: String,
    ldap_timeout_conn: String,
    ldap_cacert_file_path: Option<String>,
}

/// The values of the LDAP arguments.
pub struct LdapArgsView {
    pub ldap_url: Seq<char>,
    pub ldap_bind_user: Seq<char>,
    pub ldap_bind_password: Seq<char>,
    pub ldap_search_base: Seq<char>,
    pub ldap_user_attr: Seq<char>,
    pub search_attrs: Seq<char>,
    pub ldap_timeout_conn: Seq<char>,
    pub ldap_cacert_file_path: Option<Seq<char>>,
}

impl View for LdapArgs {
    type V = LdapArgsView;

    closed spec fn view(&self) -> LdapArgsView {
        LdapArgsView {
            ldap_url: self.ldap_url@,
            ldap_bind_user: self.ldap_bind_user@,
            ldap_bind_password: self.ldap_bind_password@,
            ldap_search_base: self.ldap_search_base@,
            ldap_user_attr: self.ldap_user_attr@,
            search_attrs: self.search_attrs@,
            ldap_timeout_conn: self.ldap_timeout_conn@,
            ldap_cacert_file_path: self.ldap_cacert_file_path.deep_view(),
        }
    }
}

impl LdapArgs {
    pub fn new(
        ldap_url: String,
        ldap_bind_user: String,
        ldap_bind_password: String,
        ldap_search_base: String,
        ldap_user_attr: String,
        search_attrs: String,
        ldap_timeout_conn: String,
        ldap_cacert_file_path: Option<String>,
    ) -> (r: Self)
        ensures
            r@ == (LdapArgsView {
                ldap_url: ldap_url@,
                ldap_bind_user: ldap_bind_user@,
                ldap_bind_password: ldap_bind_password@,
                ldap_search_base: ldap_search_base@,
                ldap_user_attr: ldap_user_attr@,
                search_attrs: search_attrs@,
                ldap_timeout_conn: ldap_timeout_conn@,
                ldap_cacert_file_path: ldap_cacert_file_path.deep_view(),
            }),
    {
        Self {
            ldap_url,
            ldap_bind_user,
            ldap_bind_password,
            ldap_search_base,
            ldap_user_attr,
            search_attrs,
            ldap_timeout_conn,
            ldap_cacert_file_path,
        }
    }
}

/// A certificate of `native_tls`, which is carried to where a connection is
/// opened and not looked into.
#[verifier::external_type_specification]
#[verifier::external_body]
pub struct ExCertificate(native_tls::Certificate);

/// An error of `native_tls`.
#[verifier::external_type_specification]
#[verifier::external_body]
pub struct ExTlsError(native_tls::Error);

/// `native_tls::Certificate::from_pem` reads a certificate in PEM format by
/// means of the TLS library of the host. Where that library is OpenSSL, it takes
/// no more bytes than a C `int` counts and panics on more, so more are not
/// admitted. Which bytes the library takes, and the certificate or error that it
/// makes of them, are left unsaid.
pub assume_specification[ native_tls::Certificate::from_pem ](pem: &[u8]) -> (r: Result<
    native_tls::Certificate,
    native_tls::Error,
>)
    requires
        pem@.len() <= 0x7fff_ffff,
;

/// The most bytes that a CA file may have.
pub const MAX_PEM_BYTES: usize = 0x7fff_ffff;

/// Whether `read` is what the TLS library of the host may give when it is handed
/// `pem` to read a certificate in it.
pub open spec fn host_reads(
    pem: Seq<u8>,
    read: Result<native_tls::Certificate, native_tls::Error>,
) -> bool {
    exists|bytes: &[u8]|
        bytes@ == pem && #[trigger] call_ensures(
            native_tls::Certificate::from_pem,
            (bytes,),
            read,
        )
}

/// Calls a reader of certificates, and keeps what the call is known to ensure.
fn called<F: Fn(&[u8]) -> Result<native_tls::Certificate, native_tls::Error>>(
    reader: F,
    pem: &[u8],
) -> (r: Result<native_tls::Certificate, native_tls::Error>)
    requires
        call_requires(reader, (pem,)),
    ensures
        call_ensures(reader, (pem,), r),
{
    reader(pem)
}

/// Calls `to_string` on an error of `native_tls`. The text is the one of the
/// TLS library of the host, of which nothing is claimed.
#[verifier::external_body]
fn tls_error_text(error: &native_tls::Error) -> (r: String) {
    error.to_string()
}

/// Whether a connection is secured: it is for `ldaps` and is not for `ldap`;
/// other schemes are not known.
pub open spec fn secured(url: Seq<char>) -> Option<bool> {
    if "ldap://"@.is_prefix_of(url) {
        Some(false)
    } else if "ldaps://"@.is_prefix_of(url) {
        Some(true)
    } else {
        None
    }
}

/// The longest that the directory may be waited for, in seconds.
pub const MAX_TIMEOUT_SECS: u64 = 60;

/// How long the directory is waited for when no number is given, in seconds.
pub const DEFAULT_TIMEOUT_SECS: u64 = 10;

/// How long the directory is waited for, in seconds.
pub open spec fn timeout_secs(s: Seq<char>) -> nat {
    match parsed(s, u64::MAX as nat) {
        Some(n) => if n <= MAX_TIMEOUT_SECS {
            n
        } else {
            MAX_TIMEOUT_SECS as nat
        },
        None => DEFAULT_TIMEOUT_SECS as nat,
    }
}

/// The filter that finds a user; the user's name is to take the place of the
/// braces.
pub open spec fn filter_for(user_attr: Seq<char>) -> Seq<char> {
    "("@ + user_attr + "={})"@
}

/// `filter` with `user` in place of every pair of braces.
pub open spec fn filled(filter: Seq<char>, user: Seq<char>) -> Seq<char>
    decreases filter.len(),
{
    if filter.len() < 2 {
        filter
    } else if filter[0] == '{' && filter[1] == '}' {
        user + filled(filter.skip(2), user)
    } else {
        seq![filter[0]] + filled(filter.skip(1), user)
    }
}

/// The attributes that a list of `key:value` pairs gives. A pair without a
/// colon gives none, and of two pairs with one key the later counts.
pub open spec fn attrs_of(pairs: Seq<Seq<char>>) -> Map<Seq<char>, Seq<char>>
    decreases pairs.len(),
{
    if pairs.len() == 0 {
        Map::empty()
    } else {
        let front = attrs_of(pairs.drop_last());
        match split_at_first(pairs.last(), ':') {
            Some((key, value)) => front.insert(key, value),
            None => front,
        }
    }
}

pub(crate) fn fill(filter: &str, user: &str) -> (r: String)
    ensures
        r@ == filled(filter@, user@),
{
    let chars = text::to_chars(filter);
    let n: usize = chars.len();
    let mut r: String = String::new();
    let mut i: usize = 0;
    assert(chars@.skip(0) == filter@);
    while n - i > 1
        invariant
            i <= n,
            n == chars@.len(),
            chars@ == filter@,
            filled(filter@, user@) == r@ + filled(chars@.skip(i as int), user@),
        decreases n - i,
    {
        let ghost rest = chars@.skip(i as int);
        let ghost before = r@;
        if chars[i] == '{' && chars[i + 1] == '}' {
            r.append(user);
            i += 2;
            assert(rest.skip(2) == chars@.skip(i as int));
            assert(before + (user@ + filled(rest.skip(2), user@)) == r@ + filled(
                rest.skip(2),
                user@,
            ));
        } else {
            r.push(chars[i]);
            i += 1;
            assert(rest.skip(1) == chars@.skip(i as int));
            assert(before + (seq![rest[0]] + filled(rest.skip(1), user@)) == r@ + filled(
                rest.skip(1),
                user@,
            ));
        }
    }
    if i < n {
        let ghost rest = chars@.skip(i as int);
        r.push(chars[i]);
        assert(rest == seq![chars@[i as int]]);
    } else {
        assert(chars@.skip(i as int) == Seq::<char>::empty());
    }
    r
}

fn parse_attrs(search_attrs: &str) -> (r: TextMap<String>)
    ensures
        r@ == attrs_of(split(search_attrs@, ',')),
{
    let chars = text::to_chars(search_attrs);
    let pairs = text::split_all(chars.as_slice(), ',');
    let ghost all = pieces(pairs@);
    let n: usize = pairs.len();
    let mut r: TextMap<String> = TextMap::new();
    let mut i: usize = 0;
    assert(all.take(0) == Seq::<Seq<char>>::empty());
    while i < n
        invariant
            i <= n,
            n == pairs@.len(),
            all == pieces(pairs@),
            r@ == attrs_of(all.take(i as int)),
        decreases n - i,
    {
        proof {
            assert(all.take(i + 1).drop_last() == all.take(i as int));
            assert(all.take(i + 1).last() == pairs@[i as int]@);
        }
        match text::split_once(pairs[i], ':') {
            Some((key, value)) => {
                r.insert(text::to_text(key), text::to_text(value));
            },
            None => {},
        }
        i += 1;
    }
    assert(all.take(n as int) == all);
    r
}

/// What is needed to look users up in a directory.
pub struct LdapConnector {
    ldap_url: String,
    bind_user: String,
    bind_password: String,
    search_base: String,
    starttls: bool,
    ca: Option<native_tls::Certificate>,
    timeout: Timeout,
    search_filter: String,
    attrs: TextMap<String>,
}

/// The values that a connector works with. The keys of `attrs` are the names
/// of the attributes in Kubernetes, the values their names in the directory.
#[verifier::ext_equal]
pub struct ConnectorView {
    pub ldap_url: Seq<char>,
    pub bind_user: Seq<char>,
    pub bind_password: Seq<char>,
    pub search_base: Seq<char>,
    pub starttls: bool,
    pub ca: Option<native_tls::Certificate>,
    pub timeout: nat,
    pub search_filter: Seq<char>,
    pub attrs: Map<Seq<char>, Seq<char>>,
}

impl View for LdapConnector {
    type V = ConnectorView;

    closed spec fn view(&self) -> ConnectorView {
        ConnectorView {
            ldap_url: self.ldap_url@,
            bind_user: self.bind_user@,
            bind_password: self.bind_password@,
            search_base: self.search_base@,
            starttls: self.starttls,
            ca: self.ca,
            timeout: self.timeout@,
            search_filter: self.search_filter@,
            attrs: self.attrs@,
        }
    }
}

/// The connector that the arguments describe.
pub open spec fn connector_of(
    args: LdapArgsView,
    starttls: bool,
    ca: Option<native_tls::Certificate>,
) -> ConnectorView {
    ConnectorView {
        ldap_url: args.ldap_url,
        bind_user: args.ldap_bind_user,
        bind_password: args.ldap_bind_password,
        search_base: args.ldap_search_base,
        starttls,
        ca,
        timeout: timeout_secs(args.ldap_timeout_conn) * 1000,
        search_filter: filter_for(args.ldap_user_attr),
        attrs: attrs_of(split(args.search_attrs, ',')),
    }
}

/// The path of the CA file that has to be read: only that of a secured
/// connection.
pub open spec fn ca_path_of(args: LdapArgsView) -> Option<Seq<char>> {
    if secured(args.ldap_url) == Some(true) {
        args.ldap_cacert_file_path
    } else {
        None
    }
}

fn parse_scheme(url: &str) -> (r: Option<bool>)
    ensures
        r == secured(url@),
{
    let chars = text::to_chars(url);
    if text::starts_with(chars.as_slice(), "ldap://") {
        Some(false)
    } else if text::starts_with(chars.as_slice(), "ldaps://") {
        Some(true)
    } else {
        None
    }
}

impl LdapArgs {
    /// The path of the CA file that has to be read to build the connector.
    pub fn ca_path(&self) -> (r: Option<String>)
        ensures
            r.deep_view() == ca_path_of(self@),
    {
        match parse_scheme(self.ldap_url.as_str()) {
            Some(true) => self.ldap_cacert_file_path.clone(),
            _ => None,
        }
    }
}

/// The message for a URL of a scheme that is not known.
pub open spec fn scheme_error() -> Seq<Seq<char>> {
    seq!["Provide a valid URL that starts with ldap or ldaps"@]
}

/// Whether an error is that of a CA that could not be loaded: it says so, and is
/// caused by what the TLS library says.
pub open spec fn is_ca_error(error: Seq<Seq<char>>) -> bool {
    error.len() == 2 && error[0] == "Error loading LDAP server CA"@
}

impl LdapConnector {
    #[verifier::type_invariant]
    spec fn timeout_is_sound(self) -> bool {
        self.timeout.wf()
    }

    /// Builds the connector that the arguments describe. `ca_read` is what
    /// reading the CA file gave, if there is one to read; it counts for a
    /// secured connection only. What was read is handed to the TLS library of the
    /// host, which says whether it is a certificate.
    pub fn new(ldap_args: LdapArgs, ca_read: Option<Result<Vec<u8>, ErrorChain>>) -> (r: Result<
        Self,
        ErrorChain,
    >)
        requires
            secured(ldap_args@.ldap_url) == Some(true) ==> (ca_read matches Some(Ok(pem))
                ==> pem@.len() <= MAX_PEM_BYTES),
        ensures
            match secured(ldap_args@.ldap_url) {
                None => r matches Err(e) && e@ == scheme_error(),
                Some(false) => r matches Ok(c) && c@ == connector_of(ldap_args@, false, None),
                Some(true) => match ca_read {
                    None => r matches Ok(c) && c@ == connector_of(ldap_args@, true, None),
                    Some(Err(failure)) => r matches Err(e) && e@ == failure@,
                    Some(Ok(pem)) => exists|
                        read: Result<native_tls::Certificate, native_tls::Error>,
                    | #[trigger]
                        host_reads(pem@, read) && match read {
                            Ok(certificate) => r matches Ok(c) && c@ == connector_of(
                                ldap_args@,
                                true,
                                Some(certificate),
                            ),
                            Err(_) => r matches Err(e) && is_ca_error(e@),
                        },
                },
            },
    {
        let secured_url = matches!(parse_scheme(ldap_args.ldap_url.as_str()), Some(true));
        let ca = match ca_read {
            Some(Ok(pem)) => if secured_url {
                Some(load_ca_certificate_ldap(pem.as_slice()))
            } else {
                None
            },
            Some(Err(failure)) => Some(Err(failure)),
            None => None,
        };
        Self::with_ca(ldap_args, ca)
    }

    /// Builds the connector that the arguments describe. `ca` is the
    /// certificate of the CA, if there is one to load, or why it could not be
    /// loaded; it counts for a secured connection only.
    pub fn with_ca(
        ldap_args: LdapArgs,
        ca: Option<Result<native_tls::Certificate, ErrorChain>>,
    ) -> (r: Result<Self, ErrorChain>)
        ensures
            match secured(ldap_args@.ldap_url) {
                None => r matches Err(e) && e@ == scheme_error(),
                Some(false) => r matches Ok(c) && c@ == connector_of(ldap_args@, false, None),
                Some(true) => match ca {
                    None => r matches Ok(c) && c@ == connector_of(ldap_args@, true, None),
                    Some(Ok(certificate)) => r matches Ok(c) && c@ == connector_of(
                        ldap_args@,
                        true,
                        Some(certificate),
                    ),
                    Some(Err(failure)) => r matches Err(e) && e@ == failure@,
                },
            },
    {
        let starttls = match parse_scheme(ldap_args.ldap_url.as_str()) {
            Some(starttls) => starttls,
            None => {
                return Err(
                    ErrorChain::msg(
                        "Provide a valid URL that starts with ldap or ldaps".to_string(),
                    ),
                );
            },
        };
        let secs: u64 = match number::parse(ldap_args.ldap_timeout_conn.as_str(), u64::MAX) {
            Some(secs) => if secs <= MAX_TIMEOUT_SECS {
                secs
            } else {
                MAX_TIMEOUT_SECS
            },
            None => DEFAULT_TIMEOUT_SECS,
        };
        let ca = match ca {
            Some(Ok(certificate)) => if starttls {
                Some(certificate)
            } else {
                None
            },
            Some(Err(failure)) => if starttls {
                return Err(failure);
            } else {
                None
            },
            None => None,
        };
        let mut search_filter = "(".to_string();
        search_filter.append(ldap_args.ldap_user_attr.as_str());
        search_filter.append("={})");
        let attrs = parse_attrs(ldap_args.search_attrs.as_str());
        Ok(
            LdapConnector {
                ldap_url: ldap_args.ldap_url,
                bind_user: ldap_args.ldap_bind_user,
                bind_password: ldap_args.ldap_bind_password,
                search_base: ldap_args.ldap_search_base,
                starttls,
                ca,
                timeout: Timeout::from_secs(secs),
                search_filter,
                attrs,
            },
        )
    }

    /// The URL of the directory.
    pub fn ldap_url(&self) -> (r: &str)
        ensures
            r@ == self@.ldap_url,
    {
        self.ldap_url.as_str()
    }

    /// Whether the connection is secured.
    pub fn starttls(&self) -> (r: bool)
        ensures
            r == self@.starttls,
    {
        self.starttls
    }

    /// The CA that the certificate of the directory is checked against; without
    /// one, those that the host trusts count.
    pub fn ca_certificate(&self) -> (r: Option<&native_tls::Certificate>)
        ensures
            match r {
                Some(certificate) => self@.ca == Some(*certificate),
                None => self@.ca is None,
            },
    {
        match &self.ca {
            Some(certificate) => Some(certificate),
            None => None,
        }
    }

    /// The name and the password of the service user that searches users.
    pub fn service_credentials(&self) -> (r: (&str, &str))
        ensures
            r.0@ == self@.bind_user,
            r.1@ == self@.bind_password,
    {
        (self.bind_user.as_str(), self.bind_password.as_str())
    }

    /// The subtree in which users are searched.
    pub fn search_base(&self) -> (r: &str)
        ensures
            r@ == self@.search_base,
    {
        self.search_base.as_str()
    }

    /// The filter that finds a user, with braces in place of the name.
    pub fn search_filter(&self) -> (r: &str)
        ensures
            r@ == self@.search_filter,
    {
        self.search_filter.as_str()
    }

    /// The attributes that are asked for: their names in Kubernetes and in the
    /// directory.
    pub fn get_attrs(&self) -> (r: &TextMap<String>)
        ensures
            r@ == self@.attrs,
    {
        &self.attrs
    }

    /// How long the directory is waited for.
    pub fn get_timeout(&self) -> (r: Timeout)
        ensures
            r.wf(),
            r@ == self@.timeout,
    {
        proof {
            use_type_invariant(self);
        }
        self.timeout
    }
}

/// Reads the certificate of the CA of the directory. Whether the bytes are taken
/// as a certificate is for the TLS library of the host to say.
fn load_ca_certificate_ldap(pem: &[u8]) -> (r: Result<native_tls::Certificate, ErrorChain>)
    requires
        pem@.len() <= MAX_PEM_BYTES,
    ensures
        exists|read: Result<native_tls::Certificate, native_tls::Error>| #[trigger]
            host_reads(pem@, read) && match read {
                Ok(certificate) => r matches Ok(c) && c == certificate,
                Err(_) => r matches Err(e) && is_ca_error(e@),
            },
{
    let read = called(native_tls::Certificate::from_pem, pem);
    assert(host_reads(pem@, read));
    loaded_ca(read)
}

/// What loading the CA comes to, given what the TLS library read: its
/// certificate, or the error that says what failed, caused by that of the
/// library. The text of the library's error is not claimed.
pub fn loaded_ca(read: Result<native_tls::Certificate, native_tls::Error>) -> (r: Result<
    native_tls::Certificate,
    ErrorChain,
>)
    ensures
        match read {
            Ok(certificate) => r matches Ok(c) && c == certificate,
            Err(_) => r matches Err(e) && is_ca_error(e@),
        },
{
    match read {
        Ok(certificate) => Ok(certificate),
        Err(error) => Err(
            ErrorChain::msg(tls_error_text(&error)).context(
                "Error loading LDAP server CA".to_string(),
            ),
        ),
    }
}

/// The name of an LDAP result code.
pub open spec fn rc_text(rc: u32) -> Seq<char> {
    match rc {
        0 => "Success"@,
        1 => "Operations Error"@,
        2 => "Protocol Error"@,
        3 => "Time Limit Exceeded"@,
        4 => "Size Limit Exceeded"@,
        5 => "Compare False"@,
        6 => "Compare True"@,
        7 => "Auth Method Not Supported"@,
        8 => "Stronger Auth Required"@,
        10 => "Referral"@,
        11 => "Admin Limit Exceeded"@,
        12 => "Unavailable Critic Exception"@,
        13 => "Confidentiality Required"@,
        14 => "Sasl Bind In Progress"@,
        16 => "No Such Attribute"@,
        17 => "Undefined Attribute Type"@,
        18 => "Inappropriate Matching"@,
        19 => "Constraint Violation"@,
        20 => "Attribute Or Value Exists"@,
        21 => "Invalid Attribute Syntax"@,
        32 => "No Such Object"@,
        33 => "Alias Problem"@,
        34 => "Invalid DNS Syntax"@,
        36 => "Alias Dereferencing Problem"@,
        48 => "Inappropriate Authentication"@,
        49 => "Invalid Credentials"@,
        50 => "Insufficient Access Rights"@,
        51 => "Busy"@,
        52 => "Unavailable"@,
        53 => "Unwilling To Perform"@,
        54 => "Loop Detect"@,
        64 => "Naming Violation"@,
        65 => "Object Class Violation"@,
        66 => "Not Allowed On Non Leaf"@,
        67 => "Not Allowed On RDN"@,
        68 => "Entry Already Exists"@,
        69 => "Object Class Mods Prohibited"@,
        71 => "Affects Multiple DSAs"@,
        80 => "Other"@,
        _ => "Unknown"@,
    }
}

/// The name of an LDAP result code.
pub fn ldap_rc_to_str(rc: u32) -> (r: &'static str)
    ensures
        r@ == rc_text(rc),
{
    match rc {
        0 => "Success",
        1 => "Operations Error",
        2 => "Protocol Error",
        3 => "Time Limit Exceeded",
        4 => "Size Limit Exceeded",
        5 => "Compare False",
        6 => "Compare True",
        7 => "Auth Method Not Supported",
        8 => "Stronger Auth Required",
        10 => "Referral",
        11 => "Admin Limit Exceeded",
        12 => "Unavailable Critic Exception",
        13 => "Confidentiality Required",
        14 => "Sasl Bind In Progress",
        16 => "No Such Attribute",
        17 => "Undefined Attribute Type",
        18 => "Inappropriate Matching",
        19 => "Constraint Violation",
        20 => "Attribute Or Value Exists",
        21 => "Invalid Attribute Syntax",
        32 => "No Such Object",
        33 => "Alias Problem",
        34 => "Invalid DNS Syntax",
        36 => "Alias Dereferencing Problem",
        48 => "Inappropriate Authentication",
        49 => "Invalid Credentials",
        50 => "Insufficient Access Rights",
        51 => "Busy",
        52 => "Unavailable",
        53 => "Unwilling To Perform",
        54 => "Loop Detect",
        64 => "Naming Violation",
        65 => "Object Class Violation",
        66 => "Not Allowed On Non Leaf",
        67 => "Not Allowed On RDN",
        68 => "Entry Already Exists",
        69 => "Object Class Mods Prohibited",
        71 => "Affects Multiple DSAs",
        80 => "Other",
        _ => "Unknown",
    }
}

/// The directory is never waited for longer than the longest time allowed.
pub proof fn law_timeout_is_bounded(args: LdapArgsView, starttls: bool, ca: Option<
    native_tls::Certificate,
>)
    ensures
        connector_of(args, starttls, ca).timeout <= MAX_TIMEOUT_SECS * 1000,
{
}

/// Whether a text holds no pair of braces.
pub open spec fn without_braces(s: Seq<char>) -> bool {
    forall|i: int| 0 <= i < s.len() - 1 ==> !(#[trigger] s[i] == '{' && s[i + 1] == '}')
}

/// Text without braces in front is kept as it is.
proof fn lemma_filled_prefix(front: Seq<char>, rest: Seq<char>, user: Seq<char>)
    requires
        without_braces(front),
        rest.len() > 0,
        rest[0] != '}',
    ensures
        filled(front + rest, user) == front + filled(rest, user),
    decreases front.len(),
{
    let s = front + rest;
    if front.len() == 0 {
        assert(s == rest);
    } else {
        assert(s.skip(1) == front.drop_first() + rest);
        assert(without_braces(front.drop_first())) by {
            assert forall|i: int| 0 <= i < front.drop_first().len() - 1 implies !(
            #[trigger] front.drop_first()[i] == '{' && front.drop_first()[i + 1] == '}') by {
                assert(front[i + 1] == front.drop_first()[i]);
            }
        }
        lemma_filled_prefix(front.drop_first(), rest, user);
        assert(s[0] == front[0]);
        if front.len() > 1 {
            assert(s[1] == front[1]);
        }
        assert(seq![s[0]] + (front.drop_first() + filled(rest, user)) == front + filled(
            rest,
            user,
        ));
    }
}

/// The filter asks for the entries of which the user attribute is the user's
/// name.
pub proof fn law_filter_asks_for_the_user(user_attr: Seq<char>, user: Seq<char>)
    requires
        without_braces(user_attr),
    ensures
        filled(filter_for(user_attr), user) == "("@ + user_attr + "="@ + user + ")"@,
{
    reveal_strlit("(");
    reveal_strlit("={})");
    reveal_strlit("=");
    reveal_strlit(")");
    reveal_with_fuel(filled, 3);
    let front = "("@ + user_attr + "="@;
    let rest = seq!['{', '}', ')'];
    assert(filter_for(user_attr) == front + rest);
    assert(without_braces(front)) by {
        assert forall|i: int| 0 <= i < front.len() - 1 implies !(#[trigger] front[i] == '{'
            && front[i + 1] == '}') by {
            if 0 < i && i + 1 < front.len() - 1 {
                assert(front[i] == user_attr[i - 1]);
                assert(front[i + 1] == user_attr[i]);
            }
        }
    }
    lemma_filled_prefix(front, rest, user);
    assert(rest.skip(2) == seq![')']);
    assert(filled(rest, user) == user + seq![')']);
    assert(front + (user + seq![')']) == "("@ + user_attr + "="@ + user + ")"@);
}

/// The result codes that have a name.
pub open spec fn named_codes() -> Seq<(u32, Seq<char>)> {
    seq![
        (0u32, "Success"@),
        (1u32, "Operations Error"@),
        (2u32, "Protocol Error"@),
        (3u32, "Time Limit Exceeded"@),
        (4u32, "Size Limit Exceeded"@),
        (5u32, "Compare False"@),
        (6u32, "Compare True"@),
        (7u32, "Auth Method Not Supported"@),
        (8u32, "Stronger Auth Required"@),
        (10u32, "Referral"@),
        (11u32, "Admin Limit Exceeded"@),
        (12u32, "Unavailable Critic Exception"@),
        (13u32, "Confidentiality Required"@),
        (14u32, "Sasl Bind In Progress"@),
        (16u32, "No Such Attribute"@),
        (17u32, "Undefined Attribute Type"@),
        (18u32, "Inappropriate Matching"@),
        (19u32, "Constraint Violation"@),
        (20u32, "Attribute Or Value Exists"@),
        (21u32, "Invalid Attribute Syntax"@),
        (32u32, "No Such Object"@),
        (33u32, "Alias Problem"@),
        (34u32, "Invalid DNS Syntax"@),
        (36u32, "Alias Dereferencing Problem"@),
        (48u32, "Inappropriate Authentication"@),
        (49u32, "Invalid Credentials"@),
        (50u32, "Insufficient Access Rights"@),
        (51u32, "Busy"@),
        (52u32, "Unavailable"@),
        (53u32, "Unwilling To Perform"@),
        (54u32, "Loop Detect"@),
        (64u32, "Naming Violation"@),
        (65u32, "Object Class Violation"@),
        (66u32, "Not Allowed On Non Leaf"@),
        (67u32, "Not Allowed On RDN"@),
        (68u32, "Entry Already Exists"@),
        (69u32, "Object Class Mods Prohibited"@),
        (71u32, "Affects Multiple DSAs"@),
        (80u32, "Other"@),
    ]
}

/// A result code is told by its name, and only a code that has none is told as
/// unknown.
pub proof fn law_result_codes_are_told_by_name(rc: u32)
    ensures
        forall|i: int|
            0 <= i < named_codes().len() ==> rc_text((#[trigger] named_codes()[i]).0)
                == named_codes()[i].1,
        (forall|i: int| 0 <= i < named_codes().len() ==> (#[trigger] named_codes()[i]).0 != rc)
            ==> rc_text(rc) == "Unknown"@,
{
    if forall|i: int| 0 <= i < named_codes().len() ==> (#[trigger] named_codes()[i]).0 != rc {
        assert(named_codes()[0].0 != rc);
        assert(named_codes()[1].0 != rc);
        assert(named_codes()[2].0 != rc);
        assert(named_codes()[3].0 != rc);
        assert(named_codes()[4].0 != rc);
        assert(named_codes()[5].0 != rc);
        assert(named_codes()[6].0 != rc);
        assert(named_codes()[7].0 != rc);
        assert(named_codes()[8].0 != rc);
        assert(named_codes()[9].0 != rc);
        assert(named_codes()[10].0 != rc);
        assert(named_codes()[11].0 != rc);
        assert(named_codes()[12].0 != rc);
        assert(named_codes()[13].0 != rc);
        assert(named_codes()[14].0 != rc);
        assert(named_codes()[15].0 != rc);
        assert(named_codes()[16].0 != rc);
        assert(named_codes()[17].0 != rc);
        assert(named_codes()[18].0 != rc);
        assert(named_codes()[19].0 != rc);
        assert(named_codes()[20].0 != rc);
        assert(named_codes()[21].0 != rc);
        assert(named_codes()[22].0 != rc);
        assert(named_codes()[23].0 != rc);
        assert(named_codes()[24].0 != rc);
        assert(named_codes()[25].0 != rc);
        assert(named_codes()[26].0 != rc);
        assert(named_codes()[27].0 != rc);
        assert(named_codes()[28].0 != rc);
        assert(named_codes()[29].0 != rc);
        assert(named_codes()[30].0 != rc);
        assert(named_codes()[31].0 != rc);
        assert(named_codes()[32].0 != rc);
        assert(named_codes()[33].0 != rc);
        assert(named_codes()[34].0 != rc);
        assert(named_codes()[35].0 != rc);
        assert(named_codes()[36].0 != rc);
        assert(named_codes()[37].0 != rc);
        assert(named_codes()[38].0 != rc);
    }
}

/// The text of a `key:value` pair.
pub open spec fn pair_text(pair: (Seq<char>, Seq<char>)) -> Seq<char> {
    pair.0 + ":"@ + pair.1
}

/// One pair more gives its key its value, in place of what the key had; a text
/// without a colon gives nothing; and nothing else changes.
pub proof fn law_one_pair_more(
    texts: Seq<Seq<char>>,
    pair: (Seq<char>, Seq<char>),
    other: Seq<char>,
)
    requires
        !pair.0.contains(':'),
        !other.contains(':'),
    ensures
        attrs_of(texts.push(pair_text(pair))) == attrs_of(texts).insert(pair.0, pair.1),
        attrs_of(texts.push(other)) == attrs_of(texts),
        attrs_of(Seq::<Seq<char>>::empty()) == Map::<Seq<char>, Seq<char>>::empty(),
{
    reveal_strlit(":");
    assert(":"@ == seq![':']);
    law_split_at_first_finds(pair.0, pair.1, ':');
    law_split_at_first(other, ':');
    assert(texts.push(pair_text(pair)).drop_last() == texts);
    assert(texts.push(other).drop_last() == texts);
}

proof fn lemma_attrs_of_pairs(pairs: Seq<(Seq<char>, Seq<char>)>)
    requires
        forall|i: int| 0 <= i < pairs.len() ==> !(#[trigger] pairs[i]).0.contains(':'),
    ensures
        attrs_of(pairs.map_values(|p: (Seq<char>, Seq<char>)| pair_text(p))) == map_of(pairs),
    decreases pairs.len(),
{
    let texts = pairs.map_values(|p: (Seq<char>, Seq<char>)| pair_text(p));
    if pairs.len() > 0 {
        let front = pairs.drop_last();
        assert forall|i: int| 0 <= i < front.len() implies !(#[trigger] front[i]).0.contains(
            ':',
        ) by {
            assert(front[i] == pairs[i]);
        }
        lemma_attrs_of_pairs(front);
        let texts_front = front.map_values(|p: (Seq<char>, Seq<char>)| pair_text(p));
        assert(texts == texts_front.push(pair_text(pairs.last())));
        assert(!pairs[pairs.len() - 1].0.contains(':'));
        law_one_pair_more(texts_front, pairs.last(), Seq::empty());
    }
}

/// A connector asks for exactly the attributes that its arguments list: each
/// key of a `key:value` pair is there with its own value, whole and unchanged,
/// and no other key is.
pub proof fn law_connector_has_the_listed_attributes(
    args: LdapArgsView,
    starttls: bool,
    ca: Option<native_tls::Certificate>,
    pairs: Seq<(Seq<char>, Seq<char>)>,
    key: Seq<char>,
)
    requires
        args.search_attrs == joined(
            pairs.map_values(|p: (Seq<char>, Seq<char>)| pair_text(p)),
            ","@,
        ),
        forall|i: int|
            0 <= i < pairs.len() ==> !(#[trigger] pairs[i]).0.contains(':') && !pairs[i].0.contains(
                ',',
            ) && !pairs[i].1.contains(','),
        forall|i: int, j: int| 0 <= i < j < pairs.len() ==> pairs[i].0 != pairs[j].0,
    ensures
        forall|i: int|
            0 <= i < pairs.len() ==> connector_of(args, starttls, ca).attrs.contains_key(
                (#[trigger] pairs[i]).0,
            ) && connector_of(args, starttls, ca).attrs[pairs[i].0] == pairs[i].1,
        connector_of(args, starttls, ca).attrs.contains_key(key) ==> exists|i: int|
            0 <= i < pairs.len() && #[trigger] pairs[i].0 == key,
{
    reveal_strlit(",");
    reveal_strlit(":");
    assert(","@ == seq![',']);
    let texts = pairs.map_values(|p: (Seq<char>, Seq<char>)| pair_text(p));
    assert forall|i: int| 0 <= i < texts.len() implies !(#[trigger] texts[i]).contains(',') by {
        let pair = pairs[i];
        assert forall|j: int| 0 <= j < texts[i].len() implies texts[i][j] != ',' by {
            if j < pair.0.len() {
                assert(pair.0[j] != ',');
            } else if j > pair.0.len() {
                assert(pair.1[j - pair.0.len() - 1] != ',');
            }
        }
    }
    if pairs.len() == 0 {
        law_split_at_first(Seq::<char>::empty(), ',');
        law_one_pair_more(Seq::empty(), (Seq::empty(), Seq::empty()), Seq::empty());
        assert(split(args.search_attrs, ',') == Seq::<Seq<char>>::empty().push(Seq::empty()));
    } else {
        law_split_undoes_join(texts, ',');
    }
    lemma_attrs_of_pairs(pairs);
    assert(distinct_keys(pairs));
    assert forall|i: int| 0 <= i < pairs.len() implies connector_of(
        args,
        starttls,
        ca,
    ).attrs.contains_key((#[trigger] pairs[i]).0) && connector_of(args, starttls, ca).attrs[pairs[i].0]
        == pairs[i].1 by {
        lemma_map_of_entry(pairs, i);
    }
    lemma_map_of_keys(pairs, key);
}

/// A connector waits for as many seconds as its arguments say, up to a minute;
/// for ten where they say no number.
pub proof fn law_connector_waits_as_told(
    args: LdapArgsView,
    starttls: bool,
    ca: Option<native_tls::Certificate>,
    n: nat,
)
    ensures
        args.ldap_timeout_conn == decimal(n) && n <= 60 ==> connector_of(
            args,
            starttls,
            ca,
        ).timeout == n * 1000,
        args.ldap_timeout_conn == decimal(n) && 60 < n <= u64::MAX ==> connector_of(
            args,
            starttls,
            ca,
        ).timeout == 60000,
        args.ldap_timeout_conn == decimal(n) && n > u64::MAX ==> connector_of(
            args,
            starttls,
            ca,
        ).timeout == 10000,
        args.ldap_timeout_conn.len() == 0 ==> connector_of(args, starttls, ca).timeout == 10000,
        (exists|i: int|
            0 < i < args.ldap_timeout_conn.len() && !is_digit(
                #[trigger] args.ldap_timeout_conn[i],
            )) ==> connector_of(args, starttls, ca).timeout == 10000,
{
    law_decimal_reads_back(n, u64::MAX as nat);
    if n > u64::MAX {
        law_large_numbers_are_refused(n, u64::MAX as nat);
    }
    law_parsed(args.ldap_timeout_conn, u64::MAX as nat);
}

/// A connector keeps what its arguments say of the directory and of the service
/// user, and takes the name of the user attribute into its filter.
pub proof fn law_connector_keeps_its_arguments(
    args: LdapArgsView,
    starttls: bool,
    ca: Option<native_tls::Certificate>,
)
    ensures
        ({
            let c = connector_of(args, starttls, ca);
            &&& c.ldap_url == args.ldap_url
            &&& c.bind_user == args.ldap_bind_user
            &&& c.bind_password == args.ldap_bind_password
            &&& c.search_base == args.ldap_search_base
            &&& c.starttls == starttls
            &&& c.ca == ca
            &&& c.search_filter == "("@ + args.ldap_user_attr + "={})"@
        }),
{
}

/// The scheme of a URL alone tells whether a connection is secured, and a CA
/// file is read for a secured one only.
pub proof fn law_scheme_tells_security(args: LdapArgsView, rest: Seq<char>)
    ensures
        secured("ldap://"@ + rest) == Some(false),
        secured("ldaps://"@ + rest) == Some(true),
        secured(args.ldap_url) is Some ==> "ldap"@.is_prefix_of(args.ldap_url),
        args.ldap_url == "ldaps://"@ + rest ==> ca_path_of(args) == args.ldap_cacert_file_path,
        args.ldap_url == "ldap://"@ + rest ==> ca_path_of(args) is None,
        !("ldap://"@.is_prefix_of(args.ldap_url) || "ldaps://"@.is_prefix_of(args.ldap_url))
            ==> secured(args.ldap_url) is None && ca_path_of(args) is None,
{
    reveal_strlit("ldap://");
    reveal_strlit("ldaps://");
    reveal_strlit("ldap");
    let plain = "ldap://"@ + rest;
    let safe = "ldaps://"@ + rest;
    assert(plain.take(7) == "ldap://"@);
    assert(safe.take(8) == "ldaps://"@);
    assert(safe[4] == 's');
    assert("ldap://"@[4] == ':');
    if secured(args.ldap_url) is Some {
        assert(args.ldap_url.take(4) == "ldap"@);
    }
}

} // verus!
