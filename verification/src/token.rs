//! Token reviews: reading the token of a request and answering with what the
//! directory says of its user.
use base64::engine::Engine;
use vstd::prelude::*;
use vstd::utf8::decode_utf8;
use vstd::utf8::encode_utf8;
use vstd::utf8::encode_utf8_decode_utf8;
use vstd::utf8::encode_utf8_first_scalar;
use vstd::utf8::encode_utf8_valid_utf8;
use vstd::utf8::is_char_boundary;
use vstd::utf8::is_char_boundary_iff_not_is_continuation_byte;
use vstd::utf8::is_char_boundary_start_end_of_seq;
use vstd::utf8::valid_utf8;

use crate::error::ErrorChain;
use crate::map::distinct_keys;
use crate::map::lemma_map_of_keys;
use crate::map::map_of;
use crate::map::TextMap;
use crate::search::searched;
use crate::search::EntryView;
use crate::search::FoundView;
use crate::search::ReplyView;
use crate::search::SearchEntry;
use crate::text;
use crate::text::lemma_encode_concat;
use crate::text::lemma_position_is;
use crate::text::lemma_split_len;
use crate::text::pieces;
use crate::text::split;
use crate::text::split_at_first;
use crate::text::law_split_at_first;
use vstd::utf8::decode_utf8_encode_utf8;
use vstd::utf8::decode_utf8_split;
use vstd::utf8::valid_utf8_split;
use crate::ldap::LdapConnector;
use crate::search::UserSearch;

verus! {

/// The bytes that a text stands for in base64, with the standard alphabet and
/// with padding; none if it is no such text.
pub uninterp spec fn base64_decoded(token: Seq<char>) -> Option<Seq<u8>>;

/// The error of `base64` for a text that is not base64.
#[verifier::external_type_specification]
#[verifier::external_body]
pub struct ExDecodeError(base64::DecodeError);

/// Calls `decode` of `base64::engine::general_purpose::STANDARD`. The result is
/// a function of the text: the bytes that it stands for, or an error. Which
/// bytes a text stands for, and which texts stand for none, is left to the
/// base64 standard.
#[verifier::external_body]
fn decode_base64(token: &str) -> (r: Result<Vec<u8>, base64::DecodeError>)
    ensures
        base64_decoded(token@) == match r {
            Ok(bytes) => Some(bytes@),
            Err(_) => None,
        },
{
    base64::engine::general_purpose::STANDARD.decode(token)
}

/// What `String::from_utf8` says of bytes that are no UTF-8.
pub uninterp spec fn utf8_failure(bytes: Seq<u8>) -> Seq<char>;

/// Calls `String::from_utf8`, which takes exactly the bytes that are valid
/// UTF-8 and gives the text that they encode. Its error is carried as a text,
/// which is a function of the bytes.
#[verifier::external_body]
fn text_of_utf8(bytes: Vec<u8>) -> (r: Result<String, String>)
    ensures
        r is Ok <==> valid_utf8(bytes@),
        r matches Ok(text) ==> text@ == decode_utf8(bytes@),
        r matches Err(failure) ==> failure@ == utf8_failure(bytes@),
{
    String::from_utf8(bytes).map_err(|failure| failure.to_string())
}

/// A user and a password, or an error, as values.
pub open spec fn credentials_view(r: Result<(String, String), ErrorChain>) -> Result<
    (Seq<char>, Seq<char>),
    Seq<Seq<char>>,
> {
    match r {
        Ok((user, password)) => Ok((user@, password@)),
        Err(error) => Err(error@),
    }
}

/// The user and the password in a text: what stands before its first colon, and
/// what stands behind it.
pub open spec fn user_pass(text: Seq<char>) -> Result<(Seq<char>, Seq<char>), Seq<Seq<char>>> {
    match split_at_first(text, ':') {
        Some(parts) => Ok(parts),
        None => Err(seq!["Token is not a <user>:<password> string"@]),
    }
}

/// The user and the password in the bytes of a token.
pub open spec fn user_pass_of_bytes(bytes: Seq<u8>) -> Result<
    (Seq<char>, Seq<char>),
    Seq<Seq<char>>,
> {
    if valid_utf8(bytes) {
        user_pass(decode_utf8(bytes))
    } else {
        Err(seq!["Error converting token to UTF-8 string"@, utf8_failure(bytes)])
    }
}

/// The user and the password in a token.
pub open spec fn user_pass_of_token(token: Option<Seq<char>>) -> Result<
    (Seq<char>, Seq<char>),
    Seq<Seq<char>>,
> {
    match token {
        None => Err(seq!["Error reading token provided in request"@]),
        Some(token) => match base64_decoded(token) {
            None => Err(seq!["Error token not provided in request"@]),
            Some(bytes) => user_pass_of_bytes(bytes),
        },
    }
}

/// Reads the user and the password in a text.
pub fn split_user_pass(user_pass_text: &str) -> (r: Result<(String, String), ErrorChain>)
    ensures
        credentials_view(r) == user_pass(user_pass_text@),
{
    let chars = text::to_chars(user_pass_text);
    match text::split_once(chars.as_slice(), ':') {
        Some((user, password)) => Ok((text::to_text(user), text::to_text(password))),
        None => Err(ErrorChain::msg("Token is not a <user>:<password> string".to_string())),
    }
}

/// Reads the user and the password in the bytes of a token.
pub fn user_pass_from_bytes(bytes: Vec<u8>) -> (r: Result<(String, String), ErrorChain>)
    ensures
        credentials_view(r) == user_pass_of_bytes(bytes@),
{
    match text_of_utf8(bytes) {
        Ok(user_pass_text) => split_user_pass(user_pass_text.as_str()),
        Err(failure) => {
            let r = Err(
                ErrorChain::msg(failure).context(
                    "Error converting token to UTF-8 string".to_string(),
                ),
            );
            assert(credentials_view(r)->Err_0 == seq![
                "Error converting token to UTF-8 string"@,
                utf8_failure(bytes@),
            ]);
            r
        },
    }
}

/// Reads the user and the password in a token.
pub fn retrieve_user_pass_from_token(token_base64: Option<String>) -> (r: Result<
    (String, String),
    ErrorChain,
>)
    ensures
        credentials_view(r) == user_pass_of_token(token_base64.deep_view()),
{
    match token_base64 {
        None => Err(ErrorChain::msg("Error reading token provided in request".to_string())),
        Some(token) => match decode_base64(token.as_str()) {
            Err(_) => Err(ErrorChain::msg("Error token not provided in request".to_string())),
            Ok(bytes) => user_pass_from_bytes(bytes),
        },
    }
}

/// A token that stands for a user's name, a colon and a password gives that
/// name and that password, whatever the password holds.
pub proof fn law_token_gives_user_and_password(
    token: Seq<char>,
    user: Seq<char>,
    password: Seq<char>,
)
    requires
        base64_decoded(token) == Some(encode_utf8(user + ":"@ + password)),
        !user.contains(':'),
    ensures
        user_pass_of_token(Some(token)) == Ok::<(Seq<char>, Seq<char>), Seq<Seq<char>>>(
            (user, password),
        ),
{
    reveal_strlit(":");
    let all = user + ":"@ + password;
    encode_utf8_valid_utf8(all);
    encode_utf8_decode_utf8(all);
    let n = user.len() as int;
    assert forall|i: int| 0 <= i < n implies all[i] != ':' by {
        assert(all[i] == user[i]);
    }
    lemma_position_is(all, ':', n);
    assert(all.take(n) == user);
    assert(all.skip(n + 1) == password);
}

/// What stands before the first comma of a distinguished name.
pub open spec fn first_component(dn: Seq<char>) -> Seq<char> {
    split(dn, ',')[0]
}

/// Whether the first three bytes of the first component of a name can be cut
/// off, so that what is left is a text.
pub open spec fn group_cuts(dn: Seq<char>) -> bool {
    is_char_boundary(encode_utf8(first_component(dn)), 3)
}

/// The name of a group: the first component of its distinguished name without
/// the three bytes of `cn=`.
pub open spec fn group_name(dn: Seq<char>) -> Seq<char> {
    decode_utf8(encode_utf8(first_component(dn)).skip(3))
}

fn first_component_of(dn: &str) -> (r: String)
    ensures
        r@ == first_component(dn@),
{
    let chars = text::to_chars(dn);
    let parts = text::split_all(chars.as_slice(), ',');
    proof {
        lemma_split_len(dn@, ',');
        assert(pieces(parts@).len() == parts@.len());
        assert(pieces(parts@)[0] == parts@[0]@);
    }
    text::to_text(parts[0])
}

/// Whether a group has a name.
pub fn has_group_name(dn: &str) -> (r: bool)
    ensures
        r == group_cuts(dn@),
{
    first_component_of(dn).as_str().is_char_boundary(3)
}

/// The name of a group.
pub fn group_of(dn: &str) -> (r: String)
    requires
        group_cuts(dn@),
    ensures
        r@ == group_name(dn@),
{
    let component = first_component_of(dn);
    let (_, name) = component.as_str().split_at(3);
    proof {
        let bytes = encode_utf8(component@);
        assert(bytes.skip(3) == bytes.subrange(3, bytes.len() as int));
        encode_utf8_decode_utf8(name@);
    }
    name.to_string()
}

/// The group of which the distinguished name starts with `cn=` or with anything
/// else that takes three bytes is called by what follows, up to the first comma.
pub proof fn law_group_name(prefix: Seq<char>, name: Seq<char>, rest: Seq<char>)
    requires
        encode_utf8(prefix).len() == 3,
        !prefix.contains(','),
        !name.contains(','),
        rest.len() > 0 ==> rest[0] == ',',
    ensures
        group_cuts(prefix + name + rest),
        group_name(prefix + name + rest) == name,
{
    let dn = prefix + name + rest;
    let front = prefix + name;
    let n = front.len() as int;
    assert forall|i: int| 0 <= i < n implies dn[i] != ',' by {
        if i < prefix.len() {
            assert(dn[i] == prefix[i]);
        } else {
            assert(dn[i] == name[i - prefix.len()]);
        }
    }
    if rest.len() > 0 {
        assert(dn[n] == rest[0]);
    }
    lemma_position_is(dn, ',', n);
    assert(dn.take(n) == front);
    if rest.len() == 0 {
        assert(dn == front);
    }
    assert(first_component(dn) == front);
    lemma_encode_concat(prefix, name);
    encode_utf8_valid_utf8(front);
    encode_utf8_valid_utf8(name);
    encode_utf8_decode_utf8(name);
    let bytes = encode_utf8(front);
    assert(bytes.skip(3) == encode_utf8(name));
    if name.len() == 0 {
        is_char_boundary_start_end_of_seq(bytes);
        assert(encode_utf8(name).len() == 0);
    } else {
        encode_utf8_first_scalar(name);
        is_char_boundary_iff_not_is_continuation_byte(bytes, 3);
        is_char_boundary_start_end_of_seq(encode_utf8(name));
        is_char_boundary_iff_not_is_continuation_byte(encode_utf8(name), 0);
        assert(bytes[3] == encode_utf8(name)[0]);
    }
}

/// What is told of an authenticated user. No key occurs twice in `extra`.
pub struct UserInfo {
    pub username: Option<String>,
    pub uid: Option<String>,
    pub groups: Option<Vec<String>>,
    pub extra: Option<Vec<(String, Vec<String>)>>,
}

/// What is told of an authenticated user.
#[verifier::ext_equal]
pub struct UserView {
    pub username: Option<Seq<char>>,
    pub uid: Option<Seq<char>>,
    pub groups: Option<Seq<Seq<char>>>,
    pub extra: Option<Map<Seq<char>, Seq<Seq<char>>>>,
}

impl UserInfo {
    /// Whether no key occurs twice in `extra`.
    pub open spec fn wf(self) -> bool {
        self.extra matches Some(extra) ==> distinct_keys(extra.deep_view())
    }
}

impl View for UserInfo {
    type V = UserView;

    open spec fn view(&self) -> UserView {
        UserView {
            username: self.username.deep_view(),
            uid: self.uid.deep_view(),
            groups: self.groups.deep_view(),
            extra: match self.extra {
                Some(extra) => Some(map_of(extra.deep_view())),
                None => None,
            },
        }
    }
}

/// The answer to a token review.
pub struct TokenReviewStatus {
    pub audiences: Option<Vec<String>>,
    pub authenticated: Option<bool>,
    pub error: Option<String>,
    pub user: Option<UserInfo>,
}

/// The answer to a token review.
#[verifier::ext_equal]
pub struct StatusView {
    pub audiences: Option<Seq<Seq<char>>>,
    pub authenticated: Option<bool>,
    pub error: Option<Seq<char>>,
    pub user: Option<UserView>,
}

impl TokenReviewStatus {
    /// Whether what is told of the user is well-formed.
    pub open spec fn wf(self) -> bool {
        self.user matches Some(user) ==> user.wf()
    }
}

impl View for TokenReviewStatus {
    type V = StatusView;

    open spec fn view(&self) -> StatusView {
        StatusView {
            audiences: self.audiences.deep_view(),
            authenticated: self.authenticated,
            error: self.error.deep_view(),
            user: match self.user {
                Some(user) => Some(user@),
                None => None,
            },
        }
    }
}

/// The values that an entry has for what Kubernetes calls `key`.
pub open spec fn mapped(
    attrs: Map<Seq<char>, Seq<char>>,
    entry: EntryView,
    key: Seq<char>,
) -> Option<Seq<Seq<char>>> {
    if attrs.contains_key(key) && entry.attrs.contains_key(attrs[key]) {
        Some(entry.attrs[attrs[key]])
    } else {
        None
    }
}

/// The unique name of a user: the first value that the entry has for it.
pub open spec fn uid_of(attrs: Map<Seq<char>, Seq<char>>, entry: EntryView) -> Option<Seq<char>> {
    match mapped(attrs, entry, "uid"@) {
        Some(values) => if values.len() > 0 {
            Some(values[0])
        } else {
            None
        },
        None => None,
    }
}

/// The groups of a user.
pub open spec fn groups_of(attrs: Map<Seq<char>, Seq<char>>, entry: EntryView) -> Option<
    Seq<Seq<char>>,
> {
    match mapped(attrs, entry, "groups"@) {
        Some(dns) => Some(dns.map_values(|dn: Seq<char>| group_name(dn))),
        None => None,
    }
}

/// Whether every group of a user has a name.
pub open spec fn groups_cut(attrs: Map<Seq<char>, Seq<char>>, entry: EntryView) -> bool {
    mapped(attrs, entry, "groups"@) matches Some(dns) ==> forall|i: int|
        0 <= i < dns.len() ==> group_cuts(#[trigger] dns[i])
}

/// What else is told of a user: the values that the entry has for each key that
/// starts with `k8s_extra_`, under what follows in the key.
pub open spec fn extra_of(attrs: Map<Seq<char>, Seq<char>>, entry: EntryView) -> Map<
    Seq<char>,
    Seq<Seq<char>>,
> {
    Map::new(
        |key: Seq<char>| mapped(attrs, entry, "k8s_extra_"@ + key) is Some,
        |key: Seq<char>| mapped(attrs, entry, "k8s_extra_"@ + key)->0,
    )
}

/// The answer for a user that the directory has authenticated.
pub open spec fn granted(
    entry: EntryView,
    audiences: Option<Seq<Seq<char>>>,
    user: Seq<char>,
    attrs: Map<Seq<char>, Seq<char>>,
) -> StatusView {
    let extra = extra_of(attrs, entry);
    StatusView {
        audiences,
        authenticated: Some(true),
        error: None,
        user: Some(
            UserView {
                username: Some(user),
                uid: uid_of(attrs, entry),
                groups: groups_of(attrs, entry),
                extra: if extra == Map::<Seq<char>, Seq<Seq<char>>>::empty() {
                    None
                } else {
                    Some(extra)
                },
            },
        ),
    }
}

/// The answer for a user that is not authenticated.
pub open spec fn denied(error: Option<Seq<char>>) -> StatusView {
    StatusView { audiences: None, authenticated: Some(false), error, user: None }
}

fn copied(list: &Vec<String>) -> (r: Vec<String>)
    ensures
        r.deep_view() == list.deep_view(),
{
    let mut r: Vec<String> = Vec::new();
    let n: usize = list.len();
    let mut i: usize = 0;
    while i < n
        invariant
            i <= n,
            n == list@.len(),
            r@.len() == i,
            forall|j: int| 0 <= j < i ==> (#[trigger] r@[j])@ == list@[j]@,
        decreases n - i,
    {
        r.push(list[i].clone());
        i += 1;
    }
    assert(r.deep_view() == list.deep_view());
    r
}

fn values_for<'a>(attrs: &TextMap<String>, entry: &'a SearchEntry, key: &str) -> (r: Option<
    &'a Vec<String>,
>)
    ensures
        match r {
            Some(values) => mapped(attrs@, entry@, key@) == Some(values.deep_view()),
            None => mapped(attrs@, entry@, key@) is None,
        },
{
    match attrs.get(key) {
        Some(name) => entry.attrs.get(name.as_str()),
        None => None,
    }
}

/// Whether every group of a user has a name.
pub fn groups_have_names(attrs: &TextMap<String>, entry: &SearchEntry) -> (r: bool)
    ensures
        r == groups_cut(attrs@, entry@),
{
    match values_for(attrs, entry, "groups") {
        Some(dns) => {
            let ghost all = dns.deep_view();
            let n: usize = dns.len();
            let mut i: usize = 0;
            while i < n
                invariant
                    i <= n,
                    n == dns@.len(),
                    all == dns.deep_view(),
                    mapped(attrs@, entry@, "groups"@) == Some(all),
                    forall|j: int| 0 <= j < i ==> group_cuts(#[trigger] all[j]),
                decreases n - i,
            {
                assert(all[i as int] == dns@[i as int]@);
                if !has_group_name(dns[i].as_str()) {
                    assert(!group_cuts(mapped(attrs@, entry@, "groups"@)->0[i as int]));
                    return false;
                }
                i += 1;
            }
            true
        },
        None => true,
    }
}

fn groups_for(attrs: &TextMap<String>, entry: &SearchEntry) -> (r: Option<Vec<String>>)
    requires
        groups_cut(attrs@, entry@),
    ensures
        r.deep_view() == groups_of(attrs@, entry@),
{
    match values_for(attrs, entry, "groups") {
        Some(dns) => {
            let ghost all = dns.deep_view();
            let mut r: Vec<String> = Vec::new();
            let n: usize = dns.len();
            let mut i: usize = 0;
            while i < n
                invariant
                    i <= n,
                    n == dns@.len(),
                    all == dns.deep_view(),
                    forall|j: int| 0 <= j < n ==> group_cuts(#[trigger] all[j]),
                    r@.len() == i,
                    forall|j: int| 0 <= j < i ==> (#[trigger] r@[j])@ == group_name(all[j]),
                decreases n - i,
            {
                assert(all[i as int] == dns@[i as int]@);
                r.push(group_of(dns[i].as_str()));
                i += 1;
            }
            assert(r.deep_view() == all.map_values(|dn: Seq<char>| group_name(dn)));
            Some(r)
        },
        None => None,
    }
}

/// What one more attribute adds to what else is told of a user.
proof fn lemma_extra_of_insert(
    attrs: Map<Seq<char>, Seq<char>>,
    entry: EntryView,
    key: Seq<char>,
    name: Seq<char>,
)
    requires
        !attrs.contains_key(key),
    ensures
        "k8s_extra_"@.is_prefix_of(key) && entry.attrs.contains_key(name) ==> extra_of(
            attrs.insert(key, name),
            entry,
        ) == extra_of(attrs, entry).insert(
            key.skip("k8s_extra_"@.len() as int),
            entry.attrs[name],
        ),
        !("k8s_extra_"@.is_prefix_of(key) && entry.attrs.contains_key(name)) ==> extra_of(
            attrs.insert(key, name),
            entry,
        ) == extra_of(attrs, entry),
{
    let prefix = "k8s_extra_"@;
    let n = prefix.len() as int;
    assert forall|k: Seq<char>| #![trigger prefix + k] prefix + k == key implies prefix.is_prefix_of(
        key,
    ) && k == key.skip(n) by {
        assert(k == (prefix + k).skip(n));
    }
    if prefix.is_prefix_of(key) {
        assert(key == prefix + key.skip(n));
    }
    assert forall|k: Seq<char>| #![trigger prefix + k] prefix + k != key implies mapped(
        attrs.insert(key, name),
        entry,
        prefix + k,
    ) == mapped(attrs, entry, prefix + k) by {}
    assert(mapped(attrs, entry, key) is None);
    let before = extra_of(attrs, entry);
    let after = extra_of(attrs.insert(key, name), entry);
    if prefix.is_prefix_of(key) && entry.attrs.contains_key(name) {
        assert(after =~= before.insert(key.skip(n), entry.attrs[name]));
    } else {
        assert(after =~= before);
    }
}

fn extras_for(attrs: &TextMap<String>, entry: &SearchEntry) -> (r: TextMap<Vec<String>>)
    ensures
        r@ == extra_of(attrs@, entry@),
{
    let n: usize = attrs.len();
    let ghost items = attrs.items();
    let mut r: TextMap<Vec<String>> = TextMap::new();
    let mut i: usize = 0;
    proof {
        assert(items.take(0) == Seq::<(Seq<char>, Seq<char>)>::empty());
        assert(extra_of(Map::empty(), entry@) =~= Map::<Seq<char>, Seq<Seq<char>>>::empty());
    }
    while i < n
        invariant
            i <= n,
            n == items.len(),
            items == attrs.items(),
            distinct_keys(items),
            r@ == extra_of(map_of(items.take(i as int)), entry@),
        decreases n - i,
    {
        proof {
            let front = items.take(i as int);
            assert(items.take(i + 1).drop_last() == front);
            assert(items.take(i + 1).last() == items[i as int]);
            lemma_map_of_keys(front, items[i as int].0);
            assert forall|j: int| 0 <= j < front.len() implies (#[trigger] front[j]).0
                != items[i as int].0 by {
                assert(items[j].0 != items[i as int].0);
            }
            lemma_extra_of_insert(map_of(front), entry@, items[i as int].0, items[i as int].1);
        }
        let key = text::to_chars(attrs.key_at(i));
        match text::strip_prefix(key.as_slice(), "k8s_extra_") {
            Some(extra_key) => match entry.attrs.get(attrs.value_at(i).as_str()) {
                Some(values) => {
                    r.insert(text::to_text(extra_key), copied(values));
                },
                None => {},
            },
            None => {},
        }
        i += 1;
    }
    assert(items.take(n as int) == items);
    r
}

/// The answer to a token review: what the entry of the user gives if the user
/// is authenticated, and the error if not.
pub fn create_tokenreview_status(
    search_entry: Option<SearchEntry>,
    audiences: Option<Vec<String>>,
    is_authenticated: bool,
    error: Option<String>,
    user: &str,
    attrs_map: &TextMap<String>,
) -> (r: Option<TokenReviewStatus>)
    requires
        is_authenticated ==> search_entry is Some && groups_cut(attrs_map@, search_entry->0@),
    ensures
        r matches Some(status) && status.wf() && status@ == if is_authenticated {
            granted(search_entry->0@, audiences.deep_view(), user@, attrs_map@)
        } else {
            denied(error.deep_view())
        },
{
    match search_entry {
        Some(entry) => if is_authenticated {
            let uid = match values_for(attrs_map, &entry, "uid") {
                Some(values) => if values.len() > 0 {
                    Some(values[0].clone())
                } else {
                    None
                },
                None => None,
            };
            let groups = groups_for(attrs_map, &entry);
            let extras = extras_for(attrs_map, &entry);
            let n: usize = extras.len();
            let ghost items = extras.items();
            let extra = if n == 0 {
                None
            } else {
                Some(extras.into_entries())
            };
            proof {
                if n > 0 {
                    lemma_map_of_keys(items, items[0].0);
                    assert(items[0].0 == items[0].0);
                    assert(extra->0.deep_view() == items);
                }
            }
            return Some(
                TokenReviewStatus {
                    audiences,
                    authenticated: Some(true),
                    error: None,
                    user: Some(UserInfo { username: Some(user.to_string()), uid, groups, extra }),
                },
            );
        },
        None => {},
    }
    Some(TokenReviewStatus { audiences: None, authenticated: Some(false), error, user: None })
}

/// The parts of a token review that matter here: the token and the audiences
/// that it asks about, and the answer.
pub struct Review {
    pub token: Option<String>,
    pub audiences: Option<Vec<String>>,
    pub status: Option<TokenReviewStatus>,
}

/// The parts of a token review that matter here.
#[verifier::ext_equal]
pub struct ReviewView {
    pub token: Option<Seq<char>>,
    pub audiences: Option<Seq<Seq<char>>>,
    pub status: Option<StatusView>,
}

impl Review {
    /// Whether the answer is well-formed.
    pub open spec fn wf(self) -> bool {
        self.status matches Some(status) ==> status.wf()
    }
}

impl View for Review {
    type V = ReviewView;

    open spec fn view(&self) -> ReviewView {
        ReviewView {
            token: self.token.deep_view(),
            audiences: self.audiences.deep_view(),
            status: match self.status {
                Some(status) => Some(status@),
                None => None,
            },
        }
    }
}

/// What `serde_json::from_str` reads in a text as a `TokenReview` of
/// `k8s_openapi`, or what it says of a text that is none.
pub uninterp spec fn review_read(text: Seq<char>) -> Result<ReviewView, Seq<char>>;

/// A review that was read, or an error, as values.
pub open spec fn read_view(r: Result<Review, String>) -> Result<ReviewView, Seq<char>> {
    match r {
        Ok(review) => Ok(review@),
        Err(failure) => Err(failure@),
    }
}

/// Calls `serde_json::from_str` for a `TokenReview` of `k8s_openapi` and keeps
/// the token, the audiences and the status. The result is a function of the
/// text; the error is carried as a text. No key occurs twice in the `extra` of
/// the user. Which texts are reviews is left to the two crates.
#[verifier::external_body]
fn parse_review(text: &str) -> (r: Result<Review, String>)
    ensures
        read_view(r) == review_read(text@),
        r matches Ok(review) ==> review.wf(),
{
    let read: Result<k8s_openapi::api::authentication::v1::TokenReview, serde_json::Error> =
        serde_json::from_str(text);
    let user = |u: k8s_openapi::api::authentication::v1::UserInfo| UserInfo {
        username: u.username, uid: u.uid, groups: u.groups,
        extra: u.extra.map(|e| e.into_iter().collect()),
    };
    let status = |s: k8s_openapi::api::authentication::v1::TokenReviewStatus| TokenReviewStatus {
        audiences: s.audiences, authenticated: s.authenticated, error: s.error,
        user: s.user.map(user),
    };
    read.map(|r| Review {
        token: r.spec.token, audiences: r.spec.audiences, status: r.status.map(status),
    }).map_err(|e| e.to_string())
}

/// What `serde_json::to_string` writes for the `TokenReview` that
/// `serde_json::from_str` reads in a request, once its token, its audiences and
/// its status are those given.
pub uninterp spec fn review_written(request: Seq<char>, review: ReviewView) -> Result<
    Seq<char>,
    Seq<char>,
>;

/// What `serde_json::to_string` writes for the metadata of the `TokenReview` that
/// `serde_json::from_str` reads in a request.
pub uninterp spec fn metadata_written(request: Seq<char>) -> Seq<char>;

/// How an answer with these metadata starts. It holds nothing of what the request
/// asked about.
pub open spec fn answer_start(metadata: Seq<char>) -> Seq<char> {
    "{\"apiVersion\":\"authentication.k8s.io/v1\",\"kind\":\"TokenReview\",\"metadata\":"@
        + metadata + ",\"spec\":{},\"status\":"@
}

/// A text that was written, or an error, as values.
pub open spec fn written_view(r: Result<String, String>) -> Result<Seq<char>, Seq<char>> {
    match r {
        Ok(text) => Ok(text@),
        Err(failure) => Err(failure@),
    }
}

/// Calls `serde_json::to_string` on the `TokenReview` of `k8s_openapi` that a
/// request holds, with the given token, audiences and status in place of its
/// own. The result is a function of the request and of what is put in; the
/// error is carried as a text. If what was written is read as a review, the
/// token, the audiences and the status are those that were put in. A review that
/// is answered and asks about nothing starts with its metadata, which are those
/// of the request whatever is put in, and with a `spec` that holds nothing. That
/// what was written can be read again, and that its metadata then are the same
/// to the last digit of a number, is left unsaid.
#[verifier::external_body]
fn write_review(request: &str, review: Review) -> (r: Result<String, String>)
    requires
        review.wf(),
    ensures
        written_view(r) == review_written(request@, review@),
        r matches Ok(text) ==> (review_read(text@) matches Ok(back) ==> back == review@),
        r matches Ok(text) ==> review.token is None && review.audiences is None
            && review.status is Some ==> answer_start(
            metadata_written(request@),
        ).is_prefix_of(text@),
{
    let read: Result<k8s_openapi::api::authentication::v1::TokenReview, serde_json::Error> =
        serde_json::from_str(request);
    let mut body = read.map_err(|e| e.to_string())?;
    body.spec.token = review.token;
    body.spec.audiences = review.audiences;
    let user = |u: UserInfo| k8s_openapi::api::authentication::v1::UserInfo {
        username: u.username, uid: u.uid, groups: u.groups,
        extra: u.extra.map(|e| e.into_iter().collect()),
    };
    body.status = review.status.map(|s| k8s_openapi::api::authentication::v1::TokenReviewStatus {
        audiences: s.audiences, authenticated: s.authenticated, error: s.error,
        user: s.user.map(user),
    });
    serde_json::to_string(&body).map_err(|e| e.to_string())
}

/// A token review of which the user is known and has to be looked up.
pub struct ReviewQuery {
    request: String,
    audiences: Option<Vec<String>>,
    user: String,
    password: String,
}

/// A token review of which the user is known and has to be looked up.
#[verifier::ext_equal]
pub struct QueryView {
    pub request: Seq<char>,
    pub audiences: Option<Seq<Seq<char>>>,
    pub user: Seq<char>,
    pub password: Seq<char>,
}

impl View for ReviewQuery {
    type V = QueryView;

    closed spec fn view(&self) -> QueryView {
        QueryView {
            request: self.request@,
            audiences: self.audiences.deep_view(),
            user: self.user@,
            password: self.password@,
        }
    }
}

impl ReviewQuery {
    /// The name of the user.
    pub fn user(&self) -> (r: &str)
        ensures
            r@ == self@.user,
    {
        self.user.as_str()
    }

    /// The password that was presented.
    pub fn password(&self) -> (r: &str)
        ensures
            r@ == self@.password,
    {
        self.password.as_str()
    }
}

/// Whom a request asks about, given what was read in it and the user and the
/// password in its token.
pub open spec fn query_of(
    request: Seq<char>,
    read: Result<ReviewView, Seq<char>>,
    credentials: Result<(Seq<char>, Seq<char>), Seq<Seq<char>>>,
) -> Result<QueryView, Seq<Seq<char>>> {
    match read {
        Err(failure) => Err(seq!["Error parsing JSON from request"@, failure]),
        Ok(review) => match credentials {
            Err(error) => Err(seq!["Error retrieving user and password from token"@] + error),
            Ok((user, password)) => Ok(
                QueryView { request, audiences: review.audiences, user, password },
            ),
        },
    }
}

/// The token in what was read in a request.
pub open spec fn token_of(read: Result<ReviewView, Seq<char>>) -> Option<Seq<char>> {
    match read {
        Ok(review) => review.token,
        Err(_) => None,
    }
}

/// A query, or an error, as values.
pub open spec fn query_view(r: Result<ReviewQuery, ErrorChain>) -> Result<
    QueryView,
    Seq<Seq<char>>,
> {
    match r {
        Ok(query) => Ok(query@),
        Err(error) => Err(error@),
    }
}

/// Finds out whom a request asks about, given what was read in it.
pub fn query_from_review(request: &str, read: Result<Review, String>) -> (r: Result<
    ReviewQuery,
    ErrorChain,
>)
    ensures
        query_view(r) == query_of(
            request@,
            read_view(read),
            user_pass_of_token(token_of(read_view(read))),
        ),
{
    match read {
        Err(failure) => {
            let r = Err(
                ErrorChain::msg(failure).context("Error parsing JSON from request".to_string()),
            );
            assert(query_view(r)->Err_0 == seq!["Error parsing JSON from request"@, failure@]);
            r
        },
        Ok(review) => match retrieve_user_pass_from_token(review.token) {
            Err(error) => Err(
                error.context("Error retrieving user and password from token".to_string()),
            ),
            Ok((user, password)) => Ok(
                ReviewQuery {
                    request: request.to_string(),
                    audiences: review.audiences,
                    user,
                    password,
                },
            ),
        },
    }
}

/// Finds out whom a request asks about.
pub fn begin_tokenreview_request(request: &str) -> (r: Result<ReviewQuery, ErrorChain>)
    ensures
        query_view(r) == query_of(
            request@,
            review_read(request@),
            user_pass_of_token(token_of(review_read(request@))),
        ),
{
    query_from_review(request, parse_review(request))
}

/// The answer that follows from what the directory said of the user.
pub open spec fn status_for(
    query: QueryView,
    found: Result<EntryView, Seq<char>>,
    attrs: Map<Seq<char>, Seq<char>>,
) -> StatusView {
    match found {
        Ok(entry) => granted(entry, query.audiences, query.user, attrs),
        Err(message) => denied(Some(message)),
    }
}

/// The review that answers a request: the token and the audiences are taken out
/// and the status is put in.
pub open spec fn answer_for(
    query: QueryView,
    found: Result<EntryView, Seq<char>>,
    attrs: Map<Seq<char>, Seq<char>>,
) -> ReviewView {
    ReviewView { token: None, audiences: None, status: Some(status_for(query, found, attrs)) }
}

/// What the directory said of a user, as values: the entry, or the message of
/// the error.
pub open spec fn found_view(found: Result<SearchEntry, ErrorChain>) -> Result<
    EntryView,
    Seq<char>,
> {
    match found {
        Ok(entry) => Ok(entry@),
        Err(error) => Err(error.message@),
    }
}

/// A finished review, or an error, as values.
pub open spec fn handled_view(r: Result<(String, String, bool), ErrorChain>) -> Result<
    (Seq<char>, Seq<char>, bool),
    Seq<Seq<char>>,
> {
    match r {
        Ok((text, user, authenticated)) => Ok((text@, user@, authenticated)),
        Err(error) => Err(error@),
    }
}

/// What a review comes to, given what was written for it.
pub open spec fn handled(
    written: Result<Seq<char>, Seq<char>>,
    user: Seq<char>,
    authenticated: bool,
) -> Result<(Seq<char>, Seq<char>, bool), Seq<Seq<char>>> {
    match written {
        Ok(text) => Ok((text, user, authenticated)),
        Err(failure) => Err(seq![failure]),
    }
}

/// Finishes a review, given what was written for it.
pub fn finish_review(written: Result<String, String>, user: String, authenticated: bool) -> (r:
    Result<(String, String, bool), ErrorChain>)
    ensures
        handled_view(r) == handled(written_view(written), user@, authenticated),
{
    match written {
        Ok(text) => Ok((text, user, authenticated)),
        Err(failure) => Err(ErrorChain::msg(failure)),
    }
}

/// The status of a review, given what the directory said of the user.
pub fn review_status(
    query: &ReviewQuery,
    found: Result<SearchEntry, ErrorChain>,
    attrs: &TextMap<String>,
) -> (r: TokenReviewStatus)
    requires
        found matches Ok(entry) ==> groups_cut(attrs@, entry@),
    ensures
        r.wf(),
        r@ == status_for(query@, found_view(found), attrs@),
{
    let audiences = match &query.audiences {
        Some(list) => Some(copied(list)),
        None => None,
    };
    let status = match found {
        Ok(entry) => create_tokenreview_status(
            Some(entry),
            audiences,
            true,
            None,
            query.user.as_str(),
            attrs,
        ),
        Err(error) => create_tokenreview_status(
            None,
            audiences,
            false,
            Some(error.message),
            query.user.as_str(),
            attrs,
        ),
    };
    status.unwrap()
}

/// Answers a token review, given what the directory said of the user: the
/// review with its status, the user, and whether the user is authenticated. The
/// metadata of the request are kept; its token and its audiences are not.
pub fn handle_tokenreview_request(
    query: ReviewQuery,
    found: Result<SearchEntry, ErrorChain>,
    attrs: &TextMap<String>,
) -> (r: Result<(String, String, bool), ErrorChain>)
    requires
        found matches Ok(entry) ==> groups_cut(attrs@, entry@),
    ensures
        handled_view(r) == handled(
            review_written(query@.request, answer_for(query@, found_view(found), attrs@)),
            query@.user,
            found is Ok,
        ),
        r matches Ok((text, _, _)) ==> (review_read(text@) matches Ok(back) ==> back == answer_for(
            query@,
            found_view(found),
            attrs@,
        )),
        r matches Ok((text, _, _)) ==> answer_start(
            metadata_written(query@.request),
        ).is_prefix_of(text@),
{
    let authenticated = found.is_ok();
    let status = review_status(&query, found, attrs);
    let review = Review { token: None, audiences: None, status: Some(status) };
    let written = write_review(query.request.as_str(), review);
    finish_review(written, query.user, authenticated)
}

/// The status of a review tells a user, and repeats the audiences that were
/// asked about, exactly when the directory authenticated the user; it tells an
/// error exactly when the directory did not. The user it tells is the one of
/// the token.
pub proof fn law_status_tells_user_or_error(
    query: QueryView,
    found: Result<EntryView, Seq<char>>,
    attrs: Map<Seq<char>, Seq<char>>,
)
    ensures
        ({
            let status = status_for(query, found, attrs);
            &&& status.authenticated == Some(found is Ok)
            &&& status.user is Some <==> found is Ok
            &&& status.user matches Some(user) ==> user.username == Some(query.user)
            &&& status.error == match found {
                Ok(_) => None,
                Err(message) => Some(message),
            }
            &&& status.audiences == if found is Ok {
                query.audiences
            } else {
                None
            }
        }),
{
}

/// The status depends on the password only through what the directory says.
pub proof fn law_status_does_not_tell_the_password(
    query: QueryView,
    password: Seq<char>,
    found: Result<EntryView, Seq<char>>,
    attrs: Map<Seq<char>, Seq<char>>,
)
    ensures
        answer_for((QueryView { password, ..query }), found, attrs) == answer_for(
            query,
            found,
            attrs,
        ),
{
}

/// What a dialogue with the directory tells of a user: the entry, or the message
/// of the error.
pub open spec fn told(outcome: Result<EntryView, Seq<Seq<char>>>) -> Result<EntryView, Seq<char>> {
    match outcome {
        Ok(entry) => Ok(entry),
        Err(error) => Err(error[0]),
    }
}

/// A review says that a user is authenticated exactly when the directory could
/// be reached, took the service user, found an entry for the user and took the
/// user's own password for it. What it tells of the user is then that of the
/// entry.
pub proof fn law_review_authenticates_whom_the_directory_binds(
    query: QueryView,
    attrs: Map<Seq<char>, Seq<char>>,
    opened: Result<(), Seq<Seq<char>>>,
    service: ReplyView,
    found: FoundView,
    bound: ReplyView,
)
    ensures
        ({
            let outcome = searched(query.user, opened, service, found, bound);
            let status = status_for(query, told(outcome), attrs);
            let taken = opened is Ok && service is Granted && found is Entry && bound is Granted;
            &&& status.authenticated == Some(taken)
            &&& taken ==> status == granted(found->Entry_0, query.audiences, query.user, attrs)
            &&& !taken ==> status.user is None && status.error == Some(told(outcome)->Err_0)
        }),
{
}

/// The uid that is told of a user is the first value that the entry has for the
/// attribute that stands for `uid`, however many there are; none is told where
/// the entry has none, or where no attribute stands for it.
pub proof fn law_uid_is_the_first_value(
    entry: EntryView,
    audiences: Option<Seq<Seq<char>>>,
    user: Seq<char>,
    attrs: Map<Seq<char>, Seq<char>>,
    name: Seq<char>,
    first: Seq<char>,
    rest: Seq<Seq<char>>,
)
    ensures
        attrs.contains_key("uid"@) && attrs["uid"@] == name && entry.attrs.contains_key(name)
            && entry.attrs[name] == seq![first] + rest ==> granted(
            entry,
            audiences,
            user,
            attrs,
        ).user->0.uid == Some(first),
        !attrs.contains_key("uid"@) ==> granted(entry, audiences, user, attrs).user->0.uid is None,
        attrs.contains_key("uid"@) && attrs["uid"@] == name && (!entry.attrs.contains_key(name)
            || entry.attrs[name].len() == 0) ==> granted(
            entry,
            audiences,
            user,
            attrs,
        ).user->0.uid is None,
{
}

/// The groups that are told of a user are one for each value that the entry has
/// for the attribute that stands for `groups`, in their order, each by what
/// stands between the first three bytes and the first comma.
pub proof fn law_groups_are_told_by_name(
    entry: EntryView,
    audiences: Option<Seq<Seq<char>>>,
    user: Seq<char>,
    attrs: Map<Seq<char>, Seq<char>>,
    i: int,
    prefix: Seq<char>,
    name: Seq<char>,
    rest: Seq<char>,
)
    requires
        encode_utf8(prefix).len() == 3,
        !prefix.contains(','),
        !name.contains(','),
        rest.len() > 0 ==> rest[0] == ',',
    ensures
        ({
            let groups = granted(entry, audiences, user, attrs).user->0.groups;
            let mapped_to = attrs["groups"@];
            &&& groups is Some <==> attrs.contains_key("groups"@) && entry.attrs.contains_key(
                mapped_to,
            )
            &&& groups is Some ==> groups->0.len() == entry.attrs[mapped_to].len()
            &&& groups is Some && 0 <= i < entry.attrs[mapped_to].len()
                && entry.attrs[mapped_to][i] == prefix + name + rest ==> groups->0[i] == name
        }),
{
    law_group_name(prefix, name, rest);
}

/// What else is told of a user are the values that the entry has for the
/// attributes that stand for keys with the prefix `k8s_extra_`, all of them,
/// under the rest of the key; no other key is told, and nothing where there is
/// no such value.
pub proof fn law_extra_is_told_by_key(
    entry: EntryView,
    audiences: Option<Seq<Seq<char>>>,
    user: Seq<char>,
    attrs: Map<Seq<char>, Seq<char>>,
    key: Seq<char>,
)
    ensures
        ({
            let extra = granted(entry, audiences, user, attrs).user->0.extra;
            let whole = "k8s_extra_"@ + key;
            let known = attrs.contains_key(whole) && entry.attrs.contains_key(attrs[whole]);
            &&& known ==> extra is Some && extra->0.contains_key(key) && extra->0[key]
                == entry.attrs[attrs[whole]]
            &&& !known ==> extra is None || !extra->0.contains_key(key)
            &&& extra is Some ==> exists|k: Seq<char>| #[trigger] extra->0.contains_key(k)
        }),
{
    let told_extra = extra_of(attrs, entry);
    let whole = "k8s_extra_"@ + key;
    if attrs.contains_key(whole) && entry.attrs.contains_key(attrs[whole]) {
        assert(told_extra.contains_key(key));
        assert(!Map::<Seq<char>, Seq<Seq<char>>>::empty().contains_key(key));
        assert(told_extra[key] == entry.attrs[attrs[whole]]);
    } else {
        assert(!told_extra.contains_key(key));
    }
    if granted(entry, audiences, user, attrs).user->0.extra is Some {
        if forall|k: Seq<char>| !#[trigger] told_extra.contains_key(k) {
            assert forall|k: Seq<char>| !#[trigger] told_extra.dom().contains(k) by {
                assert(!told_extra.contains_key(k));
            }
            assert(told_extra =~= Map::<Seq<char>, Seq<Seq<char>>>::empty());
        }
    }
}

/// A status tells either the user or the error. Of an authenticated user it
/// tells the name that was given and the audiences that were asked about, and no
/// error; of another it tells the error that was given and nothing else.
pub proof fn law_status_of_either_outcome(
    entry: EntryView,
    audiences: Option<Seq<Seq<char>>>,
    user: Seq<char>,
    attrs: Map<Seq<char>, Seq<char>>,
    error: Option<Seq<char>>,
)
    ensures
        granted(entry, audiences, user, attrs).authenticated == Some(true),
        granted(entry, audiences, user, attrs).error is None,
        granted(entry, audiences, user, attrs).audiences == audiences,
        granted(entry, audiences, user, attrs).user is Some,
        granted(entry, audiences, user, attrs).user->0.username == Some(user),
        denied(error).authenticated == Some(false),
        denied(error).error == error,
        denied(error).user is None,
        denied(error).audiences is None,
{
}

/// The name of a group is what its first component holds behind three bytes; a
/// component that is too short has no name.
pub proof fn law_group_name_is_cut(dn: Seq<char>)
    ensures
        group_cuts(dn) ==> exists|prefix: Seq<char>|
            #![trigger encode_utf8(prefix)]
            encode_utf8(prefix).len() == 3 && split(dn, ',')[0] == prefix + group_name(dn),
        encode_utf8(split(dn, ',')[0]).len() < 3 ==> !group_cuts(dn),
{
    let component = first_component(dn);
    let bytes = encode_utf8(component);
    encode_utf8_valid_utf8(component);
    encode_utf8_decode_utf8(component);
    if group_cuts(dn) {
        valid_utf8_split(bytes, 3);
        decode_utf8_split(bytes, 3);
        lemma_boundary_is_within(bytes, 3);
        let front = bytes.subrange(0, 3);
        assert(bytes.skip(3) == bytes.subrange(3, bytes.len() as int));
        decode_utf8_encode_utf8(front);
        let prefix = decode_utf8(front);
        assert(encode_utf8(prefix).len() == 3);
        assert(component == prefix + group_name(dn));
    }
    if bytes.len() < 3 && group_cuts(dn) {
        lemma_boundary_is_within(bytes, 3);
    }
}

proof fn lemma_boundary_is_within(bytes: Seq<u8>, index: int)
    requires
        valid_utf8(bytes),
        is_char_boundary(bytes, index),
    ensures
        0 <= index <= bytes.len(),
{
}

/// Who is asked about is read from the token whole: where it stands in base64
/// for a name without a colon, a colon and a password, the directory is asked
/// about exactly that name with exactly that password; and the audiences and the
/// request are those that came.
pub proof fn law_query_holds_user_and_password(
    request: Seq<char>,
    review: ReviewView,
    token: Seq<char>,
    user: Seq<char>,
    password: Seq<char>,
)
    requires
        review.token == Some(token),
        base64_decoded(token) == Some(encode_utf8(user + ":"@ + password)),
        !user.contains(':'),
    ensures
        ({
            let read = Ok::<ReviewView, Seq<char>>(review);
            let query = query_of(request, read, user_pass_of_token(token_of(read)));
            &&& query is Ok
            &&& query->Ok_0.user == user
            &&& query->Ok_0.password == password
            &&& query->Ok_0.audiences == review.audiences
            &&& query->Ok_0.request == request
        }),
{
    law_token_gives_user_and_password(token, user, password);
}

/// Whoever is asked about comes from the token: a name without a colon, a colon
/// and the password make up the text that the token stands for.
pub proof fn law_query_comes_from_the_token(request: Seq<char>, read: Result<ReviewView, Seq<char>>)
    ensures
        ({
            let query = query_of(request, read, user_pass_of_token(token_of(read)));
            query is Ok ==> {
                let bytes = base64_decoded(read->Ok_0.token->0);
                &&& read is Ok
                &&& read->Ok_0.token is Some
                &&& bytes is Some
                &&& valid_utf8(bytes->0)
                &&& decode_utf8(bytes->0) == query->Ok_0.user + ":"@ + query->Ok_0.password
                &&& !query->Ok_0.user.contains(':')
                &&& query->Ok_0.audiences == read->Ok_0.audiences
            }
        }),
{
    reveal_strlit(":");
    assert(":"@ == seq![':']);
    if let Ok(review) = read {
        if let Some(token) = review.token {
            if let Some(bytes) = base64_decoded(token) {
                law_split_at_first(decode_utf8(bytes), ':');
            }
        }
    }
}

/// A request is refused exactly when it is no review, or its token is missing,
/// is no base64, is no text or holds no colon; and the error says which.
pub proof fn law_query_errors(request: Seq<char>, read: Result<ReviewView, Seq<char>>)
    ensures
        ({
            let query = query_of(request, read, user_pass_of_token(token_of(read)));
            let token = read->Ok_0.token;
            let bytes = base64_decoded(token->0);
            let front = seq!["Error retrieving user and password from token"@];
            &&& read matches Err(failure) ==> query == Err::<QueryView, Seq<Seq<char>>>(
                seq!["Error parsing JSON from request"@, failure],
            )
            &&& read is Ok && token is None ==> query == Err::<QueryView, Seq<Seq<char>>>(
                front + seq!["Error reading token provided in request"@],
            )
            &&& read is Ok && token is Some && bytes is None ==> query == Err::<
                QueryView,
                Seq<Seq<char>>,
            >(front + seq!["Error token not provided in request"@])
            &&& read is Ok && token is Some && bytes is Some && !valid_utf8(bytes->0) ==> query
                == Err::<QueryView, Seq<Seq<char>>>(
                front + seq!["Error converting token to UTF-8 string"@, utf8_failure(bytes->0)],
            )
            &&& read is Ok && token is Some && bytes is Some && valid_utf8(bytes->0)
                && !decode_utf8(bytes->0).contains(':') ==> query == Err::<
                QueryView,
                Seq<Seq<char>>,
            >(front + seq!["Token is not a <user>:<password> string"@])
            &&& read is Ok && token is Some && bytes is Some && valid_utf8(bytes->0)
                && decode_utf8(bytes->0).contains(':') ==> query is Ok
        }),
{
    if let Ok(review) = read {
        if let Some(token) = review.token {
            if let Some(bytes) = base64_decoded(token) {
                law_split_at_first(decode_utf8(bytes), ':');
            }
        }
    }
}

/// The answer to a request holds neither its token nor its audiences, but the
/// status; a review that could be written is handed on as it was written, with
/// the user and whether the user is authenticated.
pub proof fn law_answer_holds_the_status_alone(
    query: QueryView,
    found: Result<EntryView, Seq<char>>,
    attrs: Map<Seq<char>, Seq<char>>,
    text: Seq<char>,
    failure: Seq<char>,
    authenticated: bool,
)
    ensures
        answer_for(query, found, attrs).token is None,
        answer_for(query, found, attrs).audiences is None,
        answer_for(query, found, attrs).status matches Some(status) && status.authenticated == Some(
            found is Ok,
        ),
        found matches Ok(entry) ==> answer_for(query, found, attrs).status == Some(
            granted(entry, query.audiences, query.user, attrs),
        ),
        found matches Err(message) ==> answer_for(query, found, attrs).status == Some(
            denied(Some(message)),
        ),
        handled(Ok(text), query.user, authenticated) == Ok::<
            (Seq<char>, Seq<char>, bool),
            Seq<Seq<char>>,
        >((text, query.user, authenticated)),
        handled(Err(failure), query.user, authenticated) == Err::<
            (Seq<char>, Seq<char>, bool),
            Seq<Seq<char>>,
        >(seq![failure]),
{
}

impl ReviewQuery {
    /// Begins the dialogue with the directory about the user of the query.
    pub fn search_in<'a>(&self, connector: &'a LdapConnector) -> (r: UserSearch<'a>)
        ensures
            r@.connector == connector@,
            r@.user == self@.user,
            r@.password == self@.password,
    {
        connector.search_user(self.user(), self.password())
    }
}

/// A status, and what it tells of a user, are seen as they are.
pub proof fn law_statuses_are_seen_as_they_are(status: TokenReviewStatus, user: UserInfo)
    ensures
        status@.authenticated == status.authenticated,
        status@.user is Some <==> status.user is Some,
        status.user == Some(user) ==> status@.user == Some(user@),
        status.error matches Some(error) ==> status@.error == Some(error@),
        status.error is None <==> status@.error is None,
        status.audiences is None <==> status@.audiences is None,
        user.username matches Some(name) ==> user@.username == Some(name@),
        user.uid matches Some(uid) ==> user@.uid == Some(uid@),
        user.uid is None <==> user@.uid is None,
        user.groups matches Some(groups) ==> user@.groups == Some(groups.deep_view()),
        user.groups is None <==> user@.groups is None,
        user.extra is None <==> user@.extra is None,
{
}

} // verus!
