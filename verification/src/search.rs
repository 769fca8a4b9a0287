//! The dialogue with a directory that authenticates a user: a connection is
//! opened, the service user is bound, the user's entry is searched, and the
//! user is bound with the password that was presented.
//!
//! Each stage of the dialogue says what is sent to the directory and takes its
//! reply.
use vstd::prelude::*;

use crate::error::ErrorChain;
use crate::ldap::filled;
use crate::ldap::fill;
use crate::ldap::ldap_rc_to_str;
use crate::ldap::rc_text;
use crate::ldap::ConnectorView;
use crate::ldap::LdapConnector;
use crate::map::distinct_keys;
use crate::map::map_of;
use crate::map::TextMap;
use crate::map::lemma_map_of_entry;
use crate::map::lemma_map_of_keys;

verus! {

/// An entry of a directory: its distinguished name and the values of its
/// attributes.
pub struct SearchEntry {
    pub dn: String,
    pub attrs: TextMap<Vec<String>>,
}

/// The values of an entry.
#[verifier::ext_equal]
pub struct EntryView {
    pub dn: Seq<char>,
    pub attrs: Map<Seq<char>, Seq<Seq<char>>>,
}

impl View for SearchEntry {
    type V = EntryView;

    open spec fn view(&self) -> EntryView {
        EntryView { dn: self.dn@, attrs: self.attrs@ }
    }
}

/// What the directory replies to a bind.
pub enum Reply {
    /// The user is bound.
    Granted,
    /// The directory refused with a result code.
    Refused(u32),
    /// The directory refused in a way that has no result code.
    Unclear,
    /// The exchange with the directory failed.
    Failed(ErrorChain),
}

/// The values of a reply to a bind.
pub enum ReplyView {
    Granted,
    Refused(u32),
    Unclear,
    Failed(Seq<Seq<char>>),
}

impl View for Reply {
    type V = ReplyView;

    open spec fn view(&self) -> ReplyView {
        match *self {
            Reply::Granted => ReplyView::Granted,
            Reply::Refused(rc) => ReplyView::Refused(rc),
            Reply::Unclear => ReplyView::Unclear,
            Reply::Failed(error) => ReplyView::Failed(error@),
        }
    }
}

/// What the directory replies to a search.
pub enum Found {
    /// The entry that is taken from the results.
    Entry(SearchEntry),
    /// There is no result.
    Nothing,
    /// The directory refused with a result code.
    Refused(u32),
    /// The directory refused in a way that has no result code.
    Unclear,
    /// The exchange with the directory failed.
    Failed(ErrorChain),
}

/// The values of a reply to a search.
pub enum FoundView {
    Entry(EntryView),
    Nothing,
    Refused(u32),
    Unclear,
    Failed(Seq<Seq<char>>),
}

impl View for Found {
    type V = FoundView;

    open spec fn view(&self) -> FoundView {
        match *self {
            Found::Entry(entry) => FoundView::Entry(entry@),
            Found::Nothing => FoundView::Nothing,
            Found::Refused(rc) => FoundView::Refused(rc),
            Found::Unclear => FoundView::Unclear,
            Found::Failed(error) => FoundView::Failed(error@),
        }
    }
}

/// The error of a connection that could not be opened.
pub open spec fn opening_error(cause: Seq<Seq<char>>) -> Seq<Seq<char>> {
    seq!["Error on opening connection with LDAP server"@] + cause
}

/// The error that a reply to the bind of the service user comes to, if it is
/// one.
pub open spec fn service_error(reply: ReplyView) -> Option<Seq<Seq<char>>> {
    match reply {
        ReplyView::Granted => None,
        ReplyView::Refused(rc) => Some(
            seq!["LDAP bind user authentication failed. Reason: "@ + rc_text(rc)],
        ),
        ReplyView::Unclear => Some(seq!["LDAP bind user authentication failed"@]),
        ReplyView::Failed(error) => Some(error),
    }
}

/// The entry that a reply to the search of a user gives, or the error that it
/// comes to.
pub open spec fn search_outcome(user: Seq<char>, found: FoundView) -> Result<
    EntryView,
    Seq<Seq<char>>,
> {
    match found {
        FoundView::Entry(entry) => Ok(entry),
        FoundView::Nothing => Err(seq!["LDAP user "@ + user + " not found"@]),
        FoundView::Refused(rc) => Err(
            seq!["LDAP search failed for "@ + user + ".Reason "@ + rc_text(rc)],
        ),
        FoundView::Unclear => Err(seq!["LDAP search unknown error"@]),
        FoundView::Failed(error) => Err(error),
    }
}

/// The error that a reply to the bind of a user comes to, if it is one.
pub open spec fn user_error(user: Seq<char>, reply: ReplyView) -> Option<Seq<Seq<char>>> {
    match reply {
        ReplyView::Granted => None,
        ReplyView::Refused(rc) => Some(
            seq!["LDAP authentication failed for "@ + user + ". Reason: "@ + rc_text(rc)],
        ),
        ReplyView::Unclear => Some(seq!["LDAP authentication failed"@]),
        ReplyView::Failed(error) => Some(error),
    }
}

/// What the whole dialogue comes to: the entry of the user, or the first error.
pub open spec fn searched(
    user: Seq<char>,
    opened: Result<(), Seq<Seq<char>>>,
    service: ReplyView,
    found: FoundView,
    bound: ReplyView,
) -> Result<EntryView, Seq<Seq<char>>> {
    match opened {
        Err(cause) => Err(opening_error(cause)),
        Ok(_) => match service_error(service) {
            Some(error) => Err(error),
            None => match search_outcome(user, found) {
                Err(error) => Err(error),
                Ok(entry) => match user_error(user, bound) {
                    Some(error) => Err(error),
                    None => Ok(entry),
                },
            },
        },
    }
}

/// The result that is taken of a list of results.
pub open spec fn taken<T>(results: Seq<T>) -> Option<T> {
    if results.len() == 0 {
        None
    } else {
        Some(results.last())
    }
}

/// Of a list of results the one that came last is taken, and none of an empty
/// list.
pub proof fn law_last_result_is_taken<T>(earlier: Seq<T>, last: T)
    ensures
        taken(earlier.push(last)) == Some(last),
        taken(Seq::<T>::empty()) is None,
{
}

/// Of a list of results the last one is taken.
pub fn chosen_result<T>(results: Vec<T>) -> (r: Option<T>)
    ensures
        r == taken(results@),
{
    let mut results = results;
    results.pop()
}

/// Whether a list holds the values of a map, one for each key, in some order.
pub open spec fn lists_values(list: Seq<Seq<char>>, map: Map<Seq<char>, Seq<char>>) -> bool {
    exists|items: Seq<(Seq<char>, Seq<char>)>| #[trigger]
        distinct_keys(items) && map_of(items) == map && list == items.map_values(
            |e: (Seq<char>, Seq<char>)| e.1,
        )
}

/// How far below the base a search looks.
#[derive(Clone, Copy, Debug, PartialEq, Eq, Structural)]
pub enum SearchScope {
    /// At the base itself.
    Base,
    /// At what stands directly below the base.
    OneLevel,
    /// At the base and at all that stands below it.
    Subtree,
}

/// What a stage of the dialogue knows.
#[verifier::ext_equal]
pub struct StageView {
    pub connector: ConnectorView,
    pub user: Seq<char>,
    pub password: Seq<char>,
}

/// The dialogue before the connection is opened.
pub struct UserSearch<'a> {
    connector: &'a LdapConnector,
    user: String,
    password: String,
}

/// The dialogue before the service user is bound.
pub struct ServiceBind<'a> {
    search: UserSearch<'a>,
}

/// The dialogue before the entry of the user is searched.
pub struct EntrySearch<'a> {
    search: UserSearch<'a>,
}

/// The dialogue before the user is bound.
pub struct UserBind<'a> {
    search: UserSearch<'a>,
    entry: SearchEntry,
}

/// What follows the search: the user is bound, or the dialogue is over.
pub enum SearchStep<'a> {
    Bind(UserBind<'a>),
    /// The dialogue is over with an error. If the flag is set, the directory is
    /// told so.
    Over(ErrorChain, bool),
}

impl View for UserSearch<'_> {
    type V = StageView;

    closed spec fn view(&self) -> StageView {
        StageView { connector: self.connector@, user: self.user@, password: self.password@ }
    }
}

impl View for ServiceBind<'_> {
    type V = StageView;

    closed spec fn view(&self) -> StageView {
        self.search@
    }
}

impl View for EntrySearch<'_> {
    type V = StageView;

    closed spec fn view(&self) -> StageView {
        self.search@
    }
}

impl View for UserBind<'_> {
    type V = (StageView, EntryView);

    closed spec fn view(&self) -> (StageView, EntryView) {
        (self.search@, self.entry@)
    }
}

impl LdapConnector {
    /// Begins the dialogue that authenticates a user.
    pub fn search_user<'a>(&'a self, user: &str, password: &str) -> (r: UserSearch<'a>)
        ensures
            r@ == (StageView { connector: self@, user: user@, password: password@ }),
    {
        UserSearch { connector: self, user: user.to_string(), password: password.to_string() }
    }
}

impl<'a> UserSearch<'a> {
    /// The connection is open, or could not be opened.
    pub fn opened(self, result: Result<(), ErrorChain>) -> (r: Result<ServiceBind<'a>, ErrorChain>)
        ensures
            match result {
                Ok(_) => r matches Ok(next) && next@ == self@,
                Err(cause) => r matches Err(error) && error@ == opening_error(cause@),
            },
    {
        match result {
            Ok(_) => Ok(ServiceBind { search: self }),
            Err(cause) => Err(
                cause.context("Error on opening connection with LDAP server".to_string()),
            ),
        }
    }
}

impl<'a> ServiceBind<'a> {
    /// The name and the password that the service user is bound with.
    pub fn credentials(&self) -> (r: (&str, &str))
        ensures
            r.0@ == self@.connector.bind_user,
            r.1@ == self@.connector.bind_password,
    {
        self.search.connector.service_credentials()
    }

    /// The directory has replied to the bind of the service user.
    pub fn answered(self, reply: Reply) -> (r: Result<EntrySearch<'a>, ErrorChain>)
        ensures
            match service_error(reply@) {
                None => r matches Ok(next) && next@ == self@,
                Some(e) => r matches Err(error) && error@ == e,
            },
    {
        match reply {
            Reply::Granted => Ok(EntrySearch { search: self.search }),
            Reply::Refused(rc) => {
                let mut message = "LDAP bind user authentication failed. Reason: ".to_string();
                message.append(ldap_rc_to_str(rc));
                Err(ErrorChain::msg(message))
            },
            Reply::Unclear => Err(
                ErrorChain::msg("LDAP bind user authentication failed".to_string()),
            ),
            Reply::Failed(error) => Err(error),
        }
    }
}

impl<'a> EntrySearch<'a> {
    /// How far below the base the search looks.
    pub fn scope(&self) -> (r: SearchScope)
        ensures
            r == SearchScope::Subtree,
    {
        SearchScope::Subtree
    }

    /// The subtree that is searched.
    pub fn base(&self) -> (r: &str)
        ensures
            r@ == self@.connector.search_base,
    {
        self.search.connector.search_base()
    }

    /// The filter that finds the user.
    pub fn filter(&self) -> (r: String)
        ensures
            r@ == filled(self@.connector.search_filter, self@.user),
    {
        fill(self.search.connector.search_filter(), self.search.user.as_str())
    }

    /// The attributes that are asked for, by their names in the directory.
    pub fn attributes(&self) -> (r: Vec<String>)
        ensures
            lists_values(r.deep_view(), self@.connector.attrs),
    {
        let attrs = self.search.connector.get_attrs();
        let n: usize = attrs.len();
        let ghost items = attrs.items();
        let mut r: Vec<String> = Vec::new();
        let mut i: usize = 0;
        while i < n
            invariant
                i <= n,
                n == items.len(),
                items == attrs.items(),
                r@.len() == i,
                forall|j: int| 0 <= j < i ==> (#[trigger] r@[j])@ == items[j].1,
            decreases n - i,
        {
            r.push(attrs.value_at(i).as_str().to_string());
            i += 1;
        }
        proof {
            assert(r.deep_view() == items.map_values(|e: (Seq<char>, Seq<char>)| e.1));
            assert(distinct_keys(items));
        }
        r
    }

    /// The directory has replied to the search.
    pub fn answered(self, found: Found) -> (r: SearchStep<'a>)
        ensures
            match search_outcome(self@.user, found@) {
                Ok(entry) => r matches SearchStep::Bind(next) && next@ == (self@, entry),
                Err(e) => r matches SearchStep::Over(error, unbind) && error@ == e && unbind == (
                found is Nothing),
            },
    {
        match found {
            Found::Entry(entry) => SearchStep::Bind(UserBind { search: self.search, entry }),
            Found::Nothing => {
                let mut message = "LDAP user ".to_string();
                message.append(self.search.user.as_str());
                message.append(" not found");
                SearchStep::Over(ErrorChain::msg(message), true)
            },
            Found::Refused(rc) => {
                let mut message = "LDAP search failed for ".to_string();
                message.append(self.search.user.as_str());
                message.append(".Reason ");
                message.append(ldap_rc_to_str(rc));
                SearchStep::Over(ErrorChain::msg(message), false)
            },
            Found::Unclear => SearchStep::Over(
                ErrorChain::msg("LDAP search unknown error".to_string()),
                false,
            ),
            Found::Failed(error) => SearchStep::Over(error, false),
        }
    }
}

impl<'a> UserBind<'a> {
    /// The name and the password that the user is bound with.
    pub fn credentials(&self) -> (r: (&str, &str))
        ensures
            r.0@ == self@.1.dn,
            r.1@ == self@.0.password,
    {
        (self.entry.dn.as_str(), self.search.password.as_str())
    }

    /// The directory has replied to the bind of the user. The dialogue is over:
    /// the entry of the user or the error, and whether the directory is told
    /// so.
    pub fn answered(self, reply: Reply) -> (r: (Result<SearchEntry, ErrorChain>, bool))
        ensures
            match user_error(self@.0.user, reply@) {
                None => r.0 matches Ok(entry) && entry@ == self@.1,
                Some(e) => r.0 matches Err(error) && error@ == e,
            },
            r.1 == !(reply is Failed),
    {
        match reply {
            Reply::Granted => (Ok(self.entry), true),
            Reply::Refused(rc) => {
                let mut message = "LDAP authentication failed for ".to_string();
                message.append(self.search.user.as_str());
                message.append(". Reason: ");
                message.append(ldap_rc_to_str(rc));
                (Err(ErrorChain::msg(message)), true)
            },
            Reply::Unclear => (
                Err(ErrorChain::msg("LDAP authentication failed".to_string())),
                true,
            ),
            Reply::Failed(error) => (Err(error), false),
        }
    }
}

/// A user is authenticated exactly when the directory could be reached, took
/// the service user, found an entry and took the user's own password for it;
/// and the entry that was found is the one that is handed on.
pub proof fn law_only_a_granted_bind_authenticates(
    user: Seq<char>,
    opened: Result<(), Seq<Seq<char>>>,
    service: ReplyView,
    found: FoundView,
    bound: ReplyView,
)
    ensures
        searched(user, opened, service, found, bound) is Ok <==> opened is Ok && service is Granted
            && found is Entry && bound is Granted,
        searched(user, opened, service, found, bound) matches Ok(entry) ==> found
            == FoundView::Entry(entry),
{
}

/// An error that a stage comes to is the one that the whole dialogue comes to,
/// whatever the later replies would have been.
pub proof fn law_the_first_error_counts(
    user: Seq<char>,
    opened: Result<(), Seq<Seq<char>>>,
    service: ReplyView,
    found: FoundView,
    bound: ReplyView,
    other_found: FoundView,
    other_bound: ReplyView,
)
    ensures
        !(service is Granted) ==> searched(user, opened, service, found, bound) == searched(
            user,
            opened,
            service,
            other_found,
            other_bound,
        ),
        !(found is Entry) ==> searched(user, opened, service, found, bound) == searched(
            user,
            opened,
            service,
            found,
            other_bound,
        ),
{
}

/// What a dialogue came to, as values.
pub open spec fn outcome_view(r: Result<SearchEntry, ErrorChain>) -> Result<
    EntryView,
    Seq<Seq<char>>,
> {
    match r {
        Ok(entry) => Ok(entry@),
        Err(error) => Err(error@),
    }
}

/// Whether a connection could be opened, as values.
pub open spec fn opened_view(r: Result<(), ErrorChain>) -> Result<(), Seq<Seq<char>>> {
    match r {
        Ok(_) => Ok(()),
        Err(error) => Err(error@),
    }
}

/// A message to the directory.
pub enum Sent {
    /// A bind with a name and a password.
    Bind(String, String),
    /// A search: its base, its scope, its filter and the attributes asked for.
    Search(String, SearchScope, String, Vec<String>),
}

/// Runs the stages of a dialogue in their order on replies that are already
/// there. It hands back what was sent to the directory, what the dialogue came
/// to, and whether the directory is told that it is over.
///
/// The service user is bound first, with the connector's own name and password.
/// Only if that is granted is the user searched, below the connector's base. Only
/// if there is an entry is the user bound, with the name of that entry and the
/// password that was presented; and only if that is granted is there an entry to
/// hand back.
pub fn replay(
    connector: &LdapConnector,
    user: &str,
    password: &str,
    opened: Result<(), ErrorChain>,
    service: Reply,
    found: Found,
    bound: Reply,
) -> (r: (Vec<Sent>, Result<SearchEntry, ErrorChain>, bool))
    ensures
        outcome_view(r.1) == searched(user@, opened_view(opened), service@, found@, bound@),
        r.1 is Ok <==> opened is Ok && service is Granted && found is Entry && bound is Granted,
        r.1 matches Ok(entry) ==> found@ == FoundView::Entry(entry@),
        r.2 <==> opened is Ok && service is Granted && (found is Nothing || found is Entry && !(
        bound is Failed)),
        r.0@.len() == if opened is Err {
            0int
        } else if !(service is Granted) {
            1
        } else if !(found is Entry) {
            2
        } else {
            3
        },
        r.0@.len() > 0 ==> (r.0@[0] matches Sent::Bind(name, secret) && name@
            == connector@.bind_user && secret@ == connector@.bind_password),
        r.0@.len() > 1 ==> (r.0@[1] matches Sent::Search(base, scope, filter, attributes) && base@
            == connector@.search_base && scope == SearchScope::Subtree && filter@ == filled(
            connector@.search_filter,
            user@,
        ) && lists_values(attributes.deep_view(), connector@.attrs)),
        r.0@.len() > 2 ==> (r.0@[2] matches Sent::Bind(name, secret) && found@ matches FoundView::Entry(
            entry,
        ) && name@ == entry.dn && secret@ == password@),
{
    let mut sent: Vec<Sent> = Vec::new();
    let stage = match connector.search_user(user, password).opened(opened) {
        Ok(stage) => stage,
        Err(error) => {
            return (sent, Err(error), false);
        },
    };
    let (name, secret) = stage.credentials();
    sent.push(Sent::Bind(name.to_string(), secret.to_string()));
    let stage = match stage.answered(service) {
        Ok(stage) => stage,
        Err(error) => {
            return (sent, Err(error), false);
        },
    };
    sent.push(
        Sent::Search(stage.base().to_string(), stage.scope(), stage.filter(), stage.attributes()),
    );
    match stage.answered(found) {
        SearchStep::Bind(stage) => {
            let (name, secret) = stage.credentials();
            sent.push(Sent::Bind(name.to_string(), secret.to_string()));
            let (result, unbind) = stage.answered(bound);
            (sent, result, unbind)
        },
        SearchStep::Over(error, unbind) => (sent, Err(error), unbind),
    }
}

/// A reply is seen as it is: two that are seen alike are the same kind of reply
/// with the same result code.
pub proof fn law_replies_are_seen_as_they_are(a: Reply, b: Reply, found: Found)
    ensures
        a@ is Granted <==> a is Granted,
        a@ is Failed <==> a is Failed,
        a matches Reply::Refused(rc) ==> a@ == ReplyView::Refused(rc),
        a@ == b@ ==> (a is Granted <==> b is Granted) && (a is Refused <==> b is Refused),
        found@ is Entry <==> found is Entry,
        found@ is Nothing <==> found is Nothing,
        found matches Found::Entry(entry) ==> found@ == FoundView::Entry(entry@),
        found matches Found::Refused(rc) ==> found@ == FoundView::Refused(rc),
{
}

/// No stage goes on from anything but a reply that grants what was asked: every
/// other reply, whatever its result code, is an error with a message.
pub proof fn law_every_refusal_is_an_error(user: Seq<char>, reply: ReplyView, found: FoundView)
    requires
        reply matches ReplyView::Failed(error) ==> error.len() > 0,
        found matches FoundView::Failed(error) ==> error.len() > 0,
    ensures
        service_error(reply) is None <==> reply is Granted,
        user_error(user, reply) is None <==> reply is Granted,
        search_outcome(user, found) is Ok <==> found is Entry,
        search_outcome(user, found) matches Ok(entry) ==> found == FoundView::Entry(entry),
        service_error(reply) matches Some(error) ==> error.len() > 0,
        user_error(user, reply) matches Some(error) ==> error.len() > 0,
        search_outcome(user, found) matches Err(error) ==> error.len() > 0,
{
}

/// What the whole dialogue comes to is what its stages come to, one after the
/// other.
pub proof fn law_dialogue_is_its_stages(
    user: Seq<char>,
    opened: Result<(), Seq<Seq<char>>>,
    service: ReplyView,
    found: FoundView,
    bound: ReplyView,
)
    ensures
        opened matches Err(cause) ==> searched(user, opened, service, found, bound) == Err::<
            EntryView,
            Seq<Seq<char>>,
        >(seq!["Error on opening connection with LDAP server"@] + cause),
        opened is Ok && service_error(service) is Some ==> searched(
            user,
            opened,
            service,
            found,
            bound,
        ) == Err::<EntryView, Seq<Seq<char>>>(service_error(service)->0),
        opened is Ok && service is Granted && !(found is Entry) ==> searched(
            user,
            opened,
            service,
            found,
            bound,
        ) == search_outcome(user, found),
        opened is Ok && service is Granted && found is Entry && user_error(user, bound) is Some
            ==> searched(user, opened, service, found, bound) == Err::<EntryView, Seq<Seq<char>>>(
            user_error(user, bound)->0,
        ),
        opened is Ok && service is Granted && found is Entry && user_error(user, bound) is None
            ==> searched(user, opened, service, found, bound) == Ok::<EntryView, Seq<Seq<char>>>(
            found->Entry_0,
        ),
{
}

/// A refusal tells the name of its result code, and one that concerns a user
/// tells the user; an exchange that failed is told as it is.
pub proof fn law_refusals_tell_why(user: Seq<char>, rc: u32, error: Seq<Seq<char>>)
    ensures
        service_error(ReplyView::Refused(rc)) == Some(
            seq!["LDAP bind user authentication failed. Reason: "@ + rc_text(rc)],
        ),
        user_error(user, ReplyView::Refused(rc)) == Some(
            seq!["LDAP authentication failed for "@ + user + ". Reason: "@ + rc_text(rc)],
        ),
        search_outcome(user, FoundView::Refused(rc)) == Err::<EntryView, Seq<Seq<char>>>(
            seq!["LDAP search failed for "@ + user + ".Reason "@ + rc_text(rc)],
        ),
        search_outcome(user, FoundView::Nothing) == Err::<EntryView, Seq<Seq<char>>>(
            seq!["LDAP user "@ + user + " not found"@],
        ),
        service_error(ReplyView::Unclear) == Some(seq!["LDAP bind user authentication failed"@]),
        user_error(user, ReplyView::Unclear) == Some(seq!["LDAP authentication failed"@]),
        search_outcome(user, FoundView::Unclear) == Err::<EntryView, Seq<Seq<char>>>(
            seq!["LDAP search unknown error"@],
        ),
        service_error(ReplyView::Failed(error)) == Some(error),
        user_error(user, ReplyView::Failed(error)) == Some(error),
        search_outcome(user, FoundView::Failed(error)) == Err::<EntryView, Seq<Seq<char>>>(error),
        opening_error(error) == seq!["Error on opening connection with LDAP server"@] + error,
{
}

/// A list of the values of a map holds each of them, once for each of its keys,
/// and nothing else.
pub proof fn law_listed_values(
    list: Seq<Seq<char>>,
    map: Map<Seq<char>, Seq<char>>,
    key: Seq<char>,
    i: int,
)
    requires
        lists_values(list, map),
    ensures
        map.contains_key(key) ==> list.contains(map[key]),
        0 <= i < list.len() ==> exists|k: Seq<char>| #[trigger]
            map.contains_key(k) && map[k] == list[i],
{
    let items = choose|items: Seq<(Seq<char>, Seq<char>)>| #[trigger]
        distinct_keys(items) && map_of(items) == map && list == items.map_values(
            |e: (Seq<char>, Seq<char>)| e.1,
        );
    if map.contains_key(key) {
        lemma_map_of_keys(items, key);
        let j = choose|j: int| 0 <= j < items.len() && #[trigger] items[j].0 == key;
        lemma_map_of_entry(items, j);
        assert(list[j] == items[j].1);
    }
    if 0 <= i < list.len() {
        lemma_map_of_entry(items, i);
        assert(map.contains_key(items[i].0));
        assert(list[i] == items[i].1);
    }
}

} // verus!
