//! Web addresses: which of them may be fetched, and what they name.
use vstd::prelude::*;

use crate::address;
use crate::address::{is_localhost, is_public_ip, parse_host_ip};
use crate::literal::IpAddress;
use crate::text;
use crate::text::{normalized_host, same_text};

verus! {

/// A parsed web address.
pub struct PageUrl {
    /// The whole address in its normal form.
    pub href: String,
    pub scheme: String,
    pub username: String,
    pub password: Option<String>,
    pub host: Option<String>,
    /// The port, or the default port of the scheme.
    pub port: Option<u16>,
    pub path: String,
    /// The names and values of the query, decoded.
    pub query: Vec<(String, String)>,
}

/// The mathematical form of a web address.
pub struct UrlParts {
    pub href: Seq<char>,
    pub scheme: Seq<char>,
    pub username: Seq<char>,
    pub password: Option<Seq<char>>,
    pub host: Option<Seq<char>>,
    pub port: Option<u16>,
    pub path: Seq<char>,
    pub query: Seq<(Seq<char>, Seq<char>)>,
}

impl View for PageUrl {
    type V = UrlParts;

    open spec fn view(&self) -> UrlParts {
        UrlParts {
            href: self.href@,
            scheme: self.scheme@,
            username: self.username@,
            password: self.password.deep_view(),
            host: self.host.deep_view(),
            port: self.port,
            path: self.path@,
            query: self.query.deep_view(),
        }
    }
}

/// The parts of the web address that `raw` spells, as `Url::parse` reads it; `None` where it
/// refuses it.
pub uninterp spec fn url_parts(raw: Seq<char>) -> Option<UrlParts>;

/// The address that `location` names seen from the page `base`, as `Url::join` resolves it;
/// `None` where one of the two is refused.
pub uninterp spec fn joined_url(base: Seq<char>, location: Seq<char>) -> Option<Seq<char>>;

/// `reqwest::Url::parse`, and the accessors `as_str`, `scheme`, `username`, `password`,
/// `host_str`, `port_or_known_default`, `path` and `query_pairs` of what it returns. The parts
/// depend on the text alone; which parts these are is left to their name.
#[verifier::external_body]
fn parse_url(raw: &str) -> (r: Option<PageUrl>)
    ensures
        match r {
            Some(url) => url_parts(raw@) == Some(url@),
            None => url_parts(raw@) is None,
        },
{
    let url = reqwest::Url::parse(raw).ok()?;
    Some(PageUrl {
        href: url.as_str().to_string(),
        scheme: url.scheme().to_string(),
        username: url.username().to_string(),
        password: url.password().map(str::to_string),
        host: url.host_str().map(str::to_string),
        port: url.port_or_known_default(),
        path: url.path().to_string(),
        query: url.query_pairs().into_owned().collect(),
    })
}

/// `reqwest::Url::join`, on the `Url::parse`d base: the address that `location` names seen from
/// the page `base`. The result depends on the two texts alone; which address it is is left to its
/// name.
#[verifier::external_body]
fn join_url(base: &str, location: &str) -> (r: Option<String>)
    ensures
        r.deep_view() == joined_url(base@, location@),
{
    let base = reqwest::Url::parse(base).ok()?;
    Some(base.join(location).ok()?.to_string())
}

/// Whether a page may be fetched: over HTTP or HTTPS, without credentials, from a host that is
/// neither local nor the literal of an address outside the public network.
pub open spec fn fetchable(url: UrlParts, ip: Option<IpAddress>) -> bool {
    &&& url.scheme == "http"@ || url.scheme == "https"@
    &&& url.username.len() == 0
    &&& url.password is None
    &&& url.host matches Some(host) && !address::localhost(host)
    &&& ip matches Some(literal) ==> address::public_ip(literal)
}

/// The address that the host of a page is the literal of.
pub open spec fn url_ip(url: UrlParts) -> Option<IpAddress> {
    match url.host {
        Some(host) => address::host_ip(host),
        None => None,
    }
}

/// The web address that `raw` spells, where that page may be fetched.
pub open spec fn static_url(raw: Seq<char>) -> Option<UrlParts> {
    match url_parts(raw) {
        Some(url) if fetchable(url, url_ip(url)) => Some(url),
        _ => None,
    }
}

/// Whether a page may be fetched, where `ip` is the address that its host is the literal of.
pub fn is_fetchable(url: &PageUrl, ip: Option<IpAddress>) -> (r: bool)
    ensures
        r == fetchable(url@, ip),
{
    if !same_text(url.scheme.as_str(), "http") && !same_text(url.scheme.as_str(), "https") {
        return false;
    }
    if !url.username.as_str().is_empty() || url.password.is_some() {
        return false;
    }
    match &url.host {
        Some(host) => {
            if is_localhost(host.as_str()) {
                return false;
            }
        },
        None => {
            return false;
        },
    }
    match ip {
        Some(literal) => is_public_ip(literal),
        None => true,
    }
}

/// The address that the host of a page is the literal of.
pub fn ip_of_url(url: &PageUrl) -> (r: Option<IpAddress>)
    ensures
        r == url_ip(url@),
{
    match &url.host {
        Some(host) => parse_host_ip(host.as_str()),
        None => None,
    }
}

/// Reads a web address, and refuses one whose page may not be fetched.
pub fn parse_static_url(raw: &str) -> (r: Option<PageUrl>)
    ensures
        match r {
            Some(url) => static_url(raw@) == Some(url@),
            None => static_url(raw@) is None,
        },
{
    match parse_url(raw) {
        Some(url) => {
            let ip = ip_of_url(&url);
            if is_fetchable(&url, ip) {
                Some(url)
            } else {
                None
            }
        },
        None => None,
    }
}

/// The first value at or after `from` that the query gives to the name `id`, where it is not
/// empty.
pub open spec fn first_id(query: Seq<(Seq<char>, Seq<char>)>, from: int) -> Option<Seq<char>>
    decreases query.len() - from,
{
    if from < 0 || from >= query.len() {
        None
    } else if query[from].0 == "id"@ && query[from].1.len() > 0 {
        Some(query[from].1)
    } else {
        first_id(query, from + 1)
    }
}

/// The identifier of the discussion that a page of the review platform shows.
pub open spec fn page_forum_id(url: UrlParts) -> Option<Seq<char>> {
    match url.host {
        Some(host) => {
            let name = text::ascii_lowered(text::without_trailing_dots(host));
            if (name == "openreview.net"@ || name == "www.openreview.net"@) && url.path
                == "/forum"@ {
                first_id(url.query, 0)
            } else {
                None
            }
        },
        None => None,
    }
}

/// The identifier of the discussion that the address `raw` leads to.
pub open spec fn forum_id(raw: Seq<char>) -> Option<Seq<char>> {
    match static_url(raw) {
        Some(url) => page_forum_id(url),
        None => None,
    }
}

/// The first value that the query gives to the name `id`, where it is not empty.
pub fn first_id_of(query: &Vec<(String, String)>) -> (r: Option<String>)
    ensures
        r.deep_view() == first_id(query.deep_view(), 0),
{
    let mut i: usize = 0;
    while i < query.len()
        invariant
            i <= query@.len(),
            first_id(query.deep_view(), i as int) == first_id(query.deep_view(), 0),
        decreases query@.len() - i,
    {
        proof {
            assert(query.deep_view()[i as int] == query@[i as int].deep_view());
        }
        if same_text(query[i].0.as_str(), "id") && !query[i].1.as_str().is_empty() {
            return Some(query[i].1.clone());
        }
        i += 1;
    }
    None
}

/// The identifier of the discussion that a page of the review platform shows.
pub fn forum_id_of(url: &PageUrl) -> (r: Option<String>)
    ensures
        r.deep_view() == page_forum_id(url@),
{
    match &url.host {
        Some(host) => {
            let name = normalized_host(host.as_str());
            if !same_text(name.as_str(), "openreview.net") && !same_text(
                name.as_str(),
                "www.openreview.net",
            ) {
                return None;
            }
        },
        None => {
            return None;
        },
    }
    if !same_text(url.path.as_str(), "/forum") {
        return None;
    }
    first_id_of(&url.query)
}

/// The identifier of the discussion that the address `raw` leads to, where it is a page of the
/// review platform.
pub fn openreview_forum_id(raw: &str) -> (r: Option<String>)
    ensures
        r.deep_view() == forum_id(raw@),
{
    match parse_static_url(raw) {
        Some(url) => forum_id_of(&url),
        None => None,
    }
}

/// The address of a redirect: `location`, seen from the page `base`.
pub open spec fn redirect_target(base: Seq<char>, location: Option<Seq<char>>) -> Option<Seq<char>> {
    match location {
        Some(target) => joined_url(base, target),
        None => None,
    }
}

/// The address that the `Location` header of a reply names, seen from the page that was asked
/// for.
pub fn redirect_url(base: &str, location: &Option<String>) -> (r: Option<String>)
    ensures
        r.deep_view() == redirect_target(base@, location.deep_view()),
{
    match location {
        Some(target) => join_url(base, target.as_str()),
        None => None,
    }
}

/// A page that may be fetched, or that may be fetched once the addresses of its host are known to
/// be public.
pub enum StaticTarget {
    /// The host is the literal of a public address.
    Direct(PageUrl),
    /// The addresses of `host` have to be looked up.
    Lookup { url: PageUrl, host: String, port: u16 },
}

/// The mathematical form of a target.
pub enum Target {
    Direct(UrlParts),
    Lookup { url: UrlParts, host: Seq<char>, port: u16 },
}

impl View for StaticTarget {
    type V = Target;

    open spec fn view(&self) -> Target {
        match self {
            StaticTarget::Direct(url) => Target::Direct(url@),
            StaticTarget::Lookup { url, host, port } => Target::Lookup {
                url: url@,
                host: host@,
                port: *port,
            },
        }
    }
}

/// What has to be done before the page `url`, which may be fetched, is fetched. A page without a
/// port is refused.
pub open spec fn page_target(url: UrlParts, ip: Option<IpAddress>) -> Option<Target> {
    match (url.host, url.port) {
        (Some(host), Some(port)) => match ip {
            Some(literal) => if address::public_ip(literal) {
                Some(Target::Direct(url))
            } else {
                None
            },
            None => Some(Target::Lookup { url, host, port }),
        },
        _ => None,
    }
}

/// What has to be done before the page that `raw` names is fetched; `None` where it may not be.
pub open spec fn target_of(raw: Seq<char>) -> Option<Target> {
    match static_url(raw) {
        Some(url) => page_target(url, url_ip(url)),
        None => None,
    }
}

/// What has to be done before a page is fetched, where `ip` is the address that its host is the
/// literal of.
pub fn target_of_page(url: PageUrl, ip: Option<IpAddress>) -> (r: Option<StaticTarget>)
    ensures
        match r {
            Some(target) => page_target(url@, ip) == Some(target@),
            None => page_target(url@, ip) is None,
        },
{
    let port: u16 = match url.port {
        Some(port) => port,
        None => {
            return None;
        },
    };
    let host = match &url.host {
        Some(host) => host.clone(),
        None => {
            return None;
        },
    };
    match ip {
        Some(literal) => if is_public_ip(literal) {
            Some(StaticTarget::Direct(url))
        } else {
            None
        },
        None => Some(StaticTarget::Lookup { url, host, port }),
    }
}

/// What has to be done before the page that `raw` names is fetched; `None` where it may not be.
pub fn allowed_static_url(raw: &str) -> (r: Option<StaticTarget>)
    ensures
        match r {
            Some(target) => target_of(raw@) == Some(target@),
            None => target_of(raw@) is None,
        },
{
    match parse_static_url(raw) {
        Some(url) => {
            let ip = ip_of_url(&url);
            target_of_page(url, ip)
        },
        None => None,
    }
}

/// A page that is accepted is on the web, not local, and carries no credentials; and where its
/// host is the literal of an address, that address is public.
pub proof fn accepted_pages_are_public(raw: Seq<char>)
    requires
        static_url(raw) is Some,
    ensures
        ({
            let url = static_url(raw).unwrap();
            &&& url_parts(raw) == Some(url)
            &&& url.scheme == "http"@ || url.scheme == "https"@
            &&& url.username == Seq::<char>::empty()
            &&& url.password is None
            &&& url.host is Some
            &&& !address::localhost(url.host.unwrap())
            &&& address::host_ip(url.host.unwrap()) matches Some(ip) ==> address::public_ip(ip)
        }),
{
}

/// A page is fetched without a look-up only from the literal of a public address; otherwise the
/// host is looked up under the name that the address gives.
pub proof fn targets_are_public_or_looked_up(raw: Seq<char>)
    requires
        target_of(raw) is Some,
    ensures
        static_url(raw) is Some,
        match target_of(raw).unwrap() {
            Target::Direct(url) => {
                &&& static_url(raw) == Some(url)
                &&& url_ip(url) matches Some(ip) && address::public_ip(ip)
            },
            Target::Lookup { url, host, port } => {
                &&& static_url(raw) == Some(url)
                &&& url.host == Some(host)
                &&& url.port == Some(port)
                &&& url_ip(url) is None
            },
        },
{
}

/// Only pages of the review platform have a discussion identifier, and it is never empty.
pub proof fn forum_ids_come_from_the_platform(raw: Seq<char>)
    requires
        forum_id(raw) is Some,
    ensures
        static_url(raw) is Some,
        static_url(raw).unwrap().path == "/forum"@,
        forum_id(raw).unwrap().len() > 0,
{
    lemma_first_id(static_url(raw).unwrap().query, 0);
}

proof fn lemma_first_id(query: Seq<(Seq<char>, Seq<char>)>, from: int)
    ensures
        first_id(query, from) matches Some(id) ==> id.len() > 0,
    decreases query.len() - from,
{
    if 0 <= from < query.len() {
        lemma_first_id(query, from + 1);
    }
}

/// Every page on the web that is not local, carries no credentials, and whose host is no literal of
/// a special address, is accepted as it is.
pub proof fn public_pages_are_accepted(raw: Seq<char>, url: UrlParts, host: Seq<char>)
    requires
        url_parts(raw) == Some(url),
        url.scheme == "http"@ || url.scheme == "https"@,
        url.username.len() == 0,
        url.password is None,
        url.host == Some(host),
        !address::localhost(host),
        address::host_ip(host) matches Some(ip) ==> address::public_ip(ip),
    ensures
        static_url(raw) == Some(url),
        url.port matches Some(port) ==> target_of(raw) == Some(
            if address::host_ip(host) is Some {
                Target::Direct(url)
            } else {
                Target::Lookup { url, host, port }
            },
        ),
        url.port is None ==> target_of(raw) is None,
{
}

/// The first value of a query under the name `id` that is not empty is taken, whatever stands
/// around it.
pub proof fn first_filled_id_is_taken(
    before: Seq<(Seq<char>, Seq<char>)>,
    id: Seq<char>,
    behind: Seq<(Seq<char>, Seq<char>)>,
)
    requires
        id.len() > 0,
        forall|i: int|
            0 <= i < before.len() ==> (#[trigger] before[i]).0 != "id"@ || before[i].1.len() == 0,
    ensures
        first_id(before + seq![("id"@, id)] + behind, 0) == Some(id),
        first_id(before, 0) is None,
{
    let all = before + seq![("id"@, id)] + behind;
    assert(all[before.len() as int] == ("id"@, id));
    assert forall|i: int| 0 <= i < before.len() implies (#[trigger] all[i]).0 != "id"@
        || all[i].1.len() == 0 by {
        assert(all[i] == before[i]);
    }
    lemma_first_id_at(all, 0, before.len() as int);
    lemma_first_id_at(before, 0, before.len() as int);
}

proof fn lemma_first_id_at(query: Seq<(Seq<char>, Seq<char>)>, from: int, at: int)
    requires
        0 <= from <= at <= query.len(),
        forall|i: int|
            from <= i < at ==> (#[trigger] query[i]).0 != "id"@ || query[i].1.len() == 0,
    ensures
        first_id(query, from) == first_id(query, at),
    decreases at - from,
{
    if from < at {
        lemma_first_id_at(query, from + 1, at);
    }
}

/// A forum page of the review platform, under either of its names, has the identifier of its query,
/// and no other page has one.
pub proof fn forum_pages_have_identifiers(
    raw: Seq<char>,
    url: UrlParts,
    name: Seq<char>,
    dots: Seq<char>,
)
    requires
        static_url(raw) == Some(url),
        url.host == Some(name + dots),
        name.len() > 0 ==> name.last() != '.',
        forall|k: int| 0 <= k < dots.len() ==> #[trigger] dots[k] == '.',
    ensures
        forum_id(raw) == if (text::ascii_lowered(name) == "openreview.net"@ || text::ascii_lowered(
            name,
        ) == "www.openreview.net"@) && url.path == "/forum"@ {
            first_id(url.query, 0)
        } else {
            None
        },
{
    text::only_trailing_dots_are_dropped(name, dots);
}

/// A redirect leads where its location names, seen from the page; without one it leads nowhere.
pub proof fn redirects_lead_to_their_location(base: Seq<char>, location: Seq<char>)
    ensures
        redirect_target(base, Some(location)) == joined_url(base, location),
        redirect_target(base, None) is None,
{
}

/// A web address is what its fields say.
pub proof fn addresses_are_seen_whole(url: PageUrl)
    ensures
        url@.href == url.href@,
        url@.scheme == url.scheme@,
        url@.username == url.username@,
        url.password matches Some(t) ==> url@.password == Some(t@),
        url.password is None ==> url@.password is None,
        url.host matches Some(t) ==> url@.host == Some(t@),
        url.host is None ==> url@.host is None,
        url@.port == url.port,
        url@.path == url.path@,
        url@.query.len() == url.query@.len(),
        forall|i: int|
            0 <= i < url.query@.len() ==> #[trigger] url@.query[i] == (
                url.query@[i].0@,
                url.query@[i].1@,
            ),
{
}

/// A target is what its fields say.
pub proof fn targets_are_seen_whole(url: PageUrl, host: String, port: u16)
    ensures
        StaticTarget::Direct(url)@ == Target::Direct(url@),
        (StaticTarget::Lookup { url, host, port })@ == (Target::Lookup {
            url: url@,
            host: host@,
            port,
        }),
{
}

} // verus!
