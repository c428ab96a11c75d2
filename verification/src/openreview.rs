//! The review platform: its requests, its listings of a venue's papers, and what is kept of them.
use vstd::prelude::*;

use crate::http::{push_pair, HttpRequest, Request};
use crate::http;
use crate::json::{Json, JsonTree};
use crate::location;
use crate::location::openreview_forum_id;
use crate::number;
use crate::number::{i32_string, usize_string};
use crate::paper::{AbstractSource, Paper, Secrets};
use crate::sources;
use crate::sources::{abstracts_from_openreview_notes, note_count, AbstractIndex};
use crate::text;
use crate::text::{comes_before, concat2, contains_text, copied, same_text};

verus! {

/// How many notes a page of a listing holds at most.
pub const OPENREVIEW_PAGE_SIZE: usize = 500;

/// For how many seconds a login is asked to be valid: a week.
pub const OPENREVIEW_LOGIN_EXPIRES_IN: u64 = 604_800;

/// The two interfaces of the platform, in the order in which they are asked.
#[derive(Clone, Copy, Debug, PartialEq, Eq, Structural)]
pub enum OpenreviewBase {
    /// The current interface.
    Current,
    /// The interface for older venues.
    Older,
}

/// The address of the notes of an interface.
pub open spec fn base_url(base: OpenreviewBase) -> Seq<char> {
    match base {
        OpenreviewBase::Current => "https://api2.openreview.net/notes"@,
        OpenreviewBase::Older => "https://api.openreview.net/notes"@,
    }
}

impl OpenreviewBase {
    /// The address of the notes of this interface.
    pub fn url(self) -> (r: &'static str)
        ensures
            r@ == base_url(self),
    {
        match self {
            OpenreviewBase::Current => "https://api2.openreview.net/notes",
            OpenreviewBase::Older => "https://api.openreview.net/notes",
        }
    }
}

/// Whether requests to an address are sent with a login.
pub open spec fn takes_login(url: Seq<char>) -> bool {
    exists|at: int| text::occurs_at(url, "api2.openreview.net"@, at)
}

/// Whether requests to `url` are sent with a login.
pub fn wants_login(url: &str) -> (r: bool)
    ensures
        r == takes_login(url@),
{
    contains_text(url, "api2.openreview.net")
}

/// The headers of a request to `url`, where `token` is the token of the login.
pub open spec fn login_headers(url: Seq<char>, token: Option<Seq<char>>) -> Seq<
    (Seq<char>, Seq<char>),
> {
    match token {
        Some(t) if takes_login(url) => seq![("authorization"@, "Bearer "@ + t)],
        _ => Seq::empty(),
    }
}

/// A request to `url` with the given query, and with the login where the address takes one and
/// there is a token.
pub fn openreview_get(url: &str, query: Vec<(String, String)>, token: &Option<String>) -> (r:
    HttpRequest)
    ensures
        r@ == (Request {
            url: url@,
            query: query.deep_view(),
            headers: login_headers(url@, token.deep_view()),
        }),
{
    let mut headers: Vec<(String, String)> = Vec::new();
    proof {
        assert(headers.deep_view() == Seq::<(Seq<char>, Seq<char>)>::empty());
    }
    if let Some(t) = token {
        if wants_login(url) {
            let value = concat2("Bearer ", t.as_str());
            push_pair(&mut headers, "authorization", value.as_str());
            proof {
                assert(headers.deep_view() == login_headers(url@, token.deep_view()));
            }
        }
    }
    HttpRequest { url: url.to_owned(), query, headers }
}

/// What a login sends.
pub struct LoginRequest {
    pub id: String,
    pub password: String,
    /// For how many seconds the login is to be valid.
    pub expires_in: u64,
}

/// What a login sends; `None` where the user's name or password is not known.
pub fn openreview_login(secrets: &Secrets) -> (r: Option<LoginRequest>)
    ensures
        match r {
            Some(login) => {
                &&& secrets.openreview_username.deep_view() == Some(login.id@)
                &&& secrets.openreview_password.deep_view() == Some(login.password@)
                &&& login.expires_in == OPENREVIEW_LOGIN_EXPIRES_IN
            },
            None => secrets.openreview_username is None || secrets.openreview_password is None,
        },
{
    match (&secrets.openreview_username, &secrets.openreview_password) {
        (Some(username), Some(password)) => Some(
            LoginRequest {
                id: username.clone(),
                password: password.clone(),
                expires_in: OPENREVIEW_LOGIN_EXPIRES_IN,
            },
        ),
        _ => None,
    }
}

/// The token that the reply to a login gives.
pub open spec fn token_in(reply: Result<JsonTree, Seq<char>>) -> Option<Seq<char>> {
    match reply {
        Ok(tree) => tree.member_text("token"@),
        Err(_) => None,
    }
}

/// The token that the reply to a login gives.
pub fn login_token(reply: &Result<Json, String>) -> (r: Option<String>)
    ensures
        r.deep_view() == token_in(http::reply_view(*reply)),
{
    match reply {
        Ok(json) => match json.get_str("token") {
            Some(token) => Some(token.to_owned()),
            None => None,
        },
        Err(_) => None,
    }
}

/// What has to be done for a login.
pub enum LoginStep {
    /// Nothing: this is the token.
    Known(String),
    /// Send this, then call [`login_answered`].
    Ask(LoginRequest),
    /// Nothing: there is no login.
    Unknown,
}

/// What has to be done for a login, where `kept` is the token of an earlier one.
pub fn openreview_login_token(kept: &Option<String>, secrets: &Secrets) -> (r: LoginStep)
    ensures
        match r {
            LoginStep::Known(token) => kept.deep_view() == Some(token@),
            LoginStep::Ask(login) => {
                &&& kept is None
                &&& secrets.openreview_username.deep_view() == Some(login.id@)
                &&& secrets.openreview_password.deep_view() == Some(login.password@)
                &&& login.expires_in == OPENREVIEW_LOGIN_EXPIRES_IN
            },
            LoginStep::Unknown => kept is None && (secrets.openreview_username is None
                || secrets.openreview_password is None),
        },
{
    match kept {
        Some(token) => LoginStep::Known(token.clone()),
        None => match openreview_login(secrets) {
            Some(login) => LoginStep::Ask(login),
            None => LoginStep::Unknown,
        },
    }
}

/// Takes the reply to a login: gives its token, and keeps it unless one is kept already.
pub fn login_answered(kept: &mut Option<String>, reply: &Result<Json, String>) -> (r: Option<
    String,
>)
    ensures
        r.deep_view() == token_in(http::reply_view(*reply)),
        final(kept).deep_view() == if *old(kept) is Some {
            old(kept).deep_view()
        } else {
            token_in(http::reply_view(*reply))
        },
{
    let token = login_token(reply);
    if kept.is_none() {
        *kept = copied(&token);
    }
    token
}

/// The query for one note.
pub fn note_query(forum_id: &str) -> (r: Vec<(String, String)>)
    ensures
        r.deep_view() == seq![("id"@, forum_id@)],
{
    let mut query: Vec<(String, String)> = Vec::new();
    proof {
        assert(query.deep_view() == Seq::<(Seq<char>, Seq<char>)>::empty());
    }
    push_pair(&mut query, "id", forum_id);
    proof {
        assert(query.deep_view() == seq![("id"@, forum_id@)]);
    }
    query
}

/// The identifier of a venue's conference of one year.
pub open spec fn venue_id(venue: Seq<char>, year: int) -> Seq<char> {
    venue + ".cc/"@ + number::signed_decimal(year) + "/Conference"@
}

/// The listing of the papers that a venue accepted, as far as it was read.
pub struct VenueListing {
    pub venue_id: String,
    pub base: OpenreviewBase,
    /// How many notes of this interface were read.
    pub offset: usize,
    /// The abstracts that this interface gave.
    pub found: AbstractIndex,
}

/// What has to be done next to list a venue's papers.
pub enum ListingStep {
    /// Ask for the next page ([`VenueListing::request`]), then call [`VenueListing::answered`].
    Ask(VenueListing),
    /// Nothing: this is the result.
    Finished(Result<AbstractIndex, String>),
}

/// The mathematical form of a step.
pub enum ListingState {
    Ask {
        venue_id: Seq<char>,
        base: OpenreviewBase,
        offset: nat,
        found: Map<Seq<char>, Seq<char>>,
    },
    Finished(Result<Map<Seq<char>, Seq<char>>, Seq<char>>),
}

impl View for ListingStep {
    type V = ListingState;

    open spec fn view(&self) -> ListingState {
        match self {
            ListingStep::Ask(listing) => listing.state(),
            ListingStep::Finished(Ok(index)) => ListingState::Finished(Ok(index@)),
            ListingStep::Finished(Err(reason)) => ListingState::Finished(Err(reason@)),
        }
    }
}

/// The step that follows once an interface has no more pages and gave the abstracts `found`.
pub open spec fn base_done(
    venue_id: Seq<char>,
    base: OpenreviewBase,
    found: Map<Seq<char>, Seq<char>>,
) -> ListingState {
    if found.is_empty() && base == OpenreviewBase::Current {
        interface_begun(venue_id, OpenreviewBase::Older)
    } else {
        ListingState::Finished(Ok(found))
    }
}

/// The step that follows once a page was asked for.
pub open spec fn after_page(
    venue_id: Seq<char>,
    base: OpenreviewBase,
    offset: nat,
    found: Map<Seq<char>, Seq<char>>,
    reply: Result<JsonTree, Seq<char>>,
) -> ListingState {
    match reply {
        Err(reason) => ListingState::Finished(Err(reason)),
        Ok(page) => {
            let notes = sources::notes_of(page);
            let all = found.union_prefer_right(sources::notes_index(notes));
            if notes.len() < OPENREVIEW_PAGE_SIZE {
                base_done(venue_id, base, all)
            } else {
                ListingState::Ask { venue_id, base, offset: offset + OPENREVIEW_PAGE_SIZE as nat, found: all }
            }
        },
    }
}

/// The query for a page of a listing.
pub open spec fn page_query(venue_id: Seq<char>, offset: nat) -> Seq<(Seq<char>, Seq<char>)> {
    seq![
        ("content.venueid"@, venue_id),
        ("limit"@, number::decimal(OPENREVIEW_PAGE_SIZE as nat)),
        ("offset"@, number::decimal(offset)),
    ]
}

impl VenueListing {
    /// The mathematical form of this listing.
    pub open spec fn state(&self) -> ListingState {
        ListingState::Ask {
            venue_id: self.venue_id@,
            base: self.base,
            offset: self.offset as nat,
            found: self.found@,
        }
    }

    /// The query for the next page.
    pub fn query(&self) -> (r: Vec<(String, String)>)
        ensures
            r.deep_view() == page_query(self.venue_id@, self.offset as nat),
    {
        let limit = usize_string(OPENREVIEW_PAGE_SIZE);
        let offset = usize_string(self.offset);
        let mut query: Vec<(String, String)> = Vec::new();
        proof {
            assert(query.deep_view() == Seq::<(Seq<char>, Seq<char>)>::empty());
        }
        push_pair(&mut query, "content.venueid", self.venue_id.as_str());
        push_pair(&mut query, "limit", limit.as_str());
        push_pair(&mut query, "offset", offset.as_str());
        proof {
            assert(query.deep_view() == page_query(self.venue_id@, self.offset as nat));
        }
        query
    }

    /// The request for the next page.
    pub fn request(&self, token: &Option<String>) -> (r: HttpRequest)
        ensures
            r@ == (Request {
                url: base_url(self.base),
                query: page_query(self.venue_id@, self.offset as nat),
                headers: login_headers(base_url(self.base), token.deep_view()),
            }),
    {
        openreview_get(self.base.url(), self.query(), token)
    }

    /// The step that follows once the next page was asked for: a reply that fails ends the
    /// listing, a full page is followed by another, and an interface that gave no abstract at all
    /// by the next interface.
    pub fn answered(self, reply: &Result<Json, String>) -> (r: ListingStep)
        requires
            self.offset + OPENREVIEW_PAGE_SIZE <= usize::MAX,
        ensures
            r@ == after_page(
                self.venue_id@,
                self.base,
                self.offset as nat,
                self.found@,
                http::reply_view(*reply),
            ),
    {
        let page = match reply {
            Ok(page) => page,
            Err(reason) => {
                return ListingStep::Finished(Err(reason.clone()));
            },
        };
        let mut found = self.found;
        found.extend(abstracts_from_openreview_notes(page));
        if note_count(page) >= OPENREVIEW_PAGE_SIZE {
            return ListingStep::Ask(
                VenueListing {
                    venue_id: self.venue_id,
                    base: self.base,
                    offset: self.offset + OPENREVIEW_PAGE_SIZE,
                    found,
                },
            );
        }
        if found.is_empty() && self.base == OpenreviewBase::Current {
            ListingStep::Ask(
                VenueListing {
                    venue_id: self.venue_id,
                    base: OpenreviewBase::Older,
                    offset: 0,
                    found: AbstractIndex::new(),
                },
            )
        } else {
            ListingStep::Finished(Ok(found))
        }
    }
}

/// The first step of the listing of a venue's papers.
pub open spec fn listing_begun(venue: Seq<char>, year: int) -> ListingState {
    interface_begun(venue_id(venue, year), OpenreviewBase::Current)
}

/// Begins to list the papers that a venue accepted in a year.
pub fn openreview_accepted_abstracts(venue: &str, year: i32) -> (r: ListingStep)
    ensures
        r@ == listing_begun(venue@, year as int),
{
    let digits = i32_string(year);
    let mut venue_id = venue.to_owned();
    venue_id.append(".cc/");
    venue_id.append(digits.as_str());
    venue_id.append("/Conference");
    ListingStep::Ask(
        VenueListing {
            venue_id,
            base: OpenreviewBase::Current,
            offset: 0,
            found: AbstractIndex::new(),
        },
    )
}

/// The abstracts on all of `pages`; a later page takes precedence.
pub open spec fn pages_index(pages: Seq<JsonTree>) -> Map<Seq<char>, Seq<char>>
    decreases pages.len(),
{
    if pages.len() == 0 {
        Map::empty()
    } else {
        pages_index(pages.drop_last()).union_prefer_right(
            sources::notes_index(sources::notes_of(pages.last())),
        )
    }
}

/// The step that follows `state` once a page was asked for.
pub open spec fn listing_next(
    state: ListingState,
    reply: Result<JsonTree, Seq<char>>,
) -> ListingState {
    match state {
        ListingState::Ask { venue_id, base, offset, found } => after_page(
            venue_id,
            base,
            offset,
            found,
            reply,
        ),
        ListingState::Finished(_) => state,
    }
}

/// The step at which a listing stands once it was given `pages`.
pub open spec fn listing_after(state: ListingState, pages: Seq<JsonTree>) -> ListingState
    decreases pages.len(),
{
    if pages.len() == 0 {
        state
    } else {
        listing_next(listing_after(state, pages.drop_last()), Ok(pages.last()))
    }
}

/// The first step of the listing of one interface.
pub open spec fn interface_begun(venue_id: Seq<char>, base: OpenreviewBase) -> ListingState {
    ListingState::Ask { venue_id, base, offset: 0, found: Map::empty() }
}

/// Whether a page holds as many notes as a page may.
pub open spec fn full_page(page: JsonTree) -> bool {
    sources::notes_of(page).len() >= OPENREVIEW_PAGE_SIZE
}

proof fn lemma_full_pages(venue_id: Seq<char>, base: OpenreviewBase, pages: Seq<JsonTree>)
    requires
        forall|i: int| 0 <= i < pages.len() ==> full_page(#[trigger] pages[i]),
    ensures
        listing_after(interface_begun(venue_id, base), pages) == (ListingState::Ask {
            venue_id,
            base,
            offset: (pages.len() * OPENREVIEW_PAGE_SIZE) as nat,
            found: pages_index(pages),
        }),
    decreases pages.len(),
{
    if pages.len() > 0 {
        let before = pages.drop_last();
        assert forall|i: int| 0 <= i < before.len() implies full_page(#[trigger] before[i]) by {
            assert(before[i] == pages[i]);
        }
        lemma_full_pages(venue_id, base, before);
        assert(full_page(pages[pages.len() - 1]));
    }
}

/// The listing of an interface reads every page up to the first that is not full: it then gives
/// the abstracts of all of them, or turns to the next interface where there are none.
pub proof fn every_page_is_read(
    venue_id: Seq<char>,
    base: OpenreviewBase,
    pages: Seq<JsonTree>,
    last: JsonTree,
)
    requires
        forall|i: int| 0 <= i < pages.len() ==> full_page(#[trigger] pages[i]),
        !full_page(last),
    ensures
        listing_after(interface_begun(venue_id, base), pages.push(last)) == base_done(
            venue_id,
            base,
            pages_index(pages.push(last)),
        ),
{
    lemma_full_pages(venue_id, base, pages);
    assert(pages.push(last).drop_last() == pages);
}

/// The abstracts of one venue and year.
pub struct CachedVenue {
    pub venue: String,
    pub year: i32,
    pub abstracts: AbstractIndex,
}

/// The listings that were read, by venue and year.
pub struct OpenreviewCache {
    entries: Vec<CachedVenue>,
}

/// The listings in the order in which they were kept; a later one takes precedence.
pub open spec fn kept(entries: Seq<CachedVenue>) -> Map<
    (Seq<char>, i32),
    Map<Seq<char>, Seq<char>>,
>
    decreases entries.len(),
{
    if entries.len() == 0 {
        Map::empty()
    } else {
        kept(entries.drop_last()).insert(
            (entries.last().venue@, entries.last().year),
            entries.last().abstracts@,
        )
    }
}

impl View for OpenreviewCache {
    type V = Map<(Seq<char>, i32), Map<Seq<char>, Seq<char>>>;

    closed spec fn view(&self) -> Map<(Seq<char>, i32), Map<Seq<char>, Seq<char>>> {
        kept(self.entries@)
    }
}

impl OpenreviewCache {
    /// A cache without listings.
    pub fn new() -> (r: OpenreviewCache)
        ensures
            r@ == Map::<(Seq<char>, i32), Map<Seq<char>, Seq<char>>>::empty(),
    {
        OpenreviewCache { entries: Vec::new() }
    }

    /// Keeps a listing, in place of any of the same venue and year.
    pub fn insert(&mut self, venue: &str, year: i32, abstracts: AbstractIndex)
        ensures
            final(self)@ == old(self)@.insert((venue@, year), abstracts@),
    {
        let ghost before = self.entries@;
        self.entries.push(CachedVenue { venue: venue.to_owned(), year, abstracts });
        proof {
            assert(self.entries@.drop_last() == before);
        }
    }

    /// The listing of a venue and year.
    pub fn get(&self, venue: &str, year: i32) -> (r: Option<&AbstractIndex>)
        ensures
            match r {
                Some(index) => self@.contains_key((venue@, year)) && self@[(venue@, year)] == index@,
                None => !self@.contains_key((venue@, year)),
            },
    {
        let mut i: usize = self.entries.len();
        proof {
            assert(self.entries@.take(i as int) == self.entries@);
        }
        while i > 0
            invariant
                i <= self.entries@.len(),
                kept(self.entries@.take(i as int)).contains_key((venue@, year))
                    == self@.contains_key((venue@, year)),
                self@.contains_key((venue@, year)) ==> kept(self.entries@.take(i as int))[(
                    venue@,
                    year,
                )] == self@[(venue@, year)],
            decreases i,
        {
            proof {
                assert(self.entries@.take(i as int).drop_last() == self.entries@.take(i - 1));
                assert(self.entries@.take(i as int).last() == self.entries@[i - 1]);
            }
            let entry = &self.entries[i - 1];
            if entry.year == year && same_text(entry.venue.as_str(), venue) {
                return Some(&entry.abstracts);
            }
            i -= 1;
        }
        None
    }

    /// Whether the listing of a venue and year is kept.
    pub fn contains_key(&self, venue: &str, year: i32) -> (r: bool)
        ensures
            r == self@.contains_key((venue@, year)),
    {
        self.get(venue, year).is_some()
    }

    /// The abstract that the listing of a venue and year has for `id`.
    pub fn lookup(&self, venue: &str, year: i32, id: &str) -> (r: Option<String>)
        ensures
            r.deep_view() == kept_abstract(self@, venue@, year, id@),
    {
        match self.get(venue, year) {
            Some(index) => index.get(id),
            None => None,
        }
    }

    /// Keeps what the listing of a venue and year gave: its abstracts, or none where it failed. A
    /// failure gives a warning.
    pub fn record(&mut self, venue: &str, year: i32, listed: Result<AbstractIndex, String>) -> (r:
        Option<String>)
        ensures
            match listed {
                Ok(index) => r is None && final(self)@ == old(self)@.insert((venue@, year), index@),
                Err(reason) => {
                    &&& r matches Some(warning) && warning@ == listing_warning(
                        venue@,
                        year as int,
                        reason@,
                    )
                    &&& final(self)@ == old(self)@.insert((venue@, year), Map::empty())
                },
            },
    {
        match listed {
            Ok(index) => {
                self.insert(venue, year, index);
                None
            },
            Err(reason) => {
                let digits = i32_string(year);
                let mut warning = venue.to_owned();
                warning.append(" ");
                warning.append(digits.as_str());
                warning.append(": ");
                warning.append(reason.as_str());
                self.insert(venue, year, AbstractIndex::new());
                Some(warning)
            },
        }
    }
}

/// The abstract that the listing of a venue and year has for `id`.
pub open spec fn kept_abstract(
    cache: Map<(Seq<char>, i32), Map<Seq<char>, Seq<char>>>,
    venue: Seq<char>,
    year: i32,
    id: Seq<char>,
) -> Option<Seq<char>> {
    if cache.contains_key((venue, year)) && cache[(venue, year)].contains_key(id) {
        Some(cache[(venue, year)][id])
    } else {
        None
    }
}

/// The warning for a listing that failed.
pub open spec fn listing_warning(venue: Seq<char>, year: int, reason: Seq<char>) -> Seq<char> {
    venue + " "@ + number::signed_decimal(year) + ": "@ + reason
}

/// The abstract that a kept listing has for a paper of the review platform.
pub open spec fn cached_abstract(
    cache: Map<(Seq<char>, i32), Map<Seq<char>, Seq<char>>>,
    paper: Paper,
    source: Option<AbstractSource>,
) -> Option<Seq<char>> {
    match paper.url {
        Some(url) if source == Some(AbstractSource::Openreview) => match location::forum_id(url@) {
            Some(id) => kept_abstract(cache, paper.venue@, paper.year, id),
            None => None,
        },
        _ => None,
    }
}

/// The abstract that a kept listing has for a paper of the review platform.
pub fn cached_openreview_abstract(
    cache: &OpenreviewCache,
    paper: &Paper,
    source: Option<AbstractSource>,
) -> (r: Option<String>)
    ensures
        r.deep_view() == cached_abstract(cache@, *paper, source),
{
    if !from_openreview(source) {
        return None;
    }
    match &paper.url {
        Some(url) => match openreview_forum_id(url.as_str()) {
            Some(id) => cache.lookup(paper.venue.as_str(), paper.year, id.as_str()),
            None => None,
        },
        None => None,
    }
}

/// Whether a source is the review platform.
pub fn from_openreview(source: Option<AbstractSource>) -> (r: bool)
    ensures
        r == (source == Some(AbstractSource::Openreview)),
{
    match source {
        Some(AbstractSource::Openreview) => true,
        _ => false,
    }
}

/// Whether one venue and year comes before another: by venue, then by year.
pub open spec fn key_before(a: (Seq<char>, i32), b: (Seq<char>, i32)) -> bool {
    text::text_before(a.0, b.0) || (a.0 == b.0 && a.1 < b.1)
}

/// Whether venues and years stand in order, none of them twice.
pub open spec fn keys_in_order(keys: Seq<(Seq<char>, i32)>) -> bool {
    forall|i: int, k: int|
        0 <= i < k < keys.len() ==> key_before(#[trigger] keys[i], #[trigger] keys[k])
}

/// Whether the listing of a venue and year is needed for one of `inputs` and not kept yet.
pub open spec fn listing_needed(
    inputs: Seq<(Paper, Option<AbstractSource>)>,
    cache: Map<(Seq<char>, i32), Map<Seq<char>, Seq<char>>>,
    key: (Seq<char>, i32),
) -> bool {
    !cache.contains_key(key) && exists|i: int|
        0 <= i < inputs.len() && (#[trigger] inputs[i]).1 == Some(AbstractSource::Openreview) && (
        inputs[i].0.venue@,
        inputs[i].0.year,
    ) == key
}

proof fn lemma_key_before(a: (Seq<char>, i32), b: (Seq<char>, i32), c: (Seq<char>, i32))
    ensures
        key_before(a, b) ==> !key_before(b, a) && a != b,
        !key_before(a, b) && !key_before(b, a) ==> a == b,
        key_before(a, b) && key_before(b, c) ==> key_before(a, c),
{
    text::lemma_text_before_total(a.0, b.0);
    if text::text_before(a.0, b.0) && text::text_before(b.0, c.0) {
        text::lemma_text_before_transitive(a.0, b.0, c.0);
    }
}

/// Enters a venue and year into a list in order, unless it is there.
fn enter_key(keys: &mut Vec<(String, i32)>, venue: &str, year: i32)
    requires
        keys_in_order(old(keys).deep_view()),
    ensures
        keys_in_order(final(keys).deep_view()),
        forall|key: (Seq<char>, i32)|
            final(keys).deep_view().contains(key) <==> old(keys).deep_view().contains(key) || key
                == (venue@, year),
{
    let ghost view = keys.deep_view();
    let ghost key = (venue@, year);
    let mut at: usize = 0;
    while at < keys.len() && (comes_before(keys[at].0.as_str(), venue) || (same_text(
        keys[at].0.as_str(),
        venue,
    ) && keys[at].1 < year))
        invariant
            at <= keys@.len(),
            view == keys.deep_view(),
            key == (venue@, year),
            forall|k: int| 0 <= k < at ==> key_before(#[trigger] view[k], key),
        decreases keys@.len() - at,
    {
        proof {
            assert(view[at as int] == keys@[at as int].deep_view());
        }
        at += 1;
    }
    if at < keys.len() && keys[at].1 == year && same_text(keys[at].0.as_str(), venue) {
        proof {
            assert(view[at as int] == keys@[at as int].deep_view());
            assert(view[at as int] == key);
        }
        return;
    }
    proof {
        if at < keys@.len() {
            assert(view[at as int] == keys@[at as int].deep_view());
            lemma_key_before(key, view[at as int], key);
            assert(key_before(key, view[at as int]));
        }
        assert forall|k: int| at <= k < view.len() implies key_before(key, #[trigger] view[k]) by {
            if k > at {
                lemma_key_before(key, view[at as int], view[k]);
            }
        }
    }
    keys.insert(at, (venue.to_owned(), year));
    proof {
        let all = keys.deep_view();
        assert(all == view.insert(at as int, key));
        assert forall|other: (Seq<char>, i32)| all.contains(other) <==> view.contains(other)
            || other == key by {
            if view.contains(other) {
                let i = choose|i: int| 0 <= i < view.len() && view[i] == other;
                if i < at {
                    assert(all[i] == other);
                } else {
                    assert(all[i + 1] == other);
                }
            }
            if other == key {
                assert(all[at as int] == other);
            }
            if all.contains(other) && other != key {
                let i = choose|i: int| 0 <= i < all.len() && all[i] == other;
                if i < at {
                    assert(view[i] == other);
                } else {
                    assert(view[i - 1] == other);
                }
            }
        }
    }
}

/// The venues and years whose listings are needed for `inputs` and not kept yet, in order.
pub fn listings_needed(
    inputs: &Vec<(Paper, Option<AbstractSource>)>,
    cache: &OpenreviewCache,
) -> (r: Vec<(String, i32)>)
    ensures
        keys_in_order(r.deep_view()),
        forall|key: (Seq<char>, i32)|
            r.deep_view().contains(key) <==> listing_needed(inputs@, cache@, key),
{
    let mut keys: Vec<(String, i32)> = Vec::new();
    proof {
        assert(keys.deep_view() == Seq::<(Seq<char>, i32)>::empty());
    }
    let mut i: usize = 0;
    while i < inputs.len()
        invariant
            i <= inputs@.len(),
            keys_in_order(keys.deep_view()),
            forall|key: (Seq<char>, i32)|
                keys.deep_view().contains(key) <==> listing_needed(
                    inputs@.take(i as int),
                    cache@,
                    key,
                ),
        decreases inputs@.len() - i,
    {
        let ghost before = keys.deep_view();
        let entry = &inputs[i];
        if from_openreview(entry.1) && !cache.contains_key(entry.0.venue.as_str(), entry.0.year) {
            enter_key(&mut keys, entry.0.venue.as_str(), entry.0.year);
        }
        proof {
            let so_far = inputs@.take(i as int);
            let now = inputs@.take(i + 1);
            assert forall|key: (Seq<char>, i32)|
                keys.deep_view().contains(key) <==> listing_needed(now, cache@, key) by {
                if listing_needed(so_far, cache@, key) {
                    let k = choose|k: int|
                        0 <= k < so_far.len() && (#[trigger] so_far[k]).1 == Some(
                            AbstractSource::Openreview,
                        ) && (so_far[k].0.venue@, so_far[k].0.year) == key;
                    assert(now[k] == so_far[k]);
                }
                assert(now[i as int] == inputs@[i as int]);
                if listing_needed(now, cache@, key) && !listing_needed(so_far, cache@, key) {
                    let k = choose|k: int|
                        0 <= k < now.len() && (#[trigger] now[k]).1 == Some(
                            AbstractSource::Openreview,
                        ) && (now[k].0.venue@, now[k].0.year) == key;
                    if k < i {
                        assert(so_far[k] == now[k]);
                    }
                }
            }
        }
        i += 1;
    }
    proof {
        assert(inputs@.take(inputs@.len() as int) == inputs@);
    }
    keys
}

/// Once a listing was recorded, it is not needed again, whatever came of it.
pub proof fn recorded_listings_are_not_needed(
    inputs: Seq<(Paper, Option<AbstractSource>)>,
    cache: Map<(Seq<char>, i32), Map<Seq<char>, Seq<char>>>,
    key: (Seq<char>, i32),
    index: Map<Seq<char>, Seq<char>>,
)
    ensures
        !listing_needed(inputs, cache.insert(key, index), key),
{
}

/// The identifier of a conference carries the whole venue and the year.
pub proof fn conferences_are_named_by_venue_and_year(venue: Seq<char>, year: int)
    ensures
        venue_id(venue, year) == venue + ".cc/"@ + number::signed_decimal(year) + "/Conference"@,
        listing_begun(venue, year) == (ListingState::Ask {
            venue_id: venue_id(venue, year),
            base: OpenreviewBase::Current,
            offset: 0,
            found: Map::empty(),
        }),
{
}

/// The page of a listing behind `count` notes is asked for by the whole identifier, five hundred
/// notes at a time, and by that count.
pub proof fn pages_are_asked_for_one_behind_the_other(venue_id: Seq<char>, count: nat)
    ensures
        page_query(venue_id, count).len() == 3,
        page_query(venue_id, count)[0] == ("content.venueid"@, venue_id),
        page_query(venue_id, count)[1] == ("limit"@, number::decimal(500)),
        page_query(venue_id, count)[2] == ("offset"@, number::decimal(count)),
{
}

/// What follows a page: a full one is followed by the next, with all abstracts so far; one that is
/// not full ends the interface; and a failure ends the listing with its reason.
pub proof fn pages_follow_one_another(
    venue_id: Seq<char>,
    base: OpenreviewBase,
    offset: nat,
    found: Map<Seq<char>, Seq<char>>,
    page: JsonTree,
    reason: Seq<char>,
)
    ensures
        sources::notes_of(page).len() >= 500 ==> after_page(
            venue_id,
            base,
            offset,
            found,
            Ok(page),
        ) == (ListingState::Ask {
            venue_id,
            base,
            offset: offset + 500,
            found: found.union_prefer_right(sources::notes_index(sources::notes_of(page))),
        }),
        sources::notes_of(page).len() < 500 ==> after_page(
            venue_id,
            base,
            offset,
            found,
            Ok(page),
        ) == base_done(
            venue_id,
            base,
            found.union_prefer_right(sources::notes_index(sources::notes_of(page))),
        ),
        after_page(venue_id, base, offset, found, Err(reason)) == ListingState::Finished(
            Err(reason),
        ),
{
}

/// The current interface gives way to the older one just where it gave no abstract at all; what
/// either gave is the result as it is.
pub proof fn empty_interfaces_give_way(
    venue_id: Seq<char>,
    found: Map<Seq<char>, Seq<char>>,
    id: Seq<char>,
)
    ensures
        found.contains_key(id) ==> base_done(venue_id, OpenreviewBase::Current, found)
            == ListingState::Finished(Ok(found)),
        base_done(venue_id, OpenreviewBase::Current, Map::empty()) == (ListingState::Ask {
            venue_id,
            base: OpenreviewBase::Older,
            offset: 0,
            found: Map::empty(),
        }),
        base_done(venue_id, OpenreviewBase::Older, found) == ListingState::Finished(Ok(found)),
{
    if found.contains_key(id) {
        assert(!found.is_empty()) by {
            assert(found.dom().contains(id));
        }
    }
    assert(Map::<Seq<char>, Seq<char>>::empty().is_empty());
}

/// Only the current interface is sent the login, and the whole token.
pub proof fn only_the_current_interface_takes_the_login(token: Seq<char>)
    ensures
        login_headers(base_url(OpenreviewBase::Current), Some(token)) == seq![
            ("authorization"@, "Bearer "@ + token),
        ],
        login_headers(base_url(OpenreviewBase::Older), Some(token)).len() == 0,
        login_headers(base_url(OpenreviewBase::Current), None).len() == 0,
        base_url(OpenreviewBase::Current) == "https://api2.openreview.net/notes"@,
        base_url(OpenreviewBase::Older) == "https://api.openreview.net/notes"@,
{
    reveal_strlit("https://api2.openreview.net/notes");
    reveal_strlit("https://api.openreview.net/notes");
    reveal_strlit("api2.openreview.net");
    let current = base_url(OpenreviewBase::Current);
    let older = base_url(OpenreviewBase::Older);
    let name = "api2.openreview.net"@;
    assert(current.subrange(8, 27) == name);
    assert(text::occurs_at(current, name, 8));
    assert forall|at: int| !text::occurs_at(older, name, at) by {
        if text::occurs_at(older, name, at) {
            assert(older.subrange(at, at + 19)[3] == older[at + 3]);
            assert(name[3] == '2');
            assert(older[at + 3] == '2');
        }
    }
}

/// The token of a login is the whole text of the member `token`.
pub proof fn tokens_are_taken_whole(reply: JsonTree, token: Seq<char>, reason: Seq<char>)
    ensures
        reply.member("token"@) == Some(JsonTree::Text(token)) ==> token_in(Ok(reply)) == Some(token),
        !(reply.member("token"@) matches Some(JsonTree::Text(_))) ==> token_in(Ok(reply)) is None,
        token_in(Err(reason)) is None,
{
}

/// A warning names the whole venue, the year and the whole reason.
pub proof fn warnings_name_venue_year_and_reason(venue: Seq<char>, year: int, reason: Seq<char>)
    ensures
        listing_warning(venue, year, reason) == venue + " "@ + number::signed_decimal(year) + ": "@
            + reason,
{
}

/// The abstract of a paper of the platform is found under its own venue, year and forum, and under
/// no other; a paper of another source has none.
pub proof fn listings_are_looked_up_by_venue_year_and_forum(
    cache: Map<(Seq<char>, i32), Map<Seq<char>, Seq<char>>>,
    paper: Paper,
    url: Seq<char>,
    id: Seq<char>,
    index: Map<Seq<char>, Seq<char>>,
    other: Option<AbstractSource>,
)
    requires
        paper.url.deep_view() == Some(url),
        location::forum_id(url) == Some(id),
        other != Some(AbstractSource::Openreview),
    ensures
        index.contains_key(id) ==> cached_abstract(
            cache.insert((paper.venue@, paper.year), index),
            paper,
            Some(AbstractSource::Openreview),
        ) == Some(index[id]),
        !index.contains_key(id) ==> cached_abstract(
            cache.insert((paper.venue@, paper.year), index),
            paper,
            Some(AbstractSource::Openreview),
        ) is None,
        !cache.contains_key((paper.venue@, paper.year)) ==> cached_abstract(
            cache,
            paper,
            Some(AbstractSource::Openreview),
        ) is None,
        cached_abstract(cache, paper, other) is None,
{
}

/// A listing is needed for a paper of the platform just where its venue and year are not kept.
pub proof fn listings_are_needed_for_platform_papers(
    before: Seq<(Paper, Option<AbstractSource>)>,
    paper: Paper,
    behind: Seq<(Paper, Option<AbstractSource>)>,
    cache: Map<(Seq<char>, i32), Map<Seq<char>, Seq<char>>>,
)
    ensures
        listing_needed(
            before + seq![(paper, Some(AbstractSource::Openreview))] + behind,
            cache,
            (paper.venue@, paper.year),
        ) <==> !cache.contains_key((paper.venue@, paper.year)),
{
    let entry = (paper, Some(AbstractSource::Openreview));
    let all = before + seq![entry] + behind;
    assert(all[before.len() as int] == entry);
}

/// Abstracts of several pages are those of the first ones, overruled by those of the others.
pub proof fn pages_are_all_indexed(a: Seq<JsonTree>, b: Seq<JsonTree>, page: JsonTree)
    ensures
        pages_index(a + b) == pages_index(a).union_prefer_right(pages_index(b)),
        pages_index(seq![page]) == sources::notes_index(sources::notes_of(page)),
    decreases b.len(),
{
    let own = sources::notes_index(sources::notes_of(page));
    assert(seq![page].drop_last() == Seq::<JsonTree>::empty());
    assert(pages_index(seq![page].drop_last()) == Map::<Seq<char>, Seq<char>>::empty());
    assert(seq![page].last() == page);
    assert(Map::<Seq<char>, Seq<char>>::empty().union_prefer_right(own) == own);
    if b.len() == 0 {
        assert(a + b == a);
        assert(pages_index(a).union_prefer_right(pages_index(b)) == pages_index(a));
    } else {
        pages_are_all_indexed(a, b.drop_last(), page);
        assert((a + b).drop_last() == a + b.drop_last());
        assert((a + b).last() == b.last());
        assert(pages_index(a + b) == pages_index(a).union_prefer_right(pages_index(b)));
    }
}

/// A listing is what its fields say.
pub proof fn listings_are_seen_whole(listing: VenueListing, index: AbstractIndex, reason: String)
    ensures
        ListingStep::Ask(listing)@ == (ListingState::Ask {
            venue_id: listing.venue_id@,
            base: listing.base,
            offset: listing.offset as nat,
            found: listing.found@,
        }),
        ListingStep::Finished(Ok(index))@ == ListingState::Finished(Ok(index@)),
        ListingStep::Finished(Err(reason))@ == ListingState::Finished(Err(reason@)),
{
}

/// Listings are ordered by their venues, and those of one venue by their years.
pub proof fn venues_come_before_years(a: Seq<char>, b: Seq<char>, x: i32, y: i32)
    ensures
        text::text_before(a, b) ==> key_before((a, x), (b, y)) && !key_before((b, y), (a, x)),
        key_before((a, x), (a, y)) <==> x < y,
{
    text::lemma_text_before_total(a, b);
    text::lemma_text_before_total(a, a);
}

/// Listings that are named in order are named once each, the earlier ones first.
pub proof fn ordered_listings_are_named_once(keys: Seq<(Seq<char>, i32)>, i: int, k: int)
    requires
        keys_in_order(keys),
        0 <= i < k < keys.len(),
    ensures
        text::text_before(keys[i].0, keys[k].0) || (keys[i].0 == keys[k].0 && keys[i].1
            < keys[k].1),
        keys[i] != keys[k],
{
    assert(key_before(keys[i], keys[k]));
    lemma_key_before(keys[i], keys[k], keys[i]);
}

/// Only a paper of the platform whose venue and year are not kept needs a listing.
pub proof fn only_platform_papers_need_listings(
    inputs: Seq<(Paper, Option<AbstractSource>)>,
    cache: Map<(Seq<char>, i32), Map<Seq<char>, Seq<char>>>,
    key: (Seq<char>, i32),
)
    requires
        listing_needed(inputs, cache, key),
    ensures
        !cache.contains_key(key),
        exists|i: int|
            0 <= i < inputs.len() && (#[trigger] inputs[i]).1 == Some(AbstractSource::Openreview)
                && inputs[i].0.venue@ == key.0 && inputs[i].0.year == key.1,
{
}

} // verus!
