//! An update of the database, venue by venue, and what an update or an enrichment works on.
use vstd::prelude::*;

use crate::number;
use crate::number::{i32_string, usize_string};
use crate::report;
use crate::report::{field_line, pad_left, pad_right};
use crate::search::YearRange;
use crate::text;
use crate::text::{concat2, concat3, join_strings, push_string};

verus! {

/// The last year that is asked for; no paper is newer.
pub const MAX_YEAR: i32 = 2100;

/// The venues that a command works on.
pub enum VenueScope {
    /// Whatever the database holds.
    Everything,
    /// All venues of the configuration.
    Configured,
    /// The venues with these names.
    Named(Vec<String>),
}

/// The mathematical form of the venues that a command works on.
pub enum Scope {
    Everything,
    Configured,
    Named(Seq<Seq<char>>),
}

impl View for VenueScope {
    type V = Scope;

    open spec fn view(&self) -> Scope {
        match self {
            VenueScope::Everything => Scope::Everything,
            VenueScope::Configured => Scope::Configured,
            VenueScope::Named(names) => Scope::Named(names.deep_view()),
        }
    }
}

fn copy_names(names: &Vec<String>) -> (r: Vec<String>)
    ensures
        r.deep_view() == names.deep_view(),
{
    let mut out: Vec<String> = Vec::new();
    let mut i: usize = 0;
    proof {
        assert(out.deep_view() == names.deep_view().take(0));
    }
    while i < names.len()
        invariant
            i <= names@.len(),
            out.deep_view() == names.deep_view().take(i as int),
        decreases names@.len() - i,
    {
        push_string(&mut out, names[i].clone());
        i += 1;
        proof {
            let all = names.deep_view();
            assert(all.take(i as int) == all.take(i - 1).push(all[i - 1]));
        }
    }
    proof {
        assert(names.deep_view().take(i as int) == names.deep_view());
    }
    out
}

/// The venues that an update works on: those that are named, or all of the configuration.
pub fn update_scope(venues: &Vec<String>) -> (r: VenueScope)
    ensures
        r@ == if venues@.len() == 0 {
            Scope::Configured
        } else {
            Scope::Named(venues.deep_view())
        },
{
    if venues.len() == 0 {
        VenueScope::Configured
    } else {
        VenueScope::Named(copy_names(venues))
    }
}

/// The venues that an enrichment works on: those that are named, else all of the bundles that are
/// named, else whatever the database holds.
pub fn enrich_scope(venues: &Vec<String>, bundles: &Vec<String>) -> (r: VenueScope)
    ensures
        r@ == if venues@.len() > 0 {
            Scope::Named(venues.deep_view())
        } else if bundles@.len() > 0 {
            Scope::Configured
        } else {
            Scope::Everything
        },
{
    if venues.len() > 0 {
        VenueScope::Named(copy_names(venues))
    } else if bundles.len() > 0 {
        VenueScope::Configured
    } else {
        VenueScope::Everything
    }
}

/// The first year of an update: the one that is asked for, or that of the configuration.
pub fn first_year(since: Option<i32>, configured: i32) -> (r: i32)
    ensures
        r == match since {
            Some(year) => year,
            None => configured,
        },
{
    match since {
        Some(year) => year,
        None => configured,
    }
}

/// The years that an enrichment works on: all from one on, or all.
pub fn enrich_years(since: Option<i32>) -> (r: Vec<YearRange>)
    ensures
        r@ == match since {
            Some(year) => seq![YearRange { min: Some(year), max: None }],
            None => Seq::empty(),
        },
{
    let mut years: Vec<YearRange> = Vec::new();
    if let Some(year) = since {
        years.push(YearRange::since(year));
    }
    proof {
        assert(years@ == match since {
            Some(year) => seq![YearRange { min: Some(year), max: None }],
            None => Seq::empty(),
        });
    }
    years
}

/// The lines at the beginning of an update.
pub open spec fn update_header(bundles: Seq<Seq<char>>, venues: nat, min_year: int) -> Seq<
    Seq<char>,
> {
    seq![
        "sec-grep update"@,
        report::field_text("bundles"@, text::join(bundles, ", "@)),
        report::field_text("venues"@, number::decimal(venues)),
        report::field_text("since"@, number::signed_decimal(min_year)),
        Seq::empty(),
    ]
}

/// The lines at the beginning of an update.
pub fn update_header_lines(bundles: &Vec<String>, venues: usize, min_year: i32) -> (r: Vec<String>)
    ensures
        r.deep_view() == update_header(bundles.deep_view(), venues as nat, min_year as int),
{
    let names = join_strings(bundles, ", ");
    let count = usize_string(venues);
    let year = i32_string(min_year);
    let mut lines: Vec<String> = Vec::new();
    push_string(&mut lines, "sec-grep update".to_owned());
    push_string(&mut lines, field_line("bundles", names.as_str()));
    push_string(&mut lines, field_line("venues", count.as_str()));
    push_string(&mut lines, field_line("since", year.as_str()));
    push_string(&mut lines, String::new());
    proof {
        assert(lines.deep_view() == update_header(
            bundles.deep_view(),
            venues as nat,
            min_year as int,
        ));
    }
    lines
}

/// What is printed before a venue is fetched.
pub fn venue_label(id: &str) -> (r: String)
    ensures
        r@ == "  "@ + report::padded_right(id@, 12) + " "@,
{
    let padded = pad_right(id, 12);
    concat3("  ", padded.as_str(), " ")
}

/// What came of a venue.
pub enum VenueOutcome {
    /// So many papers were fetched, and so many entered.
    Fetched { papers: nat, upserted: nat },
    /// The venue could not be fetched.
    Failed { id: Seq<char>, error: Seq<char> },
}

/// Where an update stands.
pub struct UpdateState {
    /// How many papers were fetched.
    pub total: nat,
    /// The venues that could not be fetched.
    pub failed: Seq<Seq<char>>,
}

/// Where an update stands once a venue was fetched, or could not be.
pub open spec fn after_venue(state: UpdateState, outcome: VenueOutcome) -> UpdateState {
    match outcome {
        VenueOutcome::Fetched { papers, .. } => UpdateState {
            total: state.total + papers,
            ..state
        },
        VenueOutcome::Failed { id, .. } => UpdateState { failed: state.failed.push(id), ..state },
    }
}

/// What is printed about a venue.
pub open spec fn venue_text(outcome: VenueOutcome) -> Seq<char> {
    match outcome {
        VenueOutcome::Fetched { papers, upserted } => "fetched "@ + report::padded_left(
            number::decimal(papers),
            5,
        ) + " papers, "@ + report::padded_left(number::decimal(upserted), 5) + " upserted"@,
        VenueOutcome::Failed { error, .. } => "failed   "@ + error,
    }
}

/// The lines at the end of an update, where the database now holds `stored` papers.
pub open spec fn update_summary(state: UpdateState, stored: nat) -> Seq<Seq<char>> {
    seq![
        Seq::empty(),
        "summary"@,
        report::field_text("fetched"@, number::decimal(state.total) + " papers"@),
        report::field_text("failed"@, number::decimal(state.failed.len())),
        report::field_text("database"@, number::decimal(stored) + " papers"@),
    ]
}

/// An update of the database.
pub struct UpdateRun {
    total: usize,
    failed: Vec<String>,
}

impl View for UpdateRun {
    type V = UpdateState;

    closed spec fn view(&self) -> UpdateState {
        UpdateState { total: self.total as nat, failed: self.failed.deep_view() }
    }
}

impl UpdateRun {
    /// Begins an update.
    pub fn begin() -> (r: UpdateRun)
        ensures
            r@ == (UpdateState { total: 0, failed: Seq::empty() }),
    {
        let failed: Vec<String> = Vec::new();
        proof {
            assert(failed.deep_view() == Seq::<Seq<char>>::empty());
        }
        UpdateRun { total: 0, failed }
    }

    /// Takes in that a venue was fetched; gives what is printed about it.
    pub fn fetched(&mut self, papers: usize, upserted: usize) -> (r: String)
        requires
            old(self)@.total + papers <= usize::MAX,
        ensures
            r@ == venue_text(
                VenueOutcome::Fetched { papers: papers as nat, upserted: upserted as nat },
            ),
            final(self)@ == after_venue(
                old(self)@,
                VenueOutcome::Fetched { papers: papers as nat, upserted: upserted as nat },
            ),
    {
        self.total += papers;
        let count = usize_string(papers);
        let first = pad_left(count.as_str(), 5);
        let entered = usize_string(upserted);
        let second = pad_left(entered.as_str(), 5);
        let mut line = concat3("fetched ", first.as_str(), " papers, ");
        line.append(second.as_str());
        line.append(" upserted");
        line
    }

    /// Takes in that a venue could not be fetched; gives what is printed about it.
    pub fn failed(&mut self, id: &str, error: &str) -> (r: String)
        ensures
            r@ == venue_text(VenueOutcome::Failed { id: id@, error: error@ }),
            final(self)@ == after_venue(
                old(self)@,
                VenueOutcome::Failed { id: id@, error: error@ },
            ),
    {
        push_string(&mut self.failed, id.to_owned());
        concat2("failed   ", error)
    }

    /// The lines at the end of the update, where the database now holds `stored` papers.
    pub fn summary_lines(&self, stored: usize) -> (r: Vec<String>)
        ensures
            r.deep_view() == update_summary(self@, stored as nat),
    {
        let total = usize_string(self.total);
        let failed = usize_string(self.failed.len());
        let count = usize_string(stored);
        let fetched = concat2(total.as_str(), " papers");
        let held = concat2(count.as_str(), " papers");
        let mut lines: Vec<String> = Vec::new();
        push_string(&mut lines, String::new());
        push_string(&mut lines, "summary".to_owned());
        push_string(&mut lines, field_line("fetched", fetched.as_str()));
        push_string(&mut lines, field_line("failed", failed.as_str()));
        push_string(&mut lines, field_line("database", held.as_str()));
        proof {
            assert(lines.deep_view() == update_summary(self@, stored as nat));
        }
        lines
    }

    /// What comes of the update: an error that names the venues that could not be fetched, if
    /// there are any.
    pub fn outcome(&self) -> (r: Result<(), String>)
        ensures
            match r {
                Ok(_) => self@.failed.len() == 0,
                Err(error) => {
                    &&& self@.failed.len() > 0
                    &&& error@ == "failed to fetch venue(s): "@ + text::join(self@.failed, ", "@)
                },
            },
    {
        if self.failed.len() == 0 {
            return Ok(());
        }
        let names = join_strings(&self.failed, ", ");
        Err(concat2("failed to fetch venue(s): ", names.as_str()))
    }
}

/// Where an update stands after several venues.
pub open spec fn after_venues(state: UpdateState, outcomes: Seq<VenueOutcome>) -> UpdateState
    decreases outcomes.len(),
{
    if outcomes.len() == 0 {
        state
    } else {
        after_venue(after_venues(state, outcomes.drop_last()), outcomes.last())
    }
}

/// A venue that cannot be fetched stops nothing: the others are still counted, and the update
/// succeeds at the end just when every venue was fetched.
pub proof fn updates_succeed_when_every_venue_does(outcomes: Seq<VenueOutcome>)
    ensures
        after_venues(UpdateState { total: 0, failed: Seq::empty() }, outcomes).failed.len() == 0
            <==> forall|i: int|
            0 <= i < outcomes.len() ==> (#[trigger] outcomes[i]) is Fetched,
        after_venues(UpdateState { total: 0, failed: Seq::empty() }, outcomes).total
            == papers_fetched(outcomes),
    decreases outcomes.len(),
{
    if outcomes.len() > 0 {
        let before = outcomes.drop_last();
        updates_succeed_when_every_venue_does(before);
        assert(outcomes.last() == outcomes[outcomes.len() - 1]);
        assert forall|i: int| 0 <= i < before.len() implies before[i] == #[trigger] outcomes[i] by {}
        if exists|i: int| 0 <= i < before.len() && !((#[trigger] before[i]) is Fetched) {
            let i = choose|i: int| 0 <= i < before.len() && !((#[trigger] before[i]) is Fetched);
            assert(!(outcomes[i] is Fetched));
        }
    }
}

/// How many papers several venues gave.
pub open spec fn papers_fetched(outcomes: Seq<VenueOutcome>) -> nat
    decreases outcomes.len(),
{
    if outcomes.len() == 0 {
        0
    } else {
        papers_fetched(outcomes.drop_last()) + match outcomes.last() {
            VenueOutcome::Fetched { papers, .. } => papers,
            VenueOutcome::Failed { .. } => 0,
        }
    }
}

/// Where an update stands after several venues does not depend on how they are grouped, and each
/// venue adds its own papers, or its own name to those that failed.
pub proof fn every_venue_counts_once(
    state: UpdateState,
    a: Seq<VenueOutcome>,
    b: Seq<VenueOutcome>,
    papers: nat,
    upserted: nat,
    id: Seq<char>,
    error: Seq<char>,
)
    ensures
        after_venues(state, a + b) == after_venues(after_venues(state, a), b),
        after_venues(state, seq![VenueOutcome::Fetched { papers, upserted }]) == (UpdateState {
            total: state.total + papers,
            failed: state.failed,
        }),
        after_venues(state, seq![VenueOutcome::Failed { id, error }]) == (UpdateState {
            total: state.total,
            failed: state.failed.push(id),
        }),
    decreases b.len(),
{
    let fetched = seq![VenueOutcome::Fetched { papers, upserted }];
    let failed = seq![VenueOutcome::Failed { id, error }];
    assert(fetched.drop_last() == Seq::<VenueOutcome>::empty());
    assert(failed.drop_last() == Seq::<VenueOutcome>::empty());
    assert(after_venues(state, fetched.drop_last()) == state);
    assert(after_venues(state, failed.drop_last()) == state);
    if b.len() == 0 {
        assert(a + b == a);
    } else {
        every_venue_counts_once(state, a, b.drop_last(), papers, upserted, id, error);
        assert((a + b).drop_last() == a + b.drop_last());
        assert((a + b).last() == b.last());
    }
}

/// The line about a venue holds both its numbers, or its whole error.
pub proof fn venues_are_reported(papers: nat, upserted: nat, id: Seq<char>, error: Seq<char>)
    ensures
        venue_text(VenueOutcome::Fetched { papers, upserted }) == "fetched "@ + report::padded_left(
            number::decimal(papers),
            5,
        ) + " papers, "@ + report::padded_left(number::decimal(upserted), 5) + " upserted"@,
        venue_text(VenueOutcome::Failed { id, error }) == "failed   "@ + error,
{
}

/// An update announces all its bundles, the number of its venues and its first year, and sums up
/// how many papers were fetched, how many venues failed and how many papers are stored.
pub proof fn updates_are_announced_and_summed_up(
    bundles: Seq<Seq<char>>,
    venues: nat,
    min_year: int,
    state: UpdateState,
    stored: nat,
)
    ensures
        update_header(bundles, venues, min_year).len() == 5,
        update_header(bundles, venues, min_year)[0] == "sec-grep update"@,
        update_header(bundles, venues, min_year)[1] == report::field_text(
            "bundles"@,
            text::join(bundles, ", "@),
        ),
        update_header(bundles, venues, min_year)[2] == report::field_text(
            "venues"@,
            number::decimal(venues),
        ),
        update_header(bundles, venues, min_year)[3] == report::field_text(
            "since"@,
            number::signed_decimal(min_year),
        ),
        update_header(bundles, venues, min_year)[4].len() == 0,
        update_summary(state, stored).len() == 5,
        update_summary(state, stored)[0].len() == 0,
        update_summary(state, stored)[1] == "summary"@,
        update_summary(state, stored)[2] == report::field_text(
            "fetched"@,
            number::decimal(state.total) + " papers"@,
        ),
        update_summary(state, stored)[3] == report::field_text(
            "failed"@,
            number::decimal(state.failed.len()),
        ),
        update_summary(state, stored)[4] == report::field_text(
            "database"@,
            number::decimal(stored) + " papers"@,
        ),
{
}

/// The venues of a command are what it names.
pub proof fn scopes_are_seen_whole(names: Vec<String>, i: int)
    requires
        0 <= i < names@.len(),
    ensures
        VenueScope::Everything@ == Scope::Everything,
        VenueScope::Configured@ == Scope::Configured,
        VenueScope::Named(names)@ matches Scope::Named(all) && all.len() == names@.len() && all[i]
            == names@[i]@,
{
}

} // verus!
