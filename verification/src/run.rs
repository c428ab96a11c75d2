//! A run that fills the missing abstracts of a database, batch by batch.
use vstd::prelude::*;

use crate::number;
use crate::number::usize_string;
use crate::paper::{EnrichResult, Outcome, Paper};
use crate::report;
use crate::report::{
    batch_venue_summary, enrich_batch_size, field_line, format_year_ranges, push_count_lines,
    CountTable,
};
use crate::search::YearRange;
use crate::text;
use crate::text::{concat2, concat3, push_string};

verus! {

/// After how many papers a line about the progress is printed.
pub const ENRICH_PROGRESS_INTERVAL: usize = 500;

/// A paper without an abstract, with its number in the database.
pub struct MissingPaper {
    pub id: i64,
    pub paper: Paper,
}

/// The papers of a batch.
pub open spec fn papers_of(batch: Seq<MissingPaper>) -> Seq<Paper> {
    Seq::new(batch.len(), |i: int| batch[i].paper)
}

/// Where a run stands.
pub struct RunState {
    /// How many papers are to be worked on.
    pub total: nat,
    /// How many papers are worked on at once.
    pub jobs: nat,
    /// How many papers were worked on.
    pub processed: nat,
    /// For how many of them an abstract was found.
    pub filled: nat,
    /// Why the others have none.
    pub misses: Seq<(Seq<char>, nat)>,
    /// The number of the last paper that was taken from the database.
    pub after_id: i64,
}

/// Whether the counts of a run agree: no paper is both filled and missed.
pub open spec fn counts_agree(state: RunState) -> bool {
    state.filled + report::total_of(state.misses) <= state.processed
}

/// A run that fills missing abstracts.
pub struct EnrichRun {
    total: usize,
    jobs: usize,
    processed: usize,
    filled: usize,
    misses: CountTable,
    after_id: i64,
}

impl EnrichRun {
    /// The counts of the run agree.
    #[verifier::type_invariant]
    spec fn well_counted(self) -> bool {
        counts_agree(self@)
    }
}

impl View for EnrichRun {
    type V = RunState;

    closed spec fn view(&self) -> RunState {
        RunState {
            total: self.total as nat,
            jobs: self.jobs as nat,
            processed: self.processed as nat,
            filled: self.filled as nat,
            misses: self.misses@,
            after_id: self.after_id,
        }
    }
}

/// What is known of one paper: its key, and what came of the search for its abstract, which may
/// also fail.
pub type Attempt = (String, Result<EnrichResult, String>);

/// The mathematical form of what came of the search for an abstract.
pub open spec fn attempt_view(attempt: Attempt) -> (Seq<char>, Result<Outcome, Seq<char>>) {
    (
        attempt.0@,
        match attempt.1 {
            Ok(result) => Ok(result@),
            Err(error) => Err(error@),
        },
    )
}

/// The mathematical form of what came of a batch.
pub open spec fn attempts_view(attempts: Seq<Attempt>) -> Seq<
    (Seq<char>, Result<Outcome, Seq<char>>),
> {
    Seq::new(attempts.len(), |i: int| attempt_view(attempts[i]))
}

/// The abstracts that were found, each with the key of its paper.
pub open spec fn updates_of(attempts: Seq<(Seq<char>, Result<Outcome, Seq<char>>)>) -> Seq<
    (Seq<char>, Seq<char>),
>
    decreases attempts.len(),
{
    if attempts.len() == 0 {
        Seq::empty()
    } else {
        let before = updates_of(attempts.drop_last());
        match attempts.last().1 {
            Ok(Outcome::Found(text)) => before.push((attempts.last().0, text)),
            _ => before,
        }
    }
}

/// The reasons why abstracts are missing.
pub open spec fn reasons_of(attempts: Seq<(Seq<char>, Result<Outcome, Seq<char>>)>) -> Seq<
    Seq<char>,
>
    decreases attempts.len(),
{
    if attempts.len() == 0 {
        Seq::empty()
    } else {
        let before = reasons_of(attempts.drop_last());
        match attempts.last().1 {
            Ok(Outcome::Missing(reason)) => before.push(reason),
            _ => before,
        }
    }
}

/// The warnings about papers for which the search failed.
pub open spec fn warnings_of(attempts: Seq<(Seq<char>, Result<Outcome, Seq<char>>)>) -> Seq<
    Seq<char>,
>
    decreases attempts.len(),
{
    if attempts.len() == 0 {
        Seq::empty()
    } else {
        let before = warnings_of(attempts.drop_last());
        match attempts.last().1 {
            Err(error) => before.push(
                "abstract fetch failed for "@ + attempts.last().0 + ": "@ + error,
            ),
            _ => before,
        }
    }
}

/// The line about the progress of a run.
pub open spec fn progress_text(processed: nat, total: nat, filled: nat) -> Seq<char> {
    report::field_text(
        "progress"@,
        number::decimal(processed) + "/"@ + number::decimal(total) + " processed, "@
            + number::decimal(filled) + " filled"@,
    )
}

/// The lines about the progress of a run that are printed while a batch is taken in.
pub open spec fn progress_of(
    state: RunState,
    attempts: Seq<(Seq<char>, Result<Outcome, Seq<char>>)>,
) -> Seq<Seq<char>>
    decreases attempts.len(),
{
    if attempts.len() == 0 {
        Seq::empty()
    } else {
        let before = progress_of(state, attempts.drop_last());
        if (state.processed + attempts.len()) % ENRICH_PROGRESS_INTERVAL as nat == 0 {
            before.push(
                progress_text(
                    state.processed + attempts.len(),
                    state.total,
                    state.filled + updates_of(attempts).len(),
                ),
            )
        } else {
            before
        }
    }
}

/// The line at the end of a batch.
pub open spec fn batch_done_text(filled: nat, missed: nat) -> Seq<char> {
    report::field_text(
        "batch done"@,
        number::decimal(filled) + " filled, "@ + number::decimal(missed) + " missed"@,
    )
}

/// All lines that are printed while a batch is taken in.
pub open spec fn batch_lines(
    state: RunState,
    attempts: Seq<(Seq<char>, Result<Outcome, Seq<char>>)>,
) -> Seq<Seq<char>> {
    progress_of(state, attempts).push(
        batch_done_text(
            updates_of(attempts).len(),
            (attempts.len() - updates_of(attempts).len()) as nat,
        ),
    )
}

/// Where a run stands after a batch.
pub open spec fn after_batch(
    state: RunState,
    attempts: Seq<(Seq<char>, Result<Outcome, Seq<char>>)>,
) -> RunState {
    RunState {
        processed: state.processed + attempts.len(),
        filled: state.filled + updates_of(attempts).len(),
        misses: report::counted_all(state.misses, reasons_of(attempts)),
        ..state
    }
}

/// The line at the beginning of a batch.
pub open spec fn batch_text(state: RunState, papers: Seq<Paper>) -> Seq<char> {
    report::field_text(
        "batch"@,
        number::decimal(state.processed + 1) + "-"@ + number::decimal(
            state.processed + papers.len(),
        ) + " / "@ + number::decimal(state.total) + " ("@ + text::join(
            report::count_parts(report::tally(report::venues_of(papers))),
            ", "@,
        ) + ")"@,
    )
}

/// Where a run begins.
pub open spec fn run_begun(pending: nat, limit: Option<usize>, jobs: nat) -> RunState {
    RunState {
        total: match limit {
            Some(most) => if most < pending {
                most as nat
            } else {
                pending
            },
            None => pending,
        },
        jobs: if jobs == 0 {
            1
        } else {
            jobs
        },
        processed: 0,
        filled: 0,
        misses: Seq::empty(),
        after_id: 0,
    }
}

/// How many papers a run asks the database for next; `None` where it is done.
pub open spec fn wanted(state: RunState) -> Option<nat> {
    if state.processed < state.total {
        let remaining = (state.total - state.processed) as nat;
        if remaining < report::batch_size(state.jobs) {
            Some(remaining)
        } else {
            Some(report::batch_size(state.jobs))
        }
    } else {
        None
    }
}

/// The lines at the beginning of a run.
pub open spec fn run_header(state: RunState, pending: nat, years: Seq<YearRange>) -> Seq<
    Seq<char>,
> {
    let first = seq![
        "abstract enrichment"@,
        report::field_text("pending"@, number::decimal(pending) + " abstracts"@),
    ];
    let with_years = if years.len() > 0 {
        first.push(
            report::field_text("years"@, text::join(report::year_range_texts(years), ", "@)),
        )
    } else {
        first
    };
    let with_total = if state.total != pending {
        with_years.push(
            report::field_text("selected"@, number::decimal(state.total) + " abstracts"@),
        )
    } else {
        with_years
    };
    with_total.push(report::field_text("jobs"@, number::decimal(state.jobs))).push(Seq::empty())
}

/// The lines at the end of a run.
pub open spec fn run_summary(state: RunState) -> Seq<Seq<char>> {
    let first = seq![
        Seq::empty(),
        "summary"@,
        report::field_text(
            "filled"@,
            number::decimal(state.filled) + "/"@ + number::decimal(state.processed)
                + " abstracts"@,
        ),
    ];
    if state.misses.len() == 0 {
        first
    } else {
        first.push(
            report::field_text(
                "missed"@,
                number::decimal((state.processed - state.filled) as nat),
            ),
        ) + report::count_lines(state.misses)
    }
}

proof fn lemma_attempts(attempts: Seq<(Seq<char>, Result<Outcome, Seq<char>>)>)
    ensures
        updates_of(attempts).len() + reasons_of(attempts).len() + warnings_of(attempts).len()
            == attempts.len(),
    decreases attempts.len(),
{
    if attempts.len() > 0 {
        lemma_attempts(attempts.drop_last());
    }
}

/// What a batch leaves to be done: abstracts to store, lines to print, and warnings.
pub struct BatchReport {
    /// The key of each paper for which an abstract was found, and the abstract.
    pub updates: Vec<(String, String)>,
    pub lines: Vec<String>,
    pub warnings: Vec<String>,
}

fn push_update(updates: &mut Vec<(String, String)>, key: String, text: String)
    ensures
        final(updates).deep_view() == old(updates).deep_view().push((key@, text@)),
{
    let ghost before = updates.deep_view();
    updates.push((key, text));
    proof {
        assert(updates.deep_view() == before.push((key@, text@)));
    }
}

fn progress_line(processed: usize, total: usize, filled: usize) -> (r: String)
    ensures
        r@ == progress_text(processed as nat, total as nat, filled as nat),
{
    let done = usize_string(processed);
    let all = usize_string(total);
    let found = usize_string(filled);
    let mut value = concat3(done.as_str(), "/", all.as_str());
    value.append(" processed, ");
    value.append(found.as_str());
    value.append(" filled");
    field_line("progress", value.as_str())
}

fn batch_done_line(filled: usize, missed: usize) -> (r: String)
    ensures
        r@ == batch_done_text(filled as nat, missed as nat),
{
    let found = usize_string(filled);
    let rest = usize_string(missed);
    let mut value = concat3(found.as_str(), " filled, ", rest.as_str());
    value.append(" missed");
    field_line("batch done", value.as_str())
}

impl EnrichRun {
    /// Begins a run over `pending` papers, or over `limit` of them where that is fewer.
    pub fn begin(pending: usize, limit: Option<usize>, jobs: usize) -> (r: EnrichRun)
        ensures
            r@ == run_begun(pending as nat, limit, jobs as nat),
    {
        let total: usize = match limit {
            Some(most) => if most < pending {
                most
            } else {
                pending
            },
            None => pending,
        };
        let at_once: usize = if jobs == 0 {
            1
        } else {
            jobs
        };
        EnrichRun {
            total,
            jobs: at_once,
            processed: 0,
            filled: 0,
            misses: CountTable::new(),
            after_id: 0,
        }
    }

    /// How many papers are worked on at once.
    pub fn jobs(&self) -> (r: usize)
        ensures
            r == self@.jobs,
    {
        self.jobs
    }

    /// How many papers were worked on.
    pub fn processed(&self) -> (r: usize)
        ensures
            r == self@.processed,
    {
        self.processed
    }

    /// The number of the paper behind which the next batch begins.
    pub fn after_id(&self) -> (r: i64)
        ensures
            r == self@.after_id,
    {
        self.after_id
    }

    /// The lines at the beginning of the run.
    pub fn header_lines(&self, pending: usize, years: &Vec<YearRange>) -> (r: Vec<String>)
        ensures
            r.deep_view() == run_header(self@, pending as nat, years@),
    {
        let mut lines: Vec<String> = Vec::new();
        push_string(&mut lines, "abstract enrichment".to_owned());
        let waiting = usize_string(pending);
        let value = concat2(waiting.as_str(), " abstracts");
        push_string(&mut lines, field_line("pending", value.as_str()));
        proof {
            assert(lines.deep_view() == seq![
                "abstract enrichment"@,
                report::field_text("pending"@, number::decimal(pending as nat) + " abstracts"@),
            ]);
        }
        if years.len() > 0 {
            let ranges = format_year_ranges(years);
            push_string(&mut lines, field_line("years", ranges.as_str()));
        }
        if self.total != pending {
            let selected = usize_string(self.total);
            let value = concat2(selected.as_str(), " abstracts");
            push_string(&mut lines, field_line("selected", value.as_str()));
        }
        let jobs = usize_string(self.jobs);
        push_string(&mut lines, field_line("jobs", jobs.as_str()));
        push_string(&mut lines, String::new());
        lines
    }

    /// How many papers to ask the database for next; `None` where the run is done.
    pub fn next_batch(&self) -> (r: Option<usize>)
        ensures
            match r {
                Some(count) => wanted(self@) == Some(count as nat),
                None => wanted(self@) is None,
            },
    {
        if self.processed < self.total {
            let remaining: usize = self.total - self.processed;
            let size: usize = enrich_batch_size(self.jobs);
            if remaining < size {
                Some(remaining)
            } else {
                Some(size)
            }
        } else {
            None
        }
    }

    /// Takes the next batch from the database: gives its papers and the line about it. An empty
    /// batch ends the run.
    pub fn take_batch(&mut self, batch: Vec<MissingPaper>) -> (r: Option<(Vec<Paper>, String)>)
        requires
            old(self)@.processed + batch@.len() <= usize::MAX,
        ensures
            match r {
                Some((papers, line)) => {
                    &&& batch@.len() > 0
                    &&& papers@ == papers_of(batch@)
                    &&& line@ == batch_text(old(self)@, papers_of(batch@))
                    &&& final(self)@ == (RunState { after_id: batch@.last().id, ..old(self)@ })
                },
                None => batch@.len() == 0 && final(self)@ == old(self)@,
            },
    {
        let length: usize = batch.len();
        if length == 0 {
            return None;
        }
        proof {
            use_type_invariant(&*self);
        }
        self.after_id = batch[length - 1].id;
        let papers = into_papers(batch);
        let first = usize_string(self.processed + 1);
        let last = usize_string(self.processed + length);
        let all = usize_string(self.total);
        let venues = batch_venue_summary(&papers);
        let mut value = concat3(first.as_str(), "-", last.as_str());
        value.append(" / ");
        value.append(all.as_str());
        value.append(" (");
        value.append(venues.as_str());
        value.append(")");
        Some((papers, field_line("batch", value.as_str())))
    }

    /// Takes in what came of a batch, paper by paper.
    pub fn finish_batch(&mut self, attempts: Vec<Attempt>) -> (r: BatchReport)
        requires
            old(self)@.processed + attempts@.len() <= usize::MAX,
        ensures
            final(self)@ == after_batch(old(self)@, attempts_view(attempts@)),
            r.updates.deep_view() == updates_of(attempts_view(attempts@)),
            r.lines.deep_view() == batch_lines(old(self)@, attempts_view(attempts@)),
            r.warnings.deep_view() == warnings_of(attempts_view(attempts@)),
    {
        proof {
            use_type_invariant(&*self);
        }
        let ghost before = self@;
        let ghost all = attempts_view(attempts@);
        let total: usize = self.total;
        let mut processed: usize = self.processed;
        let mut filled: usize = self.filled;
        let mut misses = CountTable::new();
        core::mem::swap(&mut misses, &mut self.misses);
        let mut updates: Vec<(String, String)> = Vec::new();
        let mut lines: Vec<String> = Vec::new();
        let mut warnings: Vec<String> = Vec::new();
        let length: usize = attempts.len();
        proof {
            assert(updates.deep_view() == updates_of(all.take(0)));
            assert(lines.deep_view() == progress_of(before, all.take(0)));
            assert(warnings.deep_view() == warnings_of(all.take(0)));
        }
        let mut i: usize = 0;
        while i < length
            invariant
                i <= length == attempts@.len(),
                all == attempts_view(attempts@),
                before.processed + length <= usize::MAX,
                counts_agree(before),
                total == before.total,
                processed == before.processed + i,
                filled == before.filled + updates_of(all.take(i as int)).len(),
                misses@ == report::counted_all(before.misses, reasons_of(all.take(i as int))),
                updates.deep_view() == updates_of(all.take(i as int)),
                lines.deep_view() == progress_of(before, all.take(i as int)),
                warnings.deep_view() == warnings_of(all.take(i as int)),
            decreases length - i,
        {
            proof {
                let taken = all.take(i + 1);
                assert(taken.drop_last() == all.take(i as int));
                assert(taken.last() == attempt_view(attempts@[i as int]));
                lemma_attempts(all.take(i as int));
                report::lemma_counted_all_total(before.misses, reasons_of(all.take(i as int)));
            }
            processed += 1;
            match &attempts[i].1 {
                Ok(EnrichResult::Found(text)) => {
                    push_update(&mut updates, attempts[i].0.clone(), text.clone());
                    filled += 1;
                },
                Ok(EnrichResult::Missing(reason)) => {
                    misses.add_one(reason.as_str());
                    proof {
                        assert(reasons_of(all.take(i + 1)).drop_last() == reasons_of(
                            all.take(i as int),
                        ));
                    }
                },
                Err(error) => {
                    let mut warning = concat3(
                        "abstract fetch failed for ",
                        attempts[i].0.as_str(),
                        ": ",
                    );
                    warning.append(error.as_str());
                    push_string(&mut warnings, warning);
                },
            }
            if processed % ENRICH_PROGRESS_INTERVAL == 0 {
                push_string(&mut lines, progress_line(processed, total, filled));
            }
            i += 1;
        }
        proof {
            assert(all.take(length as int) == all);
            lemma_attempts(all);
            report::lemma_counted_all_total(before.misses, reasons_of(all));
        }
        self.processed = processed;
        self.filled = filled;
        self.misses = misses;
        push_string(&mut lines, batch_done_line(updates.len(), length - updates.len()));
        BatchReport { updates, lines, warnings }
    }

    /// The lines at the end of the run.
    pub fn summary_lines(&self) -> (r: Vec<String>)
        ensures
            r.deep_view() == run_summary(self@),
    {
        proof {
            use_type_invariant(self);
        }
        let mut lines: Vec<String> = Vec::new();
        push_string(&mut lines, String::new());
        push_string(&mut lines, "summary".to_owned());
        let filled = usize_string(self.filled);
        let processed = usize_string(self.processed);
        let mut value = concat3(filled.as_str(), "/", processed.as_str());
        value.append(" abstracts");
        push_string(&mut lines, field_line("filled", value.as_str()));
        proof {
            assert(lines.deep_view() == seq![
                Seq::empty(),
                "summary"@,
                report::field_text(
                    "filled"@,
                    number::decimal(self.filled as nat) + "/"@ + number::decimal(
                        self.processed as nat,
                    ) + " abstracts"@,
                ),
            ]);
        }
        if !self.misses.is_empty() {
            let missed = usize_string(self.processed - self.filled);
            push_string(&mut lines, field_line("missed", missed.as_str()));
            push_count_lines(&mut lines, &self.misses);
        }
        lines
    }
}

fn into_papers(batch: Vec<MissingPaper>) -> (r: Vec<Paper>)
    ensures
        r@ == papers_of(batch@),
{
    let ghost given = batch@;
    let mut papers: Vec<Paper> = Vec::new();
    proof {
        assert(papers@ == papers_of(given.take(0)));
    }
    for missing in it: batch
        invariant
            it.seq() == given,
            papers@ == papers_of(given.take(it.index() as int)),
    {
        papers.push(missing.paper);
        proof {
            assert(papers@ == papers_of(given.take(it.index() + 1)));
        }
    }
    proof {
        assert(given.take(given.len() as int) == given);
    }
    papers
}

/// Every paper of a batch is filled, missed with a reason, or the search for it failed, and none
/// is two of these.
pub proof fn every_paper_is_accounted_for(
    state: RunState,
    attempts: Seq<(Seq<char>, Result<Outcome, Seq<char>>)>,
)
    ensures
        after_batch(state, attempts).processed - state.processed == (after_batch(
            state,
            attempts,
        ).filled - state.filled) + (report::total_of(after_batch(state, attempts).misses)
            - report::total_of(state.misses)) + warnings_of(attempts).len(),
{
    lemma_attempts(attempts);
    report::lemma_counted_all_total(state.misses, reasons_of(attempts));
}

/// A run that is not done asks for at least one paper and at most as many as are left, so a run
/// whose batches are no larger than it asked for stops at its total.
pub proof fn runs_stop_at_their_total(
    state: RunState,
    attempts: Seq<(Seq<char>, Result<Outcome, Seq<char>>)>,
)
    requires
        wanted(state) matches Some(count) && attempts.len() <= count,
    ensures
        wanted(state) matches Some(count) && 1 <= count <= report::MAX_ENRICH_BATCH,
        after_batch(state, attempts).processed <= state.total,
{
}

/// Where a run stands after several batches.
pub open spec fn after_batches(
    state: RunState,
    batches: Seq<Seq<(Seq<char>, Result<Outcome, Seq<char>>)>>,
) -> RunState
    decreases batches.len(),
{
    if batches.len() == 0 {
        state
    } else {
        after_batch(after_batches(state, batches.drop_last()), batches.last())
    }
}

/// Whether each batch is no larger than the run asked for when it came to it.
pub open spec fn as_wanted(
    state: RunState,
    batches: Seq<Seq<(Seq<char>, Result<Outcome, Seq<char>>)>>,
) -> bool
    decreases batches.len(),
{
    batches.len() == 0 || (as_wanted(state, batches.drop_last()) && match wanted(
        after_batches(state, batches.drop_last()),
    ) {
        Some(count) => batches.last().len() <= count,
        None => false,
    })
}

/// A limit caps how many papers are worked on: a run whose batches are no larger than it asked for
/// never goes beyond its limit, nor beyond the papers that were pending.
pub proof fn limits_cap_the_run(
    pending: nat,
    limit: Option<usize>,
    jobs: nat,
    batches: Seq<Seq<(Seq<char>, Result<Outcome, Seq<char>>)>>,
)
    requires
        as_wanted(run_begun(pending, limit, jobs), batches),
    ensures
        after_batches(run_begun(pending, limit, jobs), batches).processed <= pending,
        limit matches Some(most) ==> after_batches(
            run_begun(pending, limit, jobs),
            batches,
        ).processed <= most,
{
    lemma_processed(run_begun(pending, limit, jobs), batches);
}

proof fn lemma_processed(
    state: RunState,
    batches: Seq<Seq<(Seq<char>, Result<Outcome, Seq<char>>)>>,
)
    requires
        state.processed <= state.total,
        as_wanted(state, batches),
    ensures
        after_batches(state, batches).processed <= state.total,
        after_batches(state, batches).total == state.total,
    decreases batches.len(),
{
    if batches.len() > 0 {
        lemma_processed(state, batches.drop_last());
    }
}

/// All reasons of several batches.
pub open spec fn all_reasons(
    batches: Seq<Seq<(Seq<char>, Result<Outcome, Seq<char>>)>>,
) -> Seq<Seq<char>>
    decreases batches.len(),
{
    if batches.len() == 0 {
        Seq::empty()
    } else {
        all_reasons(batches.drop_last()) + reasons_of(batches.last())
    }
}

/// The counts at the end of a run give each reason the number of papers that were missed for it,
/// however the papers were batched.
pub proof fn reasons_are_counted_over_all_batches(
    pending: nat,
    limit: Option<usize>,
    jobs: nat,
    batches: Seq<Seq<(Seq<char>, Result<Outcome, Seq<char>>)>>,
    reason: Seq<char>,
)
    ensures
        report::count_of(
            after_batches(run_begun(pending, limit, jobs), batches).misses,
            reason,
        ) == report::occurrences(all_reasons(batches), reason),
        report::names_in_order(after_batches(run_begun(pending, limit, jobs), batches).misses),
{
    lemma_misses(pending, limit, jobs, batches);
    report::tallies_count_occurrences(all_reasons(batches), reason);
}

proof fn lemma_misses(
    pending: nat,
    limit: Option<usize>,
    jobs: nat,
    batches: Seq<Seq<(Seq<char>, Result<Outcome, Seq<char>>)>>,
)
    ensures
        after_batches(run_begun(pending, limit, jobs), batches).misses == report::tally(
            all_reasons(batches),
        ),
    decreases batches.len(),
{
    if batches.len() > 0 {
        lemma_misses(pending, limit, jobs, batches.drop_last());
        report::tallies_may_be_continued(
            all_reasons(batches.drop_last()),
            reasons_of(batches.last()),
        );
    }
}

/// One round of a run: the numbers of the papers of a batch, and what came of them.
pub struct Round {
    pub ids: Seq<i64>,
    pub attempts: Seq<(Seq<char>, Result<Outcome, Seq<char>>)>,
}

/// Where a run stands after a round.
pub open spec fn after_round(state: RunState, round: Round) -> RunState {
    after_batch(RunState { after_id: round.ids.last(), ..state }, round.attempts)
}

/// Where a run stands after several rounds.
pub open spec fn after_rounds(state: RunState, rounds: Seq<Round>) -> RunState
    decreases rounds.len(),
{
    if rounds.len() == 0 {
        state
    } else {
        after_round(after_rounds(state, rounds.drop_last()), rounds.last())
    }
}

/// The numbers of all papers of several rounds.
pub open spec fn ids_of(rounds: Seq<Round>) -> Seq<i64>
    decreases rounds.len(),
{
    if rounds.len() == 0 {
        Seq::empty()
    } else {
        ids_of(rounds.drop_last()) + rounds.last().ids
    }
}

/// Whether numbers ascend, none of them twice.
pub open spec fn ascending(ids: Seq<i64>) -> bool {
    forall|i: int, k: int| 0 <= i < k < ids.len() ==> #[trigger] ids[i] < #[trigger] ids[k]
}

/// Whether a round is what a run at `state` asked for: a batch as large as it wanted, in ascending
/// order, behind the last paper that it took.
pub open spec fn full_round(state: RunState, round: Round) -> bool {
    &&& wanted(state) == Some(round.ids.len())
    &&& round.attempts.len() == round.ids.len()
    &&& ascending(round.ids)
    &&& round.ids[0] > state.after_id
}

/// Whether each round is what the run asked for when it came to it.
pub open spec fn full_rounds(state: RunState, rounds: Seq<Round>) -> bool
    decreases rounds.len(),
{
    rounds.len() == 0 || (full_rounds(state, rounds.drop_last()) && full_round(
        after_rounds(state, rounds.drop_last()),
        rounds.last(),
    ))
}

proof fn lemma_full_rounds(state: RunState, rounds: Seq<Round>)
    requires
        state.processed <= state.total,
        full_rounds(state, rounds),
    ensures
        ({
            let end = after_rounds(state, rounds);
            let ids = ids_of(rounds);
            &&& end.total == state.total
            &&& end.jobs == state.jobs
            &&& end.processed == state.processed + ids.len()
            &&& end.processed <= end.total
            &&& ids.len() >= rounds.len()
            &&& end.after_id == if ids.len() == 0 {
                state.after_id
            } else {
                ids.last()
            }
            &&& ascending(ids)
            &&& forall|i: int| 0 <= i < ids.len() ==> #[trigger] ids[i] > state.after_id
        }),
    decreases rounds.len(),
{
    if rounds.len() > 0 {
        let front = rounds.drop_last();
        let middle = after_rounds(state, front);
        let last = rounds.last().ids;
        let before = ids_of(front);
        let ids = ids_of(rounds);
        lemma_full_rounds(state, front);
        assert(last.len() >= 1);
        assert(ids.last() == last.last());
        assert forall|i: int, k: int| 0 <= i < k < ids.len() implies #[trigger] ids[i]
            < #[trigger] ids[k] by {
            if k >= before.len() {
                assert(ids[k] == last[k - before.len()]);
                assert(last[0] <= ids[k]);
                if i < before.len() {
                    assert(ids[i] == before[i] && before[i] <= before.last());
                } else {
                    assert(ids[i] == last[i - before.len()]);
                }
            } else {
                assert(ids[i] == before[i] && ids[k] == before[k]);
            }
        }
        assert forall|i: int| 0 <= i < ids.len() implies #[trigger] ids[i] > state.after_id by {
            if i < before.len() {
                assert(ids[i] == before[i]);
            } else {
                assert(ids[i] == last[i - before.len()] && last[0] <= ids[i]);
            }
        }
    }
}

/// A run whose batches come as it asked for them works on no paper twice, so a miss is not tried
/// again, and ends after at most as many batches as it has papers: it has then worked on exactly
/// as many papers as were pending, or as its limit allows where that is fewer.
pub proof fn full_runs_reach_their_total(
    pending: nat,
    limit: Option<usize>,
    jobs: nat,
    rounds: Seq<Round>,
)
    requires
        full_rounds(run_begun(pending, limit, jobs), rounds),
    ensures
        ids_of(rounds).no_duplicates(),
        ids_of(rounds).len() == after_rounds(run_begun(pending, limit, jobs), rounds).processed,
        rounds.len() <= run_begun(pending, limit, jobs).total,
        wanted(after_rounds(run_begun(pending, limit, jobs), rounds)) is None ==> ids_of(
            rounds,
        ).len() == match limit {
            Some(most) => if most < pending {
                most as nat
            } else {
                pending
            },
            None => pending,
        },
        limit == Some(0usize) ==> rounds.len() == 0,
{
    lemma_full_rounds(run_begun(pending, limit, jobs), rounds);
}

/// The numbers in a list that lie behind another.
pub open spec fn behind(rows: Seq<i64>, after_id: i64) -> Seq<i64>
    decreases rows.len(),
{
    if rows.len() == 0 {
        Seq::empty()
    } else if rows.last() > after_id {
        behind(rows.drop_last(), after_id).push(rows.last())
    } else {
        behind(rows.drop_last(), after_id)
    }
}

/// Whether each round takes from `rows` the first papers behind the last one that the run took, as
/// many as it wanted, as far as there are any.
pub open spec fn served_from(rows: Seq<i64>, state: RunState, rounds: Seq<Round>) -> bool
    decreases rounds.len(),
{
    rounds.len() == 0 || (served_from(rows, state, rounds.drop_last()) && ({
        let now = after_rounds(state, rounds.drop_last());
        let left = behind(rows, now.after_id);
        &&& rounds.last().attempts.len() == rounds.last().ids.len()
        &&& match wanted(now) {
            Some(count) => rounds.last().ids == if count < left.len() {
                left.take(count as int)
            } else {
                left
            },
            None => false,
        }
    }))
}

proof fn lemma_behind(rows: Seq<i64>, at: int, after_id: i64)
    requires
        0 <= at <= rows.len(),
        forall|i: int| 0 <= i < at ==> #[trigger] rows[i] <= after_id,
        forall|i: int| at <= i < rows.len() ==> #[trigger] rows[i] > after_id,
    ensures
        behind(rows, after_id) == rows.skip(at),
    decreases rows.len(),
{
    if rows.len() > 0 {
        let front = rows.drop_last();
        assert forall|i: int| 0 <= i < front.len() implies front[i] == #[trigger] rows[i] by {}
        if at == rows.len() {
            lemma_behind(front, at - 1, after_id);
            assert(rows.last() == rows[at - 1]);
            assert(front.skip(at - 1) == rows.skip(at));
        } else {
            lemma_behind(front, at, after_id);
            assert(rows.last() == rows[rows.len() - 1]);
            assert(front.skip(at).push(rows.last()) == rows.skip(at));
        }
    } else {
        assert(rows.skip(at) == Seq::<i64>::empty());
    }
}

proof fn lemma_next_rows(rows: Seq<i64>, at: int, after_id: i64, count: int)
    requires
        ascending(rows),
        0 <= at,
        1 <= count <= rows.len() - at,
        at == 0 ==> rows[0] > after_id,
        at > 0 ==> rows[at - 1] == after_id,
    ensures
        behind(rows, after_id) == rows.skip(at),
        ascending(rows.skip(at).take(count)),
        rows.skip(at).take(count)[0] > after_id,
        rows.take(at) + rows.skip(at).take(count) == rows.take(at + count),
{
    assert forall|i: int| 0 <= i < at implies #[trigger] rows[i] <= after_id by {
        assert(rows[i] <= rows[at - 1]);
    }
    assert forall|i: int| at <= i < rows.len() implies #[trigger] rows[i] > after_id by {
        if at > 0 {
            assert(rows[at - 1] < rows[i]);
        } else if i > 0 {
            assert(rows[0] < rows[i]);
        }
    }
    lemma_behind(rows, at, after_id);
    let next = rows.skip(at).take(count);
    assert forall|i: int, k: int| 0 <= i < k < next.len() implies #[trigger] next[i]
        < #[trigger] next[k] by {
        assert(next[i] == rows[at + i] && next[k] == rows[at + k]);
    }
    assert(next[0] == rows[at]);
}

proof fn lemma_served(rows: Seq<i64>, limit: Option<usize>, jobs: nat, rounds: Seq<Round>)
    requires
        ascending(rows),
        forall|i: int| 0 <= i < rows.len() ==> #[trigger] rows[i] > 0,
        served_from(rows, run_begun(rows.len(), limit, jobs), rounds),
    ensures
        full_rounds(run_begun(rows.len(), limit, jobs), rounds),
        ids_of(rounds) == rows.take(ids_of(rounds).len() as int),
        ids_of(rounds).len() <= rows.len(),
    decreases rounds.len(),
{
    let start = run_begun(rows.len(), limit, jobs);
    if rounds.len() == 0 {
        assert(rows.take(0) == Seq::<i64>::empty());
    } else {
        let front = rounds.drop_last();
        let now = after_rounds(start, front);
        let before = ids_of(front);
        let at = before.len() as int;
        lemma_served(rows, limit, jobs, front);
        lemma_full_rounds(start, front);
        let count = wanted(now).unwrap() as int;
        assert(1 <= count <= rows.len() - at);
        if at > 0 {
            assert(before.last() == rows[at - 1]);
        }
        lemma_next_rows(rows, at, now.after_id, count);
        assert(rounds.last().ids == rows.skip(at).take(count));
        assert(full_round(now, rounds.last()));
    }
}

/// Over a database whose pending papers nobody else changes, a run that is done has worked on the
/// first of them, in order and each exactly once: on all, or on as many as its limit allows.
pub proof fn every_pending_paper_is_attempted_once(
    rows: Seq<i64>,
    limit: Option<usize>,
    jobs: nat,
    rounds: Seq<Round>,
)
    requires
        ascending(rows),
        forall|i: int| 0 <= i < rows.len() ==> #[trigger] rows[i] > 0,
        served_from(rows, run_begun(rows.len(), limit, jobs), rounds),
        wanted(after_rounds(run_begun(rows.len(), limit, jobs), rounds)) is None,
    ensures
        ids_of(rounds) == match limit {
            Some(most) => if most < rows.len() {
                rows.take(most as int)
            } else {
                rows
            },
            None => rows,
        },
        ids_of(rounds).no_duplicates(),
{
    lemma_served(rows, limit, jobs, rounds);
    full_runs_reach_their_total(rows.len(), limit, jobs, rounds);
    assert(rows.take(rows.len() as int) == rows);
}

/// What is stored of several papers is what is stored of the first ones and then of the others; a
/// paper whose abstract was found is stored with its own key and its own abstract, and any other
/// not at all.
pub proof fn abstracts_are_stored_under_their_papers(
    a: Seq<(Seq<char>, Result<Outcome, Seq<char>>)>,
    b: Seq<(Seq<char>, Result<Outcome, Seq<char>>)>,
    key: Seq<char>,
    text: Seq<char>,
)
    ensures
        updates_of(a + b) == updates_of(a) + updates_of(b),
        updates_of(seq![(key, Ok(Outcome::Found(text)))]) == seq![(key, text)],
        updates_of(seq![(key, Ok(Outcome::Missing(text)))]).len() == 0,
        updates_of(seq![(key, Err(text))]).len() == 0,
        updates_of(Seq::empty()).len() == 0,
    decreases b.len(),
{
    let none = Seq::<(Seq<char>, Result<Outcome, Seq<char>>)>::empty();
    let found = seq![(key, Ok::<Outcome, Seq<char>>(Outcome::Found(text)))];
    let missed = seq![(key, Ok::<Outcome, Seq<char>>(Outcome::Missing(text)))];
    let failed = seq![(key, Err::<Outcome, Seq<char>>(text))];
    assert(found.drop_last() == none && missed.drop_last() == none && failed.drop_last() == none);
    assert(updates_of(none) == Seq::<(Seq<char>, Seq<char>)>::empty());
    assert(updates_of(found) == seq![(key, text)]);
    if b.len() == 0 {
        assert(a + b == a);
        assert(updates_of(a) + updates_of(b) == updates_of(a));
    } else {
        abstracts_are_stored_under_their_papers(a, b.drop_last(), key, text);
        assert((a + b).drop_last() == a + b.drop_last());
        assert((a + b).last() == b.last());
        assert(updates_of(a + b) == updates_of(a) + updates_of(b));
    }
}

/// Every abstract that was found is stored with the key of its own paper, behind those that were
/// found before it.
pub proof fn every_found_abstract_is_stored(
    attempts: Seq<(Seq<char>, Result<Outcome, Seq<char>>)>,
    i: int,
    key: Seq<char>,
    text: Seq<char>,
)
    requires
        0 <= i < attempts.len(),
        attempts[i] == (key, Ok::<Outcome, Seq<char>>(Outcome::Found(text))),
    ensures
        updates_of(attempts.take(i)).len() < updates_of(attempts).len(),
        updates_of(attempts)[updates_of(attempts.take(i)).len() as int] == (key, text),
{
    let before = attempts.take(i);
    let one = seq![(key, Ok::<Outcome, Seq<char>>(Outcome::Found(text)))];
    let behind = attempts.skip(i + 1);
    abstracts_are_stored_under_their_papers(before, one, key, text);
    abstracts_are_stored_under_their_papers(before + one, behind, key, text);
    assert(before + one + behind == attempts);
}

/// Whether an update is the key and the abstract of one paper.
pub open spec fn stored_from(
    attempts: Seq<(Seq<char>, Result<Outcome, Seq<char>>)>,
    i: int,
    update: (Seq<char>, Seq<char>),
) -> bool {
    &&& 0 <= i < attempts.len()
    &&& attempts[i].0 == update.0
    &&& attempts[i].1 == Ok::<Outcome, Seq<char>>(Outcome::Found(update.1))
}

/// Every key and abstract that are stored together come from one and the same paper.
pub proof fn every_update_comes_from_one_paper(
    attempts: Seq<(Seq<char>, Result<Outcome, Seq<char>>)>,
    k: int,
)
    requires
        0 <= k < updates_of(attempts).len(),
    ensures
        exists|i: int| #[trigger] stored_from(attempts, i, updates_of(attempts)[k]),
    decreases attempts.len(),
{
    let front = attempts.drop_last();
    let update = updates_of(attempts)[k];
    if k < updates_of(front).len() {
        every_update_comes_from_one_paper(front, k);
        assert(updates_of(front)[k] == update);
        let i = choose|i: int| #[trigger] stored_from(front, i, update);
        assert(stored_from(attempts, i, update));
    } else {
        assert(stored_from(attempts, attempts.len() - 1, update));
    }
}

/// The reasons and the warnings of several papers are those of the first ones and then of the
/// others; a paper that was missed gives its own reason, and one for which the search failed its
/// own warning.
pub proof fn every_miss_gives_its_reason(
    a: Seq<(Seq<char>, Result<Outcome, Seq<char>>)>,
    b: Seq<(Seq<char>, Result<Outcome, Seq<char>>)>,
    key: Seq<char>,
    text: Seq<char>,
)
    ensures
        reasons_of(a + b) == reasons_of(a) + reasons_of(b),
        reasons_of(seq![(key, Ok(Outcome::Missing(text)))]) == seq![text],
        reasons_of(seq![(key, Ok(Outcome::Found(text)))]).len() == 0,
        reasons_of(seq![(key, Err(text))]).len() == 0,
        warnings_of(a + b) == warnings_of(a) + warnings_of(b),
        warnings_of(seq![(key, Err(text))]) == seq![
            "abstract fetch failed for "@ + key + ": "@ + text,
        ],
        warnings_of(seq![(key, Ok(Outcome::Found(text)))]).len() == 0,
        warnings_of(seq![(key, Ok(Outcome::Missing(text)))]).len() == 0,
    decreases b.len(),
{
    let none = Seq::<(Seq<char>, Result<Outcome, Seq<char>>)>::empty();
    let found = seq![(key, Ok::<Outcome, Seq<char>>(Outcome::Found(text)))];
    let missed = seq![(key, Ok::<Outcome, Seq<char>>(Outcome::Missing(text)))];
    let failed = seq![(key, Err::<Outcome, Seq<char>>(text))];
    assert(found.drop_last() == none && missed.drop_last() == none && failed.drop_last() == none);
    assert(reasons_of(none) == Seq::<Seq<char>>::empty());
    assert(warnings_of(none) == Seq::<Seq<char>>::empty());
    assert(reasons_of(missed) == seq![text]);
    assert(warnings_of(failed) == seq!["abstract fetch failed for "@ + key + ": "@ + text]);
    if b.len() == 0 {
        assert(a + b == a);
        assert(reasons_of(a) + reasons_of(b) == reasons_of(a));
        assert(warnings_of(a) + warnings_of(b) == warnings_of(a));
    } else {
        every_miss_gives_its_reason(a, b.drop_last(), key, text);
        assert((a + b).drop_last() == a + b.drop_last());
        assert((a + b).last() == b.last());
        assert(reasons_of(a + b) == reasons_of(a) + reasons_of(b));
        assert(warnings_of(a + b) == warnings_of(a) + warnings_of(b));
    }
}

/// It does not matter how papers are batched: a run stands where it would stand after one batch of
/// them all, and has printed the same lines about its progress.
pub proof fn batches_may_be_parted(
    state: RunState,
    a: Seq<(Seq<char>, Result<Outcome, Seq<char>>)>,
    b: Seq<(Seq<char>, Result<Outcome, Seq<char>>)>,
)
    ensures
        after_batch(state, a + b) == after_batch(after_batch(state, a), b),
        progress_of(state, a + b) == progress_of(state, a) + progress_of(after_batch(state, a), b),
    decreases b.len(),
{
    abstracts_are_stored_under_their_papers(a, b, Seq::empty(), Seq::empty());
    every_miss_gives_its_reason(a, b, Seq::empty(), Seq::empty());
    report::counting_may_be_parted(state.misses, reasons_of(a), reasons_of(b));
    if b.len() == 0 {
        assert(a + b == a);
        assert(progress_of(state, a) + progress_of(after_batch(state, a), b) == progress_of(
            state,
            a,
        ));
    } else {
        batches_may_be_parted(state, a, b.drop_last());
        assert((a + b).drop_last() == a + b.drop_last());
        assert(progress_of(state, a + b) == progress_of(state, a) + progress_of(
            after_batch(state, a),
            b,
        ));
    }
}

/// One paper moves a run on by one: it counts as filled where its abstract was found, as a miss for
/// its reason where it was not, and otherwise as neither; a line about the progress is printed
/// behind every five hundredth paper.
pub proof fn each_paper_counts_once(
    state: RunState,
    key: Seq<char>,
    text: Seq<char>,
    attempt: Result<Outcome, Seq<char>>,
)
    ensures
        after_batch(state, seq![(key, Ok(Outcome::Found(text)))]) == (RunState {
            processed: state.processed + 1,
            filled: state.filled + 1,
            ..state
        }),
        after_batch(state, seq![(key, Ok(Outcome::Missing(text)))]) == (RunState {
            processed: state.processed + 1,
            misses: report::counted(state.misses, text),
            ..state
        }),
        after_batch(state, seq![(key, Err(text))]) == (RunState {
            processed: state.processed + 1,
            ..state
        }),
        (state.processed + 1) % 500 != 0 ==> progress_of(state, seq![(key, attempt)]).len() == 0,
        (state.processed + 1) % 500 == 0 ==> progress_of(state, seq![(key, attempt)]) == seq![
            report::field_text(
                "progress"@,
                number::decimal(state.processed + 1) + "/"@ + number::decimal(state.total)
                    + " processed, "@ + number::decimal(
                    state.filled + if attempt matches Ok(Outcome::Found(_)) {
                        1nat
                    } else {
                        0nat
                    },
                ) + " filled"@,
            ),
        ],
{
    let none = Seq::<(Seq<char>, Result<Outcome, Seq<char>>)>::empty();
    abstracts_are_stored_under_their_papers(none, none, key, text);
    every_miss_gives_its_reason(none, none, key, text);
    assert(seq![text].drop_last() == Seq::<Seq<char>>::empty());
    assert(report::counted_all(state.misses, seq![text].drop_last()) == state.misses);
    assert(report::counted_all(state.misses, Seq::<Seq<char>>::empty()) == state.misses);
    let one = seq![(key, attempt)];
    assert(one.drop_last() == none);
    assert(progress_of(state, none) == Seq::<Seq<char>>::empty());
    assert(updates_of(none) == Seq::<(Seq<char>, Seq<char>)>::empty());
    assert(one.last() == (key, attempt));
    assert(seq![(key, Err::<Outcome, Seq<char>>(text))].len() == 1);
    assert(reasons_of(seq![(key, Err::<Outcome, Seq<char>>(text))]) == Seq::<Seq<char>>::empty());
    assert(reasons_of(seq![(key, Ok::<Outcome, Seq<char>>(Outcome::Found(text)))]) == Seq::<
        Seq<char>,
    >::empty());
}

/// A batch ends with how many of its papers were filled and how many were not, behind the lines
/// about the progress.
pub proof fn batches_end_with_their_counts(
    state: RunState,
    attempts: Seq<(Seq<char>, Result<Outcome, Seq<char>>)>,
)
    ensures
        batch_lines(state, attempts).drop_last() == progress_of(state, attempts),
        batch_lines(state, attempts).last() == report::field_text(
            "batch done"@,
            number::decimal(updates_of(attempts).len()) + " filled, "@ + number::decimal(
                (attempts.len() - updates_of(attempts).len()) as nat,
            ) + " missed"@,
        ),
{
    assert(batch_lines(state, attempts).drop_last() == progress_of(state, attempts));
}

/// A batch is announced by the numbers of its first and its last paper, the total and its venues.
pub proof fn batches_are_announced(state: RunState, papers: Seq<Paper>)
    ensures
        batch_text(state, papers) == report::field_text(
            "batch"@,
            number::decimal(state.processed + 1) + "-"@ + number::decimal(
                state.processed + papers.len(),
            ) + " / "@ + number::decimal(state.total) + " ("@ + text::join(
                report::count_parts(report::tally(report::venues_of(papers))),
                ", "@,
            ) + ")"@,
        ),
{
}

/// The papers of a batch are those that the database gave, in order.
pub proof fn batches_hold_their_papers(a: Seq<MissingPaper>, b: Seq<MissingPaper>, one: MissingPaper)
    ensures
        papers_of(a + b) == papers_of(a) + papers_of(b),
        papers_of(seq![one]) == seq![one.paper],
{
    assert(papers_of(a + b) == papers_of(a) + papers_of(b));
    assert(papers_of(seq![one]) == seq![one.paper]);
}

/// A run that is not done asks for all papers that are left, or for one batch where there are more,
/// and one that is done for none.
pub proof fn runs_ask_for_what_is_left(state: RunState)
    ensures
        state.processed >= state.total ==> wanted(state) is None,
        state.processed < state.total ==> ({
            let left = state.total - state.processed;
            let batch = if 4 * state.jobs < 64 {
                64int
            } else if 4 * state.jobs > 512 {
                512int
            } else {
                4 * state.jobs as int
            };
            &&& wanted(state) is Some
            &&& left <= batch ==> wanted(state).unwrap() == left
            &&& left > batch ==> wanted(state).unwrap() == batch
        }),
{
}

/// A run begins before all papers, with nothing counted.
pub proof fn runs_begin_with_nothing(pending: nat, limit: Option<usize>, jobs: nat)
    ensures
        run_begun(pending, None, jobs).total == pending,
        limit matches Some(most) ==> most <= pending ==> run_begun(pending, limit, jobs).total == most,
        limit matches Some(most) ==> most > pending ==> run_begun(pending, limit, jobs).total
            == pending,
        jobs > 0 ==> run_begun(pending, limit, jobs).jobs == jobs,
        run_begun(pending, limit, 0).jobs == 1,
        run_begun(pending, limit, jobs).processed == 0,
        run_begun(pending, limit, jobs).filled == 0,
        run_begun(pending, limit, jobs).misses.len() == 0,
        run_begun(pending, limit, jobs).after_id == 0,
{
}

/// The lines at the beginning of a run: what it is, how much is pending, the years where any were
/// given, the selection where it is smaller, the jobs, and an empty line.
pub proof fn runs_announce_what_they_do(state: RunState, pending: nat, years: Seq<YearRange>)
    ensures
        ({
            let lines = run_header(state, pending, years);
            let selected = if years.len() > 0 {
                3int
            } else {
                2int
            };
            let jobs = if state.total != pending {
                selected + 1
            } else {
                selected
            };
            &&& lines.len() == jobs + 2
            &&& lines[0] == "abstract enrichment"@
            &&& lines[1] == report::field_text(
                "pending"@,
                number::decimal(pending) + " abstracts"@,
            )
            &&& years.len() > 0 ==> lines[2] == report::field_text(
                "years"@,
                text::join(report::year_range_texts(years), ", "@),
            )
            &&& state.total != pending ==> lines[selected] == report::field_text(
                "selected"@,
                number::decimal(state.total) + " abstracts"@,
            )
            &&& lines[jobs] == report::field_text("jobs"@, number::decimal(state.jobs))
            &&& lines[jobs + 1].len() == 0
        }),
{
}

/// The lines at the end of a run: how many papers were filled, and where any were missed for a
/// reason, how many were not, and every reason with its count.
pub proof fn runs_sum_up_every_reason(state: RunState, i: int)
    requires
        0 <= i < state.misses.len(),
    ensures
        ({
            let lines = run_summary(state);
            let short = run_summary(RunState { misses: Seq::empty(), ..state });
            let filled = report::field_text(
                "filled"@,
                number::decimal(state.filled) + "/"@ + number::decimal(state.processed)
                    + " abstracts"@,
            );
            &&& lines.len() == 4 + state.misses.len()
            &&& lines[0].len() == 0
            &&& lines[1] == "summary"@
            &&& lines[2] == filled
            &&& lines[3] == report::field_text(
                "missed"@,
                number::decimal((state.processed - state.filled) as nat),
            )
            &&& lines[4 + i] == "  "@ + report::padded_left(
                number::decimal(state.misses[i].1),
                10,
            ) + " "@ + state.misses[i].0
            &&& short.len() == 3
            &&& short[0].len() == 0
            &&& short[1] == "summary"@
            &&& short[2] == filled
        }),
{
}

/// What came of a batch is what came of each of its papers, in order.
pub proof fn attempts_are_seen_whole(attempts: Seq<Attempt>, i: int)
    requires
        0 <= i < attempts.len(),
    ensures
        attempts_view(attempts).len() == attempts.len(),
        attempts_view(attempts)[i].0 == attempts[i].0@,
        attempts[i].1 matches Ok(EnrichResult::Found(text)) ==> attempts_view(attempts)[i].1 == Ok::<
            Outcome,
            Seq<char>,
        >(Outcome::Found(text@)),
        attempts[i].1 matches Ok(EnrichResult::Missing(text)) ==> attempts_view(attempts)[i].1
            == Ok::<Outcome, Seq<char>>(Outcome::Missing(text@)),
        attempts[i].1 matches Err(text) ==> attempts_view(attempts)[i].1 == Err::<
            Outcome,
            Seq<char>,
        >(text@),
{
}

} // verus!
