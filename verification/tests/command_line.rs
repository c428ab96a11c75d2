//! The command line, searches and runs.
use sec_grep::cli::{
    bundle_override, config_path, db_path, init_lines, load_config_with_bundles, open_db,
    parse_columns, parse_format_arg, parse_year_arg, reject_search_args_for_subcommands,
    results_line, search_output, search_request, Action, Cli, Command, EnrichArgs, Paths,
    UpdateArgs, DEFAULT_JOBS,
};
use sec_grep::paper::{EnrichResult, Paper};
use sec_grep::report::{batch_venue_summary, enrich_batch_size, format_year_ranges};
use sec_grep::run::{EnrichRun, MissingPaper};
use sec_grep::search::{
    build_search, ParsedQuery, Search, SearchOptions, Selectors, Sort, SortMode, YearRange,
};
use sec_grep::update::{
    enrich_scope, enrich_years, first_year, update_header_lines, update_scope, venue_label,
    UpdateRun, VenueScope,
};

type Found = Search<Vec<String>, Vec<String>>;

fn strings(list: &[&str]) -> Vec<String> {
    list.iter().map(|s| s.to_string()).collect()
}

/// Reads the filters of a query; the other words are searched for.
fn read_query(raw: &str) -> Result<ParsedQuery, String> {
    let mut parsed = ParsedQuery {
        fts: None,
        venue_selectors: vec![],
        rank_selectors: vec![],
        tag_selectors: vec![],
        doi_terms: vec![],
        year_ranges: vec![],
    };
    let mut words: Vec<&str> = vec![];
    for word in raw.split_whitespace() {
        match word.split_once(':') {
            Some(("venue", value)) => parsed.venue_selectors.push(value.to_string()),
            Some(("rank", value)) => parsed.rank_selectors.push(value.to_string()),
            Some(("tag", value)) => parsed.tag_selectors.push(value.to_string()),
            Some(("doi", value)) => parsed.doi_terms.push(value.to_string()),
            Some(("year", value)) => match value.parse() {
                Ok(year) => parsed.year_ranges.push(YearRange::single(year)),
                Err(_) => return Err(format!("bad year {value}")),
            },
            _ => words.push(word),
        }
    }
    if !words.is_empty() {
        parsed.fts = Some(words.join(" "));
    }
    Ok(parsed)
}

/// The venues that filters pick from a small table: all where there is no filter.
fn resolve(selectors: &Selectors) -> Result<Vec<String>, String> {
    let table = [
        ("ccs", "A*", "security"),
        ("crypto", "A*", "crypto"),
        ("tcc", "A", "crypto"),
        ("raid", "B", "security"),
    ];
    for venue in &selectors.venues {
        if !table.iter().any(|(id, _, _)| id == venue) {
            return Err(format!("unknown venue {venue}"));
        }
    }
    let passes = |list: &Vec<String>, value: &str| list.is_empty() || list.iter().any(|x| x == value);
    Ok(table
        .iter()
        .filter(|(id, rank, tag)| {
            passes(&selectors.venues, id)
                && passes(&selectors.ranks, rank)
                && passes(&selectors.tags, tag)
        })
        .map(|(id, _, _)| id.to_string())
        .collect())
}

fn search(raw: &str, options: SearchOptions) -> Result<Found, String> {
    build_search(raw, options, read_query, resolve, || strings(&["A*", "A", "B"]))
}

fn options() -> SearchOptions {
    SearchOptions {
        venues: vec![],
        ranks: vec![],
        tags: vec![],
        years: vec![],
        sort: SortMode::Relevance,
        limit: None,
        offset: None,
    }
}

#[test]
fn build_search_preserves_empty_cli_venue_filter() {
    let ranks = vec!["does-not-exist".to_string()];
    let search = search("", SearchOptions { ranks, ..options() }).unwrap();

    assert!(search.venue_filter.is_empty());
}

#[test]
fn cli_and_inline_metadata_filters_have_same_semantics() {
    let ranks = vec!["A*".to_string()];
    let tags = vec!["crypto".to_string()];

    let inline = search("rank:A* tag:crypto", options()).unwrap();

    let cli = search("", SearchOptions { ranks, tags, ..options() }).unwrap();

    assert_eq!(inline.venue_filter, cli.venue_filter);
}

#[test]
fn cli_and_inline_same_kind_metadata_filters_are_ored() {
    let ranks = vec!["A*".to_string()];

    let mixed = search("rank:A", SearchOptions { ranks, ..options() }).unwrap();

    let inline = search("rank:A rank:A*", options()).unwrap();

    assert_eq!(mixed.venue_filter, inline.venue_filter);
}

#[test]
fn cli_and_inline_same_kind_year_filters_are_ored() {
    let years = vec![YearRange::single(2029)];

    let search = search("year:2018", SearchOptions { years, ..options() }).unwrap();

    assert_eq!(
        search.year_ranges,
        vec![YearRange::single(2018), YearRange::single(2029)]
    );
}

#[test]
fn searches_carry_everything_that_was_asked() {
    let given = SearchOptions {
        venues: strings(&["ccs"]),
        sort: SortMode::Rank,
        limit: Some(3),
        offset: Some(4),
        ..options()
    };
    let found = search("fuzz doi:10.1 venue:tcc kernel", given).unwrap();
    assert_eq!(found.fts.as_deref(), Some("fuzz kernel"));
    assert_eq!(found.venue_filter, strings(&["ccs", "tcc"]));
    assert_eq!(found.doi_terms, strings(&["10.1"]));
    assert_eq!((found.limit, found.offset), (Some(3), Some(4)));
    assert!(matches!(found.sort, Sort::Rank(order) if order == strings(&["A*", "A", "B"])));
    for (mode, index) in [(SortMode::Relevance, 0), (SortMode::Year, 1), (SortMode::Venue, 2)] {
        let got = match search("", SearchOptions { sort: mode, ..options() }).unwrap().sort {
            Sort::Relevance => 0,
            Sort::Year => 1,
            Sort::Venue => 2,
            Sort::Rank(_) => 3,
        };
        assert_eq!(got, index);
    }
}

#[test]
fn searches_hand_errors_on() {
    assert_eq!(search("year:x", options()).err().as_deref(), Some("bad year x"));
    let venues = strings(&["nowhere"]);
    let error = search("", SearchOptions { venues, ..options() }).err();
    assert_eq!(error.as_deref(), Some("unknown venue nowhere"));
}

fn cli() -> Cli<u8, String> {
    Cli {
        command: None,
        query: vec![],
        venue: vec![],
        year: vec![],
        rank: vec![],
        tag: vec![],
        sort: None,
        format: None,
        limit: None,
        fields: vec![],
        tui: false,
        db: None,
        config: None,
    }
}

fn update() -> Option<Command> {
    Some(Command::Update(UpdateArgs {
        venue: vec![],
        bundle: vec![],
        since: None,
        abstracts: false,
        jobs: DEFAULT_JOBS,
    }))
}

fn enrich() -> Option<Command> {
    Some(Command::Enrich(EnrichArgs {
        venue: vec![],
        bundle: vec![],
        since: None,
        jobs: DEFAULT_JOBS,
        limit: None,
    }))
}

#[test]
fn every_search_argument_is_noticed() {
    assert!(!cli().has_search_args());
    assert!(!Cli { db: Some("d".to_string()), config: Some("c".to_string()), ..cli() }
        .has_search_args());
    let given = vec![
        Cli { query: strings(&["q"]), ..cli() },
        Cli { venue: strings(&["v"]), ..cli() },
        Cli { year: vec![YearRange::single(2020)], ..cli() },
        Cli { rank: strings(&["A"]), ..cli() },
        Cli { tag: strings(&["t"]), ..cli() },
        Cli { sort: Some(SortMode::Year), ..cli() },
        Cli { format: Some(1), ..cli() },
        Cli { limit: Some(0), ..cli() },
        Cli { fields: strings(&["title"]), ..cli() },
        Cli { tui: true, ..cli() },
    ];
    for mut one in given {
        assert!(one.has_search_args());
        assert!(reject_search_args_for_subcommands(&one).is_ok());
        one.command = Some(Command::Init);
        assert_eq!(
            reject_search_args_for_subcommands(&one).unwrap_err(),
            "search query/options cannot be used with subcommands; put command-specific options after the subcommand"
        );
    }
    assert!(reject_search_args_for_subcommands(&Cli { command: update(), ..cli() }).is_ok());
}

#[test]
fn command_lines_ask_for_one_action() {
    assert_eq!(cli().action(), Action::Search);
    assert_eq!(Cli { tui: true, ..cli() }.action(), Action::Tui);
    assert_eq!(Cli { command: Some(Command::Init), ..cli() }.action(), Action::Init);
    assert_eq!(Cli { command: update(), ..cli() }.action(), Action::Update);
    assert_eq!(Cli { command: enrich(), ..cli() }.action(), Action::Enrich);
}

#[test]
fn given_paths_take_precedence() {
    let paths = Paths { user_config_path: "config".to_string(), db_path: "db".to_string() };
    assert_eq!(config_path(&cli(), &paths), "config");
    assert_eq!(db_path(&cli(), &paths), "db");
    let given = Cli { db: Some("mine".to_string()), config: Some("own".to_string()), ..cli() };
    assert_eq!(config_path(&given, &paths), "own");
    assert_eq!(db_path(&given, &paths), "mine");
}

#[test]
fn configurations_are_loaded_with_bundles() {
    let paths = Paths { user_config_path: "config".to_string(), db_path: "db".to_string() };
    let bundles = strings(&["se", "ml"]);
    let loaded = load_config_with_bundles(
        &cli(),
        &paths,
        bundle_override(&bundles),
        |path: &String, bundles: Option<&Vec<String>>| {
            Ok::<String, String>(format!("{path} {}", bundles.map_or(0, Vec::len)))
        },
    );
    assert_eq!(loaded.ok().as_deref(), Some("config 2"));
    assert!(bundle_override(&vec![]).is_none());
    let failed = load_config_with_bundles(
        &cli(),
        &paths,
        None,
        |_: &String, _: Option<&Vec<String>>| Err::<String, String>("broken".to_string()),
    );
    let error = failed.err().unwrap();
    assert_eq!(error.context, "loading venue config");
    assert_eq!(error.source, "broken");
}

#[test]
fn databases_must_be_there() {
    let paths = Paths { user_config_path: "config".to_string(), db_path: "db".to_string() };
    let opened = open_db(
        &cli(),
        &paths,
        |path: &String| Ok::<String, String>(format!("open {path}")),
        |path: &String| path.clone(),
    );
    assert_eq!(opened.ok().as_deref(), Some("open db"));
    let failed = open_db(
        &cli(),
        &paths,
        |_: &String| Err::<String, String>("gone".to_string()),
        |path: &String| format!("<{path}>"),
    );
    let error = failed.err().unwrap();
    assert_eq!(
        error.context,
        "no database at <db>; run `sec-grep init` then `sec-grep update`"
    );
    assert_eq!(error.source, "gone");
}

#[test]
fn columns_are_read_in_order() {
    let read = |field: &String| field.parse::<u8>().map_err(|_| format!("bad {field}"));
    assert_eq!(parse_columns(&vec![], read), Ok(None));
    assert_eq!(parse_columns(&strings(&["2", "1"]), read), Ok(Some(vec![2, 1])));
    let fields = strings(&["1", "x", "y"]);
    assert_eq!(parse_columns(&fields, read), Err("bad x".to_string()));
}

#[test]
fn arguments_are_read_with_messages() {
    let format = |value: &str| value.parse::<u8>();
    let message = |error: core::num::ParseIntError| format!("<{error}>");
    assert_eq!(parse_format_arg("7", format, message), Ok(7));
    assert_eq!(
        parse_format_arg("x", format, message),
        Err("<invalid digit found in string>".to_string())
    );
    let years = |value: &str| value.parse().map(YearRange::single);
    assert_eq!(parse_year_arg("2018", years, message), Ok(YearRange::single(2018)));
    assert_eq!(
        parse_year_arg("", years, message),
        Err("<cannot parse integer from empty string>".to_string())
    );
}

#[test]
fn search_requests_come_from_the_command_line() {
    let given = Cli {
        query: strings(&["fuzz", "kernel"]),
        venue: strings(&["ccs"]),
        rank: strings(&["A"]),
        tag: strings(&["t"]),
        year: vec![YearRange::since(2020)],
        limit: Some(5),
        ..cli()
    };
    let request = search_request(given);
    assert_eq!(request.raw_query, "fuzz kernel");
    assert_eq!(request.options.venues, strings(&["ccs"]));
    assert_eq!(request.options.ranks, strings(&["A"]));
    assert_eq!(request.options.tags, strings(&["t"]));
    assert_eq!(request.options.years, vec![YearRange::since(2020)]);
    assert_eq!(request.options.sort, SortMode::Relevance);
    assert_eq!((request.options.limit, request.options.offset), (Some(5), None));
    let sorted = search_request(Cli { sort: Some(SortMode::Venue), ..cli() });
    assert_eq!(sorted.options.sort, SortMode::Venue);
    assert_eq!(sorted.raw_query, "");
}

#[test]
fn output_ends_with_a_line_end() {
    assert_eq!(search_output(""), "");
    assert_eq!(search_output("a"), "a\n");
    assert_eq!(search_output("a\n"), "a\n");
    assert_eq!(search_output("a\nb"), "a\nb\n");
    assert_eq!(results_line(12), "results    12");
}

#[test]
fn initialisation_is_reported() {
    assert_eq!(
        init_lines("/d", "/c"),
        strings(&[
            "sec-grep initialized",
            "  database   /d",
            "  config     /c",
            "",
            "  next       `sec-grep update`",
        ])
    );
}

#[test]
fn year_ranges_are_printed() {
    let open = YearRange { min: None, max: None };
    let span = YearRange { min: Some(2018), max: Some(2024) };
    let years =
        vec![YearRange::single(2020), span, YearRange::since(2020), YearRange::until(2019), open];
    assert_eq!(format_year_ranges(&years), "2020, 2018-2024, 2020-, -2019, ");
    assert_eq!(format_year_ranges(&vec![]), "");
    assert_eq!(span.bounds(), (Some(2018), Some(2024)));
}

#[test]
fn batches_grow_with_the_jobs() {
    for (jobs, size) in [(0, 64), (1, 64), (16, 64), (17, 68), (128, 512), (129, 512)] {
        assert_eq!(enrich_batch_size(jobs), size);
    }
    assert_eq!(enrich_batch_size(usize::MAX), 512);
}

fn missing(id: i64, venue: &str) -> MissingPaper {
    MissingPaper {
        id,
        paper: Paper {
            dblp_key: format!("key{id}"),
            venue: venue.to_string(),
            year: 2024,
            doi: None,
            url: None,
        },
    }
}

#[test]
fn venues_of_a_batch_are_counted_in_order() {
    let papers: Vec<Paper> =
        ["ndss", "ccs", "sp", "ccs"].iter().map(|venue| missing(1, venue).paper).collect();
    assert_eq!(batch_venue_summary(&papers), "ccs:2, ndss:1, sp:1");
    assert_eq!(batch_venue_summary(&vec![]), "");
    let reordered: Vec<Paper> =
        ["ccs", "sp", "ccs", "ndss"].iter().map(|venue| missing(1, venue).paper).collect();
    assert_eq!(batch_venue_summary(&reordered), batch_venue_summary(&papers));
}

#[test]
fn runs_work_on_each_pending_paper_once() {
    let rows: Vec<i64> = (0..150).map(|i| 3 * i + 2).collect();
    for (limit, expected) in [(None, 150), (Some(200), 150), (Some(100), 100), (Some(0), 0)] {
        let mut run = EnrichRun::begin(rows.len(), limit, 1);
        let mut attempted: Vec<i64> = vec![];
        while let Some(wanted) = run.next_batch() {
            let behind = rows.iter().filter(|id| **id > run.after_id()).take(wanted);
            let batch: Vec<MissingPaper> = behind.map(|id| missing(*id, "ccs")).collect();
            attempted.extend(batch.iter().map(|paper| paper.id));
            let (papers, _) = run.take_batch(batch).unwrap();
            let missed = |paper: Paper| {
                (paper.dblp_key, Ok(EnrichResult::Missing("no page".to_string())))
            };
            run.finish_batch(papers.into_iter().map(missed).collect());
        }
        assert_eq!(attempted, rows[..expected].to_vec());
        assert_eq!(run.processed(), expected);
    }
}

#[test]
fn runs_report_their_beginning() {
    let years = vec![YearRange::since(2020)];
    let run = EnrichRun::begin(10, Some(4), 0);
    assert_eq!(
        run.header_lines(10, &years),
        strings(&[
            "abstract enrichment",
            "  pending    10 abstracts",
            "  years      2020-",
            "  selected   4 abstracts",
            "  jobs       1",
            "",
        ])
    );
    assert_eq!(run.next_batch(), Some(4));
    let whole = EnrichRun::begin(1000, Some(2000), 20);
    assert_eq!(
        whole.header_lines(1000, &vec![]),
        strings(&["abstract enrichment", "  pending    1000 abstracts", "  jobs       20", ""])
    );
    assert_eq!(whole.next_batch(), Some(80));
    assert_eq!((whole.jobs(), whole.after_id()), (20, 0));
    assert_eq!(EnrichRun::begin(0, None, 8).next_batch(), None);
}

#[test]
fn runs_take_batches_in() {
    let mut run = EnrichRun::begin(4, None, 8);
    assert!(run.take_batch(vec![]).is_none());
    let batch = vec![missing(3, "ndss"), missing(9, "ccs"), missing(12, "ndss")];
    let (papers, line) = run.take_batch(batch).unwrap();
    assert_eq!(line, "  batch      1-3 / 4 (ccs:1, ndss:2)");
    assert_eq!(run.after_id(), 12);
    let keys: Vec<String> = papers.into_iter().map(|paper| paper.dblp_key).collect();
    assert_eq!(keys, strings(&["key3", "key9", "key12"]));
    let report = run.finish_batch(vec![
        ("key9".to_string(), Ok(EnrichResult::Found("Text.".to_string()))),
        ("key3".to_string(), Ok(EnrichResult::Missing("no page".to_string()))),
        ("key12".to_string(), Err("broken".to_string())),
    ]);
    assert_eq!(report.updates, vec![("key9".to_string(), "Text.".to_string())]);
    assert_eq!(report.lines, strings(&["  batch done 1 filled, 2 missed"]));
    assert_eq!(report.warnings, strings(&["abstract fetch failed for key12: broken"]));
    assert_eq!(run.next_batch(), Some(1));
    let missed = vec![("key13".to_string(), Ok(EnrichResult::Missing("blocked".to_string())))];
    let report = run.finish_batch(missed);
    assert_eq!(report.lines, strings(&["  batch done 0 filled, 1 missed"]));
    assert_eq!(run.next_batch(), None);
    assert_eq!(
        run.summary_lines(),
        strings(&[
            "",
            "summary",
            "  filled     1/4 abstracts",
            "  missed     3",
            "           1 blocked",
            "           1 no page",
        ])
    );
}

#[test]
fn runs_report_progress() {
    let mut run = EnrichRun::begin(2000, None, 8);
    let attempts = |count: usize| {
        (0..count)
            .map(|i| {
                let result = if i % 2 == 0 {
                    EnrichResult::Found("t".to_string())
                } else {
                    EnrichResult::Missing("r".to_string())
                };
                (format!("k{i}"), Ok(result))
            })
            .collect::<Vec<_>>()
    };
    let report = run.finish_batch(attempts(499));
    assert_eq!(report.lines, strings(&["  batch done 250 filled, 249 missed"]));
    let report = run.finish_batch(attempts(502));
    assert_eq!(
        report.lines,
        strings(&[
            "  progress   500/2000 processed, 251 filled",
            "  progress   1000/2000 processed, 501 filled",
            "  batch done 251 filled, 251 missed",
        ])
    );
    assert_eq!(run.summary_lines()[2], "  filled     501/1001 abstracts");
    assert_eq!(run.summary_lines()[4], "         500 r");
}

#[test]
fn runs_without_misses_have_a_short_summary() {
    let mut run = EnrichRun::begin(1, None, 8);
    run.finish_batch(vec![("k".to_string(), Err("broken".to_string()))]);
    assert_eq!(run.summary_lines(), strings(&["", "summary", "  filled     0/1 abstracts"]));
}

#[test]
fn scopes_follow_from_the_options() {
    let none: Vec<String> = vec![];
    let some = strings(&["ccs"]);
    assert!(matches!(update_scope(&none), VenueScope::Configured));
    assert!(matches!(update_scope(&some), VenueScope::Named(names) if names == some));
    assert!(matches!(enrich_scope(&none, &none), VenueScope::Everything));
    assert!(matches!(enrich_scope(&none, &some), VenueScope::Configured));
    assert!(matches!(enrich_scope(&some, &none), VenueScope::Named(names) if names == some));
    assert_eq!(first_year(Some(2020), 2000), 2020);
    assert_eq!(first_year(None, 2000), 2000);
    assert_eq!(enrich_years(Some(2025)), vec![YearRange::since(2025)]);
    assert_eq!(enrich_years(None), vec![]);
}

#[test]
fn updates_are_reported() {
    assert_eq!(
        update_header_lines(&strings(&["se", "ml"]), 3, 2000),
        strings(&[
            "sec-grep update",
            "  bundles    se, ml",
            "  venues     3",
            "  since      2000",
            "",
        ])
    );
    assert_eq!(venue_label("ccs"), "  ccs          ");
    let mut run = UpdateRun::begin();
    assert_eq!(run.fetched(120, 7), "fetched   120 papers,     7 upserted");
    assert_eq!(run.fetched(123456, 0), "fetched 123456 papers,     0 upserted");
    assert!(run.outcome().is_ok());
    assert_eq!(run.failed("sp", "timeout"), "failed   timeout");
    assert_eq!(run.failed("ndss", "gone"), "failed   gone");
    assert_eq!(
        run.summary_lines(9),
        strings(&[
            "",
            "summary",
            "  fetched    123576 papers",
            "  failed     2",
            "  database   9 papers",
        ])
    );
    assert_eq!(run.outcome(), Err("failed to fetch venue(s): sp, ndss".to_string()));
}
