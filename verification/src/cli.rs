//! The command line: what was asked for, and what follows from it. `F` is the type of output
//! formats, and `P` that of paths.
use vstd::prelude::*;

use crate::number;
use crate::number::usize_string;
use crate::report;
use crate::report::field_line;
use crate::search::{SearchOptions, SortMode, YearRange};
use crate::text;
use crate::text::{concat2, concat3, ends_with, join_strings, push_string};

verus! {

/// How many abstracts are fetched at once unless the user says otherwise.
pub const DEFAULT_JOBS: usize = 8;

/// The options of an update.
pub struct UpdateArgs {
    pub venue: Vec<String>,
    pub bundle: Vec<String>,
    pub since: Option<i32>,
    pub abstracts: bool,
    pub jobs: usize,
}

/// The options of an enrichment.
pub struct EnrichArgs {
    pub venue: Vec<String>,
    pub bundle: Vec<String>,
    pub since: Option<i32>,
    pub jobs: usize,
    pub limit: Option<usize>,
}

/// The commands besides the search.
pub enum Command {
    Init,
    Update(UpdateArgs),
    Enrich(EnrichArgs),
}

/// What was asked for on the command line.
pub struct Cli<F, P> {
    pub command: Option<Command>,
    pub query: Vec<String>,
    pub venue: Vec<String>,
    pub year: Vec<YearRange>,
    pub rank: Vec<String>,
    pub tag: Vec<String>,
    pub sort: Option<SortMode>,
    pub format: Option<F>,
    pub limit: Option<usize>,
    pub fields: Vec<String>,
    pub tui: bool,
    pub db: Option<P>,
    pub config: Option<P>,
}

/// Where things stand unless the user says otherwise.
pub struct Paths<P> {
    pub user_config_path: P,
    pub db_path: P,
}

/// An error, with what was being done when it came up.
pub struct ContextError<E> {
    pub context: String,
    pub source: E,
}

/// What a command line asks for.
#[derive(Clone, Copy, Debug, PartialEq, Eq, Structural)]
pub enum Action {
    Init,
    Update,
    Enrich,
    Tui,
    Search,
}

impl<F, P> Cli<F, P> {
    /// Whether anything that belongs to a search was given.
    pub open spec fn searches(&self) -> bool {
        ||| self.query@.len() > 0
        ||| self.venue@.len() > 0
        ||| self.year@.len() > 0
        ||| self.rank@.len() > 0
        ||| self.tag@.len() > 0
        ||| self.sort is Some
        ||| self.format is Some
        ||| self.limit is Some
        ||| self.fields@.len() > 0
        ||| self.tui
    }

    /// Whether anything that belongs to a search was given.
    pub fn has_search_args(&self) -> (r: bool)
        ensures
            r == self.searches(),
    {
        self.query.len() > 0 || self.venue.len() > 0 || self.year.len() > 0 || self.rank.len() > 0
            || self.tag.len() > 0 || self.sort.is_some() || self.format.is_some()
            || self.limit.is_some() || self.fields.len() > 0 || self.tui
    }

    /// What the command line asks for.
    pub open spec fn asked(&self) -> Action {
        match self.command {
            Some(Command::Init) => Action::Init,
            Some(Command::Update(_)) => Action::Update,
            Some(Command::Enrich(_)) => Action::Enrich,
            None => if self.tui {
                Action::Tui
            } else {
                Action::Search
            },
        }
    }

    /// What the command line asks for.
    pub fn action(&self) -> (r: Action)
        ensures
            r == self.asked(),
    {
        match &self.command {
            Some(Command::Init) => Action::Init,
            Some(Command::Update(_)) => Action::Update,
            Some(Command::Enrich(_)) => Action::Enrich,
            None => if self.tui {
                Action::Tui
            } else {
                Action::Search
            },
        }
    }
}

/// Refuses a command line on which a command stands together with something that belongs to a
/// search.
pub fn reject_search_args_for_subcommands<F, P>(cli: &Cli<F, P>) -> (r: Result<(), String>)
    ensures
        match r {
            Ok(_) => !(cli.command is Some && cli.searches()),
            Err(error) => {
                &&& cli.command is Some && cli.searches()
                &&& error@
                    == "search query/options cannot be used with subcommands; put command-specific options after the subcommand"@
            },
        },
{
    if cli.command.is_some() && cli.has_search_args() {
        return Err(
            "search query/options cannot be used with subcommands; put command-specific options after the subcommand".to_owned(),
        );
    }
    Ok(())
}

/// A command line that is not refused and carries something of a search asks for a search, or for
/// the terminal interface.
pub proof fn accepted_search_args_are_used<F, P>(cli: Cli<F, P>)
    requires
        !(cli.command is Some && cli.searches()),
        cli.searches(),
    ensures
        cli.asked() == Action::Search || cli.asked() == Action::Tui,
        cli.asked() == Action::Tui <==> cli.tui,
{
}

/// The path of the user's configuration: the one that was given, or the usual one.
pub open spec fn config_used<F, P>(cli: Cli<F, P>, paths: Paths<P>) -> P {
    match cli.config {
        Some(path) => path,
        None => paths.user_config_path,
    }
}

/// The path of the database: the one that was given, or the usual one.
pub open spec fn db_used<F, P>(cli: Cli<F, P>, paths: Paths<P>) -> P {
    match cli.db {
        Some(path) => path,
        None => paths.db_path,
    }
}

/// The path of the user's configuration: the one that was given, or the usual one.
pub fn config_path<'a, F, P>(cli: &'a Cli<F, P>, paths: &'a Paths<P>) -> (r: &'a P)
    ensures
        *r == config_used(*cli, *paths),
{
    match &cli.config {
        Some(path) => path,
        None => &paths.user_config_path,
    }
}

/// The path of the database: the one that was given, or the usual one.
pub fn db_path<'a, F, P>(cli: &'a Cli<F, P>, paths: &'a Paths<P>) -> (r: &'a P)
    ensures
        *r == db_used(*cli, *paths),
{
    match &cli.db {
        Some(path) => path,
        None => &paths.db_path,
    }
}

/// Loads the configuration, with the bundles in `bundle_override` in place of its own where there
/// are any. `load` reads a configuration.
pub fn load_config_with_bundles<F, P, C, E, L>(
    cli: &Cli<F, P>,
    paths: &Paths<P>,
    bundle_override: Option<&Vec<String>>,
    load: L,
) -> (r: Result<C, ContextError<E>>) where L: FnOnce(&P, Option<&Vec<String>>) -> Result<C, E>
    requires
        forall|path: &P| #[trigger] load.requires((path, bundle_override)),
    ensures
        match r {
            Ok(config) => load.ensures((&config_used(*cli, *paths), bundle_override), Ok(config)),
            Err(error) => {
                &&& error.context@ == "loading venue config"@
                &&& load.ensures(
                    (&config_used(*cli, *paths), bundle_override),
                    Err(error.source),
                )
            },
        },
{
    let path = config_path(cli, paths);
    match load(path, bundle_override) {
        Ok(config) => Ok(config),
        Err(source) => Err(ContextError { context: "loading venue config".to_owned(), source }),
    }
}

/// The bundles that take the place of those of the configuration, where any are named.
pub fn bundle_override(bundles: &Vec<String>) -> (r: Option<&Vec<String>>)
    ensures
        r == if bundles@.len() == 0 {
            None
        } else {
            Some(bundles)
        },
{
    if bundles.len() == 0 {
        None
    } else {
        Some(bundles)
    }
}

/// What is said where there is no database.
pub open spec fn no_database(path: Seq<char>) -> Seq<char> {
    "no database at "@ + path + "; run `sec-grep init` then `sec-grep update`"@
}

/// Opens the database, which must be there. `open_existing` opens a database, and `display` writes
/// a path for the user.
pub fn open_db<F, P, D, E, O, S>(cli: &Cli<F, P>, paths: &Paths<P>, open_existing: O, display: S) -> (r:
    Result<D, ContextError<E>>) where
    O: FnOnce(&P) -> Result<D, E>,
    S: FnOnce(&P) -> String,

    requires
        forall|path: &P| #[trigger] open_existing.requires((path,)),
        forall|path: &P| #[trigger] display.requires((path,)),
    ensures
        match r {
            Ok(db) => open_existing.ensures((&db_used(*cli, *paths),), Ok(db)),
            Err(error) => {
                &&& open_existing.ensures((&db_used(*cli, *paths),), Err(error.source))
                &&& exists|shown: String|
                    {
                        &&& #[trigger] display.ensures((&db_used(*cli, *paths),), shown)
                        &&& error.context@ == no_database(shown@)
                    }
            },
        },
{
    let path = db_path(cli, paths);
    match open_existing(path) {
        Ok(db) => Ok(db),
        Err(source) => {
            let shown = display(path);
            let context = concat3(
                "no database at ",
                shown.as_str(),
                "; run `sec-grep init` then `sec-grep update`",
            );
            Err(ContextError { context, source })
        },
    }
}

/// The lines after the directories and the database were made.
pub fn init_lines(database: &str, config: &str) -> (r: Vec<String>)
    ensures
        r.deep_view() == seq![
            "sec-grep initialized"@,
            report::field_text("database"@, database@),
            report::field_text("config"@, config@),
            Seq::empty(),
            report::field_text("next"@, "`sec-grep update`"@),
        ],
{
    let mut lines: Vec<String> = Vec::new();
    push_string(&mut lines, "sec-grep initialized".to_owned());
    push_string(&mut lines, field_line("database", database));
    push_string(&mut lines, field_line("config", config));
    push_string(&mut lines, String::new());
    push_string(&mut lines, field_line("next", "`sec-grep update`"));
    proof {
        assert(lines.deep_view() == seq![
            "sec-grep initialized"@,
            report::field_text("database"@, database@),
            report::field_text("config"@, config@),
            Seq::empty(),
            report::field_text("next"@, "`sec-grep update`"@),
        ]);
    }
    lines
}

/// The search that a command line asks for.
pub struct SearchRequest {
    /// The words of the query, joined by spaces.
    pub raw_query: String,
    pub options: SearchOptions,
}

/// The search that a command line asks for; it is ordered by relevance unless the user says
/// otherwise.
pub fn search_request<F, P>(cli: Cli<F, P>) -> (r: SearchRequest)
    ensures
        r.raw_query@ == text::join(cli.query.deep_view(), " "@),
        r.options == (SearchOptions {
            venues: cli.venue,
            ranks: cli.rank,
            tags: cli.tag,
            years: cli.year,
            sort: match cli.sort {
                Some(mode) => mode,
                None => SortMode::Relevance,
            },
            limit: cli.limit,
            offset: None,
        }),
{
    let raw_query = join_strings(&cli.query, " ");
    let sort = match cli.sort {
        Some(mode) => mode,
        None => SortMode::Relevance,
    };
    SearchRequest {
        raw_query,
        options: SearchOptions {
            venues: cli.venue,
            ranks: cli.rank,
            tags: cli.tag,
            years: cli.year,
            sort,
            limit: cli.limit,
            offset: None,
        },
    }
}

/// What is printed for rendered results: nothing for none, else the results and the end of their
/// last line.
pub open spec fn printed(out: Seq<char>) -> Seq<char> {
    if out.len() == 0 || out.last() == '\n' {
        out
    } else {
        out.push('\n')
    }
}

/// What is printed for rendered results.
pub fn search_output(out: &str) -> (r: String)
    ensures
        r@ == printed(out@),
{
    proof {
        reveal_strlit("\n");
        if out@.len() > 0 {
            assert(out@.subrange(out@.len() - 1, out@.len() as int) == seq![out@.last()]);
            assert("\n"@ == seq!['\n']);
            assert(seq![out@.last()] == seq!['\n'] ==> seq![out@.last()][0] == seq!['\n'][0]);
        }
    }
    if out.unicode_len() == 0 || ends_with(out, "\n") {
        out.to_owned()
    } else {
        let r = concat2(out, "\n");
        proof {
            assert(r@ == out@.push('\n'));
        }
        r
    }
}

/// The line about the number of results.
pub fn results_line(count: usize) -> (r: String)
    ensures
        r@ == "results    "@ + number::decimal(count as nat),
{
    let digits = usize_string(count);
    concat2("results    ", digits.as_str())
}

/// The columns for the output, where any are named. `parse` reads a column; the first that cannot
/// be read gives the error.
pub fn parse_columns<C, E, P>(fields: &Vec<String>, parse: P) -> (r: Result<
    Option<Vec<C>>,
    E,
>) where P: Fn(&String) -> Result<C, E>
    requires
        forall|i: int| 0 <= i < fields@.len() ==> parse.requires((&#[trigger] fields@[i],)),
    ensures
        match r {
            Ok(None) => fields@.len() == 0,
            Ok(Some(columns)) => {
                &&& fields@.len() > 0
                &&& columns@.len() == fields@.len()
                &&& forall|i: int|
                    0 <= i < fields@.len() ==> parse.ensures(
                        (&fields@[i],),
                        Ok(#[trigger] columns@[i]),
                    )
            },
            Err(error) => exists|at: int| #[trigger] fails_first(*fields, parse, at, error),
        },
{
    if fields.len() == 0 {
        return Ok(None);
    }
    let mut columns: Vec<C> = Vec::new();
    let mut i: usize = 0;
    while i < fields.len()
        invariant
            i <= fields@.len(),
            columns@.len() == i,
            fields@.len() > 0,
            forall|k: int| 0 <= k < fields@.len() ==> parse.requires((&#[trigger] fields@[k],)),
            forall|k: int|
                0 <= k < i ==> parse.ensures((&fields@[k],), Ok(#[trigger] columns@[k])),
        decreases fields@.len() - i,
    {
        match parse(&fields[i]) {
            Ok(column) => {
                columns.push(column);
            },
            Err(error) => {
                proof {
                    assert forall|k: int| 0 <= k < i implies reads(
                        parse,
                        #[trigger] fields@[k],
                    ) by {
                        assert(parse.ensures((&fields@[k],), Ok(columns@[k])));
                    }
                }
                let r: Result<Option<Vec<C>>, E> = Err(error);
                proof {
                    assert(fails_first(*fields, parse, i as int, r->Err_0));
                }
                return r;
            },
        }
        i += 1;
    }
    Ok(Some(columns))
}

/// Whether `parse` may read a column from a field.
pub open spec fn reads<C, E, P>(parse: P, field: String) -> bool where
    P: Fn(&String) -> Result<C, E>,
 {
    exists|column: C| #[trigger] parse.ensures((&field,), Ok(column))
}

/// Whether `parse` may read all fields before one, and fail at that one.
pub open spec fn fails_first<C, E, P>(fields: Vec<String>, parse: P, at: int, error: E) -> bool where
    P: Fn(&String) -> Result<C, E>,
 {
    &&& 0 <= at < fields@.len()
    &&& forall|k: int| 0 <= k < at ==> reads(parse, #[trigger] fields@[k])
    &&& parse.ensures((&fields@[at],), Err(error))
}

/// Whether `parse` may fail on an argument with an error for which `message` may write a text.
pub open spec fn fails_with<T, E, P, M>(
    value: &str,
    parse: P,
    message: M,
    error: E,
    text: String,
) -> bool where P: FnOnce(&str) -> Result<T, E>, M: FnOnce(E) -> String {
    &&& parse.ensures((value,), Err(error))
    &&& message.ensures((error,), text)
}

fn parse_arg<T, E, P, M>(value: &str, parse: P, message: M) -> (r: Result<T, String>) where
    P: FnOnce(&str) -> Result<T, E>,
    M: FnOnce(E) -> String,

    requires
        parse.requires((value,)),
        forall|error: E| #[trigger] message.requires((error,)),
    ensures
        match r {
            Ok(read) => parse.ensures((value,), Ok(read)),
            Err(text) => exists|error: E|
                #[trigger] fails_with(value, parse, message, error, text),
        },
{
    match parse(value) {
        Ok(read) => Ok(read),
        Err(error) => {
            let text = message(error);
            let r: Result<T, String> = Err(text);
            proof {
                assert(fails_with(value, parse, message, error, r->Err_0));
            }
            r
        },
    }
}

/// The output format that an argument names. `parse` reads it, and `message` writes its errors.
pub fn parse_format_arg<F, E, P, M>(value: &str, parse: P, message: M) -> (r: Result<
    F,
    String,
>) where P: FnOnce(&str) -> Result<F, E>, M: FnOnce(E) -> String
    requires
        parse.requires((value,)),
        forall|error: E| #[trigger] message.requires((error,)),
    ensures
        match r {
            Ok(format) => parse.ensures((value,), Ok(format)),
            Err(text) => exists|error: E|
                #[trigger] fails_with(value, parse, message, error, text),
        },
{
    parse_arg(value, parse, message)
}

/// The years that an argument names. `parse_year_range` reads them, and `message` writes its
/// errors.
pub fn parse_year_arg<E, P, M>(value: &str, parse_year_range: P, message: M) -> (r: Result<
    YearRange,
    String,
>) where P: FnOnce(&str) -> Result<YearRange, E>, M: FnOnce(E) -> String
    requires
        parse_year_range.requires((value,)),
        forall|error: E| #[trigger] message.requires((error,)),
    ensures
        match r {
            Ok(range) => parse_year_range.ensures((value,), Ok(range)),
            Err(text) => exists|error: E|
                #[trigger] fails_with(value, parse_year_range, message, error, text),
        },
{
    parse_arg(value, parse_year_range, message)
}

/// What is printed begins with all of the rendered results, ends with the end of a line where there
/// are any, and holds at most that one character more.
pub proof fn results_are_printed_whole(out: Seq<char>, character: char)
    ensures
        printed(Seq::empty()).len() == 0,
        printed(out.push('\n')) == out.push('\n'),
        character != '\n' ==> printed(out.push(character)) == out.push(character).push('\n'),
{
}

/// Whatever belongs to a search and was given is noticed, and nothing else is.
pub proof fn search_args_are_noticed<F, P>(cli: Cli<F, P>)
    ensures
        !cli.searches() <==> cli.query@.len() == 0 && cli.venue@.len() == 0 && cli.year@.len() == 0
            && cli.rank@.len() == 0 && cli.tag@.len() == 0 && cli.sort is None && cli.format is None
            && cli.limit is None && cli.fields@.len() == 0 && !cli.tui,
{
}

/// A command is run as it was given; without one the terminal interface is, where it was asked for,
/// and a search otherwise.
pub proof fn commands_are_run_as_given<F, P>(cli: Cli<F, P>)
    ensures
        cli.asked() == Action::Init <==> cli.command matches Some(Command::Init),
        cli.asked() == Action::Update <==> cli.command matches Some(Command::Update(_)),
        cli.asked() == Action::Enrich <==> cli.command matches Some(Command::Enrich(_)),
        cli.asked() == Action::Tui <==> cli.command is None && cli.tui,
        cli.asked() == Action::Search <==> cli.command is None && !cli.tui,
{
}

/// A path that was given is used, and the usual one otherwise, each for itself.
pub proof fn given_paths_are_used<F, P>(cli: Cli<F, P>, paths: Paths<P>)
    ensures
        cli.config matches Some(path) ==> config_used(cli, paths) == path,
        cli.config is None ==> config_used(cli, paths) == paths.user_config_path,
        cli.db matches Some(path) ==> db_used(cli, paths) == path,
        cli.db is None ==> db_used(cli, paths) == paths.db_path,
{
}

/// Where there is no database, the whole path is named.
pub proof fn missing_databases_are_named(path: Seq<char>)
    ensures
        no_database(path) == "no database at "@ + path
            + "; run `sec-grep init` then `sec-grep update`"@,
{
}

} // verus!
