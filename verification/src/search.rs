//! Searches: what a query and the command line together ask of the database.
use vstd::prelude::*;

verus! {

/// A range of years; a bound that is missing leaves the range open at that end.
#[derive(Clone, Copy, Debug, PartialEq, Eq)]
pub struct YearRange {
    pub min: Option<i32>,
    pub max: Option<i32>,
}

impl YearRange {
    /// The range that holds one year.
    pub fn single(year: i32) -> (r: YearRange)
        ensures
            r == (YearRange { min: Some(year), max: Some(year) }),
    {
        YearRange { min: Some(year), max: Some(year) }
    }

    /// The range of a year and those after it.
    pub fn since(year: i32) -> (r: YearRange)
        ensures
            r == (YearRange { min: Some(year), max: None }),
    {
        YearRange { min: Some(year), max: None }
    }

    /// The range of a year and those before it.
    pub fn until(year: i32) -> (r: YearRange)
        ensures
            r == (YearRange { min: None, max: Some(year) }),
    {
        YearRange { min: None, max: Some(year) }
    }

    /// The first and the last year of the range.
    pub fn bounds(&self) -> (r: (Option<i32>, Option<i32>))
        ensures
            r == (self.min, self.max),
    {
        (self.min, self.max)
    }
}

/// How the results of a search are ordered.
#[derive(Clone, Copy, Debug, PartialEq, Eq, Structural)]
pub enum SortMode {
    Relevance,
    Year,
    Venue,
    Rank,
}

/// What the command line asks of a search.
pub struct SearchOptions {
    pub venues: Vec<String>,
    pub ranks: Vec<String>,
    pub tags: Vec<String>,
    pub years: Vec<YearRange>,
    pub sort: SortMode,
    pub limit: Option<usize>,
    pub offset: Option<usize>,
}

/// A query, read: the text to search for, and the filters that stand in it.
pub struct ParsedQuery {
    pub fts: Option<String>,
    pub venue_selectors: Vec<String>,
    pub rank_selectors: Vec<String>,
    pub tag_selectors: Vec<String>,
    pub doi_terms: Vec<String>,
    pub year_ranges: Vec<YearRange>,
}

/// The filters by which venues are picked.
pub struct Selectors {
    pub venues: Vec<String>,
    pub ranks: Vec<String>,
    pub tags: Vec<String>,
}

/// The order of the results of a search; an order by rank carries what ranks the venues.
pub enum Sort<K> {
    Relevance,
    Year,
    Venue,
    Rank(K),
}

/// A search of the database, where `F` is what picks the venues.
pub struct Search<F, K> {
    pub fts: Option<String>,
    pub venue_filter: F,
    pub doi_terms: Vec<String>,
    pub year_ranges: Vec<YearRange>,
    pub sort: Sort<K>,
    pub limit: Option<usize>,
    pub offset: Option<usize>,
}

/// The filters of one kind that a query and the command line give together: those of the query
/// first.
pub open spec fn merged<T>(in_query: Seq<T>, in_options: Seq<T>) -> Seq<T> {
    in_query + in_options
}

/// Whether `selectors` are the filters that a query and the command line give together.
pub open spec fn selects(
    selectors: Selectors,
    parsed: ParsedQuery,
    options: SearchOptions,
) -> bool {
    &&& selectors.venues.deep_view() == merged(
        parsed.venue_selectors.deep_view(),
        options.venues.deep_view(),
    )
    &&& selectors.ranks.deep_view() == merged(
        parsed.rank_selectors.deep_view(),
        options.ranks.deep_view(),
    )
    &&& selectors.tags.deep_view() == merged(
        parsed.tag_selectors.deep_view(),
        options.tags.deep_view(),
    )
}

fn extended(mut list: Vec<String>, more: Vec<String>) -> (r: Vec<String>)
    ensures
        r.deep_view() == merged(list.deep_view(), more.deep_view()),
{
    let ghost first = list.deep_view();
    let ghost second = more.deep_view();
    let mut rest = more;
    list.append(&mut rest);
    proof {
        assert(list.deep_view() == merged(first, second));
    }
    list
}

fn extended_years(mut list: Vec<YearRange>, more: Vec<YearRange>) -> (r: Vec<YearRange>)
    ensures
        r@ == merged(list@, more@),
{
    let mut rest = more;
    list.append(&mut rest);
    list
}

/// Whether `sort` is the order that `mode` asks for, where `ranked` holds of what may rank the
/// venues.
pub open spec fn sorts<K>(sort: Sort<K>, mode: SortMode, ranked: spec_fn(K) -> bool) -> bool {
    match mode {
        SortMode::Relevance => sort is Relevance,
        SortMode::Year => sort is Year,
        SortMode::Venue => sort is Venue,
        SortMode::Rank => match sort {
            Sort::Rank(order) => ranked(order),
            _ => false,
        },
    }
}

/// Whether `search` is the search that a query, read as `parsed`, and the command line ask for,
/// whatever picks the venues.
pub open spec fn searches<F, K>(
    search: Search<F, K>,
    parsed: ParsedQuery,
    options: SearchOptions,
    ranked: spec_fn(K) -> bool,
) -> bool {
    &&& search.fts == parsed.fts
    &&& search.doi_terms == parsed.doi_terms
    &&& search.year_ranges@ == merged(parsed.year_ranges@, options.years@)
    &&& sorts(search.sort, options.sort, ranked)
    &&& search.limit == options.limit
    &&& search.offset == options.offset
}

/// The search that a query and the command line ask for. `parse` reads the query,
/// `resolve_venue_filter` turns the filters into what picks the venues, and `rank_sort_order`
/// gives what ranks them. A query that cannot be read gives the error of `parse`, and filters that
/// cannot be resolved that of `resolve_venue_filter`.
pub fn build_search<F, K, E, P, R, O>(
    raw_query: &str,
    options: SearchOptions,
    parse: P,
    resolve_venue_filter: R,
    rank_sort_order: O,
) -> (r: Result<Search<F, K>, E>) where
    P: FnOnce(&str) -> Result<ParsedQuery, E>,
    R: FnOnce(&Selectors) -> Result<F, E>,
    O: FnOnce() -> K,

    requires
        parse.requires((raw_query,)),
        forall|selectors: Selectors| #[trigger] resolve_venue_filter.requires((&selectors,)),
        rank_sort_order.requires(()),
    ensures
        match r {
            Ok(search) => exists|parsed: ParsedQuery, selectors: Selectors|
                #![trigger selects(selectors, parsed, options)]
                {
                    &&& parse.ensures((raw_query,), Ok(parsed))
                    &&& selects(selectors, parsed, options)
                    &&& resolve_venue_filter.ensures((&selectors,), Ok(search.venue_filter))
                    &&& searches(
                        search,
                        parsed,
                        options,
                        |order: K| rank_sort_order.ensures((), order),
                    )
                },
            Err(error) => {
                ||| parse.ensures((raw_query,), Err(error))
                ||| exists|parsed: ParsedQuery, selectors: Selectors|
                    #![trigger selects(selectors, parsed, options)]
                    {
                        &&& parse.ensures((raw_query,), Ok(parsed))
                        &&& selects(selectors, parsed, options)
                        &&& resolve_venue_filter.ensures((&selectors,), Err(error))
                    }
            },
        },
{
    let ghost given = options;
    let parsed = match parse(raw_query) {
        Ok(parsed) => parsed,
        Err(error) => {
            return Err(error);
        },
    };
    let ghost read = parsed;
    let selectors = Selectors {
        venues: extended(parsed.venue_selectors, options.venues),
        ranks: extended(parsed.rank_selectors, options.ranks),
        tags: extended(parsed.tag_selectors, options.tags),
    };
    let year_ranges = extended_years(parsed.year_ranges, options.years);
    proof {
        assert(selects(selectors, read, given));
    }
    let venue_filter = match resolve_venue_filter(&selectors) {
        Ok(filter) => filter,
        Err(error) => {
            return Err(error);
        },
    };
    let sort = match options.sort {
        SortMode::Relevance => Sort::Relevance,
        SortMode::Year => Sort::Year,
        SortMode::Venue => Sort::Venue,
        SortMode::Rank => Sort::Rank(rank_sort_order()),
    };
    let search = Search {
        fts: parsed.fts,
        venue_filter,
        doi_terms: parsed.doi_terms,
        year_ranges,
        sort,
        limit: options.limit,
        offset: options.offset,
    };
    proof {
        assert(searches(
            search,
            read,
            given,
            |order: K| rank_sort_order.ensures((), order),
        ));
    }
    Ok(search)
}

/// The filters of a query or of the command line, by kind.
pub struct Filters {
    pub venues: Seq<Seq<char>>,
    pub ranks: Seq<Seq<char>>,
    pub tags: Seq<Seq<char>>,
    pub years: Seq<YearRange>,
}

/// The filters that stand in a query.
pub open spec fn query_filters(parsed: ParsedQuery) -> Filters {
    Filters {
        venues: parsed.venue_selectors.deep_view(),
        ranks: parsed.rank_selectors.deep_view(),
        tags: parsed.tag_selectors.deep_view(),
        years: parsed.year_ranges@,
    }
}

/// The filters that stand on the command line.
pub open spec fn option_filters(options: SearchOptions) -> Filters {
    Filters {
        venues: options.venues.deep_view(),
        ranks: options.ranks.deep_view(),
        tags: options.tags.deep_view(),
        years: options.years@,
    }
}

/// No filters.
pub open spec fn no_filters() -> Filters {
    Filters { venues: Seq::empty(), ranks: Seq::empty(), tags: Seq::empty(), years: Seq::empty() }
}

/// Two lists of filters, kind by kind.
pub open spec fn all_filters(first: Filters, second: Filters) -> Filters {
    Filters {
        venues: merged(first.venues, second.venues),
        ranks: merged(first.ranks, second.ranks),
        tags: merged(first.tags, second.tags),
        years: merged(first.years, second.years),
    }
}

/// The filters by which venues are picked, and the years of a search.
pub open spec fn filters_used(selectors: Selectors, years: Seq<YearRange>) -> Filters {
    Filters {
        venues: selectors.venues.deep_view(),
        ranks: selectors.ranks.deep_view(),
        tags: selectors.tags.deep_view(),
        years,
    }
}

/// A search uses the filters of the query and of the command line, and no others.
pub proof fn all_filters_are_used<F, K>(
    search: Search<F, K>,
    selectors: Selectors,
    parsed: ParsedQuery,
    options: SearchOptions,
    ranked: spec_fn(K) -> bool,
)
    requires
        selects(selectors, parsed, options),
        searches(search, parsed, options, ranked),
    ensures
        filters_used(selectors, search.year_ranges@) == all_filters(
            query_filters(parsed),
            option_filters(options),
        ),
{
}

/// Filters mean the same in the query and on the command line.
pub proof fn filters_may_stand_in_either_place(filters: Filters)
    ensures
        all_filters(filters, no_filters()) == all_filters(no_filters(), filters),
{
    assert(filters.venues + Seq::empty() == Seq::empty() + filters.venues);
    assert(filters.ranks + Seq::empty() == Seq::empty() + filters.ranks);
    assert(filters.tags + Seq::empty() == Seq::empty() + filters.tags);
    assert(filters.years + Seq::empty() == Seq::empty() + filters.years);
}

/// Filters that stand partly in the query and partly on the command line mean the same as all of
/// them in the query.
pub proof fn filters_are_merged_kind_by_kind(in_query: Filters, in_options: Filters)
    ensures
        all_filters(in_query, in_options) == all_filters(
            all_filters(in_query, in_options),
            no_filters(),
        ),
{
    let all = all_filters(in_query, in_options);
    assert(all.venues + Seq::empty() == all.venues);
    assert(all.ranks + Seq::empty() == all.ranks);
    assert(all.tags + Seq::empty() == all.tags);
    assert(all.years + Seq::empty() == all.years);
}

/// No filter is lost and none is added: the filters used are as many as stand in the query and on
/// the command line together, those of the query first, each list in its order; and a filter is
/// among them just where it stands in one of the two.
pub proof fn no_filter_is_lost<T>(in_query: Seq<T>, in_options: Seq<T>, filter: T)
    ensures
        merged(in_query, in_options).len() == in_query.len() + in_options.len(),
        forall|i: int|
            0 <= i < in_query.len() ==> #[trigger] merged(in_query, in_options)[i] == in_query[i],
        forall|i: int|
            0 <= i < in_options.len() ==> merged(in_query, in_options)[in_query.len() + i]
                == #[trigger] in_options[i],
        merged(in_query, in_options).contains(filter) <==> in_query.contains(filter)
            || in_options.contains(filter),
{
    let all = merged(in_query, in_options);
    if in_query.contains(filter) {
        let i = choose|i: int| 0 <= i < in_query.len() && in_query[i] == filter;
        assert(all[i] == filter);
    }
    if in_options.contains(filter) {
        let i = choose|i: int| 0 <= i < in_options.len() && in_options[i] == filter;
        assert(all[in_query.len() + i] == filter);
    }
    if all.contains(filter) {
        let i = choose|i: int| 0 <= i < all.len() && all[i] == filter;
        if i < in_query.len() {
            assert(in_query[i] == filter);
        } else {
            assert(in_options[i - in_query.len()] == filter);
        }
    }
}

/// The filters by which venues are picked are all of the query and then all of the command line,
/// kind by kind; the years of a search are those of the query and then those of the command line.
pub proof fn searches_use_every_filter<F, K>(
    search: Search<F, K>,
    selectors: Selectors,
    parsed: ParsedQuery,
    options: SearchOptions,
    ranked: spec_fn(K) -> bool,
)
    requires
        selects(selectors, parsed, options),
        searches(search, parsed, options, ranked),
    ensures
        selectors.venues.deep_view() == parsed.venue_selectors.deep_view()
            + options.venues.deep_view(),
        selectors.ranks.deep_view() == parsed.rank_selectors.deep_view()
            + options.ranks.deep_view(),
        selectors.tags.deep_view() == parsed.tag_selectors.deep_view() + options.tags.deep_view(),
        search.year_ranges@ == parsed.year_ranges@ + options.years@,
        search.fts == parsed.fts,
        search.doi_terms == parsed.doi_terms,
        search.limit == options.limit,
        search.offset == options.offset,
{
}

/// A search is ordered as the command line says, and by rank only with what ranks the venues.
pub proof fn searches_are_ordered_as_asked<K>(
    sort: Sort<K>,
    mode: SortMode,
    ranked: spec_fn(K) -> bool,
)
    requires
        sorts(sort, mode, ranked),
    ensures
        sort is Relevance <==> mode == SortMode::Relevance,
        sort is Year <==> mode == SortMode::Year,
        sort is Venue <==> mode == SortMode::Venue,
        sort is Rank <==> mode == SortMode::Rank,
        sort matches Sort::Rank(order) ==> ranked(order),
{
}

} // verus!
