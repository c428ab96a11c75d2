//! Papers, the places where their abstracts stand, and the keys to the services that know them.
use vstd::prelude::*;

verus! {

/// A paper of the database, as far as enrichment reads it.
pub struct Paper {
    /// The key under which the database stores the paper.
    pub dblp_key: String,
    pub venue: String,
    pub year: i32,
    pub doi: Option<String>,
    pub url: Option<String>,
}

/// The publisher whose pages carry a venue's abstracts.
#[derive(Clone, Copy, Debug, PartialEq, Eq, Structural)]
pub enum AbstractSource {
    Acm,
    Ieee,
    Ndss,
    Neurips,
    Openreview,
    Pmlr,
    Springer,
    Usenix,
}

/// The keys and credentials of the services, where the user has any.
pub struct Secrets {
    pub openalex_api_key: Option<String>,
    pub semantic_scholar_key: Option<String>,
    pub openreview_username: Option<String>,
    pub openreview_password: Option<String>,
}

/// What enrichment gives for a paper: its abstract, or the reason why there is none.
pub enum EnrichResult {
    Found(String),
    Missing(String),
}

/// The mathematical form of what enrichment gives for a paper.
pub enum Outcome {
    Found(Seq<char>),
    Missing(Seq<char>),
}

impl View for EnrichResult {
    type V = Outcome;

    open spec fn view(&self) -> Outcome {
        match self {
            EnrichResult::Found(text) => Outcome::Found(text@),
            EnrichResult::Missing(reason) => Outcome::Missing(reason@),
        }
    }
}

/// A missing abstract, with the reason.
pub fn missing(reason: &str) -> (r: EnrichResult)
    ensures
        r@ == Outcome::Missing(reason@),
{
    EnrichResult::Missing(reason.to_owned())
}

/// The outcome for an abstract that was found, or for a reply without one.
pub open spec fn outcome_or(found: Option<Seq<char>>, reason: Seq<char>) -> Outcome {
    match found {
        Some(text) => Outcome::Found(text),
        None => Outcome::Missing(reason),
    }
}

/// The result for an abstract that was found, or for a reply without one.
pub fn found_or(found: Option<String>, reason: &str) -> (r: EnrichResult)
    ensures
        r@ == outcome_or(found.deep_view(), reason@),
{
    match found {
        Some(text) => EnrichResult::Found(text),
        None => missing(reason),
    }
}

/// A result is its abstract or its reason, whole; what was found is taken, and the reason only
/// where nothing was.
pub proof fn results_are_seen_whole(text: String, found: Seq<char>, reason: Seq<char>)
    ensures
        EnrichResult::Found(text)@ == Outcome::Found(text@),
        EnrichResult::Missing(text)@ == Outcome::Missing(text@),
        outcome_or(Some(found), reason) == Outcome::Found(found),
        outcome_or(None, reason) == Outcome::Missing(reason),
{
}

} // verus!
