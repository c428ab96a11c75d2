//! Abstract enrichment and command-line logic of a literature search tool.
use vstd::prelude::*;

pub mod address;
pub mod cli;
pub mod enrich;
pub mod html;
pub mod http;
pub mod json;
pub mod literal;
pub mod location;
pub mod markup;
pub mod number;
pub mod openreview;
pub mod paper;
pub mod report;
pub mod run;
pub mod scrape;
pub mod search;
pub mod sources;
pub mod text;
pub mod update;

verus! {

} // verus!
