use vstd::prelude::*;

pub mod text;
pub mod tsv;
pub mod numbers;
pub mod json;
pub mod form;
pub mod url;
pub mod http;
pub mod stream;
pub mod transfer;
pub mod dns;
pub mod youtube;
pub mod search;
pub mod cli;
pub mod gui;

pub use crate::tsv::{encode_search_results_tsv, parse_search_results_tsv, YoutubeSearchResult};

verus! {

} // verus!
