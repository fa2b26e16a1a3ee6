//! Run configuration: the list of language tags to process, in order.

use vstd::prelude::*;

verus! {

/// The languages to score, processed in listed order.
pub struct Config {
    pub langs: Vec<String>,
}

/// Top-level configuration document: a single `config` section.
pub struct Data {
    pub config: Config,
}

} // verus!
