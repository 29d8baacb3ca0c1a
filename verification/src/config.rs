//! Strategy configuration records; parsing the configuration file is the
//! host's concern.

use vstd::prelude::*;

use crate::symbol::{Symbol, Currency};

verus! {

#[derive(Debug)]
pub struct AbcdfConfig {
    pub symbol: Symbol,
    pub ref_symbols: Vec<Currency>,
    pub model_path: String,
}

} // verus!
