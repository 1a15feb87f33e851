//! Build-time and query-time tuning parameters.

use vstd::prelude::*;

verus! {

/// Default width of the candidate sets kept during queries and during
/// construction.
pub const DEFAULT_EF: usize = 100;

/// Bit pattern of the default layer-generation factor: the 32-bit float
/// nearest to 1 / ln 2.
pub const DEFAULT_ML_BITS: u32 = 0x3FB8AA3B;

/// The neighbor-selection policy applied while the index graph is built.
#[derive(Clone, Copy, Debug, PartialEq, Eq, Structural)]
pub struct Heuristic {
    /// Whether to extend the candidate set before selecting neighbors;
    /// useful only for extremely clustered data.
    pub extend_candidates: bool,
    /// Whether to keep pruned neighbors so the neighbor set stays at a
    /// constant size.
    pub keep_pruned: bool,
}

impl Heuristic {
    /// The default policy: no candidate extension, pruned neighbors kept.
    pub fn new() -> (r: Heuristic)
        ensures
            r.extend_candidates == false,
            r.keep_pruned == true,
    {
        Heuristic { extend_candidates: false, keep_pruned: true }
    }
}

impl Default for Heuristic {
    fn default() -> (r: Heuristic)
        ensures
            r.extend_candidates == false,
            r.keep_pruned == true,
    {
        Heuristic::new()
    }
}

/// The tuning knobs read once when an index is built. A plain value with no
/// identity beyond its fields.
#[derive(Clone, Copy, Debug)]
pub struct Config {
    /// Number of nearest neighbors retained while searching. Must be at
    /// least 1 to build an index.
    pub ef_search: usize,
    /// Number of nearest neighbors retained while constructing the index.
    /// Must be at least 1 to build an index.
    pub ef_construction: usize,
    /// Layer-generation factor, as the bit pattern of a 32-bit float (this
    /// library carries every float by its bits).
    pub ml: u32,
    /// Seed for the point-order randomization, so that builds are
    /// reproducible.
    pub seed: u64,
    /// Optional neighbor-selection policy; `None` keeps the nearest
    /// neighbors with no heuristic pruning.
    pub heuristic: Option<Heuristic>,
}

impl Config {
    /// The default configuration.
    pub fn new() -> (r: Config)
        ensures
            r.ef_search == DEFAULT_EF,
            r.ef_construction == DEFAULT_EF,
            r.ml == DEFAULT_ML_BITS,
            r.seed == 0u64,
            r.heuristic == Some(Heuristic { extend_candidates: false, keep_pruned: true }),
    {
        Config {
            ef_search: DEFAULT_EF,
            ef_construction: DEFAULT_EF,
            ml: DEFAULT_ML_BITS,
            seed: 0,
            heuristic: Some(Heuristic::new()),
        }
    }
}

} // verus!
