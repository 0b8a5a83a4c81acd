use vstd::prelude::*;

verus! {

/// The run's settings: the dataset's root directory (`dataset` when none is
/// given), whether to time the run and whether to report progress at each
/// phase.
#[derive(Debug, Clone, PartialEq, Eq)]
pub struct Args {
    pub root_dir: String,
    pub timeit: bool,
    pub trackit: bool,
}

} // verus!
