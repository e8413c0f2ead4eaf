use vstd::prelude::*;

verus! {

/// How a run reports.
pub struct CompileOptions {
    pub verbose: bool,
}

/// Where a run reads its sources and writes its output.
pub struct CompileContext {
    pub output_dir: String,
    pub static_path: String,
    pub static_prefix: String,
    pub routes_path: String,
    pub views_path: String,
    pub verbose: bool,
}

} // verus!
