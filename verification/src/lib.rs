use vstd::prelude::*;

pub mod artifact;
pub mod bindings;
pub mod cli;
pub mod downloader;
pub mod laws;
pub mod pipeline;
pub mod text;
pub mod transcribe;
pub mod twitch;

verus! {

/// The stage names that a status filter accepts.
pub open spec fn valid_filter_stage(s: Seq<char>) -> bool {
    ||| s == "queued"@
    ||| s == "downloaded"@
    ||| s == "suspect"@
    ||| s == "failed"@
    ||| s == "ready"@
}

/// Whether `s` names a stage that a status filter accepts.
pub fn is_valid_filter_stage(s: &str) -> (r: bool)
    ensures
        r == valid_filter_stage(s@),
{
    text::str_eq(s, "queued") || text::str_eq(s, "downloaded") || text::str_eq(s, "suspect")
        || text::str_eq(s, "failed") || text::str_eq(s, "ready")
}

} // verus!
