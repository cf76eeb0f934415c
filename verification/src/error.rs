use vstd::prelude::*;

use crate::args::SvgRenderJob;

verus! {

/// Errors raised while locating inputs, reading configuration, and planning
/// render jobs. Rendering itself reports its own failures outside this crate.
#[derive(Debug)]
pub enum PlanError {
    /// The input root does not exist.
    NotFound,
    /// A configuration file was found but its content is malformed.
    ConfigParse,
    /// More than one (source, scale) pair would be written to one explicit
    /// output file; the conflicting jobs are carried for diagnosis.
    AmbiguousOutput(Vec<SvgRenderJob>),
    /// A file that should have been readable was not.
    Io,
}

} // verus!
