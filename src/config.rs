//! The settings of one search: what to look for, where, and how.
use vstd::prelude::*;

verus! {

/// What a run searches for (`research`), in which file (`filename`), and
/// whether it matches case-sensitively (`verbose`).
pub struct Config {
    pub research: String,
    pub filename: String,
    pub verbose: bool,
}

/// The message of the error for a command line that is too short.
pub const NOT_ENOUGH_ARGUMENTS: &'static str = "Not enough arguments !";

impl Config {
    /// Reads the query and the file name from the command line `args`, whose
    /// first entry is the program's name. `verbose` is the mode that the
    /// environment selected: true for the case-sensitive search.
    pub fn new(args: &[String], verbose: bool) -> (r: Result<Config, &'static str>)
        ensures
            r is Err <==> args@.len() < 3,
            r is Err ==> r->Err_0 == NOT_ENOUGH_ARGUMENTS,
            r is Ok ==> r->Ok_0.research@ == args@[1]@ && r->Ok_0.filename@ == args@[2]@
                && r->Ok_0.verbose == verbose,
    {
        if args.len() < 3 {
            return Err(NOT_ENOUGH_ARGUMENTS);
        }
        let research = args[1].clone();
        let filename = args[2].clone();
        Ok(Config { research, filename, verbose })
    }
}

} // verus!
