//! The options of the command-line program.

use vstd::prelude::*;

verus! {

/// The options of the command-line program: the puzzle file, where the LP
/// text goes, and whether to hand the program to a solver.
#[derive(Clone, Debug)]
pub struct AppArgs {
    pub in_file: String,
    pub out_file: Option<String>,
    pub solve: bool,
}

impl AppArgs {
    /// The path whose extension is replaced by `lp` to name the output file:
    /// `out_file` when given, `in_file` otherwise.
    pub fn output_base(&self) -> (r: String)
        ensures
            r@ == match self.out_file {
                Some(o) => o@,
                None => self.in_file@,
            },
    {
        match &self.out_file {
            Some(o) => o.clone(),
            None => self.in_file.clone(),
        }
    }
}

} // verus!
