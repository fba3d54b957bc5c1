//! The command line of the program.
use vstd::prelude::*;

verus! {

/// What the program was asked to do: run the file `filename`, or, when
/// there is none, read programs interactively.
#[derive(Debug)]
pub struct Args {
    pub filename: Option<String>,
}

} // verus!
