//! Command-line arguments: the path of the file holding the bodies'
//! initial conditions.  Parsing the command line itself is left to
//! the surrounding application.

use vstd::prelude::*;

verus! {

/// The arguments the simulation is started with.
#[derive(Debug)]
pub struct Cli {
    pub path: String,
}

} // verus!
