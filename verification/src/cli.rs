//! What the command line tells the application.

use vstd::prelude::*;

verus! {

/// A CLI for this application.
pub struct Cli {
    filepath: String,
}

impl View for Cli {
    type V = Seq<char>;

    /// The filepath to the cardbox.
    closed spec fn view(&self) -> Seq<char> {
        self.filepath@
    }
}

impl Cli {
    /// Creates a new command line interface from the filepath that was given on the
    /// command line.
    pub fn new(filepath: String) -> (cli: Self)
        ensures
            cli@ == filepath@,
    {
        Self { filepath }
    }

    /// Returns the filepath to the cardbox.
    pub fn filepath(&self) -> (filepath: &str)
        ensures
            filepath@ == self@,
    {
        self.filepath.as_str()
    }
}

} // verus!
