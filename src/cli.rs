use vstd::prelude::*;

verus! {

/// The command line of the controller's client.
pub struct Arguments {
    /// Whether debug output is enabled.
    pub debug: bool,
}

impl Arguments {
    pub fn new(debug: bool) -> (r: Arguments)
        ensures
            r.debug == debug,
    {
        Arguments { debug }
    }
}

} // verus!
