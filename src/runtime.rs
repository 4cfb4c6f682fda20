use vstd::prelude::*;

verus! {

/// A plugin binary: the path it was read from and its bytes.
pub struct Source {
    path: String,
    source: Vec<u8>,
}

impl Source {
    pub closed spec fn spec_path(&self) -> Seq<char> {
        self.path@
    }

    pub closed spec fn spec_source(&self) -> Seq<u8> {
        self.source@
    }

    pub fn new(path: String, source: Vec<u8>) -> (r: Source)
        ensures
            r.spec_path() == path@,
            r.spec_source() == source@,
    {
        Source { path, source }
    }

    /// The path, as it is shown to people.
    pub fn path(&self) -> (r: &String)
        ensures
            r@ == self.spec_path(),
    {
        &self.path
    }

    pub fn get_source(&self) -> (r: &[u8])
        ensures
            r@ == self.spec_source(),
    {
        self.source.as_slice()
    }
}

} // verus!
