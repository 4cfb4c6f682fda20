use std::sync::Arc;

use vstd::prelude::*;
use vstd::string::StringSliceAdditionalSpecFns;
use vstd::utf8::encode_utf8;

verus! {

/// What a driver reports about itself once it has been initialised.
pub struct Information {
    pub authors: Vec<String>,
    pub version: String,
    pub ready: bool,
}

/// A loaded backend implementation, known by its name.
pub trait GenericDriver {
    /// The driver's name.
    spec fn spec_name(&self) -> Seq<char>;

    fn name(&self) -> (r: &String)
        ensures
            r@ == self.spec_name(),
    ;
}

/// The ASCII lower-case form of a byte; other bytes stay as they are.
pub open spec fn ascii_lower(b: u8) -> u8 {
    if 65 <= b <= 90 {
        (b + 32) as u8
    } else {
        b
    }
}

/// Two byte strings that differ only in the case of ASCII letters.
pub open spec fn same_ignoring_ascii_case(a: Seq<u8>, b: Seq<u8>) -> bool {
    &&& a.len() == b.len()
    &&& forall|i: int| 0 <= i < a.len() ==> ascii_lower(#[trigger] a[i]) == ascii_lower(b[i])
}

/// Two names that are the same but for the case of ASCII letters.
pub open spec fn names_match(a: Seq<char>, b: Seq<char>) -> bool {
    same_ignoring_ascii_case(encode_utf8(a), encode_utf8(b))
}

/// A name matches itself, either way round, and its ASCII lower-case spelling.
pub proof fn lemma_lookup_ignores_case(a: Seq<u8>, b: Seq<u8>)
    ensures
        same_ignoring_ascii_case(a, a),
        same_ignoring_ascii_case(a, b) ==> same_ignoring_ascii_case(b, a),
        same_ignoring_ascii_case(a, a.map_values(|c: u8| ascii_lower(c))),
{
}

/// Compares two names byte by byte, ignoring the case of ASCII letters.
pub fn eq_ignore_ascii_case(a: &str, b: &str) -> (r: bool)
    ensures
        r == same_ignoring_ascii_case(a.spec_bytes(), b.spec_bytes()),
{
    let x = a.as_bytes();
    let y = b.as_bytes();
    if x.len() != y.len() {
        return false;
    }
    let mut i: usize = 0;
    while i < x.len()
        invariant
            x@ == a.spec_bytes(),
            y@ == b.spec_bytes(),
            x@.len() == y@.len(),
            i <= x@.len(),
            forall|k: int| 0 <= k < i ==> ascii_lower(#[trigger] x@[k]) == ascii_lower(y@[k]),
        decreases x@.len() - i,
    {
        let c = x[i];
        let d = y[i];
        let lc: u8 = if 65 <= c && c <= 90 { c + 32 } else { c };
        let ld: u8 = if 65 <= d && d <= 90 { d + 32 } else { d };
        if lc != ld {
            return false;
        }
        i = i + 1;
    }
    true
}

/// The first position whose driver's name matches, or -1.
pub open spec fn driver_position<D: GenericDriver>(drivers: Seq<Arc<D>>, name: Seq<char>) -> int
    decreases drivers.len(),
{
    if drivers.len() == 0 {
        -1
    } else {
        let rest = driver_position(drivers.drop_last(), name);
        if rest >= 0 {
            rest
        } else if names_match(drivers.last().spec_name(), name) {
            drivers.len() - 1
        } else {
            -1
        }
    }
}

proof fn lemma_driver_position_in_prefix<D: GenericDriver>(drivers: Seq<Arc<D>>, name: Seq<char>, m: int)
    requires
        0 <= m <= drivers.len(),
        driver_position(drivers.take(m), name) >= 0,
    ensures
        driver_position(drivers, name) == driver_position(drivers.take(m), name),
    decreases drivers.len(),
{
    if m == drivers.len() {
        assert(drivers.take(m) =~= drivers);
    } else {
        assert(drivers.drop_last().take(m) =~= drivers.take(m));
        lemma_driver_position_in_prefix(drivers.drop_last(), name, m);
    }
}

/// A registered driver is found under any spelling of its name that differs
/// only in the case of ASCII letters, its lower-case spelling among them.
pub proof fn lemma_registered_driver_found<D: GenericDriver>(
    drivers: Seq<Arc<D>>,
    i: int,
    name: Seq<char>,
)
    requires
        0 <= i < drivers.len(),
        names_match(drivers[i].spec_name(), name),
    ensures
        driver_position(drivers, name) >= 0,
        names_match(drivers[driver_position(drivers, name)].spec_name(), name),
    decreases drivers.len(),
{
    if i < drivers.len() - 1 {
        assert(drivers.drop_last()[i] == drivers[i]);
        lemma_registered_driver_found(drivers.drop_last(), i, name);
        lemma_driver_position_bounded(drivers.drop_last(), name);
        assert(drivers.drop_last()[driver_position(drivers.drop_last(), name)] == drivers[driver_position(drivers, name)]);
    } else if driver_position(drivers.drop_last(), name) >= 0 {
        lemma_driver_position_bounded(drivers.drop_last(), name);
        assert(drivers.drop_last()[driver_position(drivers.drop_last(), name)] == drivers[driver_position(drivers, name)]);
    }
}

proof fn lemma_driver_position_bounded<D: GenericDriver>(drivers: Seq<Arc<D>>, name: Seq<char>)
    ensures
        -1 <= driver_position(drivers, name) < drivers.len(),
        driver_position(drivers, name) >= 0 ==> names_match(
            drivers[driver_position(drivers, name)].spec_name(),
            name,
        ),
    decreases drivers.len(),
{
    if drivers.len() > 0 {
        lemma_driver_position_bounded(drivers.drop_last(), name);
        if driver_position(drivers.drop_last(), name) >= 0 {
            assert(drivers.drop_last()[driver_position(drivers.drop_last(), name)] == drivers[driver_position(drivers, name)]);
        }
    }
}

/// The catalogue of loaded drivers, in the order in which they were loaded.
pub struct Drivers<D: GenericDriver> {
    drivers: Vec<Arc<D>>,
}

impl<D: GenericDriver> View for Drivers<D> {
    type V = Seq<Arc<D>>;

    closed spec fn view(&self) -> Seq<Arc<D>> {
        self.drivers@
    }
}

impl<D: GenericDriver> Drivers<D> {
    /// A catalogue of the given drivers.
    pub fn new(drivers: Vec<Arc<D>>) -> (r: Self)
        ensures
            r@ == drivers@,
    {
        Drivers { drivers }
    }

    pub fn len(&self) -> (r: usize)
        ensures
            r == self@.len(),
    {
        self.drivers.len()
    }

    /// The first driver whose name is `name` up to the case of ASCII letters.
    pub fn find_by_name(&self, name: &str) -> (r: Option<Arc<D>>)
        ensures
            r is Some <==> driver_position(self@, name@) >= 0,
            r is Some ==> r->Some_0 == self@[driver_position(self@, name@)],
    {
        let mut i: usize = 0;
        while i < self.drivers.len()
            invariant
                i <= self@.len(),
                driver_position(self@.take(i as int), name@) < 0,
            decreases self@.len() - i,
        {
            proof {
                assert(self@.take(i as int + 1).drop_last() =~= self@.take(i as int));
                assert(self@.take(i as int + 1).last() == self@[i as int]);
            }
            let driver_name = self.drivers[i].name();
            if eq_ignore_ascii_case(driver_name.as_str(), name) {
                proof {
                    lemma_driver_position_in_prefix(self@, name@, i as int + 1);
                }
                return Some(self.drivers[i].clone());
            }
            i = i + 1;
        }
        proof {
            assert(self@.take(self@.len() as int) =~= self@);
        }
        None
    }
}

/// The bytes of a driver module and where they were read from.
pub struct Source {
    pub path: String,
    pub code: Vec<u8>,
}

impl Source {
    pub fn new(path: String, code: Vec<u8>) -> (r: Source)
        ensures
            r.path@ == path@,
            r.code@ == code@,
    {
        Source { path, code }
    }
}

/// A driver loaded from a module file, known by the name it was loaded under.
pub struct LoadedDriver {
    pub name: String,
    pub source: Source,
}

impl LoadedDriver {
    pub fn new(name: String, source: Source) -> (r: LoadedDriver)
        ensures
            r.name@ == name@,
            r.source.path@ == source.path@,
            r.source.code@ == source.code@,
    {
        LoadedDriver { name, source }
    }
}

impl GenericDriver for LoadedDriver {
    open spec fn spec_name(&self) -> Seq<char> {
        self.name@
    }

    fn name(&self) -> (r: &String) {
        &self.name
    }
}

} // verus!
