use vstd::prelude::*;

use crate::contract::Address;

verus! {

/// Why an allocation request was turned down.
#[derive(PartialEq, Eq, Structural, Clone, Copy, Debug)]
pub enum AllocationError {
    /// Fewer free addresses are left than the request asks for.
    CapacityExhausted,
}

/// The slots (offsets from the first port) that are free, lowest first.
pub open spec fn free_slots(used: Seq<bool>) -> Seq<int>
    decreases used.len(),
{
    if used.len() == 0 {
        Seq::empty()
    } else {
        let rest = free_slots(used.drop_last());
        if used.last() {
            rest
        } else {
            rest.push(used.len() - 1)
        }
    }
}

/// The table after the given slots have been taken.
pub open spec fn taken(used: Seq<bool>, slots: Seq<int>) -> Seq<bool> {
    Seq::new(used.len(), |i: int| used[i] || slots.contains(i))
}

/// The table after every slot whose port is among `ports` has been given back.
pub open spec fn given_back(used: Seq<bool>, first_port: int, ports: Seq<int>) -> Seq<bool> {
    Seq::new(used.len(), |i: int| used[i] && !ports.contains(first_port + i))
}

/// The ports that a list of addresses names on `host`, in order; an address
/// on another host names no port of it (-1, which no slot has).
pub open spec fn ports_on(host: Seq<char>, addresses: Seq<Address>) -> Seq<int> {
    addresses.map_values(|a: Address| if a.host@ == host { a.port as int } else { -1 })
}

/// How many slots of the table are taken.
pub open spec fn used_count(used: Seq<bool>) -> nat
    decreases used.len(),
{
    if used.len() == 0 {
        0
    } else {
        used_count(used.drop_last()) + if used.last() {
            1nat
        } else {
            0nat
        }
    }
}

/// Each free slot is listed once, in increasing order, and nothing else is.
pub proof fn lemma_free_slots(used: Seq<bool>)
    ensures
        forall|j: int|
            0 <= j < free_slots(used).len() ==> 0 <= #[trigger] free_slots(used)[j] < used.len()
                && !used[free_slots(used)[j]],
        forall|j: int, l: int|
            0 <= j < l < free_slots(used).len() ==> #[trigger] free_slots(used)[j]
                < #[trigger] free_slots(used)[l],
        forall|i: int| 0 <= i < used.len() && !used[i] ==> #[trigger] free_slots(used).contains(i),
    decreases used.len(),
{
    if used.len() > 0 {
        let rest = used.drop_last();
        lemma_free_slots(rest);
        assert forall|i: int| 0 <= i < used.len() && !used[i] implies #[trigger] free_slots(
            used,
        ).contains(i) by {
            if i < used.len() - 1 {
                assert(!rest[i]);
                assert(free_slots(rest).contains(i));
                let k = choose|k: int| 0 <= k < free_slots(rest).len() && free_slots(rest)[k] == i;
                assert(free_slots(used)[k] == i);
            } else {
                assert(free_slots(used).last() == i);
            }
        }
    }
}

/// Every slot is either free or taken.
pub proof fn lemma_free_and_used(used: Seq<bool>)
    ensures
        free_slots(used).len() + used_count(used) == used.len(),
    decreases used.len(),
{
    if used.len() > 0 {
        lemma_free_and_used(used.drop_last());
    }
}

/// The number of taken slots never exceeds the size of the table.
pub proof fn lemma_used_count_bounded(used: Seq<bool>)
    ensures
        used_count(used) <= used.len(),
    decreases used.len(),
{
    if used.len() > 0 {
        lemma_used_count_bounded(used.drop_last());
    }
}

/// A granted request for `count` addresses takes exactly `count` distinct
/// slots, each of which was free before and is taken after.
pub proof fn lemma_allocation_takes_distinct_free_slots(used: Seq<bool>, count: nat)
    requires
        count <= free_slots(used).len(),
    ensures
        ({
            let slots = free_slots(used).take(count as int);
            &&& slots.len() == count
            &&& forall|j: int, l: int| 0 <= j < l < count ==> slots[j] != slots[l]
            &&& forall|j: int|
                0 <= j < count ==> 0 <= #[trigger] slots[j] < used.len() && !used[slots[j]]
                    && taken(used, slots)[slots[j]]
        }),
{
    lemma_free_slots(used);
    let slots = free_slots(used).take(count as int);
    assert forall|j: int| 0 <= j < count implies 0 <= #[trigger] slots[j] < used.len()
        && !used[slots[j]] && taken(used, slots)[slots[j]] by {
        assert(slots[j] == free_slots(used)[j]);
        assert(slots.contains(slots[j]));
    }
    assert forall|j: int, l: int| 0 <= j < l < count implies slots[j] != slots[l] by {
        assert(free_slots(used)[j] < free_slots(used)[l]);
    }
}

/// Giving back the addresses of a granted request frees each of them again
/// and restores the table exactly as it was before the request.
pub proof fn lemma_free_undoes_allocation(used: Seq<bool>, first_port: int, count: nat)
    requires
        count <= free_slots(used).len(),
    ensures
        ({
            let slots = free_slots(used).take(count as int);
            let ports = slots.map_values(|s: int| first_port + s);
            &&& forall|j: int|
                0 <= j < count ==> !given_back(taken(used, slots), first_port, ports)[#[trigger] slots[j]]
            &&& given_back(taken(used, slots), first_port, ports) == used
        }),
{
    lemma_allocation_takes_distinct_free_slots(used, count);
    let slots = free_slots(used).take(count as int);
    let ports = slots.map_values(|s: int| first_port + s);
    let after = given_back(taken(used, slots), first_port, ports);
    assert forall|j: int| 0 <= j < count implies !after[#[trigger] slots[j]] by {
        assert(ports[j] == first_port + slots[j]);
        assert(ports.contains(first_port + slots[j]));
    }
    assert forall|i: int| 0 <= i < used.len() implies after[i] == used[i] by {
        if slots.contains(i) {
            let j = choose|j: int| 0 <= j < slots.len() && slots[j] == i;
            assert(ports[j] == first_port + i);
            assert(ports.contains(first_port + i));
        }
        if ports.contains(first_port + i) {
            let j = choose|j: int| 0 <= j < ports.len() && ports[j] == first_port + i;
            assert(slots[j] == i);
            assert(slots.contains(i));
        }
    }
    assert(after =~= used);
}

/// The addresses that a granted request returns name, on the manager's host,
/// exactly the ports of the slots it took; so giving them back is the give-back
/// of `lemma_free_undoes_allocation`.
pub proof fn lemma_returned_addresses_name_their_slots(
    host: Seq<char>,
    first_port: int,
    slots: Seq<int>,
    addresses: Seq<Address>,
)
    requires
        addresses.len() == slots.len(),
        forall|j: int|
            0 <= j < slots.len() ==> (#[trigger] addresses[j]).port == first_port + slots[j]
                && addresses[j].host@ == host,
    ensures
        ports_on(host, addresses) == slots.map_values(|s: int| first_port + s),
{
    assert(ports_on(host, addresses) =~= slots.map_values(|s: int| first_port + s));
}

/// Giving back the same addresses twice does no more than giving them back
/// once, and never frees a slot whose port was not named.
pub proof fn lemma_free_twice(used: Seq<bool>, first_port: int, ports: Seq<int>)
    ensures
        given_back(given_back(used, first_port, ports), first_port, ports) == given_back(
            used,
            first_port,
            ports,
        ),
        forall|i: int|
            0 <= i < used.len() && !ports.contains(first_port + i) ==> #[trigger] given_back(
                given_back(used, first_port, ports),
                first_port,
                ports,
            )[i] == used[i],
{
    assert(given_back(given_back(used, first_port, ports), first_port, ports) =~= given_back(
        used,
        first_port,
        ports,
    ));
}

/// Hands out the ports `first_port .. first_port + capacity` of one host, one
/// slot per port, lowest free port first.
pub struct AllocationManager {
    host: String,
    first_port: u16,
    used: Vec<bool>,
}

impl View for AllocationManager {
    type V = Seq<bool>;

    closed spec fn view(&self) -> Seq<bool> {
        self.used@
    }
}

impl AllocationManager {
    pub closed spec fn spec_host(&self) -> Seq<char> {
        self.host@
    }

    pub closed spec fn spec_first_port(&self) -> int {
        self.first_port as int
    }

    /// Every slot maps to a port that fits in 16 bits.
    pub closed spec fn wf(&self) -> bool {
        self.first_port as int + self.used@.len() <= 65536
    }

    /// Every port of a well-formed manager fits in 16 bits.
    pub proof fn lemma_ports_fit(&self)
        requires
            self.wf(),
        ensures
            0 <= self.spec_first_port(),
            self.spec_first_port() + self@.len() <= 65536,
    {
    }

    /// Whether `port` is one of this manager's ports and is currently handed out.
    pub open spec fn is_allocated(&self, port: int) -> bool {
        let slot = port - self.spec_first_port();
        0 <= slot < self@.len() && self@[slot]
    }

    /// A manager over `capacity` ports starting at `first_port`, all free.
    pub fn init(host: String, first_port: u16, capacity: u32) -> (r: AllocationManager)
        requires
            first_port as int + capacity as int <= 65536,
        ensures
            r.wf(),
            r.spec_host() == host@,
            r.spec_first_port() == first_port as int,
            r@ == Seq::new(capacity as nat, |i: int| false),
    {
        let mut used: Vec<bool> = Vec::new();
        let mut i: u32 = 0;
        while i < capacity
            invariant
                i <= capacity,
                used@ == Seq::new(i as nat, |k: int| false),
            decreases capacity - i,
        {
            used.push(false);
            i = i + 1;
        }
        AllocationManager { host, first_port, used }
    }

    /// How many ports this manager administers.
    pub fn capacity(&self) -> (r: usize)
        ensures
            r == self@.len(),
    {
        self.used.len()
    }

    /// Takes the `count` lowest free ports, or nothing when fewer are free.
    pub fn allocate(&mut self, count: u32) -> (r: Result<Vec<Address>, AllocationError>)
        requires
            old(self).wf(),
        ensures
            final(self).wf(),
            final(self).spec_host() == old(self).spec_host(),
            final(self).spec_first_port() == old(self).spec_first_port(),
            r is Ok <==> count <= free_slots(old(self)@).len(),
            r is Ok ==> {
                let slots = free_slots(old(self)@).take(count as int);
                &&& r->Ok_0@.len() == count
                &&& forall|j: int|
                    0 <= j < count ==> (#[trigger] r->Ok_0@[j]).port == old(
                        self,
                    ).spec_first_port() + slots[j] && r->Ok_0@[j].host@ == old(self).spec_host()
                &&& final(self)@ == taken(old(self)@, slots)
            },
            r is Err ==> r->Err_0 == AllocationError::CapacityExhausted && final(self)@ == old(
                self,
            )@,
    {
        let ghost start = self.used@;
        let mut free: Vec<usize> = Vec::new();
        let mut i: usize = 0;
        while i < self.used.len()
            invariant
                self.used@ == start,
                i <= start.len(),
                free@.map_values(|x: usize| x as int) == free_slots(start.take(i as int)),
            decreases start.len() - i,
        {
            proof {
                assert(start.take(i as int + 1).drop_last() =~= start.take(i as int));
            }
            if !self.used[i] {
                free.push(i);
                proof {
                    assert(free@.map_values(|x: usize| x as int) =~= free_slots(
                        start.take(i as int),
                    ).push(i as int));
                }
            }
            i = i + 1;
        }
        proof {
            assert(start.take(start.len() as int) =~= start);
            lemma_free_slots(start);
        }
        let ghost slots_all = free_slots(start);
        if free.len() < count as usize {
            return Err(AllocationError::CapacityExhausted);
        }
        let mut addresses: Vec<Address> = Vec::new();
        let mut j: usize = 0;
        while j < count as usize
            invariant
                j <= count <= free@.len(),
                free@.map_values(|x: usize| x as int) == slots_all,
                slots_all == free_slots(start),
                self.wf(),
                self.used@.len() == start.len(),
                self.host@ == old(self).host@,
                self.first_port == old(self).first_port,
                start == old(self)@,
                self.used@ == taken(start, slots_all.take(j as int)),
                addresses@.len() == j,
                forall|l: int|
                    0 <= l < j ==> (#[trigger] addresses@[l]).port == self.first_port as int
                        + slots_all[l] && addresses@[l].host@ == self.host@,
                forall|l: int|
                    0 <= l < slots_all.len() ==> 0 <= #[trigger] slots_all[l] < start.len(),
            decreases count - j,
        {
            let slot = free[j];
            assert(slots_all[j as int] == slot as int);
            self.used.set(slot, true);
            let port = self.first_port + slot as u16;
            addresses.push(Address { host: self.host.clone(), port });
            proof {
                let s0 = slots_all.take(j as int);
                let s1 = slots_all.take(j as int + 1);
                assert(s1 =~= s0.push(slot as int));
                assert forall|x: int| 0 <= x < start.len() implies self.used@[x] == taken(
                    start,
                    s1,
                )[x] by {
                    if s1.contains(x) {
                        let k = choose|k: int| 0 <= k < s1.len() && s1[k] == x;
                        if k < j {
                            assert(s0[k] == x);
                        }
                    }
                    if s0.contains(x) {
                        let k = choose|k: int| 0 <= k < s0.len() && s0[k] == x;
                        assert(s1[k] == x);
                    }
                    if x == slot as int {
                        assert(s1[j as int] == x);
                    }
                }
                assert(self.used@ =~= taken(start, s1));
            }
            j = j + 1;
        }
        Ok(addresses)
    }

    /// Gives back every listed address of this manager's host and port range;
    /// addresses on other hosts, other ports, and ports that are already free
    /// are left as they are.
    pub fn free(&mut self, addresses: &Vec<Address>)
        requires
            old(self).wf(),
        ensures
            final(self).wf(),
            final(self).spec_host() == old(self).spec_host(),
            final(self).spec_first_port() == old(self).spec_first_port(),
            final(self)@ == given_back(old(self)@, old(self).spec_first_port(), ports_on(old(self).spec_host(), addresses@)),
    {
        let ghost start = self.used@;
        let mut k: usize = 0;
        while k < addresses.len()
            invariant
                k <= addresses@.len(),
                self.wf(),
                self.host@ == old(self).host@,
                self.first_port == old(self).first_port,
                start == old(self)@,
                self.used@ == given_back(start, self.first_port as int, ports_on(self.host@, addresses@.take(k as int))),
            decreases addresses@.len() - k,
        {
            let port = addresses[k].port;
            let here = addresses[k].host == self.host;
            if here && port >= self.first_port && ((port - self.first_port) as usize) < self.used.len() {
                self.used.set((port - self.first_port) as usize, false);
            }
            proof {
                let p0 = ports_on(self.host@, addresses@.take(k as int));
                let p1 = ports_on(self.host@, addresses@.take(k as int + 1));
                let f = self.first_port as int;
                let named: int = if here { port as int } else { -1 };
                assert(p1 =~= p0.push(named));
                assert forall|x: int| 0 <= x < start.len() implies self.used@[x] == given_back(
                    start,
                    f,
                    p1,
                )[x] by {
                    if p1.contains(f + x) {
                        let m = choose|m: int| 0 <= m < p1.len() && p1[m] == f + x;
                        if m < k {
                            assert(p0[m] == f + x);
                        }
                    }
                    if p0.contains(f + x) {
                        let m = choose|m: int| 0 <= m < p0.len() && p0[m] == f + x;
                        assert(p1[m] == f + x);
                    }
                    if f + x == named {
                        assert(p1[k as int] == f + x);
                    }
                }
                assert(self.used@ =~= given_back(start, f, p1));
            }
            k = k + 1;
        }
        assert(addresses@.take(addresses@.len() as int) =~= addresses@);
    }
}

} // verus!
