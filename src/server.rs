use vstd::prelude::*;

use crate::allocation::ports_on;
use crate::contract::{Address, Server};
use crate::error::ScopedError;

verus! {

/// Where a managed server stands in its lifecycle. Starting and stopping
/// happen in the backend, within one call; between calls a server is running,
/// or stopped when its process died.
#[derive(PartialEq, Eq, Structural, Clone, Copy, Debug)]
pub enum ServerState {
    Running,
    Stopped,
}

/// A server that a node manages, with the addresses bound to it.
pub struct ManagedServer {
    pub name: String,
    pub addresses: Vec<Address>,
    pub state: ServerState,
}

/// The message of the failure that a tick reports for a server whose process died.
pub open spec fn crash_message() -> Seq<char> {
    "The server process is no longer running"@
}

/// Whether a tick finds this server dead: it should be running, but its
/// process is gone.
pub open spec fn has_crashed(server: ManagedServer, alive: bool) -> bool {
    server.state == ServerState::Running && !alive
}

/// The positions of the servers that a tick finds dead, in order.
pub open spec fn crashed(servers: Seq<ManagedServer>, alive: Seq<bool>) -> Seq<int>
    decreases servers.len(),
{
    if servers.len() == 0 {
        Seq::empty()
    } else {
        let n = servers.len() - 1;
        let rest = crashed(servers.drop_last(), alive);
        if has_crashed(servers[n], alive[n]) {
            rest.push(n)
        } else {
            rest
        }
    }
}

/// The first position of a server with the given name, or -1.
pub open spec fn position_of(servers: Seq<ManagedServer>, name: Seq<char>) -> int
    decreases servers.len(),
{
    if servers.len() == 0 {
        -1
    } else {
        let rest = position_of(servers.drop_last(), name);
        if rest >= 0 {
            rest
        } else if servers.last().name@ == name {
            servers.len() - 1
        } else {
            -1
        }
    }
}

pub proof fn lemma_position_of(servers: Seq<ManagedServer>, name: Seq<char>)
    ensures
        -1 <= position_of(servers, name) < servers.len(),
        position_of(servers, name) >= 0 ==> servers[position_of(servers, name)].name@ == name,
        forall|j: int|
            0 <= j < servers.len() && (position_of(servers, name) < 0 || j < position_of(
                servers,
                name,
            )) ==> (#[trigger] servers[j]).name@ != name,
    decreases servers.len(),
{
    if servers.len() > 0 {
        lemma_position_of(servers.drop_last(), name);
        assert forall|j: int|
            0 <= j < servers.len() && (position_of(servers, name) < 0 || j < position_of(
                servers,
                name,
            )) implies (#[trigger] servers[j]).name@ != name by {
            if j < servers.len() - 1 {
                assert(servers.drop_last()[j] == servers[j]);
            }
        }
    }
}

/// A name found in a prefix of the list is found at the same place in the whole list.
proof fn lemma_position_in_prefix(servers: Seq<ManagedServer>, name: Seq<char>, m: int)
    requires
        0 <= m <= servers.len(),
        position_of(servers.take(m), name) >= 0,
    ensures
        position_of(servers, name) == position_of(servers.take(m), name),
    decreases servers.len(),
{
    if m == servers.len() {
        assert(servers.take(m) =~= servers);
    } else {
        assert(servers.drop_last().take(m) =~= servers.take(m));
        lemma_position_in_prefix(servers.drop_last(), name, m);
    }
}

/// Whether a list of addresses holds the address `host`:`port`.
pub open spec fn names(addresses: Seq<Address>, host: Seq<char>, port: int) -> bool {
    exists|j: int| 0 <= j < addresses.len() && (#[trigger] addresses[j]).host@ == host && addresses[j].port == port
}

/// Whether some server is bound to the address `host`:`port`.
pub open spec fn held(servers: Seq<ManagedServer>, host: Seq<char>, port: int) -> bool {
    exists|k: int| 0 <= k < servers.len() && names((#[trigger] servers[k]).addresses@, host, port)
}

/// A list names a port of `host` exactly when it holds that address.
pub proof fn lemma_ports_on_names(addresses: Seq<Address>, host: Seq<char>, port: int)
    requires
        port >= 0,
    ensures
        ports_on(host, addresses).contains(port) <==> names(addresses, host, port),
{
    let ports = ports_on(host, addresses);
    if ports.contains(port) {
        let j = choose|j: int| 0 <= j < ports.len() && ports[j] == port;
        assert(addresses[j].host@ == host && addresses[j].port == port);
    }
    if names(addresses, host, port) {
        let j = choose|j: int| 0 <= j < addresses.len() && (#[trigger] addresses[j]).host@ == host && addresses[j].port == port;
        assert(ports[j] == port);
    }
}

/// A copy of an address.
pub fn copy_address(a: &Address) -> (r: Address)
    ensures
        r.host@ == a.host@,
        r.port == a.port,
{
    Address { host: a.host.clone(), port: a.port }
}

/// Whether a list of addresses holds the given one.
fn list_names(addresses: &Vec<Address>, a: &Address) -> (r: bool)
    ensures
        r == names(addresses@, a.host@, a.port as int),
{
    let mut j: usize = 0;
    while j < addresses.len()
        invariant
            j <= addresses@.len(),
            forall|l: int| 0 <= l < j ==> !((#[trigger] addresses@[l]).host@ == a.host@ && addresses@[l].port == a.port),
        decreases addresses@.len() - j,
    {
        if addresses[j].port == a.port && addresses[j].host == a.host {
            return true;
        }
        j = j + 1;
    }
    false
}

/// Every server of a tick's result keeps its name and addresses; a dead one
/// is stopped, the others keep their state.
pub open spec fn after_tick(old: Seq<ManagedServer>, new: Seq<ManagedServer>, alive: Seq<bool>) -> bool {
    &&& new.len() == old.len()
    &&& forall|i: int|
        0 <= i < old.len() ==> (#[trigger] new[i]).name@ == old[i].name@ && new[i].addresses@
            == old[i].addresses@ && new[i].state == if has_crashed(old[i], alive[i]) {
            ServerState::Stopped
        } else {
            old[i].state
        }
}

/// The servers of one node, in the order in which they were started.
pub struct ServerManager {
    servers: Vec<ManagedServer>,
}

impl View for ServerManager {
    type V = Seq<ManagedServer>;

    closed spec fn view(&self) -> Seq<ManagedServer> {
        self.servers@
    }
}

impl ServerManager {
    /// A manager with no servers.
    pub fn init() -> (r: ServerManager)
        ensures
            r@ == Seq::<ManagedServer>::empty(),
    {
        ServerManager { servers: Vec::new() }
    }

    pub fn len(&self) -> (r: usize)
        ensures
            r == self@.len(),
    {
        self.servers.len()
    }

    /// The state of the server at position `i`.
    pub fn state_at(&self, i: usize) -> (r: ServerState)
        requires
            i < self@.len(),
        ensures
            r == self@[i as int].state,
    {
        self.servers[i].state
    }

    /// Whether some server is bound to the given address.
    pub fn holds(&self, a: &Address) -> (r: bool)
        ensures
            r == held(self@, a.host@, a.port as int),
    {
        let mut k: usize = 0;
        while k < self.servers.len()
            invariant
                k <= self@.len(),
                forall|l: int| 0 <= l < k ==> !names((#[trigger] self@[l]).addresses@, a.host@, a.port as int),
            decreases self@.len() - k,
        {
            if list_names(&self.servers[k].addresses, a) {
                return true;
            }
            k = k + 1;
        }
        false
    }

    /// The addresses of the list to which no server is bound.
    pub fn unshared(&self, addresses: &Vec<Address>) -> (r: Vec<Address>)
        ensures
            forall|h: Seq<char>, p: int|
                #![trigger names(r@, h, p)]
                names(r@, h, p) <==> names(addresses@, h, p) && !held(self@, h, p),
    {
        let mut out: Vec<Address> = Vec::new();
        let mut j: usize = 0;
        while j < addresses.len()
            invariant
                j <= addresses@.len(),
                forall|h: Seq<char>, p: int|
                    #![trigger names(out@, h, p)]
                    names(out@, h, p) <==> names(addresses@.take(j as int), h, p) && !held(self@, h, p),
            decreases addresses@.len() - j,
        {
            let a = &addresses[j];
            let bound = self.holds(a);
            let ghost before = out@;
            if !bound {
                out.push(copy_address(a));
            }
            proof {
                let t0 = addresses@.take(j as int);
                let t1 = addresses@.take(j as int + 1);
                assert(t1 =~= t0.push(addresses@[j as int]));
                assert forall|h: Seq<char>, p: int| names(out@, h, p) <==> names(t1, h, p) && !held(self@, h, p) by {
                    if names(out@, h, p) {
                        let m = choose|m: int| 0 <= m < out@.len() && (#[trigger] out@[m]).host@ == h && out@[m].port == p;
                        if m < before.len() {
                            assert(before[m] == out@[m]);
                            assert(names(before, h, p));
                            let w = choose|w: int| 0 <= w < t0.len() && (#[trigger] t0[w]).host@ == h && t0[w].port == p;
                            assert(t1[w] == t0[w]);
                        } else {
                            assert(t1[j as int].host@ == h && t1[j as int].port == p);
                        }
                    }
                    if names(t1, h, p) && !held(self@, h, p) {
                        let w = choose|w: int| 0 <= w < t1.len() && (#[trigger] t1[w]).host@ == h && t1[w].port == p;
                        if w < j {
                            assert(t0[w] == t1[w]);
                            assert(names(t0, h, p));
                            assert(names(before, h, p));
                            let m = choose|m: int| 0 <= m < before.len() && (#[trigger] before[m]).host@ == h && before[m].port == p;
                            assert(out@[m] == before[m]);
                        } else {
                            assert(out@[before.len() as int].host@ == h);
                        }
                    }
                }
            }
            j = j + 1;
        }
        assert(addresses@.take(addresses@.len() as int) =~= addresses@);
        out
    }

    /// The position of the first server with the given name, if any.
    pub fn find(&self, name: &String) -> (r: Option<usize>)
        ensures
            r is Some <==> position_of(self@, name@) >= 0,
            r is Some ==> r->Some_0 as int == position_of(self@, name@),
    {
        let mut i: usize = 0;
        while i < self.servers.len()
            invariant
                i <= self@.len(),
                position_of(self@.take(i as int), name@) < 0,
            decreases self@.len() - i,
        {
            proof {
                assert(self@.take(i as int + 1).drop_last() =~= self@.take(i as int));
            }
            if self.servers[i].name == *name {
                proof {
                    lemma_position_in_prefix(self@, name@, i as int + 1);
                }
                return Some(i);
            }
            i = i + 1;
        }
        proof {
            assert(self@.take(self@.len() as int) =~= self@);
        }
        None
    }

    /// Starts a server: one already known by that name is running again with
    /// the given addresses, any other is added at the end, running.
    pub fn start(&mut self, server: Server) -> (r: crate::contract::ScreenType)
        ensures
            ({
                let p = position_of(old(self)@, server.name@);
                let i = if p >= 0 { p } else { old(self)@.len() as int };
                &&& final(self)@.len() == if p >= 0 { old(self)@.len() } else { old(self)@.len() + 1 }
                &&& final(self)@[i].name@ == server.name@
                &&& final(self)@[i].addresses@ == server.allocation@
                &&& final(self)@[i].state == ServerState::Running
                &&& forall|j: int| 0 <= j < old(self)@.len() && j != i ==> #[trigger] final(self)@[j] == old(self)@[j]
            }),
            r == crate::contract::ScreenType::Supported(server.name),
    {
        let name = server.name.clone();
        let found = self.find(&server.name);
        proof {
            lemma_position_of(self@, server.name@);
        }
        let record = ManagedServer {
            name: server.name,
            addresses: server.allocation,
            state: ServerState::Running,
        };
        match found {
            Some(i) => {
                self.servers.set(i, record);
            },
            None => {
                self.servers.push(record);
            },
        }
        crate::contract::ScreenType::Supported(name)
    }

    /// Restarts the named server: it goes through stopping and starting and
    /// ends up running, with its addresses kept. An unknown name changes nothing.
    pub fn restart(&mut self, server: &Server)
        ensures
            ({
                let p = position_of(old(self)@, server.name@);
                &&& final(self)@.len() == old(self)@.len()
                &&& forall|j: int| 0 <= j < old(self)@.len() && j != p ==> #[trigger] final(self)@[j] == old(self)@[j]
                &&& p >= 0 ==> final(self)@[p].name@ == old(self)@[p].name@
                    && final(self)@[p].addresses@ == old(self)@[p].addresses@
                    && final(self)@[p].state == ServerState::Running
            }),
    {
        proof {
            lemma_position_of(self@, server.name@);
        }
        match self.find(&server.name) {
            Some(i) => {
                // Stopping and starting again happen in the backend; here the
                // server ends up running as before.
                let mut record = self.servers.remove(i);
                record.state = ServerState::Running;
                self.servers.insert(i, record);
                proof {
                    assert(self@.len() == old(self)@.len());
                }
            },
            None => {},
        }
    }

    /// Stops the named server and hands back its record, whose addresses are
    /// then free to be given back; an unknown name changes nothing.
    pub fn stop(&mut self, server: &Server) -> (r: Option<ManagedServer>)
        ensures
            ({
                let p = position_of(old(self)@, server.name@);
                &&& r is Some <==> p >= 0
                &&& p < 0 ==> final(self)@ == old(self)@
                &&& p >= 0 ==> final(self)@ == old(self)@.remove(p)
                    && r->Some_0.name@ == old(self)@[p].name@
                    && r->Some_0.addresses@ == old(self)@[p].addresses@
                    && r->Some_0.state == ServerState::Stopped
            }),
    {
        proof {
            lemma_position_of(self@, server.name@);
        }
        match self.find(&server.name) {
            Some(i) => {
                let mut record = self.servers.remove(i);
                record.state = ServerState::Stopped;
                Some(record)
            },
            None => None,
        }
    }

    /// Reconciles every server with whether its process is still alive
    /// (`alive[i]` for the i-th server): each dead one is marked stopped and
    /// yields one failure scoped by its name; the others are left alone.
    pub fn tick(&mut self, alive: &Vec<bool>) -> (r: Result<(), Vec<ScopedError>>)
        requires
            alive@.len() == old(self)@.len(),
        ensures
            after_tick(old(self)@, final(self)@, alive@),
            r is Ok <==> crashed(old(self)@, alive@).len() == 0,
            r is Err ==> {
                let dead = crashed(old(self)@, alive@);
                &&& r->Err_0@.len() == dead.len()
                &&& forall|j: int|
                    0 <= j < dead.len() ==> (#[trigger] r->Err_0@[j]).scope@ == old(self)@[dead[j]].name@
                        && r->Err_0@[j].message@ == crash_message()
            },
    {
        let ghost start = self.servers@;
        let mut errors: Vec<ScopedError> = Vec::new();
        let mut i: usize = 0;
        while i < self.servers.len()
            invariant
                i <= start.len(),
                alive@.len() == start.len(),
                self.servers@.len() == start.len(),
                after_tick(start.take(i as int), self.servers@.take(i as int), alive@),
                forall|k: int| i <= k < start.len() ==> #[trigger] self.servers@[k] == start[k],
                errors@.len() == crashed(start.take(i as int), alive@).len(),
                forall|j: int|
                    0 <= j < errors@.len() ==> (#[trigger] errors@[j]).scope@ == start[crashed(
                        start.take(i as int),
                        alive@,
                    )[j]].name@ && errors@[j].message@ == crash_message(),
                forall|j: int|
                    0 <= j < crashed(start.take(i as int), alive@).len() ==> 0 <= #[trigger] crashed(
                        start.take(i as int),
                        alive@,
                    )[j] < i,
            decreases start.len() - i,
        {
            proof {
                assert(start.take(i as int + 1).drop_last() =~= start.take(i as int));
                assert(start.take(i as int + 1)[i as int] == start[i as int]);
            }
            if self.servers[i].state == ServerState::Running && !alive[i] {
                let mut record = self.servers.remove(i);
                let scope = record.name.clone();
                record.state = ServerState::Stopped;
                self.servers.insert(i, record);
                errors.push(ScopedError { scope, message: String::from_str("The server process is no longer running") });
            }
            proof {
                let c0 = crashed(start.take(i as int), alive@);
                let c1 = crashed(start.take(i as int + 1), alive@);
                assert forall|j: int| 0 <= j < c1.len() implies 0 <= #[trigger] c1[j] < i + 1 by {
                    if j < c0.len() {
                        assert(c1[j] == c0[j]);
                    }
                }
                assert forall|k: int| 0 <= k < i + 1 implies (#[trigger] self.servers@.take(i as int + 1)[k]).name@
                    == start.take(i as int + 1)[k].name@ && self.servers@.take(i as int + 1)[k].addresses@
                    == start.take(i as int + 1)[k].addresses@ && self.servers@.take(i as int + 1)[k].state
                    == if has_crashed(start.take(i as int + 1)[k], alive@[k]) {
                        ServerState::Stopped
                    } else {
                        start.take(i as int + 1)[k].state
                    } by {
                    if k < i {
                        assert(self.servers@.take(i as int + 1)[k] == self.servers@.take(i as int)[k]);
                        assert(start.take(i as int + 1)[k] == start.take(i as int)[k]);
                    }
                }
            }
            i = i + 1;
        }
        proof {
            assert(start.take(start.len() as int) =~= start);
            assert(self.servers@.take(start.len() as int) =~= self.servers@);
        }
        if errors.len() == 0 {
            Ok(())
        } else {
            Err(errors)
        }
    }
}

} // verus!
