use vstd::prelude::*;

use crate::allocation::{
    lemma_free_and_used, lemma_used_count_bounded, used_count, AllocationError, AllocationManager, free_slots, given_back,
    ports_on, taken,
};
use crate::contract::{Address, Capabilities, Guard, ScreenType, Server, ServerProposal};
use crate::error::ScopedError;
use crate::plugin::optional_text;
use crate::server::{
    after_tick, crash_message, crashed, held, lemma_ports_on_names, lemma_position_of, names,
    position_of, ManagedServer, ServerManager,
    ServerState,
};

verus! {

/// The state behind a node: who it is, what it may hold, the addresses it has
/// handed out and the servers it runs.
pub struct InnerNode {
    identifier: String,
    name: String,
    capabilities: Capabilities,
    controller: String,
    allocations: AllocationManager,
    servers: ServerManager,
}

/// One compute host's manager of servers and address allocations.
pub struct Node(pub InnerNode);

impl Node {
    /// The table of taken slots; slot `i` stands for port `first_port() + i`.
    pub closed spec fn spec_allocations(&self) -> Seq<bool> {
        self.0.allocations@
    }

    pub closed spec fn spec_first_port(&self) -> int {
        self.0.allocations.spec_first_port()
    }

    pub closed spec fn spec_host(&self) -> Seq<char> {
        self.0.allocations.spec_host()
    }

    pub closed spec fn spec_servers(&self) -> Seq<ManagedServer> {
        self.0.servers@
    }

    pub closed spec fn spec_identifier(&self) -> Seq<char> {
        self.0.identifier@
    }

    pub closed spec fn spec_name(&self) -> Seq<char> {
        self.0.name@
    }

    pub closed spec fn spec_controller(&self) -> Seq<char> {
        self.0.controller@
    }

    pub closed spec fn spec_max_servers(&self) -> u32 {
        self.0.capabilities.max_servers
    }

    pub closed spec fn spec_memory(&self) -> u32 {
        self.0.capabilities.memory
    }

    pub closed spec fn spec_child(&self) -> Option<Seq<char>> {
        optional_text(self.0.capabilities.child)
    }

    pub closed spec fn wf(&self) -> bool {
        &&& self.0.allocations.wf()
        &&& self.0.allocations@.len() == self.0.capabilities.max_servers
    }

    /// A node that has handed out no address and runs no server. It can hand
    /// out one address per allowed server, the ports from `first_port` up, on
    /// `host`.
    pub fn new(
        identifier: String,
        name: String,
        capabilities: Capabilities,
        controller: String,
        host: String,
        first_port: u16,
    ) -> (r: Self)
        requires
            first_port as int + capabilities.max_servers as int <= 65536,
        ensures
            r.wf(),
            r.spec_identifier() == identifier@,
            r.spec_name() == name@,
            r.spec_controller() == controller@,
            r.spec_max_servers() == capabilities.max_servers,
            r.spec_memory() == capabilities.memory,
            r.spec_child() == optional_text(capabilities.child),
            r.spec_host() == host@,
            r.spec_first_port() == first_port as int,
            r.spec_allocations() == Seq::new(capabilities.max_servers as nat, |i: int| false),
            r.spec_servers() == Seq::<ManagedServer>::empty(),
    {
        let capacity = capabilities.max_servers;
        Self(
            InnerNode {
                identifier,
                name,
                capabilities,
                controller,
                allocations: AllocationManager::init(host, first_port, capacity),
                servers: ServerManager::init(),
            },
        )
    }

    pub fn identifier(&self) -> (r: &String)
        ensures
            r@ == self.spec_identifier(),
    {
        &self.0.identifier
    }

    pub fn name(&self) -> (r: &String)
        ensures
            r@ == self.spec_name(),
    {
        &self.0.name
    }

    pub fn controller(&self) -> (r: &String)
        ensures
            r@ == self.spec_controller(),
    {
        &self.0.controller
    }

    /// How many addresses this node can hand out at once.
    pub fn capacity(&self) -> (r: usize)
        requires
            self.wf(),
        ensures
            r == self.spec_max_servers(),
    {
        self.0.allocations.capacity()
    }

    /// The lifecycle state of the named server, if the node runs it.
    pub fn server_state(&self, name: &String) -> (r: Option<ServerState>)
        ensures
            r is Some <==> position_of(self.spec_servers(), name@) >= 0,
            r is Some ==> r->Some_0 == self.spec_servers()[position_of(
                self.spec_servers(),
                name@,
            )].state,
    {
        proof {
            lemma_position_of(self.spec_servers(), name@);
        }
        match self.0.servers.find(name) {
            Some(i) => Some(self.0.servers.state_at(i)),
            None => None,
        }
    }

    /// Checks every server against whether its process is alive (`alive[i]`
    /// for the i-th server): the dead are marked stopped and reported, one
    /// failure each, scoped by the server's name; the rest carry on.
    pub fn tick(&mut self, alive: &Vec<bool>) -> (r: Result<(), Vec<ScopedError>>)
        requires
            old(self).wf(),
            alive@.len() == old(self).spec_servers().len(),
        ensures
            final(self).wf(),
            ticked(*old(self), *final(self), alive@, r),
    {
        self.0.servers.tick(alive)
    }

    /// Hands out as many addresses as the proposal asks for, the lowest free
    /// ports first, or none at all when too few are free.
    pub fn allocate(&mut self, server: &ServerProposal) -> (r: Result<Vec<Address>, AllocationError>)
        requires
            old(self).wf(),
        ensures
            final(self).wf(),
            allocated(*old(self), *final(self), server.ports, r),
    {
        self.0.allocations.allocate(server.ports)
    }

    /// Gives the listed addresses back; ports that are already free or are not
    /// this node's are left as they are.
    pub fn free(&mut self, addresses: Vec<Address>)
        requires
            old(self).wf(),
        ensures
            final(self).wf(),
            freed(*old(self), *final(self), addresses@),
    {
        self.0.allocations.free(&addresses);
    }

    /// Starts a server and returns the screen through which its output can be
    /// watched.
    pub fn start(&mut self, server: Server) -> (r: ScreenType)
        requires
            old(self).wf(),
        ensures
            final(self).wf(),
            started(*old(self), *final(self), server, r),
    {
        self.0.servers.start(server)
    }

    /// Restarts the named server, keeping its addresses.
    pub fn restart(&mut self, server: Server)
        requires
            old(self).wf(),
        ensures
            final(self).wf(),
            restarted(*old(self), *final(self), server.name@),
    {
        self.0.servers.restart(&server);
    }

    /// Stops the named server: it leaves the node and the addresses bound to
    /// it are given back, except those that another server is bound to. The guard is released once this is done. An unknown
    /// name changes nothing.
    pub fn stop(&mut self, server: Server, guard: Guard)
        requires
            old(self).wf(),
        ensures
            final(self).wf(),
            stopped(*old(self), *final(self), server.name@),
    {
        proof {
            lemma_position_of(self.spec_servers(), server.name@);
        }
        match self.0.servers.stop(&server) {
            Some(record) => {
                let release = self.0.servers.unshared(&record.addresses);
                self.0.allocations.free(&release);
                proof {
                    let host = old(self).spec_host();
                    let first = old(self).spec_first_port();
                    let rest = self.spec_servers();
                    old(self).0.allocations.lemma_ports_fit();
                    assert forall|i: int| 0 <= i < old(self).spec_allocations().len() implies
                        #[trigger] self.spec_allocations()[i] == (old(self).spec_allocations()[i] && !(
                        names(record.addresses@, host, first + i) && !held(rest, host, first + i))) by {
                        lemma_ports_on_names(release@, host, first + i);
                    }
                    assert(self.spec_allocations() =~= released_by_stop(old(self).spec_allocations(), host, first, record.addresses@, rest));
                }
            },
            None => {},
        }
        let _released = guard;
    }
}

/// A well-formed node has one slot per allowed server, and its ports fit in
/// 16 bits.
pub proof fn lemma_node_table_size(node: Node)
    requires
        node.wf(),
    ensures
        node.spec_allocations().len() == node.spec_max_servers(),
        node.spec_first_port() + node.spec_max_servers() <= 65536,
{
    node.0.allocations.lemma_ports_fit();
}

/// However a node has been used, it never holds more addresses at once than
/// its declared number of servers, and a request for `count` more is granted
/// exactly when it stays within that number.
pub proof fn lemma_node_within_capacity(node: Node, count: nat)
    requires
        node.wf(),
    ensures
        used_count(node.spec_allocations()) <= node.spec_max_servers(),
        count <= free_slots(node.spec_allocations()).len() <==> used_count(node.spec_allocations())
            + count <= node.spec_max_servers(),
{
    lemma_used_count_bounded(node.spec_allocations());
    lemma_free_and_used(node.spec_allocations());
}

/// The two nodes are the same node: identity, limits and port range agree.
pub open spec fn same_identity(old: Node, new: Node) -> bool {
    &&& new.spec_identifier() == old.spec_identifier()
    &&& new.spec_name() == old.spec_name()
    &&& new.spec_controller() == old.spec_controller()
    &&& new.spec_max_servers() == old.spec_max_servers()
    &&& new.spec_memory() == old.spec_memory()
    &&& new.spec_child() == old.spec_child()
    &&& new.spec_host() == old.spec_host()
    &&& new.spec_first_port() == old.spec_first_port()
}

/// What a tick does to a node, given which servers are alive, and what it reports.
pub open spec fn ticked(
    old: Node,
    new: Node,
    alive: Seq<bool>,
    r: Result<(), Vec<ScopedError>>,
) -> bool {
    &&& same_identity(old, new)
    &&& new.spec_allocations() == old.spec_allocations()
    &&& after_tick(old.spec_servers(), new.spec_servers(), alive)
    &&& r is Ok <==> crashed(old.spec_servers(), alive).len() == 0
    &&& r is Err ==> {
        let dead = crashed(old.spec_servers(), alive);
        &&& r->Err_0@.len() == dead.len()
        &&& forall|j: int|
            0 <= j < dead.len() ==> (#[trigger] r->Err_0@[j]).scope@
                == old.spec_servers()[dead[j]].name@ && r->Err_0@[j].message@ == crash_message()
    }
}

/// A request for `count` addresses: granted with the `count` lowest free
/// ports when that many are free, else refused with nothing taken.
pub open spec fn allocated(
    old: Node,
    new: Node,
    count: u32,
    r: Result<Vec<Address>, AllocationError>,
) -> bool {
    &&& same_identity(old, new)
    &&& new.spec_servers() == old.spec_servers()
    &&& r is Ok <==> count <= free_slots(old.spec_allocations()).len()
    &&& r is Ok ==> {
        let slots = free_slots(old.spec_allocations()).take(count as int);
        &&& r->Ok_0@.len() == count
        &&& forall|j: int|
            0 <= j < count ==> (#[trigger] r->Ok_0@[j]).port == old.spec_first_port() + slots[j]
                && r->Ok_0@[j].host@ == old.spec_host()
        &&& new.spec_allocations() == taken(old.spec_allocations(), slots)
    }
    &&& r is Err ==> r->Err_0 == AllocationError::CapacityExhausted && new.spec_allocations()
        == old.spec_allocations()
}

/// The listed ports of the node are free afterwards; nothing else changes.
pub open spec fn freed(old: Node, new: Node, addresses: Seq<Address>) -> bool {
    &&& same_identity(old, new)
    &&& new.spec_servers() == old.spec_servers()
    &&& new.spec_allocations() == given_back(
        old.spec_allocations(),
        old.spec_first_port(),
        ports_on(old.spec_host(), addresses),
    )
}

/// The server runs with the given addresses: in its old place when the node
/// knew its name, else added at the end.
pub open spec fn started(old: Node, new: Node, server: Server, r: ScreenType) -> bool {
    let p = position_of(old.spec_servers(), server.name@);
    let i = if p >= 0 { p } else { old.spec_servers().len() as int };
    &&& same_identity(old, new)
    &&& new.spec_allocations() == old.spec_allocations()
    &&& new.spec_servers().len() == if p >= 0 {
        old.spec_servers().len()
    } else {
        old.spec_servers().len() + 1
    }
    &&& new.spec_servers()[i].name@ == server.name@
    &&& new.spec_servers()[i].addresses@ == server.allocation@
    &&& new.spec_servers()[i].state == ServerState::Running
    &&& forall|j: int|
        0 <= j < old.spec_servers().len() && j != i ==> #[trigger] new.spec_servers()[j]
            == old.spec_servers()[j]
    &&& r == ScreenType::Supported(server.name)
}

/// The named server is running again with the same addresses; an unknown
/// name changes nothing.
pub open spec fn restarted(old: Node, new: Node, name: Seq<char>) -> bool {
    let p = position_of(old.spec_servers(), name);
    &&& same_identity(old, new)
    &&& new.spec_allocations() == old.spec_allocations()
    &&& new.spec_servers().len() == old.spec_servers().len()
    &&& forall|j: int|
        0 <= j < old.spec_servers().len() && j != p ==> #[trigger] new.spec_servers()[j]
            == old.spec_servers()[j]
    &&& p >= 0 ==> new.spec_servers()[p].name@ == old.spec_servers()[p].name@
        && new.spec_servers()[p].addresses@ == old.spec_servers()[p].addresses@
        && new.spec_servers()[p].state == ServerState::Running
}

/// The named server has left the node and its ports are free; an unknown
/// name changes nothing.
pub open spec fn stopped(old: Node, new: Node, name: Seq<char>) -> bool {
    let p = position_of(old.spec_servers(), name);
    &&& same_identity(old, new)
    &&& p < 0 ==> new.spec_servers() == old.spec_servers() && new.spec_allocations()
        == old.spec_allocations()
    &&& p >= 0 ==> new.spec_servers() == old.spec_servers().remove(p) && new.spec_allocations()
        == released_by_stop(
        old.spec_allocations(),
        old.spec_host(),
        old.spec_first_port(),
        old.spec_servers()[p].addresses@,
        new.spec_servers(),
    )
}

/// The table after a server bound to `addresses` has stopped: each of its
/// addresses on this node is free again, unless a server that stays is bound
/// to it too; every other slot is as it was.
pub open spec fn released_by_stop(
    used: Seq<bool>,
    host: Seq<char>,
    first_port: int,
    addresses: Seq<Address>,
    remaining: Seq<ManagedServer>,
) -> Seq<bool> {
    Seq::new(
        used.len(),
        |i: int| used[i] && !(names(addresses, host, first_port + i) && !held(remaining, host, first_port + i)),
    )
}

} // verus!
