use vstd::prelude::*;

use crate::allocation::AllocationError;
use crate::contract;
use crate::contract::{Address, Guard, ScreenType, Server, ServerProposal, FEATURE_NODE};
use crate::error::{join_errors, joined_report, ScopedError};
use crate::node::{allocated, freed, restarted, started, stopped, Node};
use crate::server::{after_tick, crash_message, crashed};

verus! {

/// The features the host knows of, as a bit set.
pub struct Features {
    bits: u32,
}

impl Features {
    pub closed spec fn spec_node(&self) -> bool {
        self.bits & FEATURE_NODE == FEATURE_NODE
    }

    pub closed spec fn spec_bits(&self) -> u32 {
        self.bits
    }

    /// No feature at all.
    pub fn empty() -> (r: Features)
        ensures
            !r.spec_node(),
            r.spec_bits() == 0,
    {
        proof {
            assert(0u32 & 1u32 == 0u32) by (bit_vector);
        }
        Features { bits: 0 }
    }

    /// Whether the plugin manages nodes.
    pub fn node(&self) -> (r: bool)
        ensures
            r == self.spec_node(),
    {
        self.bits & FEATURE_NODE == FEATURE_NODE
    }

    /// Adds the node-management flag.
    pub fn insert_node(&mut self)
        ensures
            final(self).spec_node(),
            final(self).spec_bits() == old(self).spec_bits() | FEATURE_NODE,
    {
        let b = self.bits;
        proof {
            assert((b | 1u32) & 1u32 == 1u32) by (bit_vector);
        }
        self.bits = self.bits | FEATURE_NODE;
    }

    /// The host's view of a flag set that crossed the boundary: the node flag
    /// is kept, unknown flags are dropped.
    pub fn from_wire(value: contract::Features) -> (r: Features)
        ensures
            r.spec_node() == wire_node(value),
            r.spec_bits() == if wire_node(value) { FEATURE_NODE } else { 0 },
    {
        let mut features = Features::empty();
        if value.bits & FEATURE_NODE == FEATURE_NODE {
            features.insert_node();
            proof {
                assert(0u32 | 1u32 == 1u32) by (bit_vector);
            }
        }
        features
    }
}

/// Whether a flag set that crossed the boundary holds the node flag.
pub open spec fn wire_node(features: contract::Features) -> bool {
    features.bits & FEATURE_NODE == FEATURE_NODE
}


/// What a plugin reports about itself, as the host keeps it.
pub struct Information {
    pub authors: Vec<String>,
    pub version: String,
    pub features: Features,
    pub ready: bool,
}

impl Information {
    /// The host's view of a plugin's report; every field is carried over.
    pub fn from_wire(value: contract::Information) -> (r: Information)
        ensures
            r.authors@ == value.authors@,
            r.version@ == value.version@,
            r.features.spec_node() == wire_node(value.features),
            r.features.spec_bits() == if wire_node(value.features) { FEATURE_NODE } else { 0 },
            r.ready == value.ready,
    {
        Information {
            authors: value.authors,
            version: value.version,
            features: Features::from_wire(value.features),
            ready: value.ready,
        }
    }
}

/// The text of an optional identifier.
pub open spec fn optional_text(value: Option<String>) -> Option<Seq<char>> {
    match value {
        Some(s) => Some(s@),
        None => None,
    }
}

fn copy_optional(value: &Option<String>) -> (r: Option<String>)
    ensures
        optional_text(r) == optional_text(*value),
{
    match value {
        Some(s) => Some(s.clone()),
        None => None,
    }
}

/// The limits of a node, as the host keeps them.
pub struct Capabilities {
    memory: u32,
    max_servers: u32,
    child: Option<String>,
}

/// The host's limits and the limits that crossed the boundary say the same.
pub open spec fn same_limits(host: Capabilities, wire: contract::Capabilities) -> bool {
    &&& host.spec_memory() == wire.memory
    &&& host.spec_max_servers() == wire.max_servers
    &&& host.spec_child() == optional_text(wire.child)
}

impl Capabilities {
    pub closed spec fn spec_memory(&self) -> u32 {
        self.memory
    }

    pub closed spec fn spec_max_servers(&self) -> u32 {
        self.max_servers
    }

    pub closed spec fn spec_child(&self) -> Option<Seq<char>> {
        optional_text(self.child)
    }

    pub fn new(memory: u32, max_servers: u32, child: Option<String>) -> (r: Capabilities)
        ensures
            r.spec_memory() == memory,
            r.spec_max_servers() == max_servers,
            r.spec_child() == optional_text(child),
    {
        Capabilities { memory, max_servers, child }
    }

    pub fn memory(&self) -> (r: u32)
        ensures
            r == self.spec_memory(),
    {
        self.memory
    }

    pub fn max_servers(&self) -> (r: u32)
        ensures
            r == self.spec_max_servers(),
    {
        self.max_servers
    }

    pub fn child(&self) -> (r: &Option<String>)
        ensures
            optional_text(*r) == self.spec_child(),
    {
        &self.child
    }

    /// The limits in the shape in which they cross the boundary.
    pub fn to_wire(&self) -> (r: contract::Capabilities)
        ensures
            same_limits(*self, r),
    {
        contract::Capabilities {
            memory: self.memory,
            max_servers: self.max_servers,
            child: copy_optional(&self.child),
        }
    }

    /// The host's view of limits that crossed the boundary.
    pub fn from_wire(value: &contract::Capabilities) -> (r: Capabilities)
        ensures
            same_limits(r, *value),
    {
        Capabilities {
            memory: value.memory,
            max_servers: value.max_servers,
            child: copy_optional(&value.child),
        }
    }
}

/// Limits sent across the boundary and read back are the limits that were
/// sent, field for field.
pub proof fn lemma_limits_round_trip(
    sent: Capabilities,
    wire: contract::Capabilities,
    back: Capabilities,
)
    requires
        same_limits(sent, wire),
        same_limits(back, wire),
    ensures
        back.spec_memory() == sent.spec_memory(),
        back.spec_max_servers() == sent.spec_max_servers(),
        back.spec_child() == sent.spec_child(),
{
}

/// The diagnostic for an instance that is discarded before its guest
/// resource was released.
pub open spec fn leak_message() -> Seq<char> {
    "Resource was not dropped before being deallocated (memory leak)"@
}

/// Whether a call may enter the instance's context, and whether the context
/// is taken afterwards: a call enters only a free context, and then holds it.
pub open spec fn entry(busy: bool) -> (bool, bool) {
    if busy {
        (false, true)
    } else {
        (true, true)
    }
}

/// Whether the guest resource is released after a cleanup with the given
/// outcome.
pub open spec fn released_after(released: bool, succeeded: bool) -> bool {
    released || succeeded
}

/// Why a node could not be created in a plugin instance.
#[derive(PartialEq, Eq, Structural, Clone, Copy, Debug)]
pub enum InitNodeError {
    /// The instance's guest resource has already been released.
    Released,
    /// The node's ports would run past the last port number.
    PortsOutOfRange,
}

/// The scopes of the failures that a tick over all nodes reports, node by
/// node, and within a node server by server.
pub open spec fn tick_scopes(nodes: Seq<Node>, alive: Seq<Vec<bool>>) -> Seq<Seq<char>>
    decreases nodes.len(),
{
    if nodes.len() == 0 {
        Seq::empty()
    } else {
        let n = nodes.len() - 1;
        let servers = nodes[n].spec_servers();
        tick_scopes(nodes.drop_last(), alive) + crashed(servers, alive[n]@).map_values(
            |k: int| servers[k].name@,
        )
    }
}

/// Nothing but the node behind handle `h` differs between the two instances.
pub open spec fn only_node_changed(old: Plugin, new: Plugin, h: int) -> bool {
    &&& new.spec_busy() == old.spec_busy()
    &&& new.spec_released() == old.spec_released()
    &&& new.spec_nodes().len() == old.spec_nodes().len()
    &&& forall|k: int| 0 <= k < old.spec_nodes().len() && k != h ==> #[trigger] new.spec_nodes()[k] == old.spec_nodes()[k]
}

proof fn lemma_node_put_back(old: Seq<Node>, new: Seq<Node>, h: int, node: Node)
    requires
        0 <= h < old.len(),
        new == old.remove(h).insert(h, node),
        forall|k: int| 0 <= k < old.len() ==> (#[trigger] old[k]).wf(),
        node.wf(),
    ensures
        new.len() == old.len(),
        new[h] == node,
        forall|k: int| 0 <= k < old.len() && k != h ==> #[trigger] new[k] == old[k],
        forall|k: int| 0 <= k < new.len() ==> (#[trigger] new[k]).wf(),
{
    assert(new =~= old.update(h, node));
}

/// The host's bookkeeping for one loaded plugin: whether a call is inside its
/// execution context, whether its guest root resource has been released, and
/// the nodes created in it, each known by its position (its handle).
pub struct Plugin {
    busy: bool,
    dropped: bool,
    nodes: Vec<Node>,
}

impl Plugin {
    pub closed spec fn spec_busy(&self) -> bool {
        self.busy
    }

    pub closed spec fn spec_released(&self) -> bool {
        self.dropped
    }

    pub closed spec fn spec_nodes(&self) -> Seq<Node> {
        self.nodes@
    }

    pub open spec fn wf(&self) -> bool {
        forall|i: int| 0 <= i < self.spec_nodes().len() ==> (#[trigger] self.spec_nodes()[i]).wf()
    }

    /// A freshly loaded instance: no call inside, guest resource still held,
    /// no node yet.
    pub fn new() -> (r: Plugin)
        ensures
            r.wf(),
            !r.spec_busy(),
            !r.spec_released(),
            r.spec_nodes() == Seq::<Node>::empty(),
    {
        Plugin { busy: false, dropped: false, nodes: Vec::new() }
    }

    /// Tries to enter the execution context for one call. Every call into the
    /// instance's nodes below enters it first and leaves it when done, so it
    /// can only be made while no other call is inside. Only one call can be
    /// inside at a time: while one is, every other attempt is refused and must
    /// wait.
    pub fn try_enter(&mut self) -> (r: bool)
        ensures
            (r, final(self).spec_busy()) == entry(old(self).spec_busy()),
            final(self).spec_released() == old(self).spec_released(),
            final(self).spec_nodes() == old(self).spec_nodes(),
    {
        if self.busy {
            false
        } else {
            self.busy = true;
            true
        }
    }

    /// Leaves the execution context at the end of a call.
    pub fn leave(&mut self)
        requires
            old(self).spec_busy(),
        ensures
            !final(self).spec_busy(),
            final(self).spec_released() == old(self).spec_released(),
            final(self).spec_nodes() == old(self).spec_nodes(),
    {
        self.busy = false;
    }

    /// Records the outcome of releasing the guest root resource. The instance
    /// counts as released only once a release has succeeded.
    pub fn finish_cleanup<E>(&mut self, outcome: Result<(), E>) -> (r: Result<(), E>)
        ensures
            final(self).spec_released() == released_after(old(self).spec_released(), outcome is Ok),
            final(self).spec_busy() == old(self).spec_busy(),
            final(self).spec_nodes() == old(self).spec_nodes(),
            r == outcome,
    {
        if outcome.is_ok() {
            self.dropped = true;
        }
        outcome
    }

    /// The diagnostic to report when the instance is discarded: one about a
    /// leak exactly when the guest resource was never released.
    pub fn leak_report(&self) -> (r: Option<String>)
        ensures
            r is Some <==> !self.spec_released(),
            r is Some ==> r->Some_0@ == leak_message(),
    {
        if self.dropped {
            None
        } else {
            Some(String::from_str("Resource was not dropped before being deallocated (memory leak)"))
        }
    }

    /// Whether a call is inside the execution context.
    pub fn busy(&self) -> (r: bool)
        ensures
            r == self.spec_busy(),
    {
        self.busy
    }

    /// How many nodes the instance holds.
    pub fn node_count(&self) -> (r: usize)
        ensures
            r == self.spec_nodes().len(),
    {
        self.nodes.len()
    }

    /// The node behind a handle.
    pub fn node(&self, handle: usize) -> (r: &Node)
        requires
            handle < self.spec_nodes().len(),
        ensures
            *r == self.spec_nodes()[handle as int],
    {
        &self.nodes[handle]
    }

    /// Creates a node bound to the given identity and limits, with ports from
    /// `first_port` up on `host`, and returns its handle.
    pub fn init_node(
        &mut self,
        identifier: String,
        name: String,
        capabilities: &Capabilities,
        controller: String,
        host: String,
        first_port: u16,
    ) -> (r: Result<usize, InitNodeError>)
        requires
            old(self).wf(),
            !old(self).spec_busy(),
        ensures
            final(self).wf(),
            final(self).spec_busy() == old(self).spec_busy(),
            final(self).spec_released() == old(self).spec_released(),
            old(self).spec_released() ==> r == Err::<usize, InitNodeError>(InitNodeError::Released),
            !old(self).spec_released() && first_port as int + capabilities.spec_max_servers() as int
                > 65536 ==> r == Err::<usize, InitNodeError>(InitNodeError::PortsOutOfRange),
            r is Err ==> final(self).spec_nodes() == old(self).spec_nodes(),
            r is Ok ==> {
                let node = final(self).spec_nodes().last();
                &&& r->Ok_0 == old(self).spec_nodes().len()
                &&& final(self).spec_nodes() == old(self).spec_nodes().push(node)
                &&& node.spec_identifier() == identifier@
                &&& node.spec_name() == name@
                &&& node.spec_controller() == controller@
                &&& node.spec_host() == host@
                &&& node.spec_first_port() == first_port as int
                &&& node.spec_max_servers() == capabilities.spec_max_servers()
                &&& node.spec_memory() == capabilities.spec_memory()
                &&& node.spec_child() == capabilities.spec_child()
                &&& node.spec_allocations() == Seq::new(
                    capabilities.spec_max_servers() as nat,
                    |i: int| false,
                )
                &&& node.spec_servers() == Seq::<crate::server::ManagedServer>::empty()
            },
            r is Ok <==> !old(self).spec_released() && first_port as int
                + capabilities.spec_max_servers() as int <= 65536,
    {
        if self.dropped {
            return Err(InitNodeError::Released);
        }
        let wire = capabilities.to_wire();
        if first_port as u64 + wire.max_servers as u64 > 65536 {
            return Err(InitNodeError::PortsOutOfRange);
        }
        let _granted = self.try_enter();
        let node = Node::new(identifier, name, wire, controller, host, first_port);
        let handle = self.nodes.len();
        self.nodes.push(node);
        proof {
            assert forall|i: int| 0 <= i < self.spec_nodes().len() implies (#[trigger] self.spec_nodes()[i]).wf() by {
                if i < handle {
                    assert(self.spec_nodes()[i] == old(self).spec_nodes()[i]);
                }
            }
        }
        self.leave();
        Ok(handle)
    }

    /// Asks the node behind `handle` for addresses.
    pub fn allocate(&mut self, handle: usize, server: &ServerProposal) -> (r: Result<Vec<Address>, AllocationError>)
        requires
            old(self).wf(),
            handle < old(self).spec_nodes().len(),
            !old(self).spec_busy(),
        ensures
            final(self).wf(),
            only_node_changed(*old(self), *final(self), handle as int),
            allocated(old(self).spec_nodes()[handle as int], final(self).spec_nodes()[handle as int], server.ports, r),
    {
        let _granted = self.try_enter();
        let mut node = self.nodes.remove(handle);
        let r = node.allocate(server);
        self.nodes.insert(handle, node);
        proof {
            lemma_node_put_back(old(self).spec_nodes(), self.spec_nodes(), handle as int, node);
        }
        self.leave();
        r
    }

    /// Gives addresses back to the node behind `handle`.
    pub fn free(&mut self, handle: usize, addresses: Vec<Address>)
        requires
            old(self).wf(),
            handle < old(self).spec_nodes().len(),
            !old(self).spec_busy(),
        ensures
            final(self).wf(),
            only_node_changed(*old(self), *final(self), handle as int),
            freed(old(self).spec_nodes()[handle as int], final(self).spec_nodes()[handle as int], addresses@),
    {
        let _granted = self.try_enter();
        let mut node = self.nodes.remove(handle);
        node.free(addresses);
        self.nodes.insert(handle, node);
        proof {
            lemma_node_put_back(old(self).spec_nodes(), self.spec_nodes(), handle as int, node);
        }
        self.leave();
    }

    /// Starts a server on the node behind `handle`.
    pub fn start(&mut self, handle: usize, server: Server) -> (r: ScreenType)
        requires
            old(self).wf(),
            handle < old(self).spec_nodes().len(),
            !old(self).spec_busy(),
        ensures
            final(self).wf(),
            only_node_changed(*old(self), *final(self), handle as int),
            started(old(self).spec_nodes()[handle as int], final(self).spec_nodes()[handle as int], server, r),
    {
        let _granted = self.try_enter();
        let mut node = self.nodes.remove(handle);
        let r = node.start(server);
        self.nodes.insert(handle, node);
        proof {
            lemma_node_put_back(old(self).spec_nodes(), self.spec_nodes(), handle as int, node);
        }
        self.leave();
        r
    }

    /// Restarts a server of the node behind `handle`.
    pub fn restart(&mut self, handle: usize, server: Server)
        requires
            old(self).wf(),
            handle < old(self).spec_nodes().len(),
            !old(self).spec_busy(),
        ensures
            final(self).wf(),
            only_node_changed(*old(self), *final(self), handle as int),
            restarted(old(self).spec_nodes()[handle as int], final(self).spec_nodes()[handle as int], server.name@),
    {
        let _granted = self.try_enter();
        let mut node = self.nodes.remove(handle);
        node.restart(server);
        self.nodes.insert(handle, node);
        proof {
            lemma_node_put_back(old(self).spec_nodes(), self.spec_nodes(), handle as int, node);
        }
        self.leave();
    }

    /// Stops a server of the node behind `handle`.
    pub fn stop(&mut self, handle: usize, server: Server, guard: Guard)
        requires
            old(self).wf(),
            handle < old(self).spec_nodes().len(),
            !old(self).spec_busy(),
        ensures
            final(self).wf(),
            only_node_changed(*old(self), *final(self), handle as int),
            stopped(old(self).spec_nodes()[handle as int], final(self).spec_nodes()[handle as int], server.name@),
    {
        let _granted = self.try_enter();
        let mut node = self.nodes.remove(handle);
        node.stop(server, guard);
        self.nodes.insert(handle, node);
        proof {
            lemma_node_put_back(old(self).spec_nodes(), self.spec_nodes(), handle as int, node);
        }
        self.leave();
    }

    /// Ticks every node, in order (`alive[i][k]` tells whether the k-th server
    /// of the i-th node is alive). A failing node does not stop the others:
    /// every failure of every node is collected.
    pub fn tick(&mut self, alive: &Vec<Vec<bool>>) -> (r: Result<(), Vec<ScopedError>>)
        requires
            old(self).wf(),
            !old(self).spec_busy(),
            alive@.len() == old(self).spec_nodes().len(),
            forall|i: int|
                0 <= i < alive@.len() ==> (#[trigger] alive@[i])@.len() == old(
                    self,
                ).spec_nodes()[i].spec_servers().len(),
        ensures
            final(self).wf(),
            final(self).spec_busy() == old(self).spec_busy(),
            final(self).spec_released() == old(self).spec_released(),
            final(self).spec_nodes().len() == old(self).spec_nodes().len(),
            forall|i: int|
                0 <= i < old(self).spec_nodes().len() ==> after_tick(
                    old(self).spec_nodes()[i].spec_servers(),
                    (#[trigger] final(self).spec_nodes()[i]).spec_servers(),
                    alive@[i]@,
                ) && final(self).spec_nodes()[i].spec_allocations() == old(
                    self,
                ).spec_nodes()[i].spec_allocations(),
            r is Ok <==> tick_scopes(old(self).spec_nodes(), alive@).len() == 0,
            r is Err ==> r->Err_0@.map_values(|e: ScopedError| e.scope@) == tick_scopes(
                old(self).spec_nodes(),
                alive@,
            ) && forall|j: int|
                0 <= j < r->Err_0@.len() ==> (#[trigger] r->Err_0@[j]).message@ == crash_message(),
    {
        let _granted = self.try_enter();
        let ghost start = self.nodes@;
        let mut errors: Vec<ScopedError> = Vec::new();
        let mut i: usize = 0;
        while i < self.nodes.len()
            invariant
                i <= start.len(),
                self.nodes@.len() == start.len(),
                self.busy,
                self.dropped == old(self).dropped,
                alive@.len() == start.len(),
                forall|k: int|
                    0 <= k < alive@.len() ==> (#[trigger] alive@[k])@.len()
                        == start[k].spec_servers().len(),
                forall|k: int| 0 <= k < start.len() ==> (#[trigger] start[k]).wf(),
                forall|k: int| 0 <= k < start.len() ==> (#[trigger] self.nodes@[k]).wf(),
                forall|k: int| i <= k < start.len() ==> #[trigger] self.nodes@[k] == start[k],
                forall|k: int|
                    0 <= k < i ==> after_tick(
                        start[k].spec_servers(),
                        (#[trigger] self.nodes@[k]).spec_servers(),
                        alive@[k]@,
                    ) && self.nodes@[k].spec_allocations() == start[k].spec_allocations(),
                errors@.map_values(|e: ScopedError| e.scope@) == tick_scopes(
                    start.take(i as int),
                    alive@,
                ),
                forall|j: int| 0 <= j < errors@.len() ==> (#[trigger] errors@[j]).message@ == crash_message(),
            decreases start.len() - i,
        {
            let mut node = self.nodes.remove(i);
            let outcome = node.tick(&alive[i]);
            self.nodes.insert(i, node);
            let ghost before = errors@;
            match outcome {
                Ok(()) => {},
                Err(mut more) => {
                    errors.append(&mut more);
                },
            }
            proof {
                let servers = start[i as int].spec_servers();
                let dead = crashed(servers, alive@[i as int]@);
                let scopes = dead.map_values(|k: int| servers[k].name@);
                assert(start.take(i as int + 1).drop_last() =~= start.take(i as int));
                assert(start.take(i as int + 1)[i as int] == start[i as int]);
                assert(errors@.map_values(|e: ScopedError| e.scope@) =~= tick_scopes(
                    start.take(i as int),
                    alive@,
                ) + scopes);
            }
            i = i + 1;
        }
        proof {
            assert(start.take(start.len() as int) =~= start);
        }
        self.leave();
        if errors.len() == 0 {
            Ok(())
        } else {
            Err(errors)
        }
    }
}

/// While one call is inside the context a second one is refused; once the
/// first has left, the next is let in.
pub proof fn lemma_calls_exclusive(busy: bool)
    ensures
        entry(busy).0 ==> !entry(entry(busy).1).0,
        entry(false).0,
{
}

/// An instance discarded without a successful cleanup reports a leak; one
/// whose cleanup succeeded reports none, whatever was tried before.
pub proof fn lemma_leak_detection(released: bool)
    ensures
        !released_after(false, false),
        released_after(released, true),
{
}

/// The outcome of a `tick` or `shutdown` pass as the host reports it: every
/// failure of the pass, one line each, in one error.
pub fn pass_outcome(result: Result<(), Vec<ScopedError>>) -> (r: Result<(), String>)
    ensures
        result is Ok <==> r is Ok,
        result is Err ==> r->Err_0@ == joined_report(result->Err_0@),
{
    match result {
        Ok(()) => Ok(()),
        Err(errors) => Err(join_errors(&errors)),
    }
}

} // verus!
