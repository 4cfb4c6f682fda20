use atomic_cloud::allocation::AllocationError;
use atomic_cloud::contract::{Address, Capabilities, Guard, ScreenType, Server, ServerProposal};
use atomic_cloud::node::Node;
use atomic_cloud::server::ServerState;

fn node_with(max_servers: u32) -> Node {
    Node::new(
        "node-1".to_string(),
        "Local".to_string(),
        Capabilities { memory: 4096, max_servers, child: None },
        "http://127.0.0.1:8080".to_string(),
        "10.0.0.5".to_string(),
        25565,
    )
}

fn proposal(name: &str, ports: u32) -> ServerProposal {
    ServerProposal { name: name.to_string(), memory: 1024, ports }
}

fn server(name: &str, allocation: Vec<Address>) -> Server {
    Server { name: name.to_string(), allocation }
}

fn ports(addresses: &[Address]) -> Vec<u16> {
    addresses.iter().map(|a| a.port).collect()
}

#[test]
fn new_node_keeps_identity() {
    let node = node_with(3);
    assert_eq!(node.identifier(), "node-1");
    assert_eq!(node.name(), "Local");
    assert_eq!(node.controller(), "http://127.0.0.1:8080");
    assert_eq!(node.capacity(), 3);
}

#[test]
fn allocate_returns_distinct_free_addresses() {
    let mut node = node_with(5);
    let first = node.allocate(&proposal("a", 2)).unwrap();
    assert_eq!(ports(&first), vec![25565, 25566]);
    assert!(first.iter().all(|a| a.host == "10.0.0.5"));
    let second = node.allocate(&proposal("b", 3)).unwrap();
    assert_eq!(ports(&second), vec![25567, 25568, 25569]);
}

#[test]
fn allocate_zero_addresses() {
    let mut node = node_with(0);
    let none = node.allocate(&proposal("a", 0)).unwrap();
    assert!(none.is_empty());
}

#[test]
fn allocation_beyond_capacity_takes_nothing() {
    let mut node = node_with(3);
    node.allocate(&proposal("a", 2)).unwrap();
    assert_eq!(node.allocate(&proposal("b", 2)), Err(AllocationError::CapacityExhausted));
    // The single free address is still there.
    let last = node.allocate(&proposal("c", 1)).unwrap();
    assert_eq!(ports(&last), vec![25567]);
}

#[test]
fn capacity_two_scenario() {
    let mut node = node_with(2);
    let a = node.allocate(&proposal("a", 1)).unwrap();
    let b = node.allocate(&proposal("b", 1)).unwrap();
    assert_eq!(a.len(), 1);
    assert_eq!(b.len(), 1);
    assert_ne!(a[0].port, b[0].port);
    assert_eq!(node.allocate(&proposal("c", 1)), Err(AllocationError::CapacityExhausted));
    let freed_port = a[0].port;
    node.free(a);
    let d = node.allocate(&proposal("d", 1)).unwrap();
    assert_eq!(ports(&d), vec![freed_port]);
}

#[test]
fn free_makes_addresses_free_again() {
    let mut node = node_with(2);
    let a = node.allocate(&proposal("a", 2)).unwrap();
    node.free(a);
    let again = node.allocate(&proposal("b", 2)).unwrap();
    assert_eq!(ports(&again), vec![25565, 25566]);
}

#[test]
fn free_twice_leaves_other_allocations() {
    let mut node = node_with(3);
    let a = node.allocate(&proposal("a", 1)).unwrap();
    let b = node.allocate(&proposal("b", 1)).unwrap();
    node.free(a.clone());
    node.free(a);
    // Only the first port is free: b's port stays taken.
    let c = node.allocate(&proposal("c", 2)).unwrap();
    assert_eq!(ports(&c), vec![25565, 25567]);
    assert_eq!(ports(&b), vec![25566]);
    assert_eq!(node.allocate(&proposal("d", 1)), Err(AllocationError::CapacityExhausted));
}

#[test]
fn free_ignores_foreign_ports() {
    let mut node = node_with(1);
    node.allocate(&proposal("a", 1)).unwrap();
    node.free(vec![Address { host: "10.0.0.5".to_string(), port: 80 }]);
    assert_eq!(node.allocate(&proposal("b", 1)), Err(AllocationError::CapacityExhausted));
}

#[test]
fn start_returns_screen_and_runs() {
    let mut node = node_with(2);
    let a = node.allocate(&proposal("alpha", 1)).unwrap();
    let screen = node.start(server("alpha", a));
    assert!(matches!(screen, ScreenType::Supported(ref name) if name == "alpha"));
    assert_eq!(node.server_state(&"alpha".to_string()), Some(ServerState::Running));
    assert_eq!(node.server_state(&"beta".to_string()), None);
}

#[test]
fn restart_keeps_addresses() {
    let mut node = node_with(2);
    let a = node.allocate(&proposal("alpha", 2)).unwrap();
    node.start(server("alpha", a));
    node.restart(server("alpha", vec![]));
    assert_eq!(node.server_state(&"alpha".to_string()), Some(ServerState::Running));
    assert_eq!(node.allocate(&proposal("beta", 1)), Err(AllocationError::CapacityExhausted));
}

#[test]
fn stop_releases_addresses() {
    let mut node = node_with(2);
    let a = node.allocate(&proposal("alpha", 2)).unwrap();
    node.start(server("alpha", a));
    node.stop(server("alpha", vec![]), Guard { id: 7 });
    assert_eq!(node.server_state(&"alpha".to_string()), None);
    let again = node.allocate(&proposal("beta", 2)).unwrap();
    assert_eq!(ports(&again), vec![25565, 25566]);
}

#[test]
fn tick_reports_only_the_dead_server() {
    let mut node = node_with(3);
    for name in ["one", "two", "three"] {
        let a = node.allocate(&proposal(name, 1)).unwrap();
        node.start(server(name, a));
    }
    let errors = node.tick(&vec![true, false, true]).unwrap_err();
    assert_eq!(errors.len(), 1);
    assert_eq!(errors[0].scope, "two");
    assert_eq!(errors[0].message, "The server process is no longer running");
    assert_eq!(node.server_state(&"one".to_string()), Some(ServerState::Running));
    assert_eq!(node.server_state(&"two".to_string()), Some(ServerState::Stopped));
    assert_eq!(node.server_state(&"three".to_string()), Some(ServerState::Running));
}

#[test]
fn tick_with_all_alive_is_ok() {
    let mut node = node_with(2);
    for name in ["one", "two"] {
        let a = node.allocate(&proposal(name, 1)).unwrap();
        node.start(server(name, a));
    }
    assert!(node.tick(&vec![true, true]).is_ok());
    assert!(node_with(0).tick(&vec![]).is_ok());
}

#[test]
fn free_ignores_other_hosts() {
    let mut node = node_with(1);
    let a = node.allocate(&proposal("a", 1)).unwrap();
    node.free(vec![Address { host: "10.0.0.9".to_string(), port: a[0].port }]);
    assert_eq!(node.allocate(&proposal("b", 1)), Err(AllocationError::CapacityExhausted));
    node.free(a);
    assert!(node.allocate(&proposal("c", 1)).is_ok());
}

#[test]
fn stop_keeps_addresses_of_other_servers() {
    let mut node = node_with(2);
    let a = node.allocate(&proposal("alpha", 2)).unwrap();
    node.start(server("alpha", a.clone()));
    node.start(server("beta", vec![a[1].clone()]));
    node.stop(server("alpha", vec![]), Guard { id: 1 });
    // Only the address that beta is not bound to came back.
    let again = node.allocate(&proposal("gamma", 1)).unwrap();
    assert_eq!(ports(&again), vec![25565]);
    assert_eq!(node.allocate(&proposal("delta", 1)), Err(AllocationError::CapacityExhausted));
}
