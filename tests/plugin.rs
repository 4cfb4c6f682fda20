use std::sync::Arc;

use atomic_cloud::contract;
use atomic_cloud::driver::{eq_ignore_ascii_case, Drivers, GenericDriver, LoadedDriver, Source};
use atomic_cloud::error::{join_errors, ScopedError};
use atomic_cloud::plugin::{pass_outcome, Capabilities, Features, Information, InitNodeError, Plugin};
use atomic_cloud::runtime;

fn driver(name: &str) -> Arc<LoadedDriver> {
    Arc::new(LoadedDriver::new(
        name.to_string(),
        Source::new(format!("drivers/{}.wasm", name.to_lowercase()), vec![0, 97, 115, 109]),
    ))
}

#[test]
fn lookup_ignores_case() {
    let drivers = Drivers::new(vec![driver("Pterodactyl"), driver("Pelican")]);
    let found = drivers.find_by_name("pelican").unwrap();
    assert_eq!(found.name(), "Pelican");
    assert_eq!(drivers.find_by_name("PTERODACTYL").unwrap().name(), "Pterodactyl");
    assert!(drivers.find_by_name("pelican2").is_none());
    assert!(drivers.find_by_name("").is_none());
    assert_eq!(drivers.len(), 2);
}

#[test]
fn lookup_prefers_first_loaded() {
    let first = driver("Local");
    let drivers = Drivers::new(vec![first.clone(), driver("LOCAL")]);
    assert!(Arc::ptr_eq(&drivers.find_by_name("local").unwrap(), &first));
}

#[test]
fn ascii_case_comparison() {
    assert!(eq_ignore_ascii_case("Pelican", "pELICAN"));
    assert!(!eq_ignore_ascii_case("Pelican", "Pelica"));
    assert!(!eq_ignore_ascii_case("a[", "A{"));
    assert!(eq_ignore_ascii_case("Größe", "GRößE"));
    assert!(!eq_ignore_ascii_case("ö", "Ö"));
}

#[test]
fn source_holds_bytes() {
    let source = runtime::Source::new("plugins/local.wasm".to_string(), vec![1, 2, 3]);
    assert_eq!(source.get_source(), &[1, 2, 3]);
    assert_eq!(source.path(), "plugins/local.wasm");
}

#[test]
fn exclusive_calls() {
    let mut plugin = Plugin::new();
    assert!(plugin.try_enter());
    assert!(!plugin.try_enter());
    plugin.leave();
    assert!(plugin.try_enter());
}

#[test]
fn leak_reported_without_cleanup() {
    let plugin = Plugin::new();
    assert_eq!(
        plugin.leak_report(),
        Some("Resource was not dropped before being deallocated (memory leak)".to_string())
    );
}

#[test]
fn no_leak_after_cleanup() {
    let mut plugin = Plugin::new();
    assert_eq!(plugin.finish_cleanup::<String>(Err("trap".to_string())), Err("trap".to_string()));
    assert!(plugin.leak_report().is_some());
    assert_eq!(plugin.finish_cleanup::<String>(Ok(())), Ok(()));
    assert_eq!(plugin.leak_report(), None);
}

#[test]
fn tick_errors_are_joined() {
    let errors = vec![
        ScopedError::new("alpha".to_string(), "crashed".to_string()),
        ScopedError::new("beta".to_string(), "timed out".to_string()),
    ];
    assert_eq!(
        join_errors(&errors),
        "Scope: alpha, Message: crashed\nScope: beta, Message: timed out"
    );
    assert_eq!(join_errors(&vec![]), "");
    assert_eq!(pass_outcome(Ok(())), Ok(()));
    assert_eq!(
        pass_outcome(Err(vec![ScopedError::new("x".to_string(), "y".to_string())])),
        Err("Scope: x, Message: y".to_string())
    );
}

#[test]
fn features_keep_node_flag_only() {
    assert!(Features::from_wire(contract::Features { bits: 1 }).node());
    assert!(Features::from_wire(contract::Features { bits: 3 }).node());
    assert!(!Features::from_wire(contract::Features { bits: 2 }).node());
    assert!(!Features::empty().node());
}

#[test]
fn information_drops_unknown_flags() {
    let info = Information::from_wire(contract::Information {
        authors: vec![],
        version: "0.1".to_string(),
        features: contract::Features { bits: 6 },
        ready: false,
    });
    assert!(!info.features.node());
    assert!(!info.ready);
}

#[test]
fn information_carried_over() {
    let info = Information::from_wire(contract::Information {
        authors: vec!["HttpRafa".to_string()],
        version: "1.0.0".to_string(),
        features: contract::Features { bits: 1 },
        ready: true,
    });
    assert_eq!(info.authors, vec!["HttpRafa".to_string()]);
    assert_eq!(info.version, "1.0.0");
    assert!(info.features.node());
    assert!(info.ready);
}

#[test]
fn capabilities_round_trip() {
    let sent = Capabilities::new(8192, 12, Some("shard-3".to_string()));
    let wire = sent.to_wire();
    assert_eq!(wire.memory, 8192);
    assert_eq!(wire.max_servers, 12);
    assert_eq!(wire.child, Some("shard-3".to_string()));
    let back = Capabilities::from_wire(&wire);
    assert_eq!(back.memory(), 8192);
    assert_eq!(back.max_servers(), 12);
    assert_eq!(back.child(), &Some("shard-3".to_string()));
    let plain = Capabilities::from_wire(&Capabilities::new(0, 0, None).to_wire());
    assert_eq!(plain.child(), &None);
}

#[test]
fn init_node_returns_handles() {
    let mut plugin = Plugin::new();
    let limits = Capabilities::new(2048, 2, Some("eu-1".to_string()));
    let first = plugin
        .init_node("n1".to_string(), "One".to_string(), &limits, "http://c".to_string(), "10.0.0.1".to_string(), 30000)
        .unwrap();
    let second = plugin
        .init_node("n2".to_string(), "Two".to_string(), &limits, "http://c".to_string(), "10.0.0.2".to_string(), 30000)
        .unwrap();
    assert_eq!((first, second), (0, 1));
    assert_eq!(plugin.node_count(), 2);
    assert_eq!(plugin.node(1).name(), "Two");
    assert_eq!(plugin.node(0).capacity(), 2);
}

#[test]
fn init_node_rejects_bad_ports_and_released_instance() {
    let mut plugin = Plugin::new();
    let limits = Capabilities::new(2048, 10, None);
    assert_eq!(
        plugin.init_node("n".to_string(), "N".to_string(), &limits, "c".to_string(), "h".to_string(), 65530),
        Err(InitNodeError::PortsOutOfRange)
    );
    assert_eq!(plugin.finish_cleanup::<String>(Ok(())), Ok(()));
    assert_eq!(
        plugin.init_node("n".to_string(), "N".to_string(), &limits, "c".to_string(), "h".to_string(), 1000),
        Err(InitNodeError::Released)
    );
    assert_eq!(plugin.node_count(), 0);
}

#[test]
fn plugin_tick_collects_failures_of_all_nodes() {
    let mut plugin = Plugin::new();
    let limits = Capabilities::new(2048, 3, None);
    for id in ["a", "b"] {
        plugin
            .init_node(id.to_string(), id.to_string(), &limits, "c".to_string(), "h".to_string(), 40000)
            .unwrap();
    }
    for (handle, name) in [(0, "a1"), (0, "a2"), (1, "b1")] {
        let proposal = contract::ServerProposal { name: name.to_string(), memory: 512, ports: 1 };
        let addresses = plugin.allocate(handle, &proposal).unwrap();
        plugin.start(handle, contract::Server { name: name.to_string(), allocation: addresses });
    }
    let errors = plugin.tick(&vec![vec![false, true], vec![false]]).unwrap_err();
    let scopes: Vec<&str> = errors.iter().map(|e| e.scope.as_str()).collect();
    assert_eq!(scopes, vec!["a1", "b1"]);
    // Once stopped, a dead server is not reported again.
    assert!(plugin.tick(&vec![vec![false, true], vec![false]]).is_ok());
}

#[test]
fn plugin_routes_calls_to_the_right_node() {
    let mut plugin = Plugin::new();
    let limits = Capabilities::new(2048, 1, None);
    for id in ["a", "b"] {
        plugin
            .init_node(id.to_string(), id.to_string(), &limits, "c".to_string(), "h".to_string(), 50000)
            .unwrap();
    }
    let proposal = contract::ServerProposal { name: "s".to_string(), memory: 512, ports: 1 };
    let taken = plugin.allocate(0, &proposal).unwrap();
    assert_eq!(taken[0].port, 50000);
    assert!(plugin.allocate(0, &proposal).is_err());
    assert_eq!(plugin.allocate(1, &proposal).unwrap()[0].port, 50000);
    plugin.start(0, contract::Server { name: "s".to_string(), allocation: taken });
    plugin.restart(0, contract::Server { name: "s".to_string(), allocation: vec![] });
    plugin.stop(0, contract::Server { name: "s".to_string(), allocation: vec![] }, contract::Guard { id: 1 });
    assert_eq!(plugin.allocate(0, &proposal).unwrap()[0].port, 50000);
    plugin.free(1, vec![contract::Address { host: "h".to_string(), port: 50000 }]);
    assert!(plugin.allocate(1, &proposal).is_ok());
}
