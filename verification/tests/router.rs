use openmeters::registry::{
    AudioChannel, DefaultTarget, Direction, GraphPort, LinkSpec, MetadataDefaults, NodeInfo,
    RegistrySnapshot,
};
use openmeters::router::{restore_calls, RestoreCall, RoutingManager};
use openmeters::routing::{CaptureMode, DeviceSelection, RoutingCommand};

fn port(node: u32, id: u32, channel: &str, direction: Direction, monitor: bool) -> GraphPort {
    GraphPort {
        global_id: node * 100 + id,
        port_id: id,
        node_id: node,
        channel: AudioChannel::parse(channel),
        direction,
        is_monitor: monitor,
    }
}

fn stereo_ports(node: u32) -> Vec<GraphPort> {
    vec![
        port(node, 0, "FL", Direction::Input, false),
        port(node, 1, "FR", Direction::Input, false),
        port(node, 2, "FL", Direction::Output, true),
        port(node, 3, "FR", Direction::Output, true),
    ]
}

fn virtual_sink() -> NodeInfo {
    NodeInfo {
        id: 50,
        name: Some("openmeters.sink".into()),
        description: Some("OpenMeters Sink".into()),
        media_class: Some("Audio/Sink".into()),
        direction: Direction::Input,
        is_virtual: true,
        ports: stereo_ports(50),
        ..Default::default()
    }
}

fn hardware_sink() -> NodeInfo {
    NodeInfo {
        id: 60,
        name: Some("alsa_output.pci".into()),
        description: Some("Speakers".into()),
        media_class: Some("Audio/Sink".into()),
        direction: Direction::Input,
        ports: stereo_ports(60),
        ..Default::default()
    }
}

fn player(id: u32) -> NodeInfo {
    NodeInfo {
        id,
        name: Some(format!("player-{id}")),
        media_class: Some("Stream/Output/Audio".into()),
        direction: Direction::Output,
        app_name: Some("Player".into()),
        ..Default::default()
    }
}

fn snapshot(nodes: Vec<NodeInfo>) -> RegistrySnapshot {
    RegistrySnapshot {
        serial: 1,
        nodes,
        device_count: 0,
        defaults: MetadataDefaults {
            audio_sink: Some(DefaultTarget {
                metadata_id: Some(1),
                node_id: Some(60),
                name: Some("alsa_output.pci".into()),
                type_hint: None,
            }),
            audio_source: None,
        },
    }
}

fn link(output_node: u32, output_port: u32, input_node: u32, input_port: u32) -> LinkSpec {
    LinkSpec {
        output_node,
        output_port,
        input_node,
        input_port,
    }
}

#[test]
fn application_capture_loops_the_virtual_sink_into_the_hardware_sink() {
    let snap = snapshot(vec![virtual_sink(), hardware_sink(), player(70)]);
    let mut routing = RoutingManager::new();
    assert_eq!(
        routing.compute_links(&snap),
        Some(vec![link(50, 2, 60, 0), link(50, 3, 60, 1)])
    );
    assert_eq!(
        routing.hw_sink_cache,
        Some((60, "alsa_output.pci".to_string()))
    );
}

#[test]
fn device_capture_loops_the_device_into_the_virtual_sink() {
    let snap = snapshot(vec![virtual_sink(), hardware_sink()]);
    let mut routing = RoutingManager::new();
    assert!(routing.handle_command(RoutingCommand::SetCaptureState(
        CaptureMode::Device,
        DeviceSelection::Default
    )));
    assert_eq!(
        routing.compute_links(&snap),
        Some(vec![link(60, 2, 50, 0), link(60, 3, 50, 1)])
    );
    assert!(!routing.handle_command(RoutingCommand::SetCaptureState(
        CaptureMode::Device,
        DeviceSelection::Default
    )));
    assert!(routing.handle_command(RoutingCommand::SetCaptureState(
        CaptureMode::Device,
        DeviceSelection::Device("Speakers".into())
    )));
    assert_eq!(
        routing.compute_links(&snap),
        Some(vec![link(60, 2, 50, 0), link(60, 3, 50, 1)])
    );
}

#[test]
fn no_virtual_sink_means_no_links_and_no_routes() {
    let snap = snapshot(vec![hardware_sink(), player(70)]);
    let mut routing = RoutingManager::new();
    assert_eq!(routing.compute_links(&snap), None);
    assert!(routing.route_plan(&snap).is_empty());
    assert_eq!(routing.hw_sink_cache, None);
}

#[test]
fn pending_links_are_offered_until_taken() {
    let snap = snapshot(vec![virtual_sink(), hardware_sink()]);
    let mut routing = RoutingManager::new();
    let links = routing.pending_links(&snap).expect("new links");
    assert_eq!(links, vec![link(50, 2, 60, 0), link(50, 3, 60, 1)]);
    routing.links_set(links);
    assert_eq!(routing.pending_links(&snap), None);

    let without_sink = snapshot(vec![hardware_sink()]);
    assert_eq!(routing.pending_links(&without_sink), Some(Vec::new()));
}

#[test]
fn applications_follow_the_capture_choice() {
    let snap = snapshot(vec![virtual_sink(), hardware_sink(), player(70), player(71)]);
    let mut routing = RoutingManager::new();
    assert_eq!(routing.route_plan(&snap), vec![(70, 50), (71, 50)]);
    routing.record_route(70, 50);
    assert_eq!(routing.route_plan(&snap), vec![(71, 50)]);
    routing.record_route(71, 50);
    assert!(routing.route_plan(&snap).is_empty());

    assert!(routing.handle_command(RoutingCommand::SetApplicationEnabled {
        node_id: 71,
        enabled: false
    }));
    assert!(!routing.handle_command(RoutingCommand::SetApplicationEnabled {
        node_id: 71,
        enabled: false
    }));
    assert_eq!(routing.route_plan(&snap), vec![(71, 60)]);

    routing.handle_command(RoutingCommand::SetCaptureState(
        CaptureMode::Device,
        DeviceSelection::Default,
    ));
    assert_eq!(routing.route_plan(&snap), vec![(70, 60), (71, 60)]);
}

#[test]
fn applications_without_a_sink_are_forgotten() {
    let mut no_default = snapshot(vec![virtual_sink(), player(70)]);
    no_default.defaults.audio_sink = None;
    let mut routing = RoutingManager::new();
    routing.record_route(70, 60);
    routing.handle_command(RoutingCommand::SetCaptureState(
        CaptureMode::Device,
        DeviceSelection::Default,
    ));
    assert!(routing.route_plan(&no_default).is_empty());
    assert!(routing.routed_to.is_empty());
}

#[test]
fn pruning_forgets_nodes_that_left() {
    let mut routing = RoutingManager::new();
    routing.record_route(70, 50);
    routing.record_route(71, 50);
    routing.handle_command(RoutingCommand::SetApplicationEnabled {
        node_id: 71,
        enabled: false,
    });
    routing.hw_sink_cache = Some((99, "gone".into()));
    routing.prune(&snapshot(vec![virtual_sink(), player(70)]));
    assert_eq!(routing.routed_to.len(), 1);
    assert_eq!(routing.routed_to.get(&70), Some(&50));
    assert!(routing.disabled_nodes.is_empty());
    assert_eq!(routing.hw_sink_cache, None);
}

#[test]
fn cached_hardware_sink_is_found_again_by_label() {
    let mut snap = snapshot(vec![virtual_sink(), hardware_sink()]);
    let mut routing = RoutingManager::new();
    assert_eq!(routing.hw_sink(&snap).map(|n| n.id), Some(60));
    snap.defaults.audio_sink = None;
    let mut moved = hardware_sink();
    moved.id = 61;
    snap.nodes[1] = moved;
    assert_eq!(routing.hw_sink(&snap).map(|n| n.id), Some(61));
    assert_eq!(
        routing.hw_sink_cache,
        Some((61, "alsa_output.pci".to_string()))
    );
}

#[test]
fn shutdown_restores_every_routed_application() {
    let snap = snapshot(vec![virtual_sink(), hardware_sink(), player(70), player(71)]);
    let mut routing = RoutingManager::new();
    assert!(routing.restore_plan(&snap).is_empty());
    routing.record_route(71, 50);
    routing.record_route(70, 50);
    routing.record_route(99, 50);
    assert_eq!(
        routing.restore_plan(&snap),
        vec![(70, Some(60)), (71, Some(60))]
    );
    let mut no_default = snap.clone();
    no_default.defaults.audio_sink = None;
    let mut fresh = RoutingManager::new();
    fresh.record_route(70, 50);
    assert_eq!(fresh.restore_plan(&no_default), vec![(70, None)]);
}

#[test]
fn stopping_sends_routed_nodes_back_then_resets_and_destroys() {
    let plan = vec![(70, Some(50)), (71, None)];
    assert_eq!(
        restore_calls(true, Some(&plan)),
        vec![
            RestoreCall::Route(70, 50),
            RestoreCall::Reset(71),
            RestoreCall::Sync,
            RestoreCall::Reset(70),
            RestoreCall::Reset(71),
            RestoreCall::Destroy,
        ]
    );
    assert_eq!(
        restore_calls(true, Some(&Vec::new())),
        vec![RestoreCall::Sync, RestoreCall::Destroy]
    );
    assert_eq!(restore_calls(false, Some(&plan)), vec![RestoreCall::Destroy]);
    assert!(restore_calls(true, None).is_empty());
}
