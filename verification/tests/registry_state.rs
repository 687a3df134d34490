use openmeters::registry::{
    format_target_metadata, parse_metadata_name, AudioChannel, Direction, GraphPort, NodeInfo,
};
use openmeters::registry_state::RegistryState;
use openmeters::registry::adopts_routing_metadata;

fn node(id: u32, name: &str) -> NodeInfo {
    NodeInfo {
        id,
        name: Some(name.into()),
        media_class: Some("Audio/Sink".into()),
        direction: Direction::Input,
        ..Default::default()
    }
}

fn ids(state: &RegistryState) -> Vec<u32> {
    state.snapshot().nodes.iter().map(|n| n.id).collect()
}

#[test]
fn snapshots_list_announced_nodes_in_id_order() {
    let mut state = RegistryState::new();
    assert_eq!(state.serial, 0);
    assert!(state.upsert_node(node(5, "speakers")));
    assert!(state.upsert_node(node(3, "headphones")));
    assert!(!state.upsert_node(node(5, "speakers")));
    assert_eq!(state.serial, 2);
    assert_eq!(ids(&state), vec![3, 5]);

    assert!(state.upsert_node(node(5, "monitor")));
    let snapshot = state.snapshot();
    assert_eq!(snapshot.serial, 3);
    assert_eq!(snapshot.nodes[1].name.as_deref(), Some("monitor"));

    assert!(state.remove_node(5));
    assert!(!state.remove_node(5));
    assert_eq!(ids(&state), vec![3]);
    assert_eq!(state.serial, 4);

    state.add_device();
    let snapshot = state.snapshot();
    assert_eq!((snapshot.device_count, snapshot.serial), (1, 5));
}

#[test]
fn default_sink_follows_metadata_and_nodes() {
    let mut state = RegistryState::new();
    state.upsert_node(node(5, "speakers"));
    assert!(state.apply_metadata_property(
        1,
        0,
        Some("default.audio.sink"),
        Some("Spa:String:JSON"),
        Some("{\"name\":\"speakers\"}")
    ));
    let sink = state.snapshot().defaults.audio_sink.expect("sink target");
    assert_eq!(sink.name.as_deref(), Some("speakers"));
    assert_eq!(sink.node_id, Some(5));
    assert_eq!(sink.metadata_id, Some(1));
    // The announcement names no node, so it replaces the node found by name.
    assert!(state.apply_metadata_property(
        1,
        0,
        Some("default.audio.sink"),
        Some("Spa:String:JSON"),
        Some("{\"name\":\"speakers\"}")
    ));
    assert_eq!(
        state.snapshot().defaults.audio_sink.and_then(|t| t.node_id),
        Some(5)
    );
    assert!(!state.apply_metadata_property(1, 0, Some("other.key"), None, Some("x")));

    assert!(state.remove_node(5));
    let sink = state.snapshot().defaults.audio_sink.expect("sink kept by name");
    assert_eq!(sink.node_id, None);
    assert_eq!(sink.name.as_deref(), Some("speakers"));

    state.upsert_node(node(9, "speakers"));
    let sink = state.snapshot().defaults.audio_sink.expect("sink found again");
    assert_eq!(sink.node_id, Some(9));

    // Clearing what metadata object 1 set counts as a change, but a target
    // that still has a name stays.
    assert!(state.apply_metadata_property(1, 0, None, None, None));
    assert!(!state.apply_metadata_property(2, 0, None, None, None));
    let sink = state.snapshot().defaults.audio_sink.expect("named target stays");
    assert_eq!(sink.name.as_deref(), Some("speakers"));
}

#[test]
fn ports_are_kept_per_node_and_removed_by_global_id() {
    let mut state = RegistryState::new();
    let port = GraphPort {
        global_id: 40,
        port_id: 0,
        node_id: 3,
        channel: AudioChannel::parse("FL"),
        direction: Direction::Input,
        is_monitor: false,
    };
    assert!(!state.upsert_port(port));
    state.upsert_node(node(3, "sink"));
    assert!(state.upsert_port(port));
    assert!(!state.upsert_port(port));
    let renamed = GraphPort {
        channel: AudioChannel::parse("FR"),
        ..port
    };
    assert!(state.upsert_port(renamed));
    assert_eq!(state.snapshot().nodes[0].ports, vec![renamed]);
    assert!(state.remove_port(40));
    assert!(!state.remove_port(40));
    assert!(state.snapshot().nodes[0].ports.is_empty());
}

#[test]
fn metadata_names_come_from_json_or_plain_text() {
    assert_eq!(
        parse_metadata_name(Some("Spa:String:JSON"), "{\"name\":\"alsa_output.usb\"}"),
        Some("alsa_output.usb".to_string())
    );
    assert_eq!(
        parse_metadata_name(None, "  {\"name\": \"sink\"}  "),
        Some("sink".to_string())
    );
    assert_eq!(
        parse_metadata_name(Some("spa:string:json"), "\"quoted\""),
        Some("quoted".to_string())
    );
    assert_eq!(parse_metadata_name(Some("Spa:String:JSON"), "{not json"), None);
    assert_eq!(parse_metadata_name(Some("Spa:String:JSON"), "{\"name\": 3}"), None);
    assert_eq!(parse_metadata_name(Some("Spa:String:JSON"), "[1]"), None);
    assert_eq!(
        parse_metadata_name(None, "  plain.sink \n"),
        Some("plain.sink".to_string())
    );
    assert_eq!(parse_metadata_name(None, "   "), None);
}

#[test]
fn target_metadata_prefers_the_object_serial() {
    assert_eq!(
        format_target_metadata(Some(" 1234 "), 56),
        ("1234".to_string(), "56".to_string())
    );
    assert_eq!(
        format_target_metadata(Some("   "), 56),
        ("56".to_string(), "56".to_string())
    );
    assert_eq!(
        format_target_metadata(None, 0),
        ("0".to_string(), "0".to_string())
    );
}

#[test]
fn routing_prefers_settings_or_default_metadata() {
    assert!(adopts_routing_metadata(Some("settings"), true));
    assert!(adopts_routing_metadata(Some("DEFAULT"), true));
    assert!(!adopts_routing_metadata(Some("route-settings"), true));
    assert!(adopts_routing_metadata(Some("route-settings"), false));
    assert!(adopts_routing_metadata(None, false));
    assert!(!adopts_routing_metadata(None, true));
}
