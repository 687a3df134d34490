use openmeters::pairing::pair_ports_by_channel;
use openmeters::registry::{
    derive_node_direction, AudioChannel, DefaultTarget, Direction, GraphPort, MetadataDefaults,
    NodeDirection, NodeInfo, RegistrySnapshot,
};
use std::collections::HashMap;

fn port(id: u32, channel: Option<&str>) -> GraphPort {
    GraphPort {
        global_id: 100 + id,
        port_id: id,
        node_id: 1,
        channel: channel.and_then(AudioChannel::parse),
        direction: Direction::Output,
        is_monitor: false,
    }
}

fn ports(items: &[(u32, Option<&str>)]) -> Vec<GraphPort> {
    items.iter().map(|&(id, ch)| port(id, ch)).collect()
}

#[test]
fn pair_ports_by_channel_behavior() {
    let ids = |sources, targets| -> Vec<(u32, u32)> {
        pair_ports_by_channel(&ports(sources), &ports(targets))
            .iter()
            .map(|(s, t)| (s.port_id, t.port_id))
            .collect()
    };

    for (sources, targets, expected) in [
        (
            &[(0, Some("FL"))][..],
            &[(0, Some("FL"))][..],
            &[(0, 0)][..],
        ),
        (&[(0, Some("FL"))], &[(1, Some("FL"))], &[(0, 1)]),
        (
            &[(1, Some("FR"))],
            &[(0, Some("FL")), (1, Some("FR"))],
            &[(1, 1)],
        ),
        (
            &[(1, Some("FR")), (0, Some("FL"))],
            &[(1, Some("FR")), (0, Some("FL"))],
            &[(0, 0), (1, 1)],
        ),
        (
            &[(0, None), (1, None)],
            &[(0, None), (1, None)],
            &[(0, 0), (1, 1)],
        ),
        (&[(0, Some("UNK"))], &[(0, Some("FL"))], &[(0, 0)]),
        (&[(0, Some("FL"))], &[(0, Some("UNK"))], &[(0, 0)]),
        (
            &[(0, Some("FL")), (1, Some("FR"))],
            &[(0, Some("FL"))],
            &[(0, 0)],
        ),
    ] {
        assert_eq!(ids(sources, targets), expected);
    }

    let ch51 = ["FL", "FR", "FC", "LFE", "RL", "RR"];
    let src: Vec<_> = ch51
        .iter()
        .enumerate()
        .map(|(i, c)| port(i as u32, Some(c)))
        .collect();
    let tgt: Vec<_> = ch51
        .iter()
        .enumerate()
        .rev()
        .map(|(i, c)| port(i as u32, Some(c)))
        .collect();
    assert!(pair_ports_by_channel(&src, &tgt)
        .iter()
        .all(|(s, t)| s.channel == t.channel));
}

#[test]
fn capture_device_tokens_prefer_names_then_descriptions_and_fallbacks() {
    let snapshot = RegistrySnapshot {
        nodes: vec![
            NodeInfo {
                id: 7,
                name: Some("alsa_output.usb".into()),
                description: Some("External DAC".into()),
                media_class: Some("Audio/Sink".into()),
                ..Default::default()
            },
            NodeInfo {
                id: 8,
                name: Some("external dac".into()),
                description: Some("Desk speakers".into()),
                media_class: Some("Audio/Sink".into()),
                ..Default::default()
            },
            NodeInfo {
                id: 9,
                media_class: Some("Audio/Source".into()),
                ..Default::default()
            },
        ],
        ..Default::default()
    };
    let id = |token| snapshot.find_capture_device_by_token(token).map(|n| n.id);

    assert_eq!(id("alsa_output.usb"), Some(7));
    assert_eq!(id("External DAC"), Some(8));
    assert_eq!(id("Desk speakers"), Some(8));
    assert_eq!(id("NODE#9"), Some(9));
    assert_eq!(id("missing"), None);
}

fn reconcile_by_name() {
    let mut defaults = MetadataDefaults {
        audio_sink: Some(DefaultTarget {
            metadata_id: Some(7),
            node_id: None,
            name: Some("node.main".into()),
            type_hint: None,
        }),
        audio_source: None,
    };

    let mut nodes = HashMap::new();
    nodes.insert(
        42,
        NodeInfo {
            id: 42,
            name: Some("node.main".into()),
            ..Default::default()
        },
    );

    defaults.reconcile_with_nodes(&nodes);
    assert_eq!(
        defaults.audio_sink.as_ref().and_then(|t| t.node_id),
        Some(42)
    );
}

#[test]
fn registry_metadata_defaults_reconcile_matches_by_name() {
    reconcile_by_name();
}

#[test]
fn pw_registry_metadata_defaults_reconcile_matches_by_name() {
    reconcile_by_name();
}

#[test]
fn derive_direction_prefers_media_class_keywords() {
    let expected: NodeDirection = Direction::Output;
    assert_eq!(derive_node_direction(Some("Audio/Sink"), None), expected);
    assert_eq!(
        derive_node_direction(Some("Stream/Input/Audio"), None),
        Direction::Input
    );
}

#[test]
fn derive_direction_falls_back_to_port_direction() {
    assert_eq!(derive_node_direction(None, Some("in")), Direction::Input);
    assert_eq!(derive_node_direction(None, Some("out")), Direction::Output);
}

#[test]
fn each_capture_device_is_found_by_its_own_token() {
    let snapshot = RegistrySnapshot {
        nodes: vec![
            NodeInfo {
                id: 3,
                name: Some("alsa_input.mic".into()),
                media_class: Some("Audio/Source".into()),
                ..Default::default()
            },
            NodeInfo {
                id: 4,
                description: Some("Loopback monitor".into()),
                ..Default::default()
            },
            NodeInfo {
                id: 5,
                media_class: Some("Audio/Sink".into()),
                ..Default::default()
            },
            NodeInfo {
                id: 6,
                name: Some("firefox".into()),
                media_class: Some("Stream/Output/Audio".into()),
                app_name: Some("Firefox".into()),
                ..Default::default()
            },
        ],
        ..Default::default()
    };
    for node in snapshot.nodes.iter().filter(|n| n.is_capture_device_candidate()) {
        let found = snapshot.find_capture_device_by_token(&node.capture_device_token());
        assert_eq!(found.map(|n| n.id), Some(node.id));
    }
    assert!(snapshot.find_capture_device_by_token("firefox").is_none());
    assert_eq!(snapshot.find_capture_device_by_token("node#5").map(|n| n.id), Some(5));
}

#[test]
fn loopback_pairs_use_each_port_once_in_source_order() {
    let sources = ports(&[(2, Some("FR")), (0, Some("FL")), (1, Some("FL"))]);
    let targets = ports(&[(5, Some("FL")), (6, Some("FR"))]);
    let pairs: Vec<(u32, u32)> = pair_ports_by_channel(&sources, &targets)
        .iter()
        .map(|(s, t)| (s.port_id, t.port_id))
        .collect();
    assert_eq!(pairs, [(0, 5), (2, 6)]);

    let unnamed = ports(&[(1, None), (0, None), (3, None)]);
    let by_id = ports(&[(3, None), (1, None), (1, None)]);
    let pairs: Vec<(u32, u32)> = pair_ports_by_channel(&unnamed, &by_id)
        .iter()
        .map(|(s, t)| (s.port_id, t.port_id))
        .collect();
    assert_eq!(pairs, [(1, 1), (3, 3)]);
}

#[test]
fn each_key_pairs_as_often_as_its_smaller_side_has_it() {
    let sources = ports(&[(0, Some("FL")), (1, Some("FL")), (2, Some("FR")), (3, Some("FC"))]);
    let targets = ports(&[(4, Some("FL")), (5, Some("FR")), (6, Some("FR")), (7, Some("LFE"))]);
    let pairs = pair_ports_by_channel(&sources, &targets);
    let count = |label: &str| {
        let channel = AudioChannel::parse(label);
        pairs.iter().filter(|(s, _)| s.channel == channel).count()
    };
    assert_eq!(count("FL"), 1);
    assert_eq!(count("FR"), 1);
    assert_eq!(count("FC"), 0);
    assert_eq!(count("LFE"), 0);
    assert_eq!(pairs.len(), 2);
}
