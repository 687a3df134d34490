use openmeters::channel::ChannelPosition as Channel;
use openmeters::channel::ChannelPosition::{
    Aux, FrontCenter as FC, FrontLeft as FL, FrontRight as FR, LowFrequency as LFE,
    RearLeft as RL, RearRight as RR, SideLeft as SL, SideRight as SR, Unknown,
};
use openmeters::graph::{Graph, GraphLink};
use openmeters::node::{Node, NodeKind, Port, PortDirection as Direction};
use openmeters::policy::{desired_links, plan, stream_props, StreamConfig, StreamProps};
use openmeters::registry::LinkSpec;
use openmeters::routing::{CaptureConfig, CaptureMode, StreamIdentity};

const TAP: u32 = 100;
const LAYOUTS: &[(&[Channel], &[u32])] = &[
    (&[FL, FR, RL, RR], &[0, 1, 6, 7]),
    (&[FL, FR, FC, RL, RR], &[0, 1, 2, 6, 7]),
    (&[FL, FR, FC, LFE, RL, RR], &[0, 1, 2, 3, 6, 7]),
    (&[FL, FR, FC, LFE, SL, SR], &[0, 1, 2, 3, 6, 7]),
    (
        &[FL, FR, FC, LFE, RL, RR, SL, SR],
        &[0, 1, 2, 3, 4, 5, 6, 7],
    ),
    (
        &[FL, FR, FC, LFE, RL, RR, Aux(6), Aux(7)],
        &[0, 1, 2, 3, 4, 5, 6, 7],
    ),
    (
        &[FL, FR, FC, LFE, Aux(4), Aux(5), SL, SR],
        &[0, 1, 2, 3, 4, 5, 6, 7],
    ),
    (
        &[Aux(0), Aux(1), Aux(2), Aux(3), Aux(4), Aux(5)],
        &[0, 1, 2, 3, 6, 7],
    ),
    (
        &[
            Aux(0),
            Aux(1),
            Aux(2),
            Aux(3),
            Aux(4),
            Aux(5),
            Aux(6),
            Aux(7),
        ],
        &[0, 1, 2, 3, 4, 5, 6, 7],
    ),
    (&[Unknown; 6], &[0, 1, 2, 3, 6, 7]),
    (&[Unknown; 8], &[0, 1, 2, 3, 4, 5, 6, 7]),
    (
        &[SR, RL, FC, FL, SL, RR, FR, LFE],
        &[7, 4, 2, 0, 6, 5, 1, 3],
    ),
];

fn add_node(graph: &mut Graph, id: u32, direction: Direction, positions: &[Channel]) {
    graph.upsert_node(Node {
        id,
        kind: if direction == Direction::Output {
            NodeKind::Playback
        } else {
            NodeKind::Other
        },
        identity: Some(StreamIdentity(format!("test:{id}"))),
        ..Default::default()
    });
    for (index, &channel) in positions.iter().enumerate().rev() {
        graph.upsert_port(Port {
            global_id: id * 100 + index as u32,
            local_id: index as u32,
            node_id: id,
            channel: Some(channel),
            direction: Some(direction),
            ..Default::default()
        });
    }
    if direction == Direction::Output {
        graph.upsert_link(
            id + 9_000,
            GraphLink {
                output_node: id,
                input_node: 99,
                active: true,
            },
        );
    }
}

fn expected_links(source: u32, inputs: impl Iterator<Item = u32>) -> Vec<LinkSpec> {
    inputs
        .enumerate()
        .map(|(output, input)| LinkSpec {
            output_node: source,
            output_port: source * 100 + output as u32,
            input_node: TAP,
            input_port: TAP * 100 + input,
        })
        .collect()
}

#[test]
fn application_links_preserve_surround_roles_on_the_shared_bus() {
    let mut graph = Graph::default();
    let mut tap_layout = Channel::surround();
    tap_layout.reverse();
    add_node(&mut graph, TAP, Direction::Input, &tap_layout);
    let mut expected = Vec::new();
    for (index, &(layout, destinations)) in LAYOUTS.iter().enumerate() {
        let id = index as u32 + 1;
        add_node(&mut graph, id, Direction::Output, layout);
        expected.extend(expected_links(id, destinations.iter().map(|port| 7 - port)));
    }
    let plan = plan(&graph, &CaptureConfig::default(), Some(TAP));
    assert_eq!(plan.stream.layout, Channel::surround().to_vec());
    expected.sort_unstable();
    assert_eq!(
        desired_links(&graph, &plan, graph.node(TAP).unwrap()),
        expected
    );
}

#[test]
fn device_links_keep_negotiated_port_names_and_order() {
    for &(layout, _) in LAYOUTS
        .iter()
        .filter(|(layout, _)| !layout.contains(&Unknown))
    {
        let mut graph = Graph::default();
        add_node(&mut graph, 1, Direction::Output, layout);
        graph.upsert_node(Node {
            id: 1,
            device: true,
            ..Default::default()
        });
        let mut tap_layout = layout.to_vec();
        tap_layout.reverse();
        add_node(&mut graph, TAP, Direction::Input, &tap_layout);
        let plan = plan(
            &graph,
            &CaptureConfig {
                mode: CaptureMode::Device,
                device: Some("node#1".into()),
                ..Default::default()
            },
            Some(TAP),
        );
        assert_eq!(plan.stream.layout, layout);
        assert_eq!(plan.sources, [1]);
        assert_eq!(
            desired_links(&graph, &plan, graph.node(TAP).unwrap()),
            expected_links(1, (0..layout.len() as u32).rev()),
        );
    }
}

#[test]
fn stream_properties_follow_the_capture_setup() {
    let idle = StreamConfig::idle();
    assert_eq!(
        stream_props(&idle),
        StreamProps {
            always_process: false,
            passive_in: true,
            autoconnect: false,
            capture_sink: None
        }
    );
    let bus = StreamConfig {
        passive: false,
        ..StreamConfig::idle()
    };
    assert_eq!(
        stream_props(&bus),
        StreamProps {
            always_process: true,
            passive_in: false,
            autoconnect: false,
            capture_sink: None
        }
    );
    let device = StreamConfig {
        target: Some("alsa_output.usb".into()),
        passive: true,
        ..StreamConfig::idle()
    };
    assert_eq!(
        stream_props(&device),
        StreamProps {
            always_process: false,
            passive_in: true,
            autoconnect: true,
            capture_sink: Some(true)
        }
    );
}

#[test]
fn links_need_sources_and_enough_tap_ports() {
    let mut graph = Graph::default();
    add_node(&mut graph, TAP, Direction::Input, &[FL, FR]);
    add_node(&mut graph, 1, Direction::Output, &[FL, FR]);
    let mut plan = plan(&graph, &CaptureConfig::default(), Some(TAP));
    assert_eq!(plan.sources, [1]);
    assert_eq!(plan.stream.layout.len(), 8);
    assert!(desired_links(&graph, &plan, graph.node(TAP).unwrap()).is_empty());

    plan.stream.layout = vec![FL, FR];
    let links = desired_links(&graph, &plan, graph.node(TAP).unwrap());
    assert_eq!(links, expected_links(1, 0..2));
    assert!(links.iter().all(|l| l.input_node == TAP && l.output_node == 1));

    plan.sources.clear();
    assert!(desired_links(&graph, &plan, graph.node(TAP).unwrap()).is_empty());
}
