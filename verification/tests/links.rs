use openmeters::links::{link_changes, loopback_links, OwnedLinkState, OwnedLinks};
use openmeters::registry::{AudioChannel, Direction, GraphPort, LinkSpec, NodeInfo};
use openmeters::links::refresh_plan;

const SECOND: u64 = 1_000_000_000;

fn link(output_port: u32, input_port: u32) -> LinkSpec {
    LinkSpec {
        output_node: 1,
        output_port,
        input_node: 2,
        input_port,
    }
}

fn port(node: u32, id: u32, channel: Option<&str>, direction: Direction, monitor: bool) -> GraphPort {
    GraphPort {
        global_id: node * 10 + id,
        port_id: id,
        node_id: node,
        channel: channel.and_then(AudioChannel::parse),
        direction,
        is_monitor: monitor,
    }
}

#[test]
fn link_changes_turn_active_links_into_desired_ones() {
    let (a, b, c) = (link(0, 0), link(1, 1), link(2, 2));
    let changes = link_changes(&vec![a, b], &vec![b, c, c]);
    assert_eq!(changes.remove, vec![a]);
    assert_eq!(changes.create, vec![c]);

    let unchanged = link_changes(&vec![a, b], &vec![b, a]);
    assert!(unchanged.remove.is_empty() && unchanged.create.is_empty());

    let mut after: Vec<LinkSpec> = vec![a, b]
        .into_iter()
        .filter(|l| !changes.remove.contains(l))
        .collect();
    after.extend(changes.create.iter().copied());
    after.sort();
    let mut wanted = vec![b, c];
    wanted.sort();
    assert_eq!(after, wanted);
}

#[test]
fn loopback_links_prefer_monitor_outputs_and_pair_channels() {
    let source = NodeInfo {
        id: 1,
        ports: vec![
            port(1, 0, Some("FL"), Direction::Output, false),
            port(1, 1, Some("FR"), Direction::Output, false),
            port(1, 4, Some("FR"), Direction::Output, true),
            port(1, 3, Some("FL"), Direction::Output, true),
        ],
        ..Default::default()
    };
    let target = NodeInfo {
        id: 2,
        ports: vec![
            port(2, 1, Some("FR"), Direction::Input, false),
            port(2, 0, Some("FL"), Direction::Input, false),
            port(2, 5, Some("FL"), Direction::Input, true),
        ],
        ..Default::default()
    };
    assert_eq!(
        loopback_links(&source, &target),
        Some(vec![link(3, 0), link(4, 1)])
    );
    let empty = NodeInfo {
        id: 3,
        ..Default::default()
    };
    assert_eq!(loopback_links(&source, &empty), None);
    assert_eq!(loopback_links(&empty, &target), None);
}

#[test]
fn owned_links_keep_what_is_wanted_and_retry_failures() {
    let (a, b) = (link(0, 0), link(1, 1));
    let mut owned = OwnedLinks::new();
    let step = owned.apply(&Vec::new(), vec![a, b], 10 * SECOND);
    assert!(step.keep.is_empty());
    assert_eq!(step.create, vec![a, b]);

    assert!(owned.link_failed(10 * SECOND));
    assert_eq!(owned.retry_at, Some(11 * SECOND));
    assert!(!owned.link_failed(10 * SECOND));
    assert!(!owned.retry_due(10 * SECOND));
    assert!(owned.retry_due(11 * SECOND));

    let existing = vec![
        (a, OwnedLinkState::Established),
        (b, OwnedLinkState::Failed),
    ];
    let waiting = owned.apply(&existing, vec![a, b], 10 * SECOND);
    assert_eq!(waiting.keep, vec![a]);
    assert!(waiting.create.is_empty());
    assert_eq!(owned.retry_at, Some(11 * SECOND));

    let retried = owned.apply(&existing, vec![a, b], 11 * SECOND);
    assert_eq!(retried.keep, vec![a]);
    assert_eq!(retried.create, vec![b]);
    assert_eq!(owned.retry_at, None);
    assert_eq!(owned.retry_delay, 2 * SECOND);

    let settled = owned.apply(
        &vec![
            (a, OwnedLinkState::Established),
            (b, OwnedLinkState::Established),
        ],
        vec![a, b],
        12 * SECOND,
    );
    assert!(settled.create.is_empty());
    assert_eq!(owned.retry_delay, SECOND);

    owned.link_failed(12 * SECOND);
    let moved = owned.apply(&Vec::new(), vec![b], 12 * SECOND);
    assert_eq!(moved.create, vec![b]);
    assert_eq!(owned.retry_at, None);
    assert_eq!(owned.retry_delay, SECOND);

    owned.clear();
    assert!(owned.desired.is_empty());
}

#[test]
fn refreshing_a_loopback_keeps_only_its_links() {
    let source = NodeInfo {
        id: 1,
        ports: vec![
            port(1, 0, Some("FL"), Direction::Output, true),
            port(1, 1, Some("FR"), Direction::Output, true),
        ],
        ..Default::default()
    };
    let target = NodeInfo {
        id: 2,
        ports: vec![
            port(2, 0, Some("FL"), Direction::Input, false),
            port(2, 1, Some("FR"), Direction::Input, false),
        ],
        ..Default::default()
    };
    let stale = link(7, 7);
    let active = vec![link(0, 0), stale];
    let plan = refresh_plan(&active, Some(&source), Some(&target));
    assert_eq!(plan.remove, vec![stale]);
    assert_eq!(plan.create, vec![link(1, 1)]);

    let cleared = refresh_plan(&active, Some(&source), None);
    assert_eq!(cleared.remove, active);
    assert!(cleared.create.is_empty());

    let portless = NodeInfo {
        id: 2,
        ..Default::default()
    };
    let cleared = refresh_plan(&active, Some(&source), Some(&portless));
    assert_eq!(cleared.remove, active);
}
