use openmeters::graph::Graph;
use openmeters::node::{stream_identity, Node, NodeKind, Port, PortDirection};
use openmeters::routing::StreamIdentity;

fn playback(id: u32, client: u32) -> Node {
    Node {
        id,
        name: Some("player.node".into()),
        description: Some("Player".into()),
        media_class: Some("Stream/Output/Audio".into()),
        kind: NodeKind::Playback,
        client_id: Some(client),
        identity: Some(StreamIdentity::new(
            "Output/Audio:application.id:org.example.Player",
        )),
        application_name: Some("Player".into()),
        ..Default::default()
    }
}

#[test]
fn identity_precedence_ignores_empty_properties() {
    let values = ["id", "app", "media", "node"];
    for (skip, expected) in [
        "Output/Audio:application.id:id",
        "Output/Audio:application.name:app",
        "Output/Audio:media.name:media",
        "Output/Audio:node.name:node",
    ]
    .into_iter()
    .enumerate()
    {
        let mut fields = values.map(Some);
        fields[..skip].fill(None);
        let [id, app, media, node] = fields;
        assert_eq!(
            stream_identity(Some("Stream/Output/Audio"), id, app, media, node)
                .unwrap()
                .as_str(),
            expected
        );
    }
    assert_eq!(
        stream_identity(
            Some("Stream/Output/Audio"),
            Some(" "),
            Some(" app "),
            None,
            None
        )
        .unwrap()
        .as_str(),
        "Output/Audio:application.name:app"
    );
}

#[test]
fn graph_order_pause_and_metadata_are_stale_safe() {
    let mut graph = Graph::default();
    graph.upsert_port(Port {
        global_id: 100,
        local_id: 0,
        node_id: 10,
        direction: Some(PortDirection::Output),
        ..Default::default()
    });
    graph.add_client(5);
    graph.upsert_node(playback(10, 5));
    assert_eq!(graph.node(10).unwrap().ports[0].global_id, 100);
    graph.remove_global(10);
    assert_eq!(graph.view(None, None).applications.len(), 1);
    graph.remove_global(5);
    assert!(graph.view(None, None).applications.is_empty());

    graph.metadata(1, 0, Some("default.audio.sink"), None, Some("sink.old"));
    graph.metadata(
        2,
        0,
        Some("default.audio.sink"),
        Some("Spa:String:JSON"),
        Some(r#"{"name":"sink.current"}"#),
    );
    graph.metadata(1, 0, Some("default.audio.sink"), None, None);
    assert_eq!(graph.view(None, None).default_sink.as_str(), "sink.current");
}

fn sink(id: u32, name: &str) -> Node {
    Node {
        id,
        name: Some(name.into()),
        media_class: Some("Audio/Sink".into()),
        kind: NodeKind::Sink,
        ..Default::default()
    }
}

#[test]
fn default_sink_reconciles_by_name_and_settles() {
    let mut graph = Graph::default();
    graph.metadata(1, 0, Some("default.audio.sink"), None, Some("speakers"));
    graph.upsert_node(sink(7, "speakers"));
    graph.reconcile_targets();
    assert_eq!(graph.default_sink().map(|n| n.id), Some(7));
    let once = graph.default_sink.clone().map(|t| (t.node_id, t.name));
    graph.reconcile_targets();
    let twice = graph.default_sink.clone().map(|t| (t.node_id, t.name));
    assert_eq!(once, twice);

    graph.remove_global(7);
    assert_eq!(graph.default_sink().map(|n| n.id), None);
    graph.upsert_node(sink(8, "speakers"));
    graph.reconcile_targets();
    assert_eq!(graph.default_sink().map(|n| n.id), Some(8));
}
