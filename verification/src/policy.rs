//! What the capture records and how its sources connect to the tap: the
//! plan for a configuration, and the links that carry each source
//! channel to the tap port with the same speaker role.
use crate::channel::{
    ChannelPosition, Layout, clamp_channels, fallback_spec, normalize_spec,
    resolve_surrounds_spec, surround_spec,
};
use crate::graph::{found_device, has_route_spec, resolved, Graph};
use crate::node::{Node, NodeKind, NodeView, Port, PortDirection, ports_in_spec, target_object_spec};
use crate::order::{
    in_rank_order, lemma_sorted_by_rank_contains, lemma_sorted_by_rank_distinct,
    lemma_sorted_by_rank_ordered, sort_by_rank, sorted_by_rank, Ranked,
};
use crate::registry::LinkSpec;
use crate::routing::{identity_listed, CaptureConfig, CaptureMode};
use crate::search::{first_index, lemma_first_index_at, lemma_first_index_facts, lemma_first_index_none};
use vstd::prelude::*;
use vstd::std_specs::hash::spec_hash_map_iter;
use vstd::std_specs::iter::IteratorSpec;

verus! {

broadcast use vstd::std_specs::hash::group_hash_axioms;

/// The two channels of a stereo capture.
pub open spec fn stereo_spec() -> Seq<ChannelPosition> {
    seq![ChannelPosition::FrontLeft, ChannelPosition::FrontRight]
}

/// The stereo layout.
pub fn stereo_layout() -> (r: Vec<ChannelPosition>)
    ensures
        r@ == stereo_spec(),
{
    let r = vec![ChannelPosition::FrontLeft, ChannelPosition::FrontRight];
    assert(r@ =~= stereo_spec());
    r
}

/// The channels that a capture records, and how many source channels did
/// not fit.
#[derive(Debug, Clone, PartialEq, Eq)]
pub struct CaptureLayout {
    pub channels: Vec<ChannelPosition>,
    pub truncated: usize,
}

impl CaptureLayout {
    /// A stereo capture.
    pub fn stereo() -> (r: CaptureLayout)
        ensures
            r.channels@ == stereo_spec(),
            r.truncated == 0,
    {
        CaptureLayout { channels: stereo_layout(), truncated: 0 }
    }

    /// A capture of the whole 7.1 bus.
    pub fn surround() -> (r: CaptureLayout)
        ensures
            r.channels@ == surround_spec(),
            r.truncated == 0,
    {
        let s = ChannelPosition::surround();
        let mut channels: Vec<ChannelPosition> = Vec::new();
        let mut i: usize = 0;
        while i < 8
            invariant
                i <= 8,
                s@ == surround_spec(),
                channels@ == s@.take(i as int),
            decreases 8 - i,
        {
            channels.push(s[i]);
            proof {
                assert(s@.take(i + 1) =~= s@.take(i as int).push(s@[i as int]));
            }
            i += 1;
        }
        proof {
            assert(s@.take(8) =~= s@);
        }
        CaptureLayout { channels, truncated: 0 }
    }
}

/// How the capture stream is set up.
#[derive(Debug, Clone, PartialEq, Eq)]
pub struct StreamConfig {
    pub layout: Vec<ChannelPosition>,
    pub target: Option<String>,
    pub passive: bool,
}

impl StreamConfig {
    /// A passive stereo stream that targets nothing.
    pub fn idle() -> (r: StreamConfig)
        ensures
            r.layout@ == stereo_spec(),
            r.target is None,
            r.passive,
    {
        StreamConfig { layout: stereo_layout(), target: None, passive: true }
    }
}

/// How the capture stream presents itself to PipeWire.
#[derive(Debug, Clone, Copy, PartialEq, Eq, Structural)]
pub struct StreamProps {
    /// The stream runs even with nothing linked to it.
    pub always_process: bool,
    /// The stream's input is passive: it keeps no source running.
    pub passive_in: bool,
    /// PipeWire links the stream to its target itself.
    pub autoconnect: bool,
    /// With a target, whether the stream captures that sink's output
    /// passively; nothing without a target.
    pub capture_sink: Option<bool>,
}

/// The properties of a stream set up as `c` says: an active stream
/// without a target always runs; a passive one is passive on its input; a
/// targeted one connects itself and captures its sink as passively as it
/// is.
pub fn stream_props(c: &StreamConfig) -> (r: StreamProps)
    ensures
        r.always_process == (!c.passive && c.target is None),
        r.passive_in == c.passive,
        r.autoconnect == (c.target is Some),
        r.capture_sink == (if c.target is Some {
            Some(c.passive)
        } else {
            None
        }),
{
    let targeted = c.target.is_some();
    StreamProps {
        always_process: !c.passive && !targeted,
        passive_in: c.passive,
        autoconnect: targeted,
        capture_sink: if targeted {
            Some(c.passive)
        } else {
            None
        },
    }
}

/// What to capture: the stream and the nodes whose output feeds it.
#[derive(Debug, Clone, PartialEq, Eq)]
pub struct Plan {
    pub stream: StreamConfig,
    pub sources: Vec<u32>,
    pub truncated: usize,
}

/// The content of a plan: layout, target, passive flag, sources and the
/// number of channels that did not fit.
pub open spec fn plan_view(p: Plan) -> (Seq<ChannelPosition>, Option<Seq<char>>, bool, Seq<u32>, int) {
    (
        p.stream.layout@,
        crate::text::opt_view(p.stream.target),
        p.stream.passive,
        p.sources@,
        p.truncated as int,
    )
}

/// The position that each of the first eight ports reports; `Unknown`
/// where a port reports none and past the last port.
pub open spec fn port_positions(ports: Seq<Port>) -> Seq<ChannelPosition> {
    Seq::new(
        8,
        |i: int|
            if i < ports.len() {
                match ports[i].channel {
                    Some(c) => c,
                    None => ChannelPosition::Unknown,
                }
            } else {
                ChannelPosition::Unknown
            },
    )
}

/// The normalised layout of a node's ports, and how many ports did not
/// fit into the capture.
pub open spec fn port_layout_spec(ports: Seq<Port>) -> (Seq<ChannelPosition>, int) {
    let channels = clamp_channels(ports.len() as int);
    (normalize_spec(channels, port_positions(ports)), ports.len() - channels)
}

/// The normalised layout of a node's ports, and how many ports did not
/// fit into the capture.
pub fn port_layout(ports: &Vec<Port>) -> (r: (Layout, usize))
    ensures
        (r.0@, r.1 as int) == port_layout_spec(ports@),
{
    let channels: usize = if ports.len() < 8 {
        ports.len()
    } else {
        8
    };
    let mut positions = [ChannelPosition::Unknown;8];
    let mut i: usize = 0;
    while i < channels
        invariant
            channels == clamp_channels(ports@.len() as int),
            i <= channels,
            positions@.len() == 8,
            forall|k: int|
                0 <= k < 8 ==> #[trigger] positions@[k] == if k < i {
                    port_positions(ports@)[k]
                } else {
                    ChannelPosition::Unknown
                },
        decreases channels - i,
    {
        positions[i] = match ports[i].channel {
            Some(c) => c,
            None => ChannelPosition::Unknown,
        };
        i += 1;
    }
    proof {
        assert(positions@ =~= port_positions(ports@));
    }
    (ChannelPosition::normalize(channels, positions), ports.len() - channels)
}

/// The output ports that a capture of node `n` reads.
pub open spec fn output_ports_spec(n: NodeView) -> Seq<Port> {
    ports_in_spec(n.ports, PortDirection::Output, n.kind == NodeKind::Sink)
}

/// The ports that did not fit into the capture of node `n`.
pub open spec fn excess_spec(n: NodeView) -> int {
    let len = output_ports_spec(n).len();
    if len > 8 {
        len - 8
    } else {
        0
    }
}

/// The ports that did not fit, summed over the nodes `ids`.
pub open spec fn sum_excess(nodes: Map<u32, Node>, ids: Seq<u32>) -> int
    decreases ids.len(),
{
    if ids.len() == 0 {
        0
    } else {
        sum_excess(nodes, ids.drop_last()) + excess_spec(nodes[ids.last()]@)
    }
}

/// An application stream that the application capture records: a playback
/// node that plays somewhere other than the tap, with an identity that the
/// user did not switch off.
pub open spec fn captured_app(g: &Graph, config: CaptureConfig, tap_id: Option<u32>, k: u32) -> bool {
    &&& g.nodes@.contains_key(k)
    &&& g.nodes@[k]@.kind == NodeKind::Playback
    &&& has_route_spec(g.links@, g.nodes@[k]@.id, tap_id, false)
    &&& g.nodes@[k]@.identity is Some
    &&& !identity_listed(config.disabled_streams@, g.nodes@[k]@.identity->0)
}

/// `ids` go in strictly increasing order.
pub open spec fn increasing(ids: Seq<u32>) -> bool {
    forall|i: int, j: int| #![trigger ids[i], ids[j]] 0 <= i < j < ids.len() ==> ids[i] < ids[j]
}

/// `ids` lists the captured applications in order of id.
pub open spec fn app_sources(g: &Graph, config: CaptureConfig, tap_id: Option<u32>, ids: Seq<u32>) -> bool {
    &&& increasing(ids)
    &&& forall|k: u32| #[trigger] ids.contains(k) <==> captured_app(g, config, tap_id, k)
}

/// The device that a device capture reads: the selected device, or the
/// node that the default sink resolves to.
pub open spec fn chosen_device(g: &Graph, config: CaptureConfig, d: Option<Node>) -> bool {
    match config.device {
        Some(token) => found_device(g.nodes@, token@, d),
        None => match g.default_sink {
            Some(t) => resolved(g.nodes@, t@, d),
            None => d is None,
        },
    }
}

/// Every port is a monitor port.
pub open spec fn all_monitor(ports: Seq<Port>) -> bool {
    forall|i: int| 0 <= i < ports.len() ==> (#[trigger] ports[i]).monitor
}

/// The plan for capturing device `d`.  Its ports give the layout (stereo
/// without ports); a sink or source with a target object is captured
/// through that target, passively for a sink; any other device is read
/// directly, passively when all its ports are monitors.
pub open spec fn device_plan(d: Option<NodeView>) -> (
    Seq<ChannelPosition>,
    Option<Seq<char>>,
    bool,
    Seq<u32>,
    int,
) {
    match d {
        None => (stereo_spec(), None, true, Seq::empty(), 0),
        Some(n) => {
            let ports = output_ports_spec(n);
            let layout = if ports.len() == 0 {
                stereo_spec()
            } else {
                port_layout_spec(ports).0.take(clamp_channels(ports.len() as int))
            };
            let truncated = if ports.len() == 0 {
                0
            } else {
                port_layout_spec(ports).1
            };
            let target = if n.kind == NodeKind::Sink || n.kind == NodeKind::Source {
                target_object_spec(n)
            } else {
                None
            };
            if target is Some {
                (layout, target, n.kind == NodeKind::Sink, Seq::empty(), truncated)
            } else {
                (layout, None, all_monitor(ports), seq![n.id], truncated)
            }
        },
    }
}

/// `x`, or `usize::MAX` when it does not fit.
pub open spec fn capped(x: int) -> int {
    if x > usize::MAX {
        usize::MAX as int
    } else {
        x
    }
}

/// Ids ordered by value.
pub struct SourceId(pub u32);

impl Ranked for SourceId {
    open spec fn before(&self, other: &SourceId) -> bool {
        self.0 < other.0
    }

    fn comes_before(&self, other: &SourceId) -> (r: bool) {
        self.0 < other.0
    }

    proof fn before_irreflexive(a: &SourceId) {
    }

    proof fn before_transitive(a: &SourceId, b: &SourceId, c: &SourceId) {
    }
}

impl Graph {
    /// The captured applications, in order of id.
    fn captured_apps(&self, config: &CaptureConfig, tap_id: Option<u32>) -> (r: Vec<u32>)
        requires
            self.wf(),
        ensures
            app_sources(self, *config, tap_id, r@),
    {
        let ghost all = spec_hash_map_iter(&self.nodes).remaining();
        let mut found: Vec<SourceId> = Vec::new();
        for entry in it: self.nodes.iter()
            invariant
                it.seq() == all,
                self.wf(),
                forall|i: int| 0 <= i < found@.len() ==> captured_app(self, *config, tap_id, (#[trigger] found@[i]).0),
                forall|j: int|
                    0 <= j < it.index() && captured_app(self, *config, tap_id, *(#[trigger] all[j]).0) ==> exists|i: int|
                        0 <= i < found@.len() && found@[i].0 == *all[j].0,
                forall|a: int, b: int| #![trigger found@[a], found@[b]] 0 <= a < b < found@.len() ==> found@[a].0 != found@[b].0,
                forall|i: int, j: int|
                    #![trigger found@[i], all[j]]
                    0 <= i < found@.len() && it.index() <= j < all.len() ==> found@[i].0 != *all[j].0,
                forall|i: int|
                    0 <= i < all.len() ==> self.nodes@.contains_key(*all[i].0) && self.nodes@[*all[i].0]
                        == *all[i].1,
                all.no_duplicates(),
        {
            let (k, n) = entry;
            let ghost idx = it.index();
            proof {
                assert forall|j: int| idx < j < all.len() implies *all[j].0 != *k by {
                    if *all[j].0 == *k {
                        assert(all[j] == all[idx]);
                        assert(all.no_duplicates());
                    }
                }
            }
            let wanted = n.kind == NodeKind::Playback && self.has_external_route(n.id, tap_id) && match &n.identity {
                Some(identity) => !config.is_disabled(identity),
                None => false,
            };
            if wanted {
                let ghost before = found@;
                proof {
                    assert(self.nodes@[*k] == *n);
                }
                found.push(SourceId(*k));
                proof {
                    assert(found@[before.len() as int].0 == *k);
                    assert forall|i: int| 0 <= i < before.len() implies found@[i] == before[i] by {}
                }
            }
        }
        proof {
            assert forall|k: u32| captured_app(self, *config, tap_id, k) implies exists|i: int|
                0 <= i < found@.len() && #[trigger] found@[i].0 == k by {
                assert(all.contains((&k, &self.nodes@[k])));
                let j = choose|j: int| 0 <= j < all.len() && all[j] == (&k, &self.nodes@[k]);
                assert(captured_app(self, *config, tap_id, *all[j].0));
            }
        }
        let ghost fv = found@;
        let sorted = sort_by_rank(found);
        proof {
            lemma_sorted_by_rank_ordered(fv);
            lemma_sorted_by_rank_contains(fv);
            let key = |x: SourceId| x.0;
            assert forall|a: int, b: int|
                #![trigger fv[a], fv[b]]
                0 <= a < fv.len() && 0 <= b < fv.len() && a != b implies key(fv[a]) != key(fv[b]) by {
                if a < b {
                    assert(fv[a].0 != fv[b].0);
                } else {
                    assert(fv[b].0 != fv[a].0);
                }
            }
            lemma_sorted_by_rank_distinct(fv, key);
        }
        let mut ids: Vec<u32> = Vec::new();
        let mut i: usize = 0;
        while i < sorted.len()
            invariant
                i <= sorted@.len(),
                ids@.len() == i,
                forall|k: int| 0 <= k < i ==> ids@[k] == (#[trigger] sorted@[k]).0,
            decreases sorted@.len() - i,
        {
            ids.push(sorted[i].0);
            i += 1;
        }
        proof {
            let sv = sorted@;
            assert forall|a: int, b: int| #![trigger ids@[a], ids@[b]] 0 <= a < b < ids@.len() implies ids@[a] < ids@[b] by {
                assert(!sv[b].before(&sv[a]));
                assert(sv[a].0 != sv[b].0);
            }
            assert forall|k: u32| #[trigger] ids@.contains(k) <==> captured_app(self, *config, tap_id, k) by {
                if ids@.contains(k) {
                    let a = choose|a: int| 0 <= a < ids@.len() && ids@[a] == k;
                    assert(sv.contains(sv[a]));
                    assert(fv.contains(sv[a]));
                    let b = choose|b: int| 0 <= b < fv.len() && fv[b] == sv[a];
                }
                if captured_app(self, *config, tap_id, k) {
                    let b = choose|b: int| 0 <= b < fv.len() && fv[b].0 == k;
                    assert(fv.contains(fv[b]));
                    assert(sv.contains(fv[b]));
                    let a = choose|a: int| 0 <= a < sv.len() && sv[a] == fv[b];
                    assert(ids@[a] == k);
                }
            }
        }
        ids
    }
}

proof fn lemma_sum_excess_prefix(nodes: Map<u32, Node>, ids: Seq<u32>, i: int)
    requires
        0 <= i <= ids.len(),
    ensures
        0 <= sum_excess(nodes, ids.take(i)) <= sum_excess(nodes, ids),
    decreases ids.len(),
{
    if ids.len() > 0 {
        if i == ids.len() {
            assert(ids.take(i) =~= ids);
            lemma_sum_excess_prefix(nodes, ids.drop_last(), i - 1);
            assert(ids.drop_last().take(i - 1) =~= ids.drop_last());
        } else {
            lemma_sum_excess_prefix(nodes, ids.drop_last(), i);
            assert(ids.drop_last().take(i) =~= ids.take(i));
        }
    }
}

/// The first `n` positions of a layout.
fn layout_prefix(positions: &Layout, n: usize) -> (r: Vec<ChannelPosition>)
    requires
        n <= 8,
    ensures
        r@ == positions@.take(n as int),
{
    let mut out: Vec<ChannelPosition> = Vec::new();
    let mut i: usize = 0;
    while i < n
        invariant
            i <= n <= 8,
            positions@.len() == 8,
            out@ == positions@.take(i as int),
        decreases n - i,
    {
        out.push(positions[i]);
        proof {
            assert(positions@.take(i + 1) =~= positions@.take(i as int).push(positions@[i as int]));
        }
        i += 1;
    }
    out
}

/// Whether every port is a monitor port.
fn all_monitor_ports(ports: &Vec<Port>) -> (r: bool)
    ensures
        r == all_monitor(ports@),
{
    let mut i: usize = 0;
    while i < ports.len()
        invariant
            i <= ports@.len(),
            forall|k: int| 0 <= k < i ==> (#[trigger] ports@[k]).monitor,
        decreases ports@.len() - i,
    {
        if !ports[i].monitor {
            return false;
        }
        i += 1;
    }
    true
}

/// The plan for capturing node `device`, or nothing.
fn plan_device(device: Option<&Node>) -> (r: Plan)
    ensures
        plan_view(r) == device_plan(
            match device {
                Some(n) => Some(n@),
                None => None,
            },
        ),
{
    match device {
        Some(device) => {
            let ports = device.output_ports();
            let (layout, truncated) = if ports.len() == 0 {
                (stereo_layout(), 0)
            } else {
                let (positions, t) = port_layout(&ports);
                let n: usize = if ports.len() < 8 {
                    ports.len()
                } else {
                    8
                };
                (layout_prefix(&positions, n), t)
            };
            let target = if device.kind == NodeKind::Sink || device.kind == NodeKind::Source {
                device.target_object()
            } else {
                None
            };
            if target.is_some() {
                Plan {
                    stream: StreamConfig {
                        layout,
                        target,
                        passive: device.kind == NodeKind::Sink,
                    },
                    sources: Vec::new(),
                    truncated,
                }
            } else {
                let passive = all_monitor_ports(&ports);
                let sources = vec![device.id];
                proof {
                    assert(sources@ =~= seq![device.id]);
                }
                Plan { stream: StreamConfig { layout, target: None, passive }, sources, truncated }
            }
        },
        None => Plan {
            stream: StreamConfig { layout: stereo_layout(), target: None, passive: true },
            sources: Vec::new(),
            truncated: 0,
        },
    }
}

/// The plan for capturing with `config`.  Application capture records the
/// whole 7.1 bus passively from every captured application, in order of id,
/// and counts the ports beyond the eighth of each (up to `usize::MAX`);
/// device capture follows
/// `device_plan` for the selected device, or for the default sink.
pub fn plan(graph: &Graph, config: &CaptureConfig, tap_id: Option<u32>) -> (r: Plan)
    requires
        graph.wf(),
    ensures
        config.mode == CaptureMode::Applications ==> {
            &&& r.stream.layout@ == surround_spec()
            &&& r.stream.target is None
            &&& r.stream.passive
            &&& app_sources(graph, *config, tap_id, r.sources@)
            &&& r.truncated == capped(sum_excess(graph.nodes@, r.sources@))
        },
        config.mode == CaptureMode::Device ==> exists|d: Option<Node>|
            #[trigger] chosen_device(graph, *config, d) && plan_view(r) == device_plan(
                match d {
                    Some(n) => Some(n@),
                    None => None,
                },
            ),
{
    match config.mode {
        CaptureMode::Applications => {
            let sources = graph.captured_apps(config, tap_id);
            let mut truncated: usize = 0;
            let mut i: usize = 0;
            while i < sources.len()
                invariant
                    i <= sources@.len(),
                    graph.wf(),
                    app_sources(graph, *config, tap_id, sources@),
                    truncated == capped(sum_excess(graph.nodes@, sources@.take(i as int))),
                decreases sources@.len() - i,
            {
                let id = sources[i];
                proof {
                    assert(sources@.contains(id));
                    assert(captured_app(graph, *config, tap_id, id));
                    lemma_sum_excess_prefix(graph.nodes@, sources@, i + 1);
                    assert(sources@.take(i + 1).drop_last() =~= sources@.take(i as int));
                    assert(sources@.take(i + 1).last() == id);
                }
                match graph.node(id) {
                    Some(n) => {
                        let ports = n.output_ports();
                        let excess: usize = if ports.len() > 8 {
                            ports.len() - 8
                        } else {
                            0
                        };
                        truncated = truncated.saturating_add(excess);
                    },
                    None => {},
                }
                i += 1;
            }
            proof {
                assert(sources@.take(sources@.len() as int) =~= sources@);
            }
            let layout = CaptureLayout::surround();
            Plan {
                stream: StreamConfig { layout: layout.channels, target: None, passive: true },
                sources,
                truncated,
            }
        },
        CaptureMode::Device => {
            let device = match &config.device {
                Some(token) => graph.find_device(token.as_str()),
                None => graph.default_sink(),
            };
            let ghost d = match device {
                Some(n) => Some(*n),
                None => None,
            };
            let r = plan_device(device);
            proof {
                assert(chosen_device(graph, *config, d));
            }
            r
        },
    }
}

/// The unclaimed tap ports with speaker role `ch`.
pub open spec fn unclaimed_with(ch: ChannelPosition, claimed: Set<u32>) -> spec_fn(Port) -> bool {
    |p: Port| p.channel == Some(ch) && !claimed.contains(p.global_id)
}

/// The unclaimed tap ports.
pub open spec fn unclaimed(claimed: Set<u32>) -> spec_fn(Port) -> bool {
    |p: Port| !claimed.contains(p.global_id)
}

/// The tap port that layout position `ordinal`, with role `ch`, takes: the
/// first unclaimed port with that role, else the port at the same
/// position when it is unclaimed, else the first unclaimed port.
pub open spec fn claim_spec(tap: Seq<Port>, claimed: Set<u32>, ordinal: int, ch: ChannelPosition) -> Option<Port> {
    match first_index(tap, unclaimed_with(ch, claimed)) {
        Some(i) => Some(tap[i]),
        None => if ordinal < tap.len() && !claimed.contains(tap[ordinal].global_id) {
            Some(tap[ordinal])
        } else {
            match first_index(tap, unclaimed(claimed)) {
                Some(i) => Some(tap[i]),
                None => None,
            }
        },
    }
}

/// The tap ports that the first `k` layout positions take, with the
/// global ids they claimed; none when a position finds no port.
pub open spec fn targets_upto(layout: Seq<ChannelPosition>, tap: Seq<Port>, k: nat) -> Option<(Seq<Port>, Set<u32>)>
    decreases k,
{
    if k == 0 {
        Some((Seq::empty(), Set::empty()))
    } else {
        match targets_upto(layout, tap, (k - 1) as nat) {
            None => None,
            Some((ts, claimed)) => match claim_spec(tap, claimed, k - 1, layout[k - 1]) {
                None => None,
                Some(p) => Some((ts.push(p), claimed.insert(p.global_id))),
            },
        }
    }
}

/// The tap port of each layout position, when every position finds one.
pub open spec fn tap_targets(layout: Seq<ChannelPosition>, tap: Seq<Port>) -> Option<Seq<Port>> {
    match targets_upto(layout, tap, layout.len()) {
        Some((ts, _)) => Some(ts),
        None => None,
    }
}

/// The tap port for speaker role `ch`: the target of its first position in
/// the layout.
pub open spec fn target_for_spec(layout: Seq<ChannelPosition>, ts: Seq<Port>, ch: ChannelPosition) -> Option<Port> {
    match first_index(layout, role_is(ch)) {
        Some(i) => Some(ts[i]),
        None => None,
    }
}

/// The positions with role `ch`.
pub open spec fn role_is(ch: ChannelPosition) -> spec_fn(ChannelPosition) -> bool {
    |c: ChannelPosition| c == ch
}

/// One more than the highest AUX index among the positions, or zero.
pub open spec fn aux_count(p: Seq<ChannelPosition>) -> int
    decreases p.len(),
{
    if p.len() == 0 {
        0
    } else {
        let rest = aux_count(p.drop_last());
        match p.last() {
            ChannelPosition::Aux(i) => if i + 1 > rest {
                i + 1
            } else {
                rest
            },
            _ => rest,
        }
    }
}

/// The speaker role that an AUX channel takes: its place in the
/// conventional layout of that many channels, a mono place becoming front
/// left.  Other positions stay.
pub open spec fn aux_role(aux_layout: Seq<ChannelPosition>, c: ChannelPosition) -> ChannelPosition {
    match c {
        ChannelPosition::Aux(i) => if i < 8 {
            if aux_layout[i as int] == ChannelPosition::Mono {
                ChannelPosition::FrontLeft
            } else {
                aux_layout[i as int]
            }
        } else {
            ChannelPosition::Unknown
        },
        _ => c,
    }
}

/// The speaker roles of a source's channels when they do not match the
/// layout: AUX channels take conventional roles and rear channels take the
/// side roles when there are no side channels.
pub open spec fn remapped(positions: Seq<ChannelPosition>) -> Seq<ChannelPosition> {
    let aux_layout = fallback_spec(aux_count(positions));
    resolve_surrounds_spec(positions.map_values(|c: ChannelPosition| aux_role(aux_layout, c)))
}

/// The roles that a channel with role `c` feeds: both front channels for
/// mono, else its own.
pub open spec fn remix(c: ChannelPosition) -> Seq<ChannelPosition> {
    if c == ChannelPosition::Mono {
        seq![ChannelPosition::FrontLeft, ChannelPosition::FrontRight]
    } else {
        seq![c]
    }
}

/// The link from `output` of node `source` to `input` of node `tap`.
pub open spec fn link_spec(source: u32, output: Port, tap: u32, input: Port) -> LinkSpec {
    LinkSpec {
        output_node: source,
        output_port: output.global_id,
        input_node: tap,
        input_port: input.global_id,
    }
}

/// A link that source node `n` needs: when its normalised ports match the
/// layout, port `i` feeds target `i`; otherwise each port feeds the
/// targets of the roles that its remapped role feeds.
pub open spec fn source_link(tap_id: u32, layout: Seq<ChannelPosition>, ts: Seq<Port>, n: NodeView, x: LinkSpec) -> bool {
    let ports = output_ports_spec(n);
    let positions = port_layout_spec(ports).0;
    let m = clamp_channels(ports.len() as int);
    if positions.take(m) == layout {
        exists|i: int| 0 <= i < ports.len() && i < ts.len() && x == link_spec(n.id, ports[i], tap_id, #[trigger] ts[i])
    } else {
        let p2 = remapped(positions);
        exists|i: int, c: ChannelPosition|
            #![trigger remix(p2[i]), target_for_spec(layout, ts, c)]
            0 <= i < m && remix(p2[i]).contains(c) && target_for_spec(layout, ts, c) is Some && x == link_spec(
                n.id,
                ports[i],
                tap_id,
                target_for_spec(layout, ts, c)->0,
            )
    }
}

/// A link that the plan needs between its sources and the tap.
pub open spec fn wanted_link(g: &Graph, p: Plan, tap: NodeView, x: LinkSpec) -> bool {
    p.sources@.len() > 0 && match tap_targets(
        p.stream.layout@,
        ports_in_spec(tap.ports, PortDirection::Input, false),
    ) {
        Some(ts) => source_links(g, p, tap.id, ts, x),
        None => false,
    }
}

/// A link that some source of the plan needs, with tap targets `ts`.
pub open spec fn source_links(g: &Graph, p: Plan, tap_id: u32, ts: Seq<Port>, x: LinkSpec) -> bool {
    exists|s: int|
        0 <= s < p.sources@.len() && g.nodes@.contains_key(p.sources@[s]) && #[trigger] source_link(
            tap_id,
            p.stream.layout@,
            ts,
            g.nodes@[p.sources@[s]]@,
            x,
        )
}

proof fn lemma_wanted(g: &Graph, p: Plan, tap: NodeView, x: LinkSpec, ts: Seq<Port>, j: int)
    requires
        tap_targets(p.stream.layout@, ports_in_spec(tap.ports, PortDirection::Input, false)) == Some(ts),
        0 <= j < p.sources@.len(),
        g.nodes@.contains_key(p.sources@[j]),
        source_link(tap.id, p.stream.layout@, ts, g.nodes@[p.sources@[j]]@, x),
    ensures
        wanted_link(g, p, tap, x),
{
    assert(source_links(g, p, tap.id, ts, x));
}

impl Ranked for LinkSpec {
    /// Links go by output node, output port, input node, then input port.
    open spec fn before(&self, other: &LinkSpec) -> bool {
        ||| self.output_node < other.output_node
        ||| (self.output_node == other.output_node && self.output_port < other.output_port)
        ||| (self.output_node == other.output_node && self.output_port == other.output_port
            && self.input_node < other.input_node)
        ||| (self.output_node == other.output_node && self.output_port == other.output_port
            && self.input_node == other.input_node && self.input_port < other.input_port)
    }

    fn comes_before(&self, other: &LinkSpec) -> (r: bool) {
        if self.output_node != other.output_node {
            self.output_node < other.output_node
        } else if self.output_port != other.output_port {
            self.output_port < other.output_port
        } else if self.input_node != other.input_node {
            self.input_node < other.input_node
        } else {
            self.input_port < other.input_port
        }
    }

    proof fn before_irreflexive(a: &LinkSpec) {
    }

    proof fn before_transitive(a: &LinkSpec, b: &LinkSpec, c: &LinkSpec) {
    }
}

/// The link from `output` of `source` to `input` of `tap`.
pub fn link(source: &Node, output: &Port, tap: &Node, input: &Port) -> (r: LinkSpec)
    ensures
        r == link_spec(source.id, *output, tap.id, *input),
{
    LinkSpec {
        output_node: source.id,
        output_port: output.global_id,
        input_node: tap.id,
        input_port: input.global_id,
    }
}

fn claimed_has(claimed: &Vec<u32>, id: u32) -> (r: bool)
    ensures
        r == claimed@.contains(id),
{
    let mut i: usize = 0;
    while i < claimed.len()
        invariant
            i <= claimed@.len(),
            forall|k: int| 0 <= k < i ==> claimed@[k] != id,
        decreases claimed@.len() - i,
    {
        if claimed[i] == id {
            return true;
        }
        i += 1;
    }
    false
}

/// The tap port that layout position `ordinal` with role `ch` takes.
fn claim(tap: &Vec<Port>, claimed: &Vec<u32>, ordinal: usize, ch: ChannelPosition) -> (r: Option<Port>)
    ensures
        r == claim_spec(tap@, claimed@.to_set(), ordinal as int, ch),
{
    broadcast use vstd::seq_lib::group_seq_properties;

    let ghost cs = claimed@.to_set();
    let ghost p = unclaimed_with(ch, cs);
    let mut i: usize = 0;
    while i < tap.len()
        invariant
            i <= tap@.len(),
            cs == claimed@.to_set(),
            p == unclaimed_with(ch, cs),
            forall|k: int| 0 <= k < i ==> !p(#[trigger] tap@[k]),
        decreases tap@.len() - i,
    {
        if tap[i].channel == Some(ch) && !claimed_has(claimed, tap[i].global_id) {
            proof {
                assert(p(tap@[i as int]));
                lemma_first_index_at(tap@, p, i as int);
            }
            return Some(tap[i]);
        }
        proof {
            assert(!p(tap@[i as int]));
        }
        i += 1;
    }
    proof {
        lemma_first_index_none(tap@, p);
    }
    if ordinal < tap.len() && !claimed_has(claimed, tap[ordinal].global_id) {
        return Some(tap[ordinal]);
    }
    let ghost q = unclaimed(cs);
    let mut j: usize = 0;
    while j < tap.len()
        invariant
            j <= tap@.len(),
            cs == claimed@.to_set(),
            q == unclaimed(cs),
            first_index(tap@, unclaimed_with(ch, cs)) is None,
            !(ordinal < tap@.len() && !cs.contains(tap@[ordinal as int].global_id)),
            forall|k: int| 0 <= k < j ==> !q(#[trigger] tap@[k]),
        decreases tap@.len() - j,
    {
        if !claimed_has(claimed, tap[j].global_id) {
            proof {
                assert(q(tap@[j as int]));
                lemma_first_index_at(tap@, q, j as int);
            }
            return Some(tap[j]);
        }
        proof {
            assert(!q(tap@[j as int]));
        }
        j += 1;
    }
    proof {
        lemma_first_index_none(tap@, q);
    }
    None
}

/// The tap port of each layout position, when every position finds one.
fn assign_targets(layout: &Vec<ChannelPosition>, tap: &Vec<Port>) -> (r: Option<Vec<Port>>)
    ensures
        match r {
            Some(ts) => tap_targets(layout@, tap@) == Some(ts@),
            None => tap_targets(layout@, tap@) is None,
        },
{
    broadcast use vstd::seq_lib::group_seq_properties;

    let mut targets: Vec<Port> = Vec::new();
    let mut claimed: Vec<u32> = Vec::new();
    let mut k: usize = 0;
    while k < layout.len()
        invariant
            k <= layout@.len(),
            targets_upto(layout@, tap@, k as nat) == Some((targets@, claimed@.to_set())),
        decreases layout@.len() - k,
    {
        match claim(tap, &claimed, k, layout[k]) {
            Some(p) => {
                let ghost before = claimed@;
                targets.push(p);
                claimed.push(p.global_id);
                proof {
                    crate::search::lemma_contains_push(before, p.global_id);
                    assert(claimed@.to_set() =~= before.to_set().insert(p.global_id));
                }
            },
            None => {
                proof {
                    assert(targets_upto(layout@, tap@, (k + 1) as nat) is None);
                    lemma_targets_none(layout@, tap@, (k + 1) as nat, layout@.len());
                }
                return None;
            },
        }
        k += 1;
    }
    Some(targets)
}

proof fn lemma_targets_none(layout: Seq<ChannelPosition>, tap: Seq<Port>, k: nat, n: nat)
    requires
        k <= n,
        targets_upto(layout, tap, k) is None,
    ensures
        targets_upto(layout, tap, n) is None,
    decreases n - k,
{
    if k < n {
        lemma_targets_none(layout, tap, k + 1, n);
    }
}

proof fn lemma_targets_len(layout: Seq<ChannelPosition>, tap: Seq<Port>, k: nat)
    ensures
        targets_upto(layout, tap, k) matches Some((ts, _)) ==> ts.len() == k,
    decreases k,
{
    if k > 0 {
        lemma_targets_len(layout, tap, (k - 1) as nat);
    }
}

fn aux_count_exec(positions: &Layout) -> (r: usize)
    ensures
        r == aux_count(positions@),
        r <= 256,
{
    let mut acc: usize = 0;
    let mut i: usize = 0;
    while i < 8
        invariant
            i <= 8,
            positions@.len() == 8,
            acc == aux_count(positions@.take(i as int)),
            acc <= 256,
        decreases 8 - i,
    {
        proof {
            assert(positions@.take(i + 1).drop_last() =~= positions@.take(i as int));
            assert(positions@.take(i + 1).last() == positions@[i as int]);
        }
        match positions[i] {
            ChannelPosition::Aux(k) => {
                if k as usize + 1 > acc {
                    acc = k as usize + 1;
                }
            },
            _ => {},
        }
        i += 1;
    }
    proof {
        assert(positions@.take(8) =~= positions@);
    }
    acc
}

/// The remapped speaker roles of a source's channels.
fn remap_positions(positions: &Layout) -> (r: Layout)
    ensures
        r@ == remapped(positions@),
{
    let count = aux_count_exec(positions);
    let aux_layout = ChannelPosition::fallback(count);
    let mut mapped = *positions;
    let mut i: usize = 0;
    while i < 8
        invariant
            i <= 8,
            positions@.len() == 8,
            mapped@.len() == 8,
            aux_layout@ == fallback_spec(aux_count(positions@)),
            forall|k: int|
                0 <= k < 8 ==> #[trigger] mapped@[k] == if k < i {
                    aux_role(aux_layout@, positions@[k])
                } else {
                    positions@[k]
                },
        decreases 8 - i,
    {
        let c = positions[i];
        mapped[i] = match c {
            ChannelPosition::Aux(k) => if k < 8 {
                let role = aux_layout[k as usize];
                if role == ChannelPosition::Mono {
                    ChannelPosition::FrontLeft
                } else {
                    role
                }
            } else {
                ChannelPosition::Unknown
            },
            _ => c,
        };
        i += 1;
    }
    proof {
        assert(mapped@ =~= positions@.map_values(|c: ChannelPosition| aux_role(aux_layout@, c)));
    }
    ChannelPosition::resolve_surrounds(&mut mapped);
    mapped
}

/// The tap port for speaker role `ch`.
fn target_for(layout: &Vec<ChannelPosition>, targets: &Vec<Port>, ch: ChannelPosition) -> (r: Option<Port>)
    requires
        targets@.len() == layout@.len(),
    ensures
        r == target_for_spec(layout@, targets@, ch),
{
    let ghost p = role_is(ch);
    let mut i: usize = 0;
    while i < layout.len()
        invariant
            i <= layout@.len(),
            targets@.len() == layout@.len(),
            p == role_is(ch),
            forall|k: int| 0 <= k < i ==> !p(#[trigger] layout@[k]),
        decreases layout@.len() - i,
    {
        if layout[i] == ch {
            proof {
                assert(p(layout@[i as int]));
                lemma_first_index_at(layout@, p, i as int);
            }
            return Some(targets[i]);
        }
        i += 1;
    }
    proof {
        lemma_first_index_none(layout@, p);
    }
    None
}

/// Adds `x` to `links` unless it is there.
fn insert_unique(links: &mut Vec<LinkSpec>, x: LinkSpec)
    requires
        old(links)@.no_duplicates(),
    ensures
        final(links)@.no_duplicates(),
        forall|y: LinkSpec| #[trigger] final(links)@.contains(y) <==> (old(links)@.contains(y) || y == x),
{
    let mut i: usize = 0;
    while i < links.len()
        invariant
            i <= links@.len(),
            links@ == old(links)@,
            old(links)@.no_duplicates(),
            forall|k: int| 0 <= k < i ==> links@[k] != x,
        decreases links@.len() - i,
    {
        if links[i] == x {
            return ;
        }
        i += 1;
    }
    let ghost before = links@;
    links.push(x);
    proof {
        crate::search::lemma_contains_push(before, x);
        assert forall|a: int, b: int| 0 <= a < links@.len() && 0 <= b < links@.len() && a != b implies links@[a] != links@[b] by {
            if a < before.len() && b < before.len() {
                assert(links@[a] == before[a] && links@[b] == before[b]);
            } else if a < before.len() {
                assert(links@[a] == before[a]);
            } else {
                assert(links@[b] == before[b]);
            }
        }
    }
}

/// Whether two layouts hold the same positions.
fn same_layout(a: &Vec<ChannelPosition>, b: &Vec<ChannelPosition>) -> (r: bool)
    ensures
        r == (a@ == b@),
{
    if a.len() != b.len() {
        return false;
    }
    let mut i: usize = 0;
    while i < a.len()
        invariant
            i <= a@.len(),
            a@.len() == b@.len(),
            forall|k: int| 0 <= k < i ==> a@[k] == b@[k],
        decreases a@.len() - i,
    {
        if a[i] != b[i] {
            proof {
                assert(a@[i as int] != b@[i as int]);
            }
            return false;
        }
        i += 1;
    }
    proof {
        assert(a@ =~= b@);
    }
    true
}

/// Adds the links that `source` needs.
fn add_source_links(
    links: &mut Vec<LinkSpec>,
    source: &Node,
    layout: &Vec<ChannelPosition>,
    targets: &Vec<Port>,
    tap: &Node,
)
    requires
        old(links)@.no_duplicates(),
        targets@.len() == layout@.len(),
    ensures
        final(links)@.no_duplicates(),
        forall|x: LinkSpec| #[trigger] final(links)@.contains(x) <==> (old(links)@.contains(x) || source_link(
            tap.id,
            layout@,
            targets@,
            source@,
            x,
        )),
{
    let ports = source.output_ports();
    let (positions, _) = port_layout(&ports);
    let m: usize = if ports.len() < 8 {
        ports.len()
    } else {
        8
    };
    let prefix = layout_prefix(&positions, m);
    let ghost start = links@;
    if same_layout(&prefix, layout) {
        let mut i: usize = 0;
        while i < ports.len() && i < targets.len()
            invariant
                start == old(links)@,
                links@.no_duplicates(),
                ports@ == output_ports_spec(source@),
                forall|x: LinkSpec| #[trigger] links@.contains(x) <==> (start.contains(x) || exists|k: int|
                    0 <= k < i && k < ports@.len() && k < targets@.len() && x == link_spec(source.id, ports@[k], tap.id, #[trigger] targets@[k])),
            decreases ports@.len() - i,
        {
            let l = link(source, &ports[i], tap, &targets[i]);
            insert_unique(links, l);
            proof {
                assert forall|x: LinkSpec| #[trigger] links@.contains(x) <==> (start.contains(x) || exists|k: int|
                    0 <= k < i + 1 && k < ports@.len() && k < targets@.len() && x == link_spec(source.id, ports@[k], tap.id, #[trigger] targets@[k])) by {
                    if x == l {
                        assert(x == link_spec(source.id, ports@[i as int], tap.id, targets@[i as int]));
                    }
                }
            }
            i += 1;
        }
        proof {
            assert forall|x: LinkSpec| #[trigger] links@.contains(x) <==> (start.contains(x) || source_link(
                tap.id,
                layout@,
                targets@,
                source@,
                x,
            )) by {
                if links@.contains(x) && !start.contains(x) {
                    let k = choose|k: int|
                        0 <= k < i && k < ports@.len() && k < targets@.len() && x == link_spec(source.id, ports@[k], tap.id, #[trigger] targets@[k]);
                    assert(x == link_spec(source@.id, output_ports_spec(source@)[k], tap.id, targets@[k]));
                }
                if source_link(tap.id, layout@, targets@, source@, x) {
                    let k = choose|k: int|
                        0 <= k < output_ports_spec(source@).len() && k < targets@.len() && x == link_spec(source@.id, output_ports_spec(source@)[k], tap.id, #[trigger] targets@[k]);
                    assert(0 <= k < i && k < ports@.len() && k < targets@.len() && x == link_spec(source.id, ports@[k], tap.id, targets@[k]));
                }
            }
        }
    } else {
        let mapped = remap_positions(&positions);
        let ghost p2 = mapped@;
        let mut i: usize = 0;
        while i < m
            invariant
                start == old(links)@,
                links@.no_duplicates(),
                i <= m,
                ports@ == output_ports_spec(source@),
                m == clamp_channels(ports@.len() as int),
                p2 == mapped@,
                targets@.len() == layout@.len(),
                forall|x: LinkSpec| #[trigger] links@.contains(x) <==> (start.contains(x) || exists|k: int, c: ChannelPosition|
                    #![trigger remix(p2[k]), target_for_spec(layout@, targets@, c)]
                    0 <= k < i && remix(p2[k]).contains(c) && target_for_spec(layout@, targets@, c) is Some
                        && x == link_spec(source.id, ports@[k], tap.id, target_for_spec(layout@, targets@, c)->0)),
            decreases m - i,
        {
            let c = mapped[i];
            let ghost mid = links@;
            if c == ChannelPosition::Mono {
                let left = target_for(layout, targets, ChannelPosition::FrontLeft);
                match left {
                    Some(t) => insert_unique(links, link(source, &ports[i], tap, &t)),
                    None => {},
                }
                let right = target_for(layout, targets, ChannelPosition::FrontRight);
                match right {
                    Some(t) => insert_unique(links, link(source, &ports[i], tap, &t)),
                    None => {},
                }
                proof {
                    assert(remix(c) == seq![ChannelPosition::FrontLeft, ChannelPosition::FrontRight]);
                    assert forall|x: LinkSpec| #[trigger] links@.contains(x) <==> (start.contains(x) || exists|k: int, d: ChannelPosition|
                        #![trigger remix(p2[k]), target_for_spec(layout@, targets@, d)]
                        0 <= k < i + 1 && remix(p2[k]).contains(d) && target_for_spec(layout@, targets@, d) is Some
                            && x == link_spec(source.id, ports@[k], tap.id, target_for_spec(layout@, targets@, d)->0)) by {
                        if exists|k: int, d: ChannelPosition|
                            #![trigger remix(p2[k]), target_for_spec(layout@, targets@, d)]
                            0 <= k < i + 1 && remix(p2[k]).contains(d) && target_for_spec(layout@, targets@, d) is Some
                                && x == link_spec(source.id, ports@[k], tap.id, target_for_spec(layout@, targets@, d)->0) {
                            let (k, d) = choose|k: int, d: ChannelPosition|
                                #![trigger remix(p2[k]), target_for_spec(layout@, targets@, d)]
                                0 <= k < i + 1 && remix(p2[k]).contains(d) && target_for_spec(layout@, targets@, d) is Some
                                    && x == link_spec(source.id, ports@[k], tap.id, target_for_spec(layout@, targets@, d)->0);
                            if k == i {
                                assert(d == ChannelPosition::FrontLeft || d == ChannelPosition::FrontRight);
                            }
                        }
                        if links@.contains(x) && !start.contains(x) && !mid.contains(x) {
                            if left is Some && x == link_spec(source.id, ports@[i as int], tap.id, left->0) {
                                assert(remix(p2[i as int])[0] == ChannelPosition::FrontLeft);
                                assert(remix(p2[i as int]).contains(ChannelPosition::FrontLeft));
                            } else {
                                assert(remix(p2[i as int])[1] == ChannelPosition::FrontRight);
                                assert(remix(p2[i as int]).contains(ChannelPosition::FrontRight));
                            }
                        }
                    }
                }
            } else {
                let t = target_for(layout, targets, c);
                match t {
                    Some(t) => insert_unique(links, link(source, &ports[i], tap, &t)),
                    None => {},
                }
                proof {
                    assert(remix(c) == seq![c]);
                    assert forall|x: LinkSpec| #[trigger] links@.contains(x) <==> (start.contains(x) || exists|k: int, d: ChannelPosition|
                        #![trigger remix(p2[k]), target_for_spec(layout@, targets@, d)]
                        0 <= k < i + 1 && remix(p2[k]).contains(d) && target_for_spec(layout@, targets@, d) is Some
                            && x == link_spec(source.id, ports@[k], tap.id, target_for_spec(layout@, targets@, d)->0)) by {
                        if exists|k: int, d: ChannelPosition|
                            #![trigger remix(p2[k]), target_for_spec(layout@, targets@, d)]
                            0 <= k < i + 1 && remix(p2[k]).contains(d) && target_for_spec(layout@, targets@, d) is Some
                                && x == link_spec(source.id, ports@[k], tap.id, target_for_spec(layout@, targets@, d)->0) {
                            let (k, d) = choose|k: int, d: ChannelPosition|
                                #![trigger remix(p2[k]), target_for_spec(layout@, targets@, d)]
                                0 <= k < i + 1 && remix(p2[k]).contains(d) && target_for_spec(layout@, targets@, d) is Some
                                    && x == link_spec(source.id, ports@[k], tap.id, target_for_spec(layout@, targets@, d)->0);
                            if k == i {
                                assert(d == c);
                            }
                        }
                        if links@.contains(x) && !start.contains(x) && !mid.contains(x) {
                            assert(remix(p2[i as int])[0] == c);
                            assert(remix(p2[i as int]).contains(c));
                        }
                    }
                }
            }
            i += 1;
        }
        proof {
            let ops = output_ports_spec(source@);
            assert(p2 == remapped(port_layout_spec(ops).0));
            assert(port_layout_spec(ops).0.take(clamp_channels(ops.len() as int)) != layout@);
            assert forall|x: LinkSpec| #[trigger] links@.contains(x) <==> (start.contains(x) || source_link(
                tap.id,
                layout@,
                targets@,
                source@,
                x,
            )) by {
                if links@.contains(x) && !start.contains(x) {
                    let (k, d) = choose|k: int, d: ChannelPosition|
                        #![trigger remix(p2[k]), target_for_spec(layout@, targets@, d)]
                        0 <= k < m && remix(p2[k]).contains(d) && target_for_spec(layout@, targets@, d) is Some
                            && x == link_spec(source.id, ports@[k], tap.id, target_for_spec(layout@, targets@, d)->0);
                    assert(x == link_spec(source@.id, ops[k], tap.id, target_for_spec(layout@, targets@, d)->0));
                }
            }
        }
    }
}

/// The links that connect the plan's sources to the tap, in order and
/// once each.  There are none without sources, or when some layout
/// position finds no tap port.
pub fn desired_links(graph: &Graph, plan: &Plan, tap: &Node) -> (r: Vec<LinkSpec>)
    ensures
        in_rank_order(r@),
        r@.no_duplicates(),
        forall|x: LinkSpec| #[trigger] r@.contains(x) <==> wanted_link(graph, *plan, tap@, x),
{
    if plan.sources.len() == 0 {
        return Vec::new();
    }
    let tap_ports = tap.input_ports();
    let targets = match assign_targets(&plan.stream.layout, &tap_ports) {
        Some(t) => t,
        None => {
            return Vec::new();
        },
    };
    proof {
        lemma_targets_len(plan.stream.layout@, tap_ports@, plan.stream.layout@.len());
    }
    let ghost ts = targets@;
    let mut links: Vec<LinkSpec> = Vec::new();
    let mut s: usize = 0;
    while s < plan.sources.len()
        invariant
            s <= plan.sources@.len(),
            plan.sources@.len() > 0,
            ts == targets@,
            targets@.len() == plan.stream.layout@.len(),
            tap_targets(plan.stream.layout@, ports_in_spec(tap@.ports, PortDirection::Input, false)) == Some(ts),
            links@.no_duplicates(),
            forall|x: LinkSpec| #[trigger] links@.contains(x) <==> exists|j: int|
                0 <= j < s && graph.nodes@.contains_key(plan.sources@[j]) && #[trigger] source_link(
                    tap.id,
                    plan.stream.layout@,
                    ts,
                    graph.nodes@[plan.sources@[j]]@,
                    x,
                ),
        decreases plan.sources@.len() - s,
    {
        let ghost before = links@;
        match graph.node(plan.sources[s]) {
            Some(n) => add_source_links(&mut links, n, &plan.stream.layout, &targets, tap),
            None => {},
        }
        proof {
            assert forall|x: LinkSpec| #[trigger] links@.contains(x) <==> exists|j: int|
                0 <= j < s + 1 && graph.nodes@.contains_key(plan.sources@[j]) && #[trigger] source_link(
                    tap.id,
                    plan.stream.layout@,
                    ts,
                    graph.nodes@[plan.sources@[j]]@,
                    x,
                ) by {
                if exists|j: int|
                    0 <= j < s + 1 && graph.nodes@.contains_key(plan.sources@[j]) && #[trigger] source_link(
                        tap.id,
                        plan.stream.layout@,
                        ts,
                        graph.nodes@[plan.sources@[j]]@,
                        x,
                    ) {
                    let j = choose|j: int|
                        0 <= j < s + 1 && graph.nodes@.contains_key(plan.sources@[j]) && #[trigger] source_link(
                            tap.id,
                            plan.stream.layout@,
                            ts,
                            graph.nodes@[plan.sources@[j]]@,
                            x,
                        );
                    if j < s {
                        assert(before.contains(x));
                    }
                }
            }
        }
        s += 1;
    }
    let ghost lv = links@;
    let sorted = sort_by_rank(links);
    proof {
        lemma_sorted_by_rank_ordered(lv);
        lemma_sorted_by_rank_contains(lv);
        let key = |x: LinkSpec| x;
        lemma_sorted_by_rank_distinct(lv, key);
        assert forall|x: LinkSpec| #[trigger] sorted@.contains(x) <==> wanted_link(graph, *plan, tap@, x) by {
            assert(sorted@.contains(x) == lv.contains(x));
            assert(tap_targets(plan.stream.layout@, ports_in_spec(tap@.ports, PortDirection::Input, false)) == Some(ts));
            if lv.contains(x) {
                let j = choose|j: int|
                    0 <= j < s && graph.nodes@.contains_key(plan.sources@[j]) && #[trigger] source_link(
                        tap.id,
                        plan.stream.layout@,
                        ts,
                        graph.nodes@[plan.sources@[j]]@,
                        x,
                    );
                lemma_wanted(graph, *plan, tap@, x, ts, j);
            }
        }
    }
    sorted
}

/// The global id of some port of `ports`.
pub open spec fn port_id_in(ports: Seq<Port>, id: u32) -> bool {
    exists|i: int| 0 <= i < ports.len() && (#[trigger] ports[i]).global_id == id
}

proof fn lemma_targets_claim(layout: Seq<ChannelPosition>, tap: Seq<Port>, k: nat)
    ensures
        targets_upto(layout, tap, k) matches Some((ts, claimed)) ==> {
            &&& ts.len() == k
            &&& claimed.finite()
            &&& claimed.len() == k
            &&& claimed.subset_of(tap.map_values(|p: Port| p.global_id).to_set())
            &&& forall|i: int| 0 <= i < k ==> tap.contains(#[trigger] ts[i])
        },
    decreases k,
{
    if k > 0 {
        lemma_targets_claim(layout, tap, (k - 1) as nat);
        match targets_upto(layout, tap, (k - 1) as nat) {
            Some((ts, claimed)) => {
                let ch = layout[k - 1];
                lemma_first_index_facts(tap, unclaimed_with(ch, claimed));
                lemma_first_index_facts(tap, unclaimed(claimed));
                match claim_spec(tap, claimed, k - 1, ch) {
                    Some(p) => {
                        let ids = tap.map_values(|q: Port| q.global_id);
                        let i = choose|i: int| 0 <= i < tap.len() && tap[i] == p;
                        assert(ids[i] == p.global_id);
                        assert(ids.to_set().contains(p.global_id));
                        let ts2 = ts.push(p);
                        assert forall|j: int| 0 <= j < k implies tap.contains(#[trigger] ts2[j]) by {
                            if j < k - 1 {
                                assert(ts2[j] == ts[j]);
                            } else {
                                assert(tap[i] == ts2[j]);
                            }
                        }
                    },
                    None => {},
                }
            },
            None => {},
        }
    }
}

/// Every link that the plan wants goes into the tap, from an output port
/// of one of the plan's sources to an input port of the tap.  So there is
/// none when the plan has no source, or when the tap has fewer input ports
/// than the layout has positions.
pub proof fn law_links_join_sources_to_tap(g: &Graph, p: Plan, tap: NodeView, x: LinkSpec)
    requires
        g.wf(),
    ensures
        wanted_link(g, p, tap, x) ==> {
            &&& x.input_node == tap.id
            &&& p.sources@.contains(x.output_node)
            &&& g.nodes@.contains_key(x.output_node)
            &&& port_id_in(output_ports_spec(g.nodes@[x.output_node]@), x.output_port)
            &&& port_id_in(ports_in_spec(tap.ports, PortDirection::Input, false), x.input_port)
        },
        p.sources@.len() == 0 ==> !wanted_link(g, p, tap, x),
        ports_in_spec(tap.ports, PortDirection::Input, false).len() < p.stream.layout@.len()
            ==> !wanted_link(g, p, tap, x),
{
    let tin = ports_in_spec(tap.ports, PortDirection::Input, false);
    let layout = p.stream.layout@;
    lemma_targets_claim(layout, tin, layout.len());
    if let Some((ts, claimed)) = targets_upto(layout, tin, layout.len()) {
        let ids = tin.map_values(|q: Port| q.global_id);
        vstd::set_lib::lemma_len_subset(claimed, ids.to_set());
        ids.lemma_cardinality_of_set();
    }
    if wanted_link(g, p, tap, x) {
        let ts = tap_targets(layout, tin)->0;
        let s = choose|s: int|
            0 <= s < p.sources@.len() && g.nodes@.contains_key(p.sources@[s]) && #[trigger] source_link(
                tap.id,
                layout,
                ts,
                g.nodes@[p.sources@[s]]@,
                x,
            );
        let id = p.sources@[s];
        let n = g.nodes@[id]@;
        assert(n.id == id);
        assert(p.sources@[s] == id);
        let ports = output_ports_spec(n);
        let positions = port_layout_spec(ports).0;
        let m = clamp_channels(ports.len() as int);
        if positions.take(m) == layout {
            let i = choose|i: int| 0 <= i < ports.len() && i < ts.len() && x == link_spec(n.id, ports[i], tap.id, #[trigger] ts[i]);
            assert(tin.contains(ts[i]));
            let j = choose|j: int| 0 <= j < tin.len() && tin[j] == ts[i];
            assert(port_id_in(tin, x.input_port));
            assert(port_id_in(ports, x.output_port));
        } else {
            let p2 = remapped(positions);
            let (i, c) = choose|i: int, c: ChannelPosition|
                #![trigger remix(p2[i]), target_for_spec(layout, ts, c)]
                0 <= i < m && remix(p2[i]).contains(c) && target_for_spec(layout, ts, c) is Some && x == link_spec(
                    n.id,
                    ports[i],
                    tap.id,
                    target_for_spec(layout, ts, c)->0,
                );
            lemma_first_index_facts(layout, role_is(c));
            let k = first_index(layout, role_is(c))->0;
            assert(tin.contains(ts[k]));
            let j = choose|j: int| 0 <= j < tin.len() && tin[j] == ts[k];
            assert(port_id_in(tin, x.input_port));
            assert(port_id_in(ports, x.output_port));
        }
    }
}

proof fn lemma_increasing_same_items(a: Seq<u32>, b: Seq<u32>)
    requires
        increasing(a),
        increasing(b),
        forall|k: u32| #[trigger] a.contains(k) <==> b.contains(k),
    ensures
        a == b,
    decreases a.len(),
{
    if a.len() == 0 {
        if b.len() > 0 {
            assert(b.contains(b[0]));
            assert(a.contains(b[0]));
        }
        assert(a =~= b);
    } else {
        assert(a.contains(a[0]));
        assert(b.len() > 0);
        assert(b.contains(b[0]));
        assert(a.contains(b[0]));
        assert(b.contains(a[0]));
        let i = choose|i: int| 0 <= i < a.len() && a[i] == b[0];
        let j = choose|j: int| 0 <= j < b.len() && b[j] == a[0];
        if i > 0 {
            assert(a[0] < a[i]);
        }
        if j > 0 {
            assert(b[0] < b[j]);
        }
        assert(a[0] == b[0]);
        let ar = a.drop_first();
        let br = b.drop_first();
        assert forall|k: u32| #[trigger] ar.contains(k) <==> br.contains(k) by {
            if ar.contains(k) {
                let x = choose|x: int| 0 <= x < ar.len() && ar[x] == k;
                assert(a[x + 1] == k && a[0] < a[x + 1]);
                assert(a.contains(k));
                let y = choose|y: int| 0 <= y < b.len() && b[y] == k;
                assert(y != 0);
                assert(br[y - 1] == k);
            }
            if br.contains(k) {
                let x = choose|x: int| 0 <= x < br.len() && br[x] == k;
                assert(b[x + 1] == k && b[0] < b[x + 1]);
                assert(b.contains(k));
                assert(a.contains(k));
                let y = choose|y: int| 0 <= y < a.len() && a[y] == k;
                assert(y != 0);
                assert(ar[y - 1] == k);
            }
        }
        assert(increasing(ar)) by {
            assert forall|x: int, y: int| #![trigger ar[x], ar[y]] 0 <= x < y < ar.len() implies ar[x] < ar[y] by {
                assert(ar[x] == a[x + 1] && ar[y] == a[y + 1]);
            }
        }
        assert(increasing(br)) by {
            assert forall|x: int, y: int| #![trigger br[x], br[y]] 0 <= x < y < br.len() implies br[x] < br[y] by {
                assert(br[x] == b[x + 1] && br[y] == b[y + 1]);
            }
        }
        lemma_increasing_same_items(ar, br);
        assert(a =~= seq![a[0]] + ar);
        assert(b =~= seq![b[0]] + br);
    }
}

/// The sources of an application capture are settled by the graph and the
/// configuration alone: exactly one list holds, in ascending order, the ids
/// of the playback nodes with an identity that the user did not switch
/// off and a link to somewhere other than the tap.
pub proof fn law_application_sources_are_unique(
    g: &Graph,
    config: CaptureConfig,
    tap_id: Option<u32>,
    a: Seq<u32>,
    b: Seq<u32>,
)
    requires
        app_sources(g, config, tap_id, a),
        app_sources(g, config, tap_id, b),
    ensures
        a == b,
{
    lemma_increasing_same_items(a, b);
}

/// In an application capture the sources are, in ascending order, exactly
/// the playback nodes that have a stream identity the user did not switch
/// off and a link from them to a node other than the tap.
pub proof fn law_application_sources_listed(
    g: &Graph,
    config: CaptureConfig,
    tap_id: Option<u32>,
    ids: Seq<u32>,
)
    requires
        g.wf(),
        app_sources(g, config, tap_id, ids),
    ensures
        forall|i: int, j: int| 0 <= i < j < ids.len() ==> ids[i] < ids[j],
        forall|k: u32|
            #[trigger] ids.contains(k) <==> {
                &&& g.nodes@.contains_key(k)
                &&& g.nodes@[k].kind == NodeKind::Playback
                &&& g.nodes@[k]@.identity matches Some(identity) && !identity_listed(
                    config.disabled_streams@,
                    identity,
                )
                &&& exists|l: u32|
                    #![trigger g.links@[l]]
                    g.links@.contains_key(l) && g.links@[l].output_node == k && Some(
                        g.links@[l].input_node,
                    ) != tap_id
            },
{
    assert forall|i: int, j: int| 0 <= i < j < ids.len() implies ids[i] < ids[j] by {
        assert(ids[i] < ids[j]);
    }
    assert forall|k: u32| #[trigger] ids.contains(k) <==> {
        &&& g.nodes@.contains_key(k)
        &&& g.nodes@[k].kind == NodeKind::Playback
        &&& g.nodes@[k]@.identity matches Some(identity) && !identity_listed(
            config.disabled_streams@,
            identity,
        )
        &&& exists|l: u32|
            #![trigger g.links@[l]]
            g.links@.contains_key(l) && g.links@[l].output_node == k && Some(g.links@[l].input_node)
                != tap_id
    } by {
        if g.nodes@.contains_key(k) {
            assert(g.nodes@[k].id == k);
        }
    }
}

/// A device capture without a selected device reads the default sink:
/// whenever the default sink resolves to a node, the device chosen is a
/// node it resolves to, and the plan is not the idle one: that node is the
/// plan's source, or the stream targets the node's target object.
pub proof fn law_default_sink_is_captured(g: &Graph, config: CaptureConfig, m: Node, d: Option<Node>)
    requires
        config.mode == CaptureMode::Device,
        config.device is None,
        g.default_sink matches Some(t) && resolved(g.nodes@, t@, Some(m)),
        chosen_device(g, config, d),
    ensures
        d matches Some(n) && resolved(g.nodes@, g.default_sink->0@, Some(n)) && {
            let p = device_plan(Some(n@));
            p.3 == seq![n.id] || p.1 is Some
        },
{
    let t = g.default_sink->0;
    if d is None {
        if !(t@.node_id is Some && g.nodes@.contains_key(t@.node_id->0)) {
            let name = t@.name->0;
            let k = choose|k: u32| #![trigger g.nodes@[k]] crate::graph::named(g.nodes@, k, name) && g.nodes@[k] == m;
            assert(crate::graph::named(g.nodes@, k, name));
        }
        assert(false);
    }
}

/// A mono channel feeds both front channels.  When a source's channels do
/// not match the plan's layout and channel `i` takes the mono role, the plan
/// wants a link from that channel's port to the tap port of the front left
/// position and one to the tap port of the front right position, whenever
/// the layout has them and every layout position finds a tap port.
pub proof fn law_mono_feeds_both_fronts(g: &Graph, p: Plan, tap: NodeView, s: int, i: int)
    requires
        g.wf(),
        0 <= s < p.sources@.len(),
        g.nodes@.contains_key(p.sources@[s]),
        ({
            let n = g.nodes@[p.sources@[s]]@;
            let ports = output_ports_spec(n);
            let positions = port_layout_spec(ports).0;
            &&& positions.take(clamp_channels(ports.len() as int)) != p.stream.layout@
            &&& 0 <= i < clamp_channels(ports.len() as int)
            &&& remapped(positions)[i] == ChannelPosition::Mono
        }),
        tap_targets(p.stream.layout@, ports_in_spec(tap.ports, PortDirection::Input, false)) is Some,
        p.stream.layout@.contains(ChannelPosition::FrontLeft),
        p.stream.layout@.contains(ChannelPosition::FrontRight),
    ensures
        ({
            let n = g.nodes@[p.sources@[s]]@;
            let port = output_ports_spec(n)[i];
            let layout = p.stream.layout@;
            let ts = tap_targets(layout, ports_in_spec(tap.ports, PortDirection::Input, false))->0;
            &&& exists|j: int|
                0 <= j < layout.len() && layout[j] == ChannelPosition::FrontLeft && wanted_link(
                    g,
                    p,
                    tap,
                    link_spec(n.id, port, tap.id, #[trigger] ts[j]),
                )
            &&& exists|j: int|
                0 <= j < layout.len() && layout[j] == ChannelPosition::FrontRight && wanted_link(
                    g,
                    p,
                    tap,
                    link_spec(n.id, port, tap.id, #[trigger] ts[j]),
                )
        }),
{
    let n = g.nodes@[p.sources@[s]]@;
    let ports = output_ports_spec(n);
    let positions = port_layout_spec(ports).0;
    let p2 = remapped(positions);
    let layout = p.stream.layout@;
    let tin = ports_in_spec(tap.ports, PortDirection::Input, false);
    let ts = tap_targets(layout, tin)->0;
    lemma_targets_len(layout, tin, layout.len());
    assert(remix(p2[i]) == seq![ChannelPosition::FrontLeft, ChannelPosition::FrontRight]);
    assert(remix(p2[i])[0] == ChannelPosition::FrontLeft);
    assert(remix(p2[i])[1] == ChannelPosition::FrontRight);
    let fl = ChannelPosition::FrontLeft;
    let fr = ChannelPosition::FrontRight;
    lemma_first_index_facts(layout, role_is(fl));
    lemma_first_index_facts(layout, role_is(fr));
    let jl = choose|j: int| 0 <= j < layout.len() && layout[j] == fl;
    let jr = choose|j: int| 0 <= j < layout.len() && layout[j] == fr;
    assert(role_is(fl)(layout[jl]));
    assert(role_is(fr)(layout[jr]));
    let kl = first_index(layout, role_is(fl))->0;
    let kr = first_index(layout, role_is(fr))->0;
    assert(remix(p2[i]).contains(fl));
    assert(remix(p2[i]).contains(fr));
    let xl = link_spec(n.id, ports[i], tap.id, ts[kl]);
    let xr = link_spec(n.id, ports[i], tap.id, ts[kr]);
    assert(target_for_spec(layout, ts, fl) == Some(ts[kl]));
    assert(target_for_spec(layout, ts, fr) == Some(ts[kr]));
    assert(source_link(tap.id, layout, ts, n, xl));
    assert(source_link(tap.id, layout, ts, n, xr));
    lemma_wanted(g, p, tap, xl, ts, s);
    lemma_wanted(g, p, tap, xr, ts, s);
}

/// Each source channel links to the tap port of its speaker role.  When a
/// source's channels match the plan's layout, channel `i` links to the tap
/// port of layout position `i`; otherwise a channel whose remapped role is
/// neither mono nor missing from the layout links to the tap port of the
/// first layout position with that role.
pub proof fn law_channels_link_by_role(g: &Graph, p: Plan, tap: NodeView, s: int, i: int)
    requires
        g.wf(),
        0 <= s < p.sources@.len(),
        g.nodes@.contains_key(p.sources@[s]),
        tap_targets(p.stream.layout@, ports_in_spec(tap.ports, PortDirection::Input, false)) is Some,
    ensures
        ({
            let n = g.nodes@[p.sources@[s]]@;
            let ports = output_ports_spec(n);
            let positions = port_layout_spec(ports).0;
            let m = clamp_channels(ports.len() as int);
            let layout = p.stream.layout@;
            let ts = tap_targets(layout, ports_in_spec(tap.ports, PortDirection::Input, false))->0;
            &&& positions.take(m) == layout && 0 <= i < ports.len() && i < layout.len() ==> wanted_link(
                g,
                p,
                tap,
                link_spec(n.id, ports[i], tap.id, ts[i]),
            )
            &&& positions.take(m) != layout && 0 <= i < m && remapped(positions)[i]
                != ChannelPosition::Mono && layout.contains(remapped(positions)[i]) ==> exists|j: int|
                0 <= j < layout.len() && layout[j] == remapped(positions)[i] && wanted_link(
                    g,
                    p,
                    tap,
                    link_spec(n.id, ports[i], tap.id, #[trigger] ts[j]),
                )
        }),
{
    let n = g.nodes@[p.sources@[s]]@;
    let ports = output_ports_spec(n);
    let positions = port_layout_spec(ports).0;
    let m = clamp_channels(ports.len() as int);
    let layout = p.stream.layout@;
    let tin = ports_in_spec(tap.ports, PortDirection::Input, false);
    let ts = tap_targets(layout, tin)->0;
    lemma_targets_len(layout, tin, layout.len());
    if positions.take(m) == layout && 0 <= i < ports.len() && i < layout.len() {
        let x = link_spec(n.id, ports[i], tap.id, ts[i]);
        assert(source_link(tap.id, layout, ts, n, x));
        lemma_wanted(g, p, tap, x, ts, s);
    }
    let p2 = remapped(positions);
    if positions.take(m) != layout && 0 <= i < m && p2[i] != ChannelPosition::Mono && layout.contains(
        p2[i],
    ) {
        let c = p2[i];
        assert(remix(c) == seq![c]);
        assert(remix(p2[i])[0] == c);
        assert(remix(p2[i]).contains(c));
        lemma_first_index_facts(layout, role_is(c));
        let j0 = choose|j: int| 0 <= j < layout.len() && layout[j] == c;
        assert(role_is(c)(layout[j0]));
        let k = first_index(layout, role_is(c))->0;
        assert(target_for_spec(layout, ts, c) == Some(ts[k]));
        let x = link_spec(n.id, ports[i], tap.id, ts[k]);
        assert(source_link(tap.id, layout, ts, n, x));
        lemma_wanted(g, p, tap, x, ts, s);
    }
}

} // verus!

