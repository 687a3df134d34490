//! Where applications play and what the loopback links: the routing
//! decisions taken on each registry snapshot, and the routes to undo when
//! the monitor stops.  The registry thread carries them out.
use crate::links::{loopback_links, loopback_links_spec, same_links};
use crate::registry::{
    capture_device_spec, capture_token_spec, matches_label_spec, node_labelled,
    resolve_target_spec, should_route_spec, virtual_sink_name, LinkSpec, MetadataDefaultsView,
    NodeInfo, RegistrySnapshot,
};
use crate::routing::{CaptureMode, DeviceSelection, RoutingCommand};
use crate::search::{first_index, lemma_first_index_at, lemma_first_index_none, picks};
use crate::text::chars_of;
use std::collections::{HashMap, HashSet};
use vstd::prelude::*;

verus! {

broadcast use vstd::std_specs::hash::group_hash_axioms;

/// Some node of `nodes` has id `id`.
pub open spec fn has_node(nodes: Seq<NodeInfo>, id: u32) -> bool {
    exists|i: int| 0 <= i < nodes.len() && (#[trigger] nodes[i]).id == id
}

/// The content of a device selection.
pub open spec fn selection_view(s: DeviceSelection) -> Option<Seq<char>> {
    match s {
        DeviceSelection::Device(t) => Some(t@),
        DeviceSelection::Default => None,
    }
}

/// The nodes that the cached hardware sink `(id, label)` finds: the node
/// with that id or that label.
pub open spec fn cache_match(id: u32, label: Seq<char>) -> spec_fn(NodeInfo) -> bool {
    |n: NodeInfo| n.id == id || matches_label_spec(n@, label)
}

/// The hardware sink: the node that the default sink names, else the node
/// that the last one found still matches.
pub open spec fn hw_sink_spec(
    nodes: Seq<NodeInfo>,
    defaults: MetadataDefaultsView,
    cache: Option<(u32, Seq<char>)>,
) -> Option<int> {
    let by_default = match defaults.audio_sink {
        Some(t) => resolve_target_spec(nodes, t),
        None => None,
    };
    match by_default {
        Some(i) => Some(i),
        None => match cache {
            Some((id, label)) => first_index(nodes, cache_match(id, label)),
            None => None,
        },
    }
}

/// What is remembered of the hardware sink found at `found`.
pub open spec fn cache_after(nodes: Seq<NodeInfo>, found: Option<int>) -> Option<(u32, Seq<char>)> {
    match found {
        Some(i) => Some((nodes[i].id, capture_token_spec(nodes[i]@))),
        None => None,
    }
}

/// The source and target of the loopback, by index into `nodes`, and
/// whether the hardware sink had to be looked up.  Without the virtual
/// sink there is no loopback.  Application capture loops the virtual sink
/// into the hardware sink; device capture loops the chosen device, else
/// the hardware sink, into the virtual sink.
pub open spec fn loopback_ends(
    nodes: Seq<NodeInfo>,
    defaults: MetadataDefaultsView,
    cache: Option<(u32, Seq<char>)>,
    mode: CaptureMode,
    selection: Option<Seq<char>>,
) -> (Option<(int, int)>, bool) {
    match first_index(nodes, node_labelled(virtual_sink_name())) {
        None => (None, false),
        Some(om) => {
            let hw = hw_sink_spec(nodes, defaults, cache);
            let device = match selection {
                Some(token) => capture_device_spec(nodes, token),
                None => None,
            };
            if mode == CaptureMode::Applications {
                (
                    match hw {
                        Some(h) => Some((om, h)),
                        None => None,
                    },
                    true,
                )
            } else {
                match device {
                    Some(d) => (Some((d, om)), false),
                    None => (
                        match hw {
                            Some(h) => Some((h, om)),
                            None => None,
                        },
                        true,
                    ),
                }
            }
        },
    }
}

/// The links of the loopback between `ends`.
pub open spec fn ends_links(nodes: Seq<NodeInfo>, ends: Option<(int, int)>) -> Option<Seq<LinkSpec>> {
    match ends {
        Some((s, t)) => loopback_links_spec(nodes[s].id, nodes[s]@.ports, nodes[t].id, nodes[t]@.ports),
        None => None,
    }
}

/// The content of an optional link list.
pub open spec fn opt_links_view(links: Option<Vec<LinkSpec>>) -> Option<Seq<LinkSpec>> {
    match links {
        Some(l) => Some(l@),
        None => None,
    }
}

/// Where an application with id `id` should play: the virtual sink when
/// applications are captured and it is not switched off, else the
/// hardware sink.
pub open spec fn route_target(
    mode: CaptureMode,
    disabled: Set<u32>,
    sink_id: u32,
    hw: Option<u32>,
    id: u32,
) -> Option<u32> {
    if mode == CaptureMode::Applications && !disabled.contains(id) {
        Some(sink_id)
    } else {
        hw
    }
}

/// The moves that route the candidates, in their order: each candidate
/// with a target that it is not known to be routed to.
pub open spec fn route_moves(
    cands: Seq<NodeInfo>,
    routed: Map<u32, u32>,
    mode: CaptureMode,
    disabled: Set<u32>,
    sink_id: u32,
    hw: Option<u32>,
) -> Seq<(u32, u32)>
    decreases cands.len(),
{
    if cands.len() == 0 {
        Seq::empty()
    } else {
        let rest = route_moves(cands.drop_last(), routed, mode, disabled, sink_id, hw);
        let id = cands.last().id;
        match route_target(mode, disabled, sink_id, hw, id) {
            Some(t) => if routed.contains_key(id) && routed[id] == t {
                rest
            } else {
                rest.push((id, t))
            },
            None => rest,
        }
    }
}

/// Some candidate with id `id` has nowhere to play.
pub open spec fn stranded(
    cands: Seq<NodeInfo>,
    mode: CaptureMode,
    disabled: Set<u32>,
    sink_id: u32,
    hw: Option<u32>,
    id: u32,
) -> bool {
    exists|i: int|
        0 <= i < cands.len() && (#[trigger] cands[i]).id == id && route_target(
            mode,
            disabled,
            sink_id,
            hw,
            id,
        ) is None
}

/// The routing layer's record: switched-off applications, where it routed
/// applications, what it captures, the hardware sink it last found and
/// the loopback links it last set.
pub struct RoutingManager {
    pub disabled_nodes: HashSet<u32>,
    pub routed_to: HashMap<u32, u32>,
    pub capture_mode: CaptureMode,
    pub device_target: DeviceSelection,
    pub hw_sink_cache: Option<(u32, String)>,
    pub current_links: Vec<LinkSpec>,
}

/// The content of the cached hardware sink.
pub open spec fn cache_view(c: Option<(u32, String)>) -> Option<(u32, Seq<char>)> {
    match c {
        Some((id, label)) => Some((id, label@)),
        None => None,
    }
}

/// Whether two device selections are the same.
fn same_selection(a: &DeviceSelection, b: &DeviceSelection) -> (r: bool)
    ensures
        r == (selection_view(*a) == selection_view(*b)),
{
    match (a, b) {
        (DeviceSelection::Default, DeviceSelection::Default) => true,
        (DeviceSelection::Device(x), DeviceSelection::Device(y)) => *x == *y,
        _ => false,
    }
}

/// The first node that the cached hardware sink `(id, label)` matches.
fn find_cached<'a>(nodes: &'a Vec<NodeInfo>, id: u32, label: &str) -> (r: Option<&'a NodeInfo>)
    ensures
        picks(r, nodes@, first_index(nodes@, cache_match(id, label@))),
{
    let ghost p = cache_match(id, label@);
    let mut i: usize = 0;
    while i < nodes.len()
        invariant
            p == cache_match(id, label@),
            i <= nodes@.len(),
            forall|j: int| 0 <= j < i ==> !p(#[trigger] nodes@[j]),
        decreases nodes@.len() - i,
    {
        if nodes[i].id == id || nodes[i].matches_label(label) {
            proof {
                lemma_first_index_at(nodes@, p, i as int);
            }
            return Some(&nodes[i]);
        }
        i += 1;
    }
    proof {
        lemma_first_index_none(nodes@, p);
    }
    None
}

/// Whether some node of `nodes` has id `id`.
fn node_exists(nodes: &Vec<NodeInfo>, id: u32) -> (r: bool)
    ensures
        r == has_node(nodes@, id),
{
    let mut i: usize = 0;
    while i < nodes.len()
        invariant
            i <= nodes@.len(),
            forall|j: int| 0 <= j < i ==> (#[trigger] nodes@[j]).id != id,
        decreases nodes@.len() - i,
    {
        if nodes[i].id == id {
            return true;
        }
        i += 1;
    }
    false
}

impl RoutingManager {
    /// Nothing switched off or routed, capturing applications.
    pub fn new() -> (r: RoutingManager)
        ensures
            r.disabled_nodes@ == Set::<u32>::empty(),
            r.routed_to@ == Map::<u32, u32>::empty(),
            r.capture_mode == CaptureMode::Applications,
            r.device_target == DeviceSelection::Default,
            r.hw_sink_cache is None,
            r.current_links@.len() == 0,
    {
        RoutingManager {
            disabled_nodes: HashSet::new(),
            routed_to: HashMap::new(),
            capture_mode: CaptureMode::Applications,
            device_target: DeviceSelection::Default,
            hw_sink_cache: None,
            current_links: Vec::new(),
        }
    }

    /// Takes a command from the interface; returns whether anything
    /// changed.  Switching an application on or off changes the set of
    /// switched-off applications; a capture state replaces mode and device.
    pub fn handle_command(&mut self, command: RoutingCommand) -> (changed: bool)
        ensures
            final(self).routed_to@ == old(self).routed_to@,
            cache_view(final(self).hw_sink_cache) == cache_view(old(self).hw_sink_cache),
            final(self).current_links@ == old(self).current_links@,
            match command {
                RoutingCommand::SetApplicationEnabled { node_id, enabled } => {
                    &&& final(self).disabled_nodes@ == if enabled {
                        old(self).disabled_nodes@.remove(node_id)
                    } else {
                        old(self).disabled_nodes@.insert(node_id)
                    }
                    &&& changed == (old(self).disabled_nodes@.contains(node_id) == enabled)
                    &&& final(self).capture_mode == old(self).capture_mode
                    &&& selection_view(final(self).device_target) == selection_view(
                        old(self).device_target,
                    )
                },
                RoutingCommand::SetCaptureState(mode, selection) => {
                    &&& final(self).disabled_nodes@ == old(self).disabled_nodes@
                    &&& final(self).capture_mode == mode
                    &&& selection_view(final(self).device_target) == selection_view(selection)
                    &&& changed == (mode != old(self).capture_mode || selection_view(selection)
                        != selection_view(old(self).device_target))
                },
            },
    {
        match command {
            RoutingCommand::SetApplicationEnabled { node_id, enabled } => {
                if enabled {
                    self.disabled_nodes.remove(&node_id)
                } else {
                    self.disabled_nodes.insert(node_id)
                }
            },
            RoutingCommand::SetCaptureState(mode, selection) => {
                let changed = mode != self.capture_mode || !same_selection(
                    &selection,
                    &self.device_target,
                );
                self.capture_mode = mode;
                self.device_target = selection;
                changed
            },
        }
    }

    /// Forgets the applications and routes of nodes that are gone, and the
    /// hardware sink when its node is gone.
    pub fn prune(&mut self, snapshot: &RegistrySnapshot)
        ensures
            forall|k: u32| #[trigger]
                final(self).disabled_nodes@.contains(k) <==> (old(self).disabled_nodes@.contains(k)
                    && has_node(snapshot.nodes@, k)),
            forall|k: u32| #[trigger]
                final(self).routed_to@.contains_key(k) <==> (old(self).routed_to@.contains_key(k)
                    && has_node(snapshot.nodes@, k)),
            forall|k: u32| #[trigger]
                final(self).routed_to@.contains_key(k) ==> final(self).routed_to@[k] == old(
                    self,
                ).routed_to@[k],
            cache_view(final(self).hw_sink_cache) == match cache_view(old(self).hw_sink_cache) {
                Some((id, label)) => if has_node(snapshot.nodes@, id) {
                    Some((id, label))
                } else {
                    None
                },
                None => None,
            },
            final(self).capture_mode == old(self).capture_mode,
            selection_view(final(self).device_target) == selection_view(old(self).device_target),
            final(self).current_links@ == old(self).current_links@,
    {
        let nodes = &snapshot.nodes;
        let mut disabled: HashSet<u32> = HashSet::new();
        let mut routed: HashMap<u32, u32> = HashMap::new();
        let mut i: usize = 0;
        while i < nodes.len()
            invariant
                i <= nodes@.len(),
                nodes@ == snapshot.nodes@,
                forall|k: u32| #[trigger]
                    disabled@.contains(k) <==> (self.disabled_nodes@.contains(k) && has_node(
                        nodes@.take(i as int),
                        k,
                    )),
                forall|k: u32| #[trigger]
                    routed@.contains_key(k) <==> (self.routed_to@.contains_key(k) && has_node(
                        nodes@.take(i as int),
                        k,
                    )),
                forall|k: u32| #[trigger] routed@.contains_key(k) ==> routed@[k] == self.routed_to@[k],
            decreases nodes@.len() - i,
        {
            let id = nodes[i].id;
            proof {
                let before = nodes@.take(i as int);
                let after = nodes@.take(i + 1);
                assert forall|k: u32| has_node(after, k) <==> (has_node(before, k) || k == id) by {
                    if has_node(after, k) {
                        let j = choose|j: int| 0 <= j < after.len() && after[j].id == k;
                        if j < i {
                            assert(before[j].id == k);
                        }
                    }
                    if has_node(before, k) {
                        let j = choose|j: int| 0 <= j < before.len() && before[j].id == k;
                        assert(after[j].id == k);
                    }
                    if k == id {
                        assert(after[i as int].id == k);
                    }
                }
            }
            if self.disabled_nodes.contains(&id) {
                disabled.insert(id);
            }
            match self.routed_to.get(&id) {
                Some(t) => {
                    routed.insert(id, *t);
                },
                None => {},
            }
            i += 1;
        }
        proof {
            assert(nodes@.take(nodes@.len() as int) =~= nodes@);
        }
        let keep_cache = match &self.hw_sink_cache {
            Some((id, _)) => node_exists(nodes, *id),
            None => false,
        };
        if !keep_cache {
            self.hw_sink_cache = None;
        }
        self.disabled_nodes = disabled;
        self.routed_to = routed;
    }

    /// The hardware sink of `snapshot`: the node its default sink names,
    /// else the node that the last one found still matches.  The result is
    /// remembered.
    pub fn hw_sink<'a>(&mut self, snapshot: &'a RegistrySnapshot) -> (r: Option<&'a NodeInfo>)
        ensures
            picks(
                r,
                snapshot.nodes@,
                hw_sink_spec(
                    snapshot.nodes@,
                    snapshot.defaults@,
                    cache_view(old(self).hw_sink_cache),
                ),
            ),
            cache_view(final(self).hw_sink_cache) == cache_after(
                snapshot.nodes@,
                hw_sink_spec(
                    snapshot.nodes@,
                    snapshot.defaults@,
                    cache_view(old(self).hw_sink_cache),
                ),
            ),
            final(self).disabled_nodes@ == old(self).disabled_nodes@,
            final(self).routed_to@ == old(self).routed_to@,
            final(self).capture_mode == old(self).capture_mode,
            selection_view(final(self).device_target) == selection_view(old(self).device_target),
            final(self).current_links@ == old(self).current_links@,
    {
        let by_default = match &snapshot.defaults.audio_sink {
            Some(t) => snapshot.resolve_default_target(t),
            None => None,
        };
        let node = match by_default {
            Some(n) => Some(n),
            None => match &self.hw_sink_cache {
                Some((id, label)) => find_cached(&snapshot.nodes, *id, label.as_str()),
                None => None,
            },
        };
        self.hw_sink_cache = match node {
            Some(n) => Some((n.id, n.capture_device_token())),
            None => None,
        };
        node
    }

    /// The loopback links that the capture wants for `snapshot`, none when
    /// a node or port it needs is missing.  Looking up the hardware sink
    /// remembers it.
    pub fn compute_links(&mut self, snapshot: &RegistrySnapshot) -> (r: Option<Vec<LinkSpec>>)
        ensures
            ({
                let (ends, consulted) = loopback_ends(
                    snapshot.nodes@,
                    snapshot.defaults@,
                    cache_view(old(self).hw_sink_cache),
                    old(self).capture_mode,
                    selection_view(old(self).device_target),
                );
                &&& opt_links_view(r) == ends_links(snapshot.nodes@, ends)
                &&& cache_view(final(self).hw_sink_cache) == if consulted {
                    cache_after(
                        snapshot.nodes@,
                        hw_sink_spec(
                            snapshot.nodes@,
                            snapshot.defaults@,
                            cache_view(old(self).hw_sink_cache),
                        ),
                    )
                } else {
                    cache_view(old(self).hw_sink_cache)
                }
            }),
            final(self).disabled_nodes@ == old(self).disabled_nodes@,
            final(self).routed_to@ == old(self).routed_to@,
            final(self).capture_mode == old(self).capture_mode,
            selection_view(final(self).device_target) == selection_view(old(self).device_target),
            final(self).current_links@ == old(self).current_links@,
    {
        let sink_name = [
            'o', 'p', 'e', 'n', 'm', 'e', 't', 'e', 'r', 's', '.', 's', 'i', 'n', 'k',
        ];
        let name = crate::text::string_from_chars(sink_name.as_slice());
        proof {
            assert(sink_name@ =~= virtual_sink_name());
        }
        let om_sink = match snapshot.find_node_by_label(name.as_str()) {
            Some(n) => n,
            None => {
                return None;
            },
        };
        let ends: Option<(&NodeInfo, &NodeInfo)> = if self.capture_mode == CaptureMode::Applications {
            match self.hw_sink(snapshot) {
                Some(hw) => Some((om_sink, hw)),
                None => None,
            }
        } else {
            let device = match &self.device_target {
                DeviceSelection::Device(token) => snapshot.find_capture_device_by_token(
                    token.as_str(),
                ),
                DeviceSelection::Default => None,
            };
            match device {
                Some(d) => Some((d, om_sink)),
                None => match self.hw_sink(snapshot) {
                    Some(hw) => Some((hw, om_sink)),
                    None => None,
                },
            }
        };
        match ends {
            Some((source, target)) => loopback_links(source, target),
            None => None,
        }
    }

    /// The links to hand to the registry thread: those that `snapshot`
    /// wants (none when it wants none), when they differ from the links
    /// last set.
    pub fn pending_links(&mut self, snapshot: &RegistrySnapshot) -> (r: Option<Vec<LinkSpec>>)
        ensures
            ({
                let (ends, consulted) = loopback_ends(
                    snapshot.nodes@,
                    snapshot.defaults@,
                    cache_view(old(self).hw_sink_cache),
                    old(self).capture_mode,
                    selection_view(old(self).device_target),
                );
                let wanted = match ends_links(snapshot.nodes@, ends) {
                    Some(l) => l,
                    None => Seq::<LinkSpec>::empty(),
                };
                &&& opt_links_view(r) == if wanted == old(self).current_links@ {
                    None
                } else {
                    Some(wanted)
                }
                &&& cache_view(final(self).hw_sink_cache) == if consulted {
                    cache_after(
                        snapshot.nodes@,
                        hw_sink_spec(
                            snapshot.nodes@,
                            snapshot.defaults@,
                            cache_view(old(self).hw_sink_cache),
                        ),
                    )
                } else {
                    cache_view(old(self).hw_sink_cache)
                }
            }),
            final(self).disabled_nodes@ == old(self).disabled_nodes@,
            final(self).routed_to@ == old(self).routed_to@,
            final(self).capture_mode == old(self).capture_mode,
            selection_view(final(self).device_target) == selection_view(old(self).device_target),
            final(self).current_links@ == old(self).current_links@,
    {
        let links = match self.compute_links(snapshot) {
            Some(l) => l,
            None => Vec::new(),
        };
        if same_links(&self.current_links, &links) {
            None
        } else {
            Some(links)
        }
    }

    /// The registry thread took `links`.
    pub fn links_set(&mut self, links: Vec<LinkSpec>)
        ensures
            final(self).current_links@ == links@,
            final(self).disabled_nodes@ == old(self).disabled_nodes@,
            final(self).routed_to@ == old(self).routed_to@,
            final(self).capture_mode == old(self).capture_mode,
            selection_view(final(self).device_target) == selection_view(old(self).device_target),
            cache_view(final(self).hw_sink_cache) == cache_view(old(self).hw_sink_cache),
    {
        self.current_links = links;
    }

    /// The routes to make for `snapshot`: each application that should be
    /// routed to the virtual sink, and is not switched off while
    /// applications are captured, goes there; the others go to the
    /// hardware sink.  Applications with nowhere to go are forgotten; those
    /// already routed where they should be are left alone.  Nothing is
    /// routed before the virtual sink exists.
    pub fn route_plan(&mut self, snapshot: &RegistrySnapshot) -> (r: Vec<(u32, u32)>)
        ensures
            final(self).disabled_nodes@ == old(self).disabled_nodes@,
            final(self).capture_mode == old(self).capture_mode,
            selection_view(final(self).device_target) == selection_view(old(self).device_target),
            final(self).current_links@ == old(self).current_links@,
            match first_index(snapshot.nodes@, node_labelled(virtual_sink_name())) {
                None => {
                    &&& r@.len() == 0
                    &&& final(self).routed_to@ == old(self).routed_to@
                    &&& cache_view(final(self).hw_sink_cache) == cache_view(old(self).hw_sink_cache)
                },
                Some(s) => {
                    let nodes = snapshot.nodes@;
                    let sink = nodes[s];
                    let found = hw_sink_spec(nodes, snapshot.defaults@, cache_view(old(self).hw_sink_cache));
                    let hw = match found {
                        Some(h) => Some(nodes[h].id),
                        None => None,
                    };
                    let cands = nodes.filter(|n: NodeInfo| should_route_spec(n@, sink@));
                    &&& r@ == route_moves(
                        cands,
                        old(self).routed_to@,
                        old(self).capture_mode,
                        old(self).disabled_nodes@,
                        sink.id,
                        hw,
                    )
                    &&& forall|k: u32| #[trigger]
                        final(self).routed_to@.contains_key(k) <==> (old(self).routed_to@.contains_key(k)
                            && !stranded(cands, old(self).capture_mode, old(self).disabled_nodes@, sink.id, hw, k))
                    &&& forall|k: u32| #[trigger]
                        final(self).routed_to@.contains_key(k) ==> final(self).routed_to@[k] == old(
                            self,
                        ).routed_to@[k]
                    &&& cache_view(final(self).hw_sink_cache) == cache_after(nodes, found)
                },
            },
    {
        let sink_name = [
            'o', 'p', 'e', 'n', 'm', 'e', 't', 'e', 'r', 's', '.', 's', 'i', 'n', 'k',
        ];
        let name = crate::text::string_from_chars(sink_name.as_slice());
        proof {
            assert(sink_name@ =~= virtual_sink_name());
        }
        let sink = match snapshot.find_node_by_label(name.as_str()) {
            Some(n) => n,
            None => {
                return Vec::new();
            },
        };
        let hw: Option<u32> = match self.hw_sink(snapshot) {
            Some(n) => Some(n.id),
            None => None,
        };
        let cands = snapshot.route_candidates(sink);
        let ghost cv = cands@.map_values(|n: &NodeInfo| *n);
        let ghost start = self.routed_to@;
        let ghost mode = self.capture_mode;
        let ghost disabled = self.disabled_nodes@;
        let ghost selection = selection_view(self.device_target);
        let ghost links = self.current_links@;
        let ghost cache = cache_view(self.hw_sink_cache);
        let mut moves: Vec<(u32, u32)> = Vec::new();
        let mut i: usize = 0;
        while i < cands.len()
            invariant
                i <= cands@.len(),
                cv == cands@.map_values(|n: &NodeInfo| *n),
                mode == self.capture_mode,
                disabled == self.disabled_nodes@,
                selection == selection_view(self.device_target),
                links == self.current_links@,
                cache == cache_view(self.hw_sink_cache),
                moves@ == route_moves(cv.take(i as int), start, mode, disabled, sink.id, hw),
                forall|k: u32| #[trigger]
                    self.routed_to@.contains_key(k) <==> (start.contains_key(k) && !stranded(
                        cv.take(i as int),
                        mode,
                        disabled,
                        sink.id,
                        hw,
                        k,
                    )),
                forall|k: u32| #[trigger] self.routed_to@.contains_key(k) ==> self.routed_to@[k] == start[k],
            decreases cands@.len() - i,
        {
            let id = cands[i].id;
            let ghost before = cv.take(i as int);
            let ghost after = cv.take(i + 1);
            proof {
                assert(after.drop_last() =~= before);
                assert(after.last().id == id);
            }
            let target = if self.capture_mode == CaptureMode::Applications
                && !self.disabled_nodes.contains(&id) {
                Some(sink.id)
            } else {
                hw
            };
            proof {
                assert(target == route_target(mode, disabled, sink.id, hw, id));
                assert forall|k: u32|
                    stranded(after, mode, disabled, sink.id, hw, k) <==> (stranded(
                        before,
                        mode,
                        disabled,
                        sink.id,
                        hw,
                        k,
                    ) || (k == id && target is None)) by {
                    if stranded(after, mode, disabled, sink.id, hw, k) {
                        let j = choose|j: int|
                            0 <= j < after.len() && (#[trigger] after[j]).id == k && route_target(
                                mode,
                                disabled,
                                sink.id,
                                hw,
                                k,
                            ) is None;
                        if j < i {
                            assert(before[j].id == k);
                        }
                    }
                    if stranded(before, mode, disabled, sink.id, hw, k) {
                        let j = choose|j: int|
                            0 <= j < before.len() && (#[trigger] before[j]).id == k && route_target(
                                mode,
                                disabled,
                                sink.id,
                                hw,
                                k,
                            ) is None;
                        assert(after[j].id == k);
                    }
                    if k == id && target is None {
                        assert(after[i as int].id == k);
                    }
                }
            }
            match target {
                Some(t) => {
                    let known = match self.routed_to.get(&id) {
                        Some(current) => *current == t,
                        None => false,
                    };
                    proof {
                        assert(!stranded(before, mode, disabled, sink.id, hw, id) ==> (
                        self.routed_to@.contains_key(id) <==> start.contains_key(id)));
                        if stranded(before, mode, disabled, sink.id, hw, id) {
                            let j = choose|j: int|
                                0 <= j < before.len() && (#[trigger] before[j]).id == id
                                    && route_target(mode, disabled, sink.id, hw, id) is None;
                        }
                        assert(known == (start.contains_key(id) && start[id] == t));
                    }
                    if !known {
                        moves.push((id, t));
                    }
                },
                None => {
                    self.routed_to.remove(&id);
                },
            }
            i += 1;
        }
        proof {
            assert(cv.take(cv.len() as int) =~= cv);
        }
        moves
    }

    /// Node `node_id` now plays on node `target`.
    pub fn record_route(&mut self, node_id: u32, target: u32)
        ensures
            final(self).routed_to@ == old(self).routed_to@.insert(node_id, target),
            final(self).disabled_nodes@ == old(self).disabled_nodes@,
            final(self).capture_mode == old(self).capture_mode,
            selection_view(final(self).device_target) == selection_view(old(self).device_target),
            final(self).current_links@ == old(self).current_links@,
            cache_view(final(self).hw_sink_cache) == cache_view(old(self).hw_sink_cache),
    {
        self.routed_to.insert(node_id, target);
    }

    /// Whether the manager routed any node.
    pub fn has_routes(&self) -> (r: bool)
        ensures
            r == (self.routed_to@.len() > 0),
    {
        self.routed_to.len() > 0
    }

    /// The routes to undo when the monitor stops: each node of `snapshot`
    /// that the manager routed, in snapshot order, with the hardware sink
    /// to send it back to, if there is one.
    pub fn restore_plan(&mut self, snapshot: &RegistrySnapshot) -> (r: Vec<(u32, Option<u32>)>)
        ensures
            ({
                let nodes = snapshot.nodes@;
                let routed = nodes.filter(|n: NodeInfo| old(self).routed_to@.contains_key(n.id));
                let hw = match hw_sink_spec(nodes, snapshot.defaults@, cache_view(old(self).hw_sink_cache)) {
                    Some(h) => Some(nodes[h].id),
                    None => None,
                };
                &&& r@.len() == routed.len()
                &&& forall|i: int| 0 <= i < routed.len() ==> #[trigger] r@[i] == (routed[i].id, hw)
            }),
            final(self).routed_to@ == old(self).routed_to@,
            final(self).disabled_nodes@ == old(self).disabled_nodes@,
    {
        let nodes = &snapshot.nodes;
        let ghost routed_ids = self.routed_to@;
        let ghost p = |n: NodeInfo| routed_ids.contains_key(n.id);
        let mut ids: Vec<u32> = Vec::new();
        let mut i: usize = 0;
        while i < nodes.len()
            invariant
                i <= nodes@.len(),
                nodes@ == snapshot.nodes@,
                routed_ids == self.routed_to@,
                p == (|n: NodeInfo| routed_ids.contains_key(n.id)),
                ids@ == nodes@.take(i as int).filter(p).map_values(|n: NodeInfo| n.id),
            decreases nodes@.len() - i,
        {
            let id = nodes[i].id;
            proof {
                assert(nodes@.take(i + 1).drop_last() =~= nodes@.take(i as int));
                reveal_with_fuel(Seq::filter, 1);
            }
            if self.routed_to.contains_key(&id) {
                let ghost before = ids@;
                ids.push(id);
                proof {
                    assert(ids@ =~= before.push(nodes@[i as int].id));
                    assert(nodes@.take(i + 1).filter(p) == nodes@.take(i as int).filter(p).push(
                        nodes@[i as int],
                    ));
                    assert(nodes@.take(i + 1).filter(p).map_values(|n: NodeInfo| n.id)
                        =~= nodes@.take(i as int).filter(p).map_values(|n: NodeInfo| n.id).push(
                        nodes@[i as int].id,
                    ));
                }
            }
            i += 1;
        }
        proof {
            assert(nodes@.take(nodes@.len() as int) =~= nodes@);
        }
        let hw: Option<u32> = if ids.len() == 0 {
            None
        } else {
            match self.hw_sink(snapshot) {
                Some(n) => Some(n.id),
                None => None,
            }
        };
        let mut plan: Vec<(u32, Option<u32>)> = Vec::new();
        let mut k: usize = 0;
        while k < ids.len()
            invariant
                k <= ids@.len(),
                plan@.len() == k,
                forall|j: int| 0 <= j < k ==> #[trigger] plan@[j] == (ids@[j], hw),
            decreases ids@.len() - k,
        {
            plan.push((ids[k], hw));
            k += 1;
        }
        plan
    }
}

/// Carrying out the route plan leaves every candidate where it should
/// play: each one with a target is either routed there already or has a
/// move there, and every move sends a candidate to its target, which it
/// was not known to play on.
pub proof fn law_route_moves_cover_candidates(
    cands: Seq<NodeInfo>,
    routed: Map<u32, u32>,
    mode: CaptureMode,
    disabled: Set<u32>,
    sink_id: u32,
    hw: Option<u32>,
)
    ensures
        forall|i: int|
            0 <= i < cands.len() && route_target(mode, disabled, sink_id, hw, (#[trigger] cands[i]).id)
                is Some ==> {
                let t = route_target(mode, disabled, sink_id, hw, cands[i].id)->0;
                (routed.contains_key(cands[i].id) && routed[cands[i].id] == t) || route_moves(
                    cands,
                    routed,
                    mode,
                    disabled,
                    sink_id,
                    hw,
                ).contains((cands[i].id, t))
            },
        forall|m: (u32, u32)| #[trigger]
            route_moves(cands, routed, mode, disabled, sink_id, hw).contains(m) ==> {
                &&& has_node(cands, m.0)
                &&& route_target(mode, disabled, sink_id, hw, m.0) == Some(m.1)
                &&& !(routed.contains_key(m.0) && routed[m.0] == m.1)
            },
    decreases cands.len(),
{
    if cands.len() > 0 {
        let init = cands.drop_last();
        let last = cands.last();
        law_route_moves_cover_candidates(init, routed, mode, disabled, sink_id, hw);
        let rest = route_moves(init, routed, mode, disabled, sink_id, hw);
        let all = route_moves(cands, routed, mode, disabled, sink_id, hw);
        crate::search::lemma_contains_push(rest, (last.id, route_target(mode, disabled, sink_id, hw, last.id)->0));
        assert forall|m: (u32, u32)| rest.contains(m) implies all.contains(m) by {}
        assert forall|i: int|
            0 <= i < cands.len() && route_target(mode, disabled, sink_id, hw, (#[trigger] cands[i]).id)
                is Some implies {
                let t = route_target(mode, disabled, sink_id, hw, cands[i].id)->0;
                (routed.contains_key(cands[i].id) && routed[cands[i].id] == t) || all.contains(
                    (cands[i].id, t),
                )
            } by {
            if i < init.len() {
                assert(init[i] == cands[i]);
            }
        }
        assert forall|m: (u32, u32)| #[trigger] all.contains(m) implies {
            &&& has_node(cands, m.0)
            &&& route_target(mode, disabled, sink_id, hw, m.0) == Some(m.1)
            &&& !(routed.contains_key(m.0) && routed[m.0] == m.1)
        } by {
            if rest.contains(m) {
                let j = choose|j: int| 0 <= j < init.len() && (#[trigger] init[j]).id == m.0;
                assert(cands[j].id == m.0);
            } else {
                assert(cands[cands.len() - 1].id == m.0);
            }
        }
    }
}

/// One call on the registry thread when the monitor stops.
#[derive(Debug, Clone, Copy, PartialEq, Eq, Structural)]
pub enum RestoreCall {
    /// Route the node to the sink.
    Route(u32, u32),
    /// Let the policy manager pick the node's target again.
    Reset(u32),
    /// Wait until the registry thread processed the calls before.
    Sync,
    /// Tear the registry thread's objects down.
    Destroy,
}

/// The first call for a routed node: back to its hardware sink, or a reset
/// when there is none.
pub open spec fn send_back(e: (u32, Option<u32>)) -> RestoreCall {
    match e.1 {
        Some(sink) => RestoreCall::Route(e.0, sink),
        None => RestoreCall::Reset(e.0),
    }
}

/// The calls that undo the monitor's routes: none without a snapshot;
/// otherwise, when the monitor routed any node, each node of `plan` is sent
/// back, the thread is synced and each node is reset, and the thread's
/// objects are destroyed last.
pub open spec fn restore_calls_spec(routed: bool, plan: Option<Seq<(u32, Option<u32>)>>) -> Seq<RestoreCall> {
    match plan {
        None => Seq::empty(),
        Some(p) => if routed {
            p.map_values(|e: (u32, Option<u32>)| send_back(e)) + seq![RestoreCall::Sync]
                + p.map_values(|e: (u32, Option<u32>)| RestoreCall::Reset(e.0)) + seq![
                RestoreCall::Destroy,
            ]
        } else {
            seq![RestoreCall::Destroy]
        },
    }
}

/// The calls on the registry thread that undo the monitor's routes, in
/// order, for the restore plan of the last snapshot (none when there was
/// no snapshot); `routed` tells whether the monitor routed any node.
pub fn restore_calls(routed: bool, plan: Option<&Vec<(u32, Option<u32>)>>) -> (r: Vec<RestoreCall>)
    ensures
        r@ == restore_calls_spec(
            routed,
            match plan {
                Some(p) => Some(p@),
                None => None,
            },
        ),
{
    let mut calls: Vec<RestoreCall> = Vec::new();
    let p = match plan {
        Some(p) => p,
        None => {
            return calls;
        },
    };
    if routed {
        let n = p.len();
        let mut i: usize = 0;
        while i < n
            invariant
                n == p@.len(),
                i <= n,
                calls@ == p@.take(i as int).map_values(|e: (u32, Option<u32>)| send_back(e)),
            decreases n - i,
        {
            let (node, sink) = p[i];
            let call = match sink {
                Some(s) => RestoreCall::Route(node, s),
                None => RestoreCall::Reset(node),
            };
            calls.push(call);
            proof {
                assert(p@.take(i + 1) =~= p@.take(i as int).push(p@[i as int]));
                assert(calls@ =~= p@.take(i + 1).map_values(|e: (u32, Option<u32>)| send_back(e)));
            }
            i += 1;
        }
        let ghost first = calls@;
        calls.push(RestoreCall::Sync);
        let mut j: usize = 0;
        while j < n
            invariant
                n == p@.len(),
                j <= n,
                calls@ == first + seq![RestoreCall::Sync] + p@.take(j as int).map_values(
                    |e: (u32, Option<u32>)| RestoreCall::Reset(e.0),
                ),
            decreases n - j,
        {
            let (node, _) = p[j];
            calls.push(RestoreCall::Reset(node));
            proof {
                assert(p@.take(j + 1) =~= p@.take(j as int).push(p@[j as int]));
                assert(calls@ =~= first + seq![RestoreCall::Sync] + p@.take(j + 1).map_values(
                    |e: (u32, Option<u32>)| RestoreCall::Reset(e.0),
                ));
            }
            j += 1;
        }
        proof {
            assert(p@.take(n as int) =~= p@);
        }
    }
    calls.push(RestoreCall::Destroy);
    proof {
        assert(calls@ =~= restore_calls_spec(routed, Some(p@)));
    }
    calls
}

/// The default sink decides the hardware sink whenever it names a node of
/// the snapshot: whatever the cache holds, that node is the hardware sink.
/// Only when the default sink finds no node does the cache count: then the
/// node found has the cached id or label, and one is found, no later than
/// any node that has them, whenever some node does.
pub proof fn law_default_sink_overrides_cache(
    nodes: Seq<NodeInfo>,
    defaults: MetadataDefaultsView,
    cache: Option<(u32, Seq<char>)>,
    i: int,
)
    ensures
        hw_sink_spec(nodes, defaults, None) == Some(i) ==> hw_sink_spec(nodes, defaults, cache)
            == Some(i),
        (defaults.audio_sink matches Some(t) && resolve_target_spec(nodes, t) == Some(i))
            ==> hw_sink_spec(nodes, defaults, cache) == Some(i),
        hw_sink_spec(nodes, defaults, None) is None ==> match hw_sink_spec(nodes, defaults, cache) {
            Some(j) => cache matches Some((id, label)) && 0 <= j < nodes.len() && (nodes[j].id == id
                || matches_label_spec(nodes[j]@, label)),
            None => true,
        },
        match cache {
            Some((id, label)) => (hw_sink_spec(nodes, defaults, None) is None && 0 <= i < nodes.len()
                && (nodes[i].id == id || matches_label_spec(nodes[i]@, label))) ==> (hw_sink_spec(
                nodes,
                defaults,
                cache,
            ) matches Some(j) && j <= i && (nodes[j].id == id || matches_label_spec(nodes[j]@, label))),
            None => true,
        },
{
    match cache {
        Some((id, label)) => {
            crate::search::lemma_first_index_facts(nodes, cache_match(id, label));
            if 0 <= i < nodes.len() && cache_match(id, label)(nodes[i]) {
                assert(first_index(nodes, cache_match(id, label)) is Some);
            }
        },
        None => {},
    }
}

} // verus!
