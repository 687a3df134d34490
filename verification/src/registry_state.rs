//! The registry thread's record of the graph, changed one announcement at
//! a time, and the snapshots it hands out.
use crate::order::{
    in_rank_order, lemma_sorted_by_rank_contains, lemma_sorted_by_rank_ordered, sort_by_rank,
    sorted_by_rank, Ranked,
};
use crate::registry::{
    DefaultTargetView, GraphPort, MetadataDefaults, MetadataDefaultsView, NodeInfo, NodeInfoView,
    RegistrySnapshot, slot_clear_metadata_spec, slot_clear_node_spec, slot_reconciled_map,
    slot_update_spec, sink_key, source_key,
};
use crate::search::{first_index, lemma_first_index_at, lemma_first_index_none};
use crate::text::{opt_str_view, opt_view};
use std::collections::HashMap;
use vstd::prelude::*;
use vstd::std_specs::hash::spec_hash_map_iter;
use vstd::std_specs::iter::IteratorSpec;

verus! {

broadcast use vstd::std_specs::hash::group_hash_axioms;

impl Ranked for NodeInfo {
    /// Nodes go by id.
    open spec fn before(&self, other: &NodeInfo) -> bool {
        self.id < other.id
    }

    fn comes_before(&self, other: &NodeInfo) -> (r: bool) {
        self.id < other.id
    }

    proof fn before_irreflexive(a: &NodeInfo) {
    }

    proof fn before_transitive(a: &NodeInfo, b: &NodeInfo, c: &NodeInfo) {
    }
}

/// The serial after one more change; it wraps around.
pub open spec fn next_serial(s: u64) -> u64 {
    if s == u64::MAX {
        0
    } else {
        (s + 1) as u64
    }
}

/// A default target names a node only when that node is known.
pub open spec fn slot_present(slot: Option<DefaultTargetView>, nodes: Map<u32, NodeInfo>) -> bool {
    slot matches Some(t) ==> (t.node_id matches Some(k) ==> nodes.contains_key(k))
}

/// The default targets after a metadata property with `key`, before they
/// are reconciled with the nodes, and whether they changed.  A property
/// without a key clears what its metadata object set.
pub open spec fn defaults_update_spec(
    d: MetadataDefaultsView,
    metadata_id: u32,
    subject: u32,
    key: Option<Seq<char>>,
    type_hint: Option<Seq<char>>,
    value: Option<Seq<char>>,
) -> (MetadataDefaultsView, bool) {
    match key {
        Some(k) => if k == sink_key() {
            let (s, c) = slot_update_spec(d.audio_sink, metadata_id, subject, type_hint, value);
            (MetadataDefaultsView { audio_sink: s, audio_source: d.audio_source }, c)
        } else if k == source_key() {
            let (s, c) = slot_update_spec(d.audio_source, metadata_id, subject, type_hint, value);
            (MetadataDefaultsView { audio_sink: d.audio_sink, audio_source: s }, c)
        } else {
            (d, false)
        },
        None => {
            let (s, a) = slot_clear_metadata_spec(d.audio_sink, metadata_id);
            let (t, b) = slot_clear_metadata_spec(d.audio_source, metadata_id);
            (MetadataDefaultsView { audio_sink: s, audio_source: t }, a || b)
        },
    }
}

/// Both default targets of `new` reconcile those of `old` with `nodes`.
pub open spec fn defaults_reconciled(
    old: MetadataDefaultsView,
    new: MetadataDefaultsView,
    nodes: Map<u32, NodeInfo>,
) -> bool {
    slot_reconciled_map(old.audio_sink, new.audio_sink, nodes) && slot_reconciled_map(
        old.audio_source,
        new.audio_source,
        nodes,
    )
}

/// The name by which a removed node stays known: its name, else its
/// description.
pub open spec fn fallback_name(n: NodeInfoView) -> Option<Seq<char>> {
    match n.name {
        Some(s) => Some(s),
        None => n.description,
    }
}

/// The ports with port id `id`.
pub open spec fn port_numbered(id: u32) -> spec_fn(GraphPort) -> bool {
    |p: GraphPort| p.port_id == id
}

/// A node's ports after `port` was announced, and whether they changed:
/// it replaces a different port with the same port id, or is added.
pub open spec fn port_upsert_spec(ports: Seq<GraphPort>, port: GraphPort) -> (Seq<GraphPort>, bool) {
    match first_index(ports, port_numbered(port.port_id)) {
        Some(i) => if ports[i] != port {
            (ports.update(i, port), true)
        } else {
            (ports, false)
        },
        None => (ports.push(port), true),
    }
}

/// A node with other ports.
pub open spec fn with_graph_ports(n: NodeInfoView, ports: Seq<GraphPort>) -> NodeInfoView {
    NodeInfoView { ports, ..n }
}

/// The snapshot list `list` holds every node of `nodes` once, in order of
/// id, with the same content.
pub open spec fn lists_nodes(nodes: Map<u32, NodeInfo>, list: Seq<NodeInfo>) -> bool {
    &&& forall|i: int, j: int| #![trigger list[i], list[j]] 0 <= i < j < list.len() ==> list[i].id < list[j].id
    &&& forall|i: int|
        0 <= i < list.len() ==> nodes.contains_key((#[trigger] list[i]).id) && nodes[list[i].id]@
            == list[i]@
    &&& forall|k: u32| #[trigger] nodes.contains_key(k) ==> exists|i: int| 0 <= i < list.len() && list[i].id == k
}

/// The registry thread's record of the graph.
pub struct RegistryState {
    pub serial: u64,
    pub nodes: HashMap<u32, NodeInfo>,
    pub device_count: usize,
    pub port_index: HashMap<u32, (u32, u32)>,
    pub metadata_defaults: MetadataDefaults,
}

impl RegistryState {
    /// Every node is kept under its own id.
    pub open spec fn wf(&self) -> bool {
        forall|k: u32| #[trigger] self.nodes@.contains_key(k) ==> self.nodes@[k].id == k
    }

    /// The default targets name only known nodes.
    pub open spec fn targets_present(&self) -> bool {
        &&& slot_present(self.metadata_defaults@.audio_sink, self.nodes@)
        &&& slot_present(self.metadata_defaults@.audio_source, self.nodes@)
    }

    /// An empty record.
    pub fn new() -> (r: RegistryState)
        ensures
            r.serial == 0,
            r.nodes@ == Map::<u32, NodeInfo>::empty(),
            r.device_count == 0,
            r.port_index@ == Map::<u32, (u32, u32)>::empty(),
            r.metadata_defaults@.audio_sink is None,
            r.metadata_defaults@.audio_source is None,
            r.wf(),
            r.targets_present(),
    {
        RegistryState {
            serial: 0,
            nodes: HashMap::new(),
            device_count: 0,
            port_index: HashMap::new(),
            metadata_defaults: MetadataDefaults { audio_sink: None, audio_source: None },
        }
    }

    /// A snapshot: the serial, the nodes in order of id, the device count
    /// and the default targets.
    pub fn snapshot(&self) -> (r: RegistrySnapshot)
        requires
            self.wf(),
        ensures
            r.serial == self.serial,
            r.device_count == self.device_count,
            r.defaults@ == self.metadata_defaults@,
            lists_nodes(self.nodes@, r.nodes@),
    {
        let ghost all = spec_hash_map_iter(&self.nodes).remaining();
        let mut list: Vec<NodeInfo> = Vec::new();
        for entry in it: self.nodes.iter()
            invariant
                it.seq() == all,
                self.wf(),
                all.no_duplicates(),
                list@.len() == it.index(),
                forall|i: int|
                    0 <= i < list@.len() ==> (#[trigger] list@[i]).id == *all[i].0 && list@[i]@ == (*all[i].1)@,
                forall|i: int|
                    0 <= i < all.len() ==> self.nodes@.contains_key(*all[i].0) && self.nodes@[*all[i].0]
                        == *all[i].1,
        {
            let (k, n) = entry;
            proof {
                assert(n.id == *k);
            }
            let ghost before = list@;
            list.push(n.duplicate());
            proof {
                assert forall|x: int| 0 <= x < before.len() implies list@[x] == before[x] by {}
            }
        }
        proof {
            assert forall|i: int|
                0 <= i < list@.len() implies self.nodes@.contains_key((#[trigger] list@[i]).id)
                    && self.nodes@[list@[i].id]@ == list@[i]@ by {
                assert(self.nodes@[*all[i].0] == *all[i].1);
            }
            assert forall|a: int, b: int| #![trigger list@[a], list@[b]] 0 <= a < b < list@.len() implies list@[a].id != list@[b].id by {
                if list@[a].id == list@[b].id {
                    assert(all[a] == all[b]);
                }
            }
            assert forall|k: u32| #[trigger] self.nodes@.contains_key(k) implies exists|i: int|
                0 <= i < list@.len() && list@[i].id == k by {
                assert(all.contains((&k, &self.nodes@[k])));
                let j = choose|j: int| 0 <= j < all.len() && all[j] == (&k, &self.nodes@[k]);
                assert(list@[j].id == k);
            }
        }
        let ghost lv = list@;
        let nodes = sort_by_rank(list);
        proof {
            lemma_sorted_by_rank_ordered(lv);
            lemma_sorted_by_rank_contains(lv);
            let sv = nodes@;
            assert forall|i: int| 0 <= i < sv.len() implies self.nodes@.contains_key((#[trigger] sv[i]).id)
                && self.nodes@[sv[i].id]@ == sv[i]@ by {
                assert(sv.contains(sv[i]));
                assert(lv.contains(sv[i]));
            }
            let key = |n: NodeInfo| n.id;
            assert forall|a: int, b: int|
                #![trigger lv[a], lv[b]]
                0 <= a < lv.len() && 0 <= b < lv.len() && a != b implies key(lv[a]) != key(lv[b]) by {
                if a < b {
                    assert(lv[a].id != lv[b].id);
                } else {
                    assert(lv[b].id != lv[a].id);
                }
            }
            crate::order::lemma_sorted_by_rank_distinct(lv, key);
            assert forall|i: int, j: int| #![trigger sv[i], sv[j]] 0 <= i < j < sv.len() implies sv[i].id < sv[j].id by {
                assert(!sv[j].before(&sv[i]));
                assert(key(sv[i]) != key(sv[j]));
            }
            assert forall|k: u32| #[trigger] self.nodes@.contains_key(k) implies exists|i: int|
                0 <= i < sv.len() && sv[i].id == k by {
                let a = choose|a: int| 0 <= a < lv.len() && lv[a].id == k;
                assert(lv.contains(lv[a]));
                assert(sv.contains(lv[a]));
            }
        }
        RegistrySnapshot {
            serial: self.serial,
            nodes,
            device_count: self.device_count,
            defaults: self.metadata_defaults.duplicate(),
        }
    }
}

/// Puts `port` into `ports`, as `port_upsert_spec` says.
fn upsert_graph_port(ports: &mut Vec<GraphPort>, port: GraphPort) -> (changed: bool)
    ensures
        (final(ports)@, changed) == port_upsert_spec(old(ports)@, port),
{
    let ghost start = ports@;
    let ghost p = port_numbered(port.port_id);
    let mut i: usize = 0;
    while i < ports.len()
        invariant
            ports@ == start,
            start == old(ports)@,
            p == port_numbered(port.port_id),
            i <= start.len(),
            forall|j: int| 0 <= j < i ==> !p(#[trigger] start[j]),
        decreases start.len() - i,
    {
        if ports[i].port_id == port.port_id {
            proof {
                assert(p(start[i as int]));
                lemma_first_index_at(start, p, i as int);
            }
            if ports[i] != port {
                ports.set(i, port);
                return true;
            }
            return false;
        }
        proof {
            assert(!p(start[i as int]));
        }
        i += 1;
    }
    proof {
        lemma_first_index_none(start, p);
    }
    ports.push(port);
    true
}

/// `ports` without the ports numbered `port_id`.
pub open spec fn without_numbered(ports: Seq<GraphPort>, port_id: u32) -> Seq<GraphPort> {
    ports.filter(|p: GraphPort| p.port_id != port_id)
}

fn retain_other_ports(ports: &mut Vec<GraphPort>, port_id: u32)
    ensures
        final(ports)@ == without_numbered(old(ports)@, port_id),
{
    let ghost start = ports@;
    let ghost pred = |p: GraphPort| p.port_id != port_id;
    let mut out: Vec<GraphPort> = Vec::new();
    let mut i: usize = 0;
    while i < ports.len()
        invariant
            ports@ == start,
            pred == (|p: GraphPort| p.port_id != port_id),
            i <= start.len(),
            out@ == start.take(i as int).filter(pred),
        decreases start.len() - i,
    {
        let p = ports[i];
        proof {
            assert(start.take(i + 1).drop_last() =~= start.take(i as int));
            reveal_with_fuel(Seq::filter, 1);
        }
        if p.port_id != port_id {
            out.push(p);
        }
        i += 1;
    }
    proof {
        assert(start.take(start.len() as int) =~= start);
    }
    *ports = out;
}

impl RegistryState {
    fn bump_serial(&mut self)
        ensures
            final(self).serial == next_serial(old(self).serial),
            final(self).nodes@ == old(self).nodes@,
            final(self).device_count == old(self).device_count,
            final(self).port_index@ == old(self).port_index@,
            final(self).metadata_defaults@ == old(self).metadata_defaults@,
    {
        self.serial = if self.serial == u64::MAX {
            0
        } else {
            self.serial + 1
        };
    }

    /// Records a node announcement; returns whether anything changed.  A
    /// node with new content replaces the old one, the default targets are
    /// reconciled with the nodes and the serial moves on.
    pub fn upsert_node(&mut self, info: NodeInfo) -> (changed: bool)
        requires
            old(self).wf(),
        ensures
            final(self).wf(),
            old(self).targets_present() ==> final(self).targets_present(),
            changed == !(old(self).nodes@.contains_key(info.id) && old(self).nodes@[info.id]@
                == info@),
            final(self).nodes@.contains_key(info.id) && final(self).nodes@[info.id]@ == info@,
            !changed ==> {
                &&& final(self).serial == old(self).serial
                &&& final(self).nodes@ == old(self).nodes@
                &&& final(self).metadata_defaults@ == old(self).metadata_defaults@
            },
            changed ==> {
                &&& final(self).serial == next_serial(old(self).serial)
                &&& final(self).nodes@ == old(self).nodes@.insert(info.id, info)
                &&& defaults_reconciled(
                    old(self).metadata_defaults@,
                    final(self).metadata_defaults@,
                    final(self).nodes@,
                )
                &&& final(self).targets_present()
            },
            final(self).device_count == old(self).device_count,
            final(self).port_index@ == old(self).port_index@,
    {
        let same = match self.nodes.get(&info.id) {
            Some(current) => current.same_as(&info),
            None => false,
        };
        if same {
            return false;
        }
        self.nodes.insert(info.id, info);
        self.metadata_defaults.reconcile_with_nodes(&self.nodes);
        self.bump_serial();
        true
    }

    /// Records that node `id` went away; returns whether it was known.
    /// Default targets that named it keep its name, else its description,
    /// and are reconciled with the remaining nodes.
    pub fn remove_node(&mut self, id: u32) -> (changed: bool)
        requires
            old(self).wf(),
        ensures
            final(self).wf(),
            old(self).targets_present() ==> final(self).targets_present(),
            changed == old(self).nodes@.contains_key(id),
            !final(self).nodes@.contains_key(id),
            !changed ==> {
                &&& final(self).serial == old(self).serial
                &&& final(self).nodes@ == old(self).nodes@
                &&& final(self).metadata_defaults@ == old(self).metadata_defaults@
            },
            changed ==> {
                let fallback = fallback_name(old(self).nodes@[id]@);
                let (sink, a) = slot_clear_node_spec(
                    old(self).metadata_defaults@.audio_sink,
                    id,
                    fallback,
                );
                let (source, b) = slot_clear_node_spec(
                    old(self).metadata_defaults@.audio_source,
                    id,
                    fallback,
                );
                let cleared = MetadataDefaultsView { audio_sink: sink, audio_source: source };
                &&& final(self).serial == next_serial(old(self).serial)
                &&& final(self).nodes@ == old(self).nodes@.remove(id)
                &&& if a || b {
                    defaults_reconciled(cleared, final(self).metadata_defaults@, final(self).nodes@)
                } else {
                    final(self).metadata_defaults@ == old(self).metadata_defaults@
                }
            },
            final(self).device_count == old(self).device_count,
            final(self).port_index@ == old(self).port_index@,
    {
        match self.nodes.remove(&id) {
            Some(info) => {
                let fallback = match info.name {
                    Some(name) => Some(name),
                    None => info.description,
                };
                if self.metadata_defaults.clear_node(id, fallback) {
                    self.metadata_defaults.reconcile_with_nodes(&self.nodes);
                }
                self.bump_serial();
                true
            },
            None => false,
        }
    }

    /// Counts one more device.
    pub fn add_device(&mut self)
        requires
            old(self).device_count < usize::MAX,
        ensures
            final(self).device_count == old(self).device_count + 1,
            final(self).serial == next_serial(old(self).serial),
            final(self).nodes@ == old(self).nodes@,
            final(self).port_index@ == old(self).port_index@,
            final(self).metadata_defaults@ == old(self).metadata_defaults@,
    {
        self.device_count = self.device_count + 1;
        self.bump_serial();
    }

    /// Records a port announcement on a known node; returns whether the
    /// node's ports changed.
    pub fn upsert_port(&mut self, port: GraphPort) -> (changed: bool)
        requires
            old(self).wf(),
        ensures
            final(self).wf(),
            old(self).targets_present() ==> final(self).targets_present(),
            !old(self).nodes@.contains_key(port.node_id) ==> !changed && final(self).nodes@
                == old(self).nodes@ && final(self).port_index@ == old(self).port_index@
                && final(self).serial == old(self).serial,
            old(self).nodes@.contains_key(port.node_id) ==> {
                let (ports, c) = port_upsert_spec(old(self).nodes@[port.node_id]@.ports, port);
                &&& changed == c
                &&& changed ==> {
                    &&& final(self).nodes@ == old(self).nodes@.insert(
                        port.node_id,
                        final(self).nodes@[port.node_id],
                    )
                    &&& final(self).nodes@[port.node_id]@ == with_graph_ports(
                        old(self).nodes@[port.node_id]@,
                        ports,
                    )
                    &&& final(self).port_index@ == old(self).port_index@.insert(
                        port.global_id,
                        (port.node_id, port.port_id),
                    )
                    &&& final(self).serial == next_serial(old(self).serial)
                }
                &&& !changed ==> {
                    &&& final(self).nodes@.dom() == old(self).nodes@.dom()
                    &&& forall|k: u32| #[trigger] final(self).nodes@.contains_key(k) ==> final(self).nodes@[k]@ == old(self).nodes@[k]@
                    &&& final(self).port_index@ == old(self).port_index@
                    &&& final(self).serial == old(self).serial
                }
            },
            final(self).device_count == old(self).device_count,
            final(self).metadata_defaults@ == old(self).metadata_defaults@,
    {
        let node = match self.nodes.remove(&port.node_id) {
            Some(node) => node,
            None => {
                return false;
            },
        };
        let mut node = node;
        let changed = upsert_graph_port(&mut node.ports, port);
        self.nodes.insert(port.node_id, node);
        if changed {
            self.port_index.insert(port.global_id, (port.node_id, port.port_id));
            self.bump_serial();
        }
        changed
    }

    /// Records that port `global_id` went away; returns whether a known
    /// node lost it.
    pub fn remove_port(&mut self, global_id: u32) -> (changed: bool)
        requires
            old(self).wf(),
        ensures
            final(self).wf(),
            old(self).targets_present() ==> final(self).targets_present(),
            !old(self).port_index@.contains_key(global_id) ==> !changed && final(self).nodes@
                == old(self).nodes@ && final(self).port_index@ == old(self).port_index@
                && final(self).serial == old(self).serial,
            old(self).port_index@.contains_key(global_id) ==> {
                let (node_id, port_id) = old(self).port_index@[global_id];
                &&& final(self).port_index@ == old(self).port_index@.remove(global_id)
                &&& changed == old(self).nodes@.contains_key(node_id)
                &&& changed ==> {
                    &&& final(self).nodes@ == old(self).nodes@.insert(node_id, final(self).nodes@[node_id])
                    &&& final(self).nodes@[node_id]@ == with_graph_ports(
                        old(self).nodes@[node_id]@,
                        without_numbered(old(self).nodes@[node_id]@.ports, port_id),
                    )
                    &&& final(self).serial == next_serial(old(self).serial)
                }
                &&& !changed ==> final(self).nodes@ == old(self).nodes@ && final(self).serial
                    == old(self).serial
            },
            final(self).device_count == old(self).device_count,
            final(self).metadata_defaults@ == old(self).metadata_defaults@,
    {
        let (node_id, port_id) = match self.port_index.remove(&global_id) {
            Some(entry) => entry,
            None => {
                return false;
            },
        };
        let node = match self.nodes.remove(&node_id) {
            Some(node) => node,
            None => {
                return false;
            },
        };
        let mut node = node;
        retain_other_ports(&mut node.ports, port_id);
        self.nodes.insert(node_id, node);
        self.bump_serial();
        true
    }

    /// Applies a metadata property to the default targets; returns whether
    /// they changed, in which case they are reconciled with the nodes and
    /// the serial moves on.
    pub fn apply_metadata_property(
        &mut self,
        metadata_id: u32,
        subject: u32,
        key: Option<&str>,
        type_hint: Option<&str>,
        value: Option<&str>,
    ) -> (changed: bool)
        requires
            old(self).wf(),
        ensures
            final(self).wf(),
            old(self).targets_present() ==> final(self).targets_present(),
            ({
                let (d, c) = defaults_update_spec(
                    old(self).metadata_defaults@,
                    metadata_id,
                    subject,
                    opt_str_view(key),
                    opt_str_view(type_hint),
                    opt_str_view(value),
                );
                &&& changed == c
                &&& changed ==> defaults_reconciled(d, final(self).metadata_defaults@, final(self).nodes@)
                    && final(self).serial == next_serial(old(self).serial)
                &&& !changed ==> final(self).metadata_defaults@ == d && final(self).serial == old(self).serial
            }),
            final(self).nodes@ == old(self).nodes@,
            final(self).device_count == old(self).device_count,
            final(self).port_index@ == old(self).port_index@,
    {
        let changed = match key {
            Some(key) => self.metadata_defaults.apply_update(metadata_id, subject, key, type_hint, value),
            None => self.metadata_defaults.clear_metadata(metadata_id),
        };
        if changed {
            self.metadata_defaults.reconcile_with_nodes(&self.nodes);
            self.bump_serial();
        }
        changed
    }
}

/// A snapshot lists exactly the known nodes, each once and with the
/// content that was last announced for it; so after a node is announced
/// the next snapshot shows it as announced, and after it is removed the
/// next snapshot no longer shows it.
pub proof fn law_snapshot_lists_known_nodes(nodes: Map<u32, NodeInfo>, list: Seq<NodeInfo>, id: u32)
    requires
        lists_nodes(nodes, list),
    ensures
        (exists|i: int| 0 <= i < list.len() && (#[trigger] list[i]).id == id) <==> nodes.contains_key(
            id,
        ),
        forall|i: int| 0 <= i < list.len() && (#[trigger] list[i]).id == id ==> list[i]@ == nodes[id]@,
        forall|i: int, j: int|
            0 <= i < list.len() && 0 <= j < list.len() && (#[trigger] list[i]).id == id && (
            #[trigger] list[j]).id == id ==> i == j,
{
    assert forall|i: int, j: int|
        0 <= i < list.len() && 0 <= j < list.len() && (#[trigger] list[i]).id == id && (
        #[trigger] list[j]).id == id implies i == j by {
        if i < j {
            assert(list[i].id < list[j].id);
        } else if j < i {
            assert(list[j].id < list[i].id);
        }
    }
    if nodes.contains_key(id) {
        assert(exists|i: int| 0 <= i < list.len() && list[i].id == id);
    }
}

} // verus!
