//! The capture backend's picture of the PipeWire graph: nodes, ports,
//! links, clients and the default sink, kept current from registry events.
use crate::node::{Node, NodeKind, NodeView, Port, is_device_spec, token_spec};
use crate::order::{codes, folded_codes, lex_less, text_less};
use crate::registry::{metadata_name_spec, parse_metadata_name, sink_key};
use crate::routing::StreamIdentity;
use crate::search::{first_index, lemma_first_index_at, lemma_first_index_facts, lemma_first_index_none};
use crate::text::{
    chars_eq_fold, chars_from, chars_of, eq_fold, node_token_spec, opt_str_view, opt_view,
    parse_u32, parse_u32_spec, str_eq_chars, str_eq_fold,
};
use std::collections::{HashMap, HashSet};
use vstd::prelude::*;
use vstd::std_specs::hash::spec_hash_map_iter;
use vstd::std_specs::iter::IteratorSpec;

verus! {

broadcast use vstd::std_specs::hash::group_hash_axioms;

/// A link from an output node to an input node.
#[derive(Debug, Clone, Copy, PartialEq, Eq, Structural)]
pub struct GraphLink {
    pub output_node: u32,
    pub input_node: u32,
    pub active: bool,
}

/// The default sink as metadata names it.
#[derive(Debug, Clone, Default)]
pub struct Target {
    pub metadata_id: u32,
    pub subject: u32,
    pub node_id: Option<u32>,
    pub name: Option<String>,
}

/// The content of a default-sink target.
pub struct TargetView {
    pub metadata_id: u32,
    pub subject: u32,
    pub node_id: Option<u32>,
    pub name: Option<Seq<char>>,
}

impl View for Target {
    type V = TargetView;

    open spec fn view(&self) -> TargetView {
        TargetView {
            metadata_id: self.metadata_id,
            subject: self.subject,
            node_id: self.node_id,
            name: opt_view(self.name),
        }
    }
}

/// The content of an optional target.
pub open spec fn target_view(t: Option<Target>) -> Option<TargetView> {
    match t {
        Some(t) => Some(t@),
        None => None,
    }
}

/// An application that a client once played, with the label it had.
#[derive(Debug, Clone)]
pub struct Remembered {
    pub identity: StreamIdentity,
    pub label: String,
}

/// The identity and label texts of remembered applications.
pub open spec fn remembered_view(list: Seq<Remembered>) -> Seq<(Seq<char>, Seq<char>)> {
    list.map_values(|r: Remembered| (r.identity.0@, r.label@))
}

/// The capture backend's picture of the graph.
pub struct Graph {
    pub nodes: HashMap<u32, Node>,
    pub pending_ports: HashMap<u32, Vec<Port>>,
    pub port_nodes: HashMap<u32, u32>,
    pub links: HashMap<u32, GraphLink>,
    pub clients: HashSet<u32>,
    pub remembered_apps: HashMap<u32, Vec<Remembered>>,
    pub default_sink: Option<Target>,
}

impl Graph {
    /// Every node is kept under its own id.
    pub open spec fn wf(&self) -> bool {
        forall|k: u32| #[trigger] self.nodes@.contains_key(k) ==> self.nodes@[k].id == k
    }
}

impl Default for Graph {
    /// An empty graph.
    fn default() -> (r: Graph)
        ensures
            r.nodes@ == Map::<u32, Node>::empty(),
            r.pending_ports@ == Map::<u32, Vec<Port>>::empty(),
            r.port_nodes@ == Map::<u32, u32>::empty(),
            r.links@ == Map::<u32, GraphLink>::empty(),
            r.clients@ == Set::<u32>::empty(),
            r.remembered_apps@ == Map::<u32, Vec<Remembered>>::empty(),
            r.default_sink is None,
            r.wf(),
    {
        Graph {
            nodes: HashMap::new(),
            pending_ports: HashMap::new(),
            port_nodes: HashMap::new(),
            links: HashMap::new(),
            clients: HashSet::new(),
            remembered_apps: HashMap::new(),
            default_sink: None,
        }
    }
}

/// The ports that wait in `pending` for node `id`, or none.
pub open spec fn pending_list(pending: Map<u32, Vec<Port>>, id: u32) -> Seq<Port> {
    if pending.contains_key(id) {
        pending[id]@
    } else {
        Seq::empty()
    }
}

/// A node with other ports.
pub open spec fn with_ports(n: NodeView, ports: Seq<Port>) -> NodeView {
    NodeView { ports, ..n }
}

/// The ports whose global id is `id`.
pub open spec fn port_with_global(id: u32) -> spec_fn(Port) -> bool {
    |p: Port| p.global_id == id
}

/// `ports` with `port` in place of the port with the same global id, or
/// with `port` added at the end.
pub open spec fn upsert_port_spec(ports: Seq<Port>, port: Port) -> Seq<Port> {
    match first_index(ports, port_with_global(port.global_id)) {
        Some(i) => ports.update(i, port),
        None => ports.push(port),
    }
}

/// `ports` without the port whose global id is `id`.
pub open spec fn without_port(ports: Seq<Port>, id: u32) -> Seq<Port> {
    ports.filter(|p: Port| p.global_id != id)
}

fn upsert_port_into(ports: &mut Vec<Port>, port: Port)
    ensures
        final(ports)@ == upsert_port_spec(old(ports)@, port),
{
    let ghost start = ports@;
    let ghost p = port_with_global(port.global_id);
    let mut i: usize = 0;
    while i < ports.len()
        invariant
            ports@ == start,
            start == old(ports)@,
            p == port_with_global(port.global_id),
            i <= start.len(),
            forall|j: int| 0 <= j < i ==> !p(#[trigger] start[j]),
        decreases start.len() - i,
    {
        if ports[i].global_id == port.global_id {
            proof {
                lemma_first_index_at(start, p, i as int);
            }
            ports.set(i, port);
            proof {
                assert(ports@ =~= start.update(i as int, port));
            }
            return ;
        }
        i += 1;
    }
    proof {
        lemma_first_index_none(start, p);
    }
    ports.push(port);
}

fn remove_port_from(ports: &mut Vec<Port>, id: u32)
    ensures
        final(ports)@ == without_port(old(ports)@, id),
{
    let ghost start = ports@;
    let ghost pred = |p: Port| p.global_id != id;
    let mut out: Vec<Port> = Vec::new();
    let mut i: usize = 0;
    while i < ports.len()
        invariant
            ports@ == start,
            pred == (|p: Port| p.global_id != id),
            i <= start.len(),
            out@ == start.take(i as int).filter(pred),
        decreases start.len() - i,
    {
        let p = ports[i];
        proof {
            assert(start.take(i + 1).drop_last() =~= start.take(i as int));
            reveal_with_fuel(Seq::filter, 1);
        }
        if p.global_id != id {
            out.push(p);
        }
        i += 1;
    }
    proof {
        assert(start.take(start.len() as int) =~= start);
    }
    *ports = out;
}

/// The label of a playback application: its application name, else its
/// description, else its identity.
pub open spec fn app_label_spec(n: NodeView, identity: Seq<char>) -> Seq<char> {
    match n.application_name {
        Some(a) => a,
        None => match n.description {
            Some(d) => d,
            None => identity,
        },
    }
}

/// The label of a playback application.
pub fn application_label(node: &Node, identity: &StreamIdentity) -> (r: String)
    ensures
        r@ == app_label_spec(node@, identity.0@),
{
    match &node.application_name {
        Some(a) => a.clone(),
        None => match &node.description {
            Some(d) => d.clone(),
            None => identity.0.clone(),
        },
    }
}

/// `candidate` sorts before `current`: ignoring ASCII case first, then by
/// exact text.
pub open spec fn label_precedes_spec(candidate: Seq<char>, current: Seq<char>) -> bool {
    ||| lex_less(folded_codes(candidate), folded_codes(current))
    ||| (folded_codes(candidate) == folded_codes(current) && lex_less(
        codes(candidate),
        codes(current),
    ))
}

/// Whether `candidate` sorts before `current`.
pub fn label_precedes(candidate: &str, current: &str) -> (r: bool)
    ensures
        r == label_precedes_spec(candidate@, current@),
{
    let a = chars_of(candidate);
    let b = chars_of(current);
    if text_less(a.as_slice(), b.as_slice(), true) {
        return true;
    }
    if text_less(b.as_slice(), a.as_slice(), true) {
        proof {
            crate::order::lemma_lex_irreflexive(folded_codes(b@));
        }
        return false;
    }
    proof {
        if folded_codes(a@) != folded_codes(b@) {
            crate::order::lemma_lex_total(folded_codes(a@), folded_codes(b@));
        }
    }
    text_less(a.as_slice(), b.as_slice(), false)
}

/// The entries with identity `identity`.
pub open spec fn entry_for(identity: Seq<char>) -> spec_fn((Seq<char>, Seq<char>)) -> bool {
    |e: (Seq<char>, Seq<char>)| e.0 == identity
}

/// A client's remembered applications after it played `identity` with
/// `label`: a new identity is added; a known one keeps the label that
/// sorts first.
pub open spec fn remember_list_spec(
    list: Seq<(Seq<char>, Seq<char>)>,
    identity: Seq<char>,
    label: Seq<char>,
) -> Seq<(Seq<char>, Seq<char>)> {
    match first_index(list, entry_for(identity)) {
        Some(i) => if label_precedes_spec(label, list[i].1) {
            list.update(i, (identity, label))
        } else {
            list
        },
        None => list.push((identity, label)),
    }
}

/// The remembered applications of `client`, or none.
pub open spec fn remembered_list(m: Map<u32, Vec<Remembered>>, client: u32) -> Seq<Remembered> {
    if m.contains_key(client) {
        m[client]@
    } else {
        Seq::empty()
    }
}

/// A playback node with a client and an identity is remembered.
pub open spec fn remembers(n: NodeView) -> bool {
    n.kind == NodeKind::Playback && n.client_id is Some && n.identity is Some
}

/// The remembered applications after `n` was announced.
pub open spec fn remembered_after(
    old: Map<u32, Vec<Remembered>>,
    new: Map<u32, Vec<Remembered>>,
    n: NodeView,
) -> bool {
    if remembers(n) {
        let client = n.client_id->0;
        let identity = n.identity->0;
        &&& new == old.insert(client, new[client])
        &&& remembered_view(new[client]@) == remember_list_spec(
            remembered_view(remembered_list(old, client)),
            identity,
            app_label_spec(n, identity),
        )
    } else {
        new == old
    }
}

fn remember_into(list: &mut Vec<Remembered>, identity: &StreamIdentity, label: String)
    ensures
        remembered_view(final(list)@) == remember_list_spec(
            remembered_view(old(list)@),
            identity.0@,
            label@,
        ),
{
    let ghost start = list@;
    let ghost sv = remembered_view(start);
    let ghost p = entry_for(identity.0@);
    let mut i: usize = 0;
    while i < list.len()
        invariant
            list@ == start,
            start == old(list)@,
            sv == remembered_view(start),
            p == entry_for(identity.0@),
            i <= start.len(),
            forall|j: int| 0 <= j < i ==> !p(#[trigger] sv[j]),
        decreases start.len() - i,
    {
        proof {
            assert(sv[i as int] == (start[i as int].identity.0@, start[i as int].label@));
        }
        if list[i].identity.same_as(identity) {
            proof {
                assert(p(sv[i as int]));
                lemma_first_index_at(sv, p, i as int);
            }
            if label_precedes(label.as_str(), list[i].label.as_str()) {
                let entry = Remembered { identity: list[i].identity.duplicate(), label };
                list.set(i, entry);
                proof {
                    assert(remembered_view(list@) =~= sv.update(i as int, (identity.0@, label@)));
                }
            }
            return ;
        }
        proof {
            assert(!p(sv[i as int]));
        }
        i += 1;
    }
    proof {
        lemma_first_index_none(sv, p);
    }
    list.push(Remembered { identity: identity.duplicate(), label });
    proof {
        assert(remembered_view(list@) =~= sv.push((identity.0@, label@)));
    }
}

/// The nodes whose name is `name`.
pub open spec fn named(nodes: Map<u32, Node>, k: u32, name: Seq<char>) -> bool {
    nodes.contains_key(k) && nodes[k]@.name == Some(name)
}

/// The key of some node in `nodes` whose name is `name`, if any has it.
fn find_node_named(nodes: &HashMap<u32, Node>, name: &String) -> (r: Option<u32>)
    ensures
        match r {
            Some(k) => named(nodes@, k, name@),
            None => forall|k: u32| !#[trigger] named(nodes@, k, name@),
        },
{
    let ghost all = spec_hash_map_iter(nodes).remaining();
    let mut found: Option<u32> = None;
    for entry in it: nodes.iter()
        invariant
            it.seq() == all,
            found matches Some(k) ==> named(nodes@, k, name@),
            found is None ==> forall|j: int|
                0 <= j < it.index() ==> (#[trigger] all[j]).1@.name != Some(name@),
            forall|i: int|
                0 <= i < all.len() ==> nodes@.contains_key(*all[i].0) && nodes@[*all[i].0]
                    == *all[i].1,
    {
        let (k, v) = entry;
        if found.is_none() {
            let same = match &v.name {
                Some(n) => *n == *name,
                None => false,
            };
            if same {
                found = Some(*k);
            }
        }
    }
    proof {
        if found is None {
            assert forall|k: u32| !#[trigger] named(nodes@, k, name@) by {
                if nodes@.contains_key(k) {
                    assert(all.contains((&k, &nodes@[k])));
                    let j = choose|j: int| 0 <= j < all.len() && all[j] == (&k, &nodes@[k]);
                    assert(all[j].1@.name != Some(name@));
                }
            }
        }
    }
    found
}

/// The default sink after reconciling with the nodes: it keeps a node that
/// still exists, and otherwise takes a node named like it, when there is
/// one.
pub open spec fn target_reconciled(
    old: Option<TargetView>,
    new: Option<TargetView>,
    nodes: Map<u32, Node>,
) -> bool {
    match old {
        None => new is None,
        Some(t) => {
            &&& new is Some
            &&& new->0.metadata_id == t.metadata_id
            &&& new->0.subject == t.subject
            &&& new->0.name == t.name
            &&& if t.node_id is Some && nodes.contains_key(t.node_id->0) {
                new->0.node_id == t.node_id
            } else {
                match new->0.node_id {
                    Some(k) => t.name is Some && named(nodes, k, t.name->0),
                    None => forall|k: u32|
                        !#[trigger] named(nodes, k, t.name->0) || t.name is None,
                }
            }
        },
    }
}

/// The target after node `id` left, known then by `fallback`: it forgets
/// the node and keeps its name, or takes `fallback` as its name.
pub open spec fn target_cleared(
    old: Option<TargetView>,
    id: u32,
    fallback: Seq<char>,
) -> Option<TargetView> {
    match old {
        Some(t) => if t.node_id == Some(id) {
            Some(
                TargetView {
                    node_id: None,
                    name: match t.name {
                        Some(n) => Some(n),
                        None => Some(fallback),
                    },
                    ..t
                },
            )
        } else {
            old
        },
        None => None,
    }
}

/// A link leaves `node_id` for somewhere other than the tap.
pub open spec fn external_link(l: GraphLink, node_id: u32, tap_id: Option<u32>) -> bool {
    l.output_node == node_id && Some(l.input_node) != tap_id
}

/// Some link routes `node_id` somewhere other than the tap, and is active
/// when `active_only` is set.
pub open spec fn has_route_spec(
    links: Map<u32, GraphLink>,
    node_id: u32,
    tap_id: Option<u32>,
    active_only: bool,
) -> bool {
    exists|k: u32|
        #![trigger links[k]]
        links.contains_key(k) && external_link(links[k], node_id, tap_id) && (!active_only
            || links[k].active)
}

/// The id that a `node#<id>` token names, ignoring ASCII case in `node#`.
pub open spec fn node_token_id_spec(token: Seq<char>) -> Option<u32> {
    if token.len() >= 5 && eq_fold(token.take(5), seq!['n', 'o', 'd', 'e', '#']) {
        parse_u32_spec(token.skip(5))
    } else {
        None
    }
}

/// Reads the id from a `node#<id>` token.
pub fn node_token_id(token: &str) -> (r: Option<u32>)
    ensures
        r == node_token_id_spec(token@),
{
    let t = chars_of(token);
    if t.len() < 5 {
        return None;
    }
    let head = [t[0], t[1], t[2], t[3], t[4]];
    assert(head@ =~= t@.take(5));
    if !chars_eq_fold(head.as_slice(), ['n', 'o', 'd', 'e', '#'].as_slice()) {
        return None;
    }
    let rest = chars_from(t.as_slice(), 5);
    assert(rest@ =~= t@.skip(5));
    parse_u32(rest.as_slice())
}

/// A device whose name is `token`, ignoring ASCII case.
pub open spec fn device_name_matches(n: NodeView, token: Seq<char>) -> bool {
    is_device_spec(n) && n.name is Some && eq_fold(n.name->0, token)
}

/// A device whose description is `token`, ignoring ASCII case, or whose
/// id `token` names.
pub open spec fn device_other_matches(n: NodeView, token: Seq<char>) -> bool {
    is_device_spec(n) && ((n.description is Some && eq_fold(n.description->0, token))
        || node_token_id_spec(token) == Some(n.id))
}

/// The device that `token` selects: one whose name matches when there is
/// such a device, else one whose description or id matches.
pub open spec fn found_device(nodes: Map<u32, Node>, token: Seq<char>, r: Option<Node>) -> bool {
    let by_name = exists|k: u32|
        #![trigger nodes[k]]
        nodes.contains_key(k) && device_name_matches(nodes[k]@, token);
    let by_other = exists|k: u32|
        #![trigger nodes[k]]
        nodes.contains_key(k) && device_other_matches(nodes[k]@, token);
    match r {
        Some(n) => (exists|k: u32| #![trigger nodes[k]] nodes.contains_key(k) && nodes[k] == n)
            && if by_name {
            device_name_matches(n@, token)
        } else {
            device_other_matches(n@, token)
        },
        None => !by_name && !by_other,
    }
}

/// The node that a target resolves to: its node while that exists, else
/// a node named like it.
pub open spec fn resolved(nodes: Map<u32, Node>, t: TargetView, r: Option<Node>) -> bool {
    if t.node_id is Some && nodes.contains_key(t.node_id->0) {
        r == Some(nodes[t.node_id->0])
    } else {
        match t.name {
            Some(name) => match r {
                Some(n) => exists|k: u32|
                    #![trigger nodes[k]]
                    named(nodes, k, name) && nodes[k] == n,
                None => forall|k: u32| !#[trigger] named(nodes, k, name),
            },
            None => r is None,
        }
    }
}

/// A node of `nodes` whose name is `name`, if any has it.
fn node_named_ref<'a>(nodes: &'a HashMap<u32, Node>, name: &String) -> (r: Option<&'a Node>)
    ensures
        match r {
            Some(n) => exists|k: u32| #![trigger nodes@[k]] named(nodes@, k, name@) && nodes@[k] == *n,
            None => forall|k: u32| !#[trigger] named(nodes@, k, name@),
        },
{
    match find_node_named(nodes, name) {
        Some(k) => nodes.get(&k),
        None => None,
    }
}

/// Some device matches by name, when `by_name`, or by description or id.
fn find_device_by(nodes: &HashMap<u32, Node>, token: &str, by_name: bool) -> (r: Option<u32>)
    ensures
        match r {
            Some(k) => nodes@.contains_key(k) && if by_name {
                device_name_matches(nodes@[k]@, token@)
            } else {
                device_other_matches(nodes@[k]@, token@)
            },
            None => forall|k: u32|
                #![trigger nodes@[k]]
                nodes@.contains_key(k) ==> !(if by_name {
                    device_name_matches(nodes@[k]@, token@)
                } else {
                    device_other_matches(nodes@[k]@, token@)
                }),
        },
{
    let ghost all = spec_hash_map_iter(nodes).remaining();
    let ghost matches = |n: Node|
        if by_name {
            device_name_matches(n@, token@)
        } else {
            device_other_matches(n@, token@)
        };
    let id = node_token_id(token);
    let mut found: Option<u32> = None;
    for entry in it: nodes.iter()
        invariant
            it.seq() == all,
            id == node_token_id_spec(token@),
            matches == (|n: Node|
                if by_name {
                    device_name_matches(n@, token@)
                } else {
                    device_other_matches(n@, token@)
                }),
            found matches Some(k) ==> nodes@.contains_key(k) && matches(nodes@[k]),
            found is None ==> forall|j: int| 0 <= j < it.index() ==> !matches(*(#[trigger] all[j]).1),
            forall|i: int|
                0 <= i < all.len() ==> nodes@.contains_key(*all[i].0) && nodes@[*all[i].0]
                    == *all[i].1,
    {
        let (k, v) = entry;
        if found.is_none() && v.is_device() {
            let hit = if by_name {
                match &v.name {
                    Some(n) => crate::text::eq_ignore_ascii_case(n.as_str(), token),
                    None => false,
                }
            } else {
                (match &v.description {
                    Some(d) => crate::text::eq_ignore_ascii_case(d.as_str(), token),
                    None => false,
                }) || id == Some(v.id)
            };
            if hit {
                found = Some(*k);
            }
        }
    }
    proof {
        if found is None {
            assert forall|k: u32| #![trigger nodes@[k]] nodes@.contains_key(k) implies !matches(
                nodes@[k],
            ) by {
                assert(all.contains((&k, &nodes@[k])));
                let j = choose|j: int| 0 <= j < all.len() && all[j] == (&k, &nodes@[k]);
                assert(!matches(*all[j].1));
            }
        }
    }
    found
}

/// Whether some link of `links` routes `node_id` away from the tap.
fn find_route(links: &HashMap<u32, GraphLink>, node_id: u32, tap_id: Option<u32>, active_only: bool) -> (r:
    bool)
    ensures
        r == has_route_spec(links@, node_id, tap_id, active_only),
{
    let ghost all = spec_hash_map_iter(links).remaining();
    let mut found = false;
    for entry in it: links.iter()
        invariant
            it.seq() == all,
            found ==> has_route_spec(links@, node_id, tap_id, active_only),
            !found ==> forall|j: int|
                0 <= j < it.index() ==> !(external_link(*(#[trigger] all[j]).1, node_id, tap_id) && (
                !active_only || all[j].1.active)),
            forall|i: int|
                0 <= i < all.len() ==> links@.contains_key(*all[i].0) && links@[*all[i].0]
                    == *all[i].1,
    {
        let (k, l) = entry;
        if !found && l.output_node == node_id && Some(l.input_node) != tap_id && (!active_only
            || l.active) {
            proof {
                assert(links@[*k] == *l);
            }
            found = true;
        }
    }
    proof {
        if !found && has_route_spec(links@, node_id, tap_id, active_only) {
            let k = choose|k: u32|
                #![trigger links@[k]]
                links@.contains_key(k) && external_link(links@[k], node_id, tap_id) && (
                !active_only || links@[k].active);
            assert(all.contains((&k, &links@[k])));
            let j = choose|j: int| 0 <= j < all.len() && all[j] == (&k, &links@[k]);
            assert(!(external_link(*all[j].1, node_id, tap_id) && (!active_only || all[j].1.active)));
        }
    }
    found
}

/// `new` keeps the entries of `old` that `keep` accepts, unchanged.
pub open spec fn kept_where<V>(old: Map<u32, V>, new: Map<u32, V>, keep: spec_fn(V) -> bool) -> bool {
    &&& forall|k: u32| #[trigger] new.contains_key(k) <==> (old.contains_key(k) && keep(old[k]))
    &&& forall|k: u32| #[trigger] new.contains_key(k) ==> new[k] == old[k]
}

/// The port entries that do not name node `id`.
pub open spec fn port_entry_kept(id: u32) -> spec_fn(u32) -> bool {
    |n: u32| n != id
}

/// The links that do not touch node `id`.
pub open spec fn link_kept(id: u32) -> spec_fn(GraphLink) -> bool {
    |l: GraphLink| l.output_node != id && l.input_node != id
}

/// Removes every entry of `keys` from `map`.
fn remove_keys<V>(map: &mut HashMap<u32, V>, keys: &Vec<u32>)
    ensures
        forall|k: u32| #[trigger]
            final(map)@.contains_key(k) <==> (old(map)@.contains_key(k) && !keys@.contains(k)),
        forall|k: u32| #[trigger] final(map)@.contains_key(k) ==> final(map)@[k] == old(map)@[k],
{
    let ghost before = map@;
    let mut i: usize = 0;
    while i < keys.len()
        invariant
            before == old(map)@,
            i <= keys@.len(),
            forall|k: u32| #[trigger]
                map@.contains_key(k) <==> (before.contains_key(k) && !keys@.take(i as int).contains(k)),
            forall|k: u32| #[trigger] map@.contains_key(k) ==> map@[k] == before[k],
        decreases keys@.len() - i,
    {
        let k = keys[i];
        map.remove(&k);
        proof {
            broadcast use vstd::seq_lib::group_seq_properties;

            assert(keys@.take(i + 1) =~= keys@.take(i as int).push(k));
        }
        i += 1;
    }
    proof {
        assert(keys@.take(keys@.len() as int) =~= keys@);
    }
}

/// Drops the port entries that name node `id`.
fn drop_port_entries(map: &mut HashMap<u32, u32>, id: u32)
    ensures
        kept_where(old(map)@, final(map)@, port_entry_kept(id)),
{
    broadcast use vstd::seq_lib::group_seq_properties;

    let ghost all = spec_hash_map_iter(&*map).remaining();
    let ghost start = map@;
    let mut doomed: Vec<u32> = Vec::new();
    for entry in it: map.iter()
        invariant
            it.seq() == all,
            start == map@,
            forall|d: u32| #[trigger] doomed@.contains(d) ==> start.contains_key(d) && start[d] == id,
            forall|j: int|
                0 <= j < it.index() && *(#[trigger] all[j]).1 == id ==> doomed@.contains(*all[j].0),
            forall|i: int|
                0 <= i < all.len() ==> start.contains_key(*all[i].0) && start[*all[i].0] == *all[i].1,
    {
        let (k, v) = entry;
        let ghost before = doomed@;
        if *v == id {
            doomed.push(*k);
            proof {
                assert(doomed@[before.len() as int] == *k);
                assert forall|x: u32| #[trigger] before.contains(x) implies doomed@.contains(x) by {
                    let i = choose|i: int| 0 <= i < before.len() && before[i] == x;
                    assert(doomed@[i] == x);
                }
                assert forall|x: u32| #[trigger] doomed@.contains(x) implies before.contains(x) || x == *k by {
                    let i = choose|i: int| 0 <= i < doomed@.len() && doomed@[i] == x;
                    if i < before.len() {
                        assert(before[i] == x);
                    }
                }
            }
        }
    }
    proof {
        assert forall|k: u32| start.contains_key(k) && start[k] == id implies #[trigger] doomed@.contains(k) by {
            assert(all.contains((&k, &start[k])));
            let j = choose|j: int| 0 <= j < all.len() && all[j] == (&k, &start[k]);
        }
    }
    remove_keys(map, &doomed);
}

/// Drops the links that touch node `id`.
fn drop_links_of(map: &mut HashMap<u32, GraphLink>, id: u32)
    ensures
        kept_where(old(map)@, final(map)@, link_kept(id)),
{
    broadcast use vstd::seq_lib::group_seq_properties;

    let ghost all = spec_hash_map_iter(&*map).remaining();
    let ghost start = map@;
    let mut doomed: Vec<u32> = Vec::new();
    for entry in it: map.iter()
        invariant
            it.seq() == all,
            start == map@,
            forall|d: u32| #[trigger] doomed@.contains(d) ==> start.contains_key(d) && !link_kept(id)(start[d]),
            forall|j: int|
                0 <= j < it.index() && !link_kept(id)(*(#[trigger] all[j]).1) ==> doomed@.contains(*all[j].0),
            forall|i: int|
                0 <= i < all.len() ==> start.contains_key(*all[i].0) && start[*all[i].0] == *all[i].1,
    {
        let (k, l) = entry;
        let ghost before = doomed@;
        if l.output_node == id || l.input_node == id {
            doomed.push(*k);
            proof {
                assert(doomed@[before.len() as int] == *k);
                assert forall|x: u32| #[trigger] before.contains(x) implies doomed@.contains(x) by {
                    let i = choose|i: int| 0 <= i < before.len() && before[i] == x;
                    assert(doomed@[i] == x);
                }
                assert forall|x: u32| #[trigger] doomed@.contains(x) implies before.contains(x) || x == *k by {
                    let i = choose|i: int| 0 <= i < doomed@.len() && doomed@[i] == x;
                    if i < before.len() {
                        assert(before[i] == x);
                    }
                }
            }
        }
    }
    proof {
        assert forall|k: u32| start.contains_key(k) && !link_kept(id)(start[k]) implies #[trigger] doomed@.contains(k) by {
            assert(all.contains((&k, &start[k])));
            let j = choose|j: int| 0 <= j < all.len() && all[j] == (&k, &start[k]);
        }
    }
    remove_keys(map, &doomed);
}

/// The default sink after a metadata property, before reconciling, and
/// whether to reconcile.  A property without a key clears a target that
/// the same object and subject set; `default.audio.sink` sets the target
/// to the subject and the name the value gives, or clears it like above
/// when the value goes away; other keys change nothing.
pub open spec fn metadata_target_spec(
    old: Option<TargetView>,
    metadata_id: u32,
    subject: u32,
    key: Option<Seq<char>>,
    type_hint: Option<Seq<char>>,
    value: Option<Seq<char>>,
) -> (Option<TargetView>, bool) {
    let ours = old matches Some(t) && t.metadata_id == metadata_id && t.subject == subject;
    match key {
        None => (
            if ours {
                None
            } else {
                old
            },
            false,
        ),
        Some(k) => if k != sink_key() {
            (old, false)
        } else {
            match value {
                Some(v) => (
                    Some(
                        TargetView {
                            metadata_id,
                            subject,
                            node_id: if subject != 0 {
                                Some(subject)
                            } else {
                                None
                            },
                            name: metadata_name_spec(type_hint, v),
                        },
                    ),
                    true,
                ),
                None => if ours {
                    (None, true)
                } else {
                    (old, false)
                },
            }
        },
    }
}

impl Graph {
    /// The node with id `id`.
    pub fn node(&self, id: u32) -> (r: Option<&Node>)
        ensures
            match r {
                Some(n) => self.nodes@.contains_key(id) && *n == self.nodes@[id],
                None => !self.nodes@.contains_key(id),
            },
    {
        self.nodes.get(&id)
    }

    /// All nodes, by id.
    pub fn nodes(&self) -> (r: &HashMap<u32, Node>)
        ensures
            r@ == self.nodes@,
    {
        &self.nodes
    }

    /// Adds or replaces a node.  A known node keeps its ports; ports that
    /// arrived before the node join it.
    pub fn upsert_node(&mut self, node: Node)
        ensures
            old(self).wf() ==> final(self).wf(),
            final(self).nodes@ == old(self).nodes@.insert(node.id, final(self).nodes@[node.id]),
            final(self).nodes@[node.id]@ == with_ports(
                node@,
                (if old(self).nodes@.contains_key(node.id) {
                    old(self).nodes@[node.id]@.ports
                } else {
                    node@.ports
                }) + pending_list(old(self).pending_ports@, node.id),
            ),
            final(self).pending_ports@ == old(self).pending_ports@.remove(node.id),
            final(self).port_nodes@ == old(self).port_nodes@,
            final(self).links@ == old(self).links@,
            final(self).clients@ == old(self).clients@,
            remembered_after(old(self).remembered_apps@, final(self).remembered_apps@, node@),
            target_reconciled(
                target_view(old(self).default_sink),
                target_view(final(self).default_sink),
                final(self).nodes@,
            ),
    {
        let ghost start = node@;
        let mut node = node;
        let id = node.id;
        match self.nodes.remove(&id) {
            Some(previous) => {
                node.ports = previous.ports;
            },
            None => {},
        }
        match self.pending_ports.remove(&id) {
            Some(pending) => {
                let mut pending = pending;
                node.ports.append(&mut pending);
            },
            None => {},
        }
        self.remember_application(&node);
        self.nodes.insert(id, node);
        self.reconcile_targets();
    }

    /// Records a client.
    pub fn add_client(&mut self, id: u32)
        ensures
            old(self).wf() ==> final(self).wf(),
            final(self).clients@ == old(self).clients@.insert(id),
            final(self).nodes@ == old(self).nodes@,
            final(self).pending_ports@ == old(self).pending_ports@,
            final(self).port_nodes@ == old(self).port_nodes@,
            final(self).links@ == old(self).links@,
            final(self).remembered_apps@ == old(self).remembered_apps@,
            final(self).default_sink == old(self).default_sink,
    {
        self.clients.insert(id);
    }

    /// Adds or replaces a port: on its node when the node is known, among
    /// the ports waiting for it otherwise.
    pub fn upsert_port(&mut self, port: Port)
        ensures
            old(self).wf() ==> final(self).wf(),
            final(self).port_nodes@ == old(self).port_nodes@.insert(port.global_id, port.node_id),
            old(self).nodes@.contains_key(port.node_id) ==> {
                &&& final(self).nodes@ == old(self).nodes@.insert(
                    port.node_id,
                    final(self).nodes@[port.node_id],
                )
                &&& final(self).nodes@[port.node_id]@ == with_ports(
                    old(self).nodes@[port.node_id]@,
                    upsert_port_spec(old(self).nodes@[port.node_id]@.ports, port),
                )
                &&& final(self).pending_ports@ == old(self).pending_ports@
            },
            !old(self).nodes@.contains_key(port.node_id) ==> {
                &&& final(self).nodes@ == old(self).nodes@
                &&& final(self).pending_ports@ == old(self).pending_ports@.insert(
                    port.node_id,
                    final(self).pending_ports@[port.node_id],
                )
                &&& final(self).pending_ports@[port.node_id]@ == upsert_port_spec(
                    pending_list(old(self).pending_ports@, port.node_id),
                    port,
                )
            },
            final(self).links@ == old(self).links@,
            final(self).clients@ == old(self).clients@,
            final(self).remembered_apps@ == old(self).remembered_apps@,
            final(self).default_sink == old(self).default_sink,
    {
        self.port_nodes.insert(port.global_id, port.node_id);
        match self.nodes.remove(&port.node_id) {
            Some(node) => {
                let mut node = node;
                upsert_port_into(&mut node.ports, port);
                self.nodes.insert(port.node_id, node);
            },
            None => {
                let mut list = match self.pending_ports.remove(&port.node_id) {
                    Some(list) => list,
                    None => Vec::new(),
                };
                upsert_port_into(&mut list, port);
                self.pending_ports.insert(port.node_id, list);
            },
        }
    }

    /// Adds or replaces link `id`.
    pub fn upsert_link(&mut self, id: u32, link: GraphLink)
        ensures
            old(self).wf() ==> final(self).wf(),
            final(self).links@ == old(self).links@.insert(id, link),
            final(self).nodes@ == old(self).nodes@,
            final(self).pending_ports@ == old(self).pending_ports@,
            final(self).port_nodes@ == old(self).port_nodes@,
            final(self).clients@ == old(self).clients@,
            final(self).remembered_apps@ == old(self).remembered_apps@,
            final(self).default_sink == old(self).default_sink,
    {
        self.links.insert(id, link);
    }

    /// Forgets the default sink that metadata object `id` named.
    pub fn remove_metadata(&mut self, id: u32)
        ensures
            old(self).wf() ==> final(self).wf(),
            final(self).default_sink == match old(self).default_sink {
                Some(t) => if t.metadata_id == id {
                    None
                } else {
                    Some(t)
                },
                None => None,
            },
            final(self).nodes@ == old(self).nodes@,
            final(self).pending_ports@ == old(self).pending_ports@,
            final(self).port_nodes@ == old(self).port_nodes@,
            final(self).links@ == old(self).links@,
            final(self).clients@ == old(self).clients@,
            final(self).remembered_apps@ == old(self).remembered_apps@,
    {
        let hit = match &self.default_sink {
            Some(t) => t.metadata_id == id,
            None => false,
        };
        if hit {
            self.default_sink = None;
        }
    }

    /// The node that the default sink names.
    pub fn default_sink(&self) -> (r: Option<&Node>)
        ensures
            match self.default_sink {
                Some(t) => resolved(
                    self.nodes@,
                    t@,
                    match r {
                        Some(n) => Some(*n),
                        None => None,
                    },
                ),
                None => r is None,
            },
    {
        match &self.default_sink {
            Some(t) => self.resolve_target(t),
            None => None,
        }
    }

    /// The node that a target resolves to.
    pub fn resolve_target(&self, target: &Target) -> (r: Option<&Node>)
        ensures
            resolved(
                self.nodes@,
                target@,
                match r {
                    Some(n) => Some(*n),
                    None => None,
                },
            ),
    {
        if let Some(id) = target.node_id {
            if let Some(n) = self.nodes.get(&id) {
                return Some(n);
            }
        }
        match &target.name {
            Some(name) => node_named_ref(&self.nodes, name),
            None => None,
        }
    }

    /// The device that `token` selects: by name first, then by
    /// description or `node#<id>`, ignoring ASCII case.
    pub fn find_device(&self, token: &str) -> (r: Option<&Node>)
        ensures
            found_device(
                self.nodes@,
                token@,
                match r {
                    Some(n) => Some(*n),
                    None => None,
                },
            ),
    {
        match find_device_by(&self.nodes, token, true) {
            Some(k) => self.nodes.get(&k),
            None => match find_device_by(&self.nodes, token, false) {
                Some(k) => self.nodes.get(&k),
                None => None,
            },
        }
    }

    /// Whether some link routes `node_id` somewhere other than the tap.
    pub fn has_external_route(&self, node_id: u32, tap_id: Option<u32>) -> (r: bool)
        ensures
            r == has_route_spec(self.links@, node_id, tap_id, false),
    {
        find_route(&self.links, node_id, tap_id, false)
    }

    /// Whether some active link routes `node_id` somewhere other than the
    /// tap.
    pub fn has_active_external_route(&self, node_id: u32, tap_id: Option<u32>) -> (r: bool)
        ensures
            r == has_route_spec(self.links@, node_id, tap_id, true),
    {
        find_route(&self.links, node_id, tap_id, true)
    }

    /// Remembers the application that a playback node belongs to, keeping
    /// for each identity the label that sorts first.
    pub fn remember_application(&mut self, node: &Node)
        ensures
            old(self).wf() ==> final(self).wf(),
            remembered_after(old(self).remembered_apps@, final(self).remembered_apps@, node@),
            final(self).nodes@ == old(self).nodes@,
            final(self).pending_ports@ == old(self).pending_ports@,
            final(self).port_nodes@ == old(self).port_nodes@,
            final(self).links@ == old(self).links@,
            final(self).clients@ == old(self).clients@,
            final(self).default_sink == old(self).default_sink,
    {
        if node.kind != NodeKind::Playback {
            return ;
        }
        let (client, identity) = match (node.client_id, &node.identity) {
            (Some(c), Some(i)) => (c, i),
            _ => {
                return ;
            },
        };
        let label = application_label(node, identity);
        let mut list = match self.remembered_apps.remove(&client) {
            Some(list) => list,
            None => Vec::new(),
        };
        remember_into(&mut list, identity, label);
        self.remembered_apps.insert(client, list);
        proof {
            assert(self.remembered_apps@ =~= old(self).remembered_apps@.insert(
                client,
                self.remembered_apps@[client],
            ));
        }
    }

    /// Points the default sink at an existing node: it keeps its node while
    /// that exists, and otherwise takes a node named like it.
    pub fn reconcile_targets(&mut self)
        ensures
            old(self).wf() ==> final(self).wf(),
            target_reconciled(
                target_view(old(self).default_sink),
                target_view(final(self).default_sink),
                final(self).nodes@,
            ),
            final(self).nodes@ == old(self).nodes@,
            final(self).pending_ports@ == old(self).pending_ports@,
            final(self).port_nodes@ == old(self).port_nodes@,
            final(self).links@ == old(self).links@,
            final(self).clients@ == old(self).clients@,
            final(self).remembered_apps@ == old(self).remembered_apps@,
    {
        let mut target = match self.default_sink.take() {
            Some(t) => t,
            None => {
                return ;
            },
        };
        let keep = match target.node_id {
            Some(id) => self.nodes.contains_key(&id),
            None => false,
        };
        if !keep {
            let found = match &target.name {
                Some(name) => find_node_named(&self.nodes, name),
                None => None,
            };
            target.node_id = found;
        }
        self.default_sink = Some(target);
    }

    /// Makes the default sink forget node `id`, known then by `fallback`.
    pub fn clear_target_node(&mut self, id: u32, fallback: String)
        ensures
            old(self).wf() ==> final(self).wf(),
            target_view(final(self).default_sink) == target_cleared(
                target_view(old(self).default_sink),
                id,
                fallback@,
            ),
            final(self).nodes@ == old(self).nodes@,
            final(self).pending_ports@ == old(self).pending_ports@,
            final(self).port_nodes@ == old(self).port_nodes@,
            final(self).links@ == old(self).links@,
            final(self).clients@ == old(self).clients@,
            final(self).remembered_apps@ == old(self).remembered_apps@,
    {
        let mut target = match self.default_sink.take() {
            Some(t) => t,
            None => {
                return ;
            },
        };
        if target.node_id == Some(id) {
            target.node_id = None;
            if target.name.is_none() {
                target.name = Some(fallback);
            }
        }
        self.default_sink = Some(target);
    }
    /// Removes global object `id`, whichever kind it is.  A port leaves its
    /// node or the ports waiting for it; a node takes its ports' entries and
    /// its links with it and leaves the default sink known by its label; a
    /// client takes its remembered applications; a link just goes.
    pub fn remove_global(&mut self, id: u32)
        ensures
            old(self).wf() ==> final(self).wf(),
            old(self).port_nodes@.contains_key(id) ==> {
                let nid = old(self).port_nodes@[id];
                &&& final(self).port_nodes@ == old(self).port_nodes@.remove(id)
                &&& if old(self).nodes@.contains_key(nid) {
                    &&& final(self).nodes@ == old(self).nodes@.insert(nid, final(self).nodes@[nid])
                    &&& final(self).nodes@[nid]@ == with_ports(
                        old(self).nodes@[nid]@,
                        without_port(old(self).nodes@[nid]@.ports, id),
                    )
                } else {
                    final(self).nodes@ == old(self).nodes@
                }
                &&& if old(self).pending_ports@.contains_key(nid) {
                    let rest = without_port(old(self).pending_ports@[nid]@, id);
                    if rest.len() == 0 {
                        final(self).pending_ports@ == old(self).pending_ports@.remove(nid)
                    } else {
                        &&& final(self).pending_ports@ == old(self).pending_ports@.insert(
                            nid,
                            final(self).pending_ports@[nid],
                        )
                        &&& final(self).pending_ports@[nid]@ == rest
                    }
                } else {
                    final(self).pending_ports@ == old(self).pending_ports@
                }
                &&& final(self).links@ == old(self).links@
                &&& final(self).clients@ == old(self).clients@
                &&& final(self).remembered_apps@ == old(self).remembered_apps@
                &&& final(self).default_sink == old(self).default_sink
            },
            !old(self).port_nodes@.contains_key(id) && old(self).nodes@.contains_key(id) ==> {
                &&& final(self).nodes@ == old(self).nodes@.remove(id)
                &&& kept_where(old(self).port_nodes@, final(self).port_nodes@, port_entry_kept(id))
                &&& kept_where(old(self).links@, final(self).links@, link_kept(id))
                &&& target_view(final(self).default_sink) == target_cleared(
                    target_view(old(self).default_sink),
                    id,
                    token_spec(old(self).nodes@[id]@),
                )
                &&& final(self).pending_ports@ == old(self).pending_ports@
                &&& final(self).clients@ == old(self).clients@
                &&& final(self).remembered_apps@ == old(self).remembered_apps@
            },
            !old(self).port_nodes@.contains_key(id) && !old(self).nodes@.contains_key(id)
                && old(self).clients@.contains(id) ==> {
                &&& final(self).clients@ == old(self).clients@.remove(id)
                &&& final(self).remembered_apps@ == old(self).remembered_apps@.remove(id)
                &&& final(self).nodes@ == old(self).nodes@
                &&& final(self).pending_ports@ == old(self).pending_ports@
                &&& final(self).port_nodes@ == old(self).port_nodes@
                &&& final(self).links@ == old(self).links@
                &&& final(self).default_sink == old(self).default_sink
            },
            !old(self).port_nodes@.contains_key(id) && !old(self).nodes@.contains_key(id)
                && !old(self).clients@.contains(id) ==> {
                &&& final(self).links@ == old(self).links@.remove(id)
                &&& final(self).nodes@ == old(self).nodes@
                &&& final(self).pending_ports@ == old(self).pending_ports@
                &&& final(self).port_nodes@ == old(self).port_nodes@
                &&& final(self).clients@ == old(self).clients@
                &&& final(self).remembered_apps@ == old(self).remembered_apps@
                &&& final(self).default_sink == old(self).default_sink
            },
    {
        if let Some(nid) = self.port_nodes.remove(&id) {
            match self.nodes.remove(&nid) {
                Some(node) => {
                    let mut node = node;
                    remove_port_from(&mut node.ports, id);
                    self.nodes.insert(nid, node);
                },
                None => {},
            }
            match self.pending_ports.remove(&nid) {
                Some(list) => {
                    let mut list = list;
                    remove_port_from(&mut list, id);
                    if list.len() > 0 {
                        self.pending_ports.insert(nid, list);
                    }
                },
                None => {},
            }
            return ;
        }
        if let Some(node) = self.nodes.remove(&id) {
            drop_port_entries(&mut self.port_nodes, id);
            drop_links_of(&mut self.links, id);
            self.clear_target_node(id, node.token());
            return ;
        }
        if self.clients.remove(&id) {
            self.remembered_apps.remove(&id);
            return ;
        }
        self.links.remove(&id);
    }

    /// Applies a metadata property to the default sink.
    pub fn metadata(
        &mut self,
        metadata_id: u32,
        subject: u32,
        key: Option<&str>,
        type_hint: Option<&str>,
        value: Option<&str>,
    )
        ensures
            old(self).wf() ==> final(self).wf(),
            ({
                let (t, reconcile) = metadata_target_spec(
                    target_view(old(self).default_sink),
                    metadata_id,
                    subject,
                    opt_str_view(key),
                    opt_str_view(type_hint),
                    opt_str_view(value),
                );
                if reconcile {
                    target_reconciled(t, target_view(final(self).default_sink), final(self).nodes@)
                } else {
                    target_view(final(self).default_sink) == t
                }
            }),
            final(self).nodes@ == old(self).nodes@,
            final(self).pending_ports@ == old(self).pending_ports@,
            final(self).port_nodes@ == old(self).port_nodes@,
            final(self).links@ == old(self).links@,
            final(self).clients@ == old(self).clients@,
            final(self).remembered_apps@ == old(self).remembered_apps@,
    {
        let ours = match &self.default_sink {
            Some(t) => t.metadata_id == metadata_id && t.subject == subject,
            None => false,
        };
        let key = match key {
            Some(k) => k,
            None => {
                if ours {
                    self.default_sink = None;
                }
                return ;
            },
        };
        let sink = [
            'd', 'e', 'f', 'a', 'u', 'l', 't', '.', 'a', 'u', 'd', 'i', 'o', '.', 's', 'i', 'n', 'k',
        ];
        assert(sink@ =~= sink_key());
        if !str_eq_chars(key, sink.as_slice()) {
            return ;
        }
        match value {
            Some(v) => {
                self.default_sink = Some(
                    Target {
                        metadata_id,
                        subject,
                        node_id: if subject != 0 {
                            Some(subject)
                        } else {
                            None
                        },
                        name: parse_metadata_name(type_hint, v),
                    },
                );
            },
            None => {
                if !ours {
                    return ;
                }
                self.default_sink = None;
            },
        }
        self.reconcile_targets();
    }
}

/// Reconciling the default sink a second time with the same nodes changes
/// nothing.
pub proof fn law_target_reconcile_settles(
    first: Option<TargetView>,
    once: Option<TargetView>,
    twice: Option<TargetView>,
    nodes: Map<u32, Node>,
)
    requires
        target_reconciled(first, once, nodes),
        target_reconciled(once, twice, nodes),
    ensures
        twice == once,
{
    if once is Some {
        let t = once->0;
        let u = twice->0;
        if t.node_id is Some {
            assert(u.node_id == t.node_id);
        } else if u.node_id is Some {
            let k = u.node_id->0;
            assert(named(nodes, k, t.name->0));
        }
        assert(u == t);
    }
}

} // verus!
