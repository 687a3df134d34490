//! Nodes and ports of the audio graph, read from their announced
//! properties, and the questions that capture asks of one node.
use crate::channel::{parse_position_spec, ChannelPosition};
use crate::order::{sort_by_rank, sorted_by_rank, Ranked};
use crate::props::{NodeProperties, PortProperties};
use crate::routing::StreamIdentity;
use crate::text::{
    chars_from, chars_have_prefix, chars_of, contains_fold, decimal, eq_fold, has_prefix,
    node_token_spec, node_token_text, opt_str, opt_str_view, opt_view, parse_u32,
    parse_u32_spec, parse_u64, parse_u64_spec, push_chars, str_contains_fold, str_eq_chars,
    str_eq_fold, string_from_chars, trim, trim_chars, u64_to_text,
};
use vstd::prelude::*;

verus! {

/// The flow direction of a port.
#[derive(Debug, Clone, Copy, PartialEq, Eq, Structural)]
pub enum PortDirection {
    Input,
    Output,
}

/// The direction that a `port.direction` value names.
pub open spec fn port_direction_spec(value: Option<Seq<char>>) -> Option<PortDirection> {
    match value {
        Some(s) => if eq_fold(s, seq!['i', 'n']) {
            Some(PortDirection::Input)
        } else if eq_fold(s, seq!['o', 'u', 't']) {
            Some(PortDirection::Output)
        } else {
            None
        },
        None => None,
    }
}

/// Reads a `port.direction` value.
pub fn direction(value: Option<&str>) -> (r: Option<PortDirection>)
    ensures
        r == port_direction_spec(opt_str_view(value)),
{
    match value {
        Some(s) => if str_eq_fold(s, ['i', 'n'].as_slice()) {
            Some(PortDirection::Input)
        } else if str_eq_fold(s, ['o', 'u', 't'].as_slice()) {
            Some(PortDirection::Output)
        } else {
            None
        },
        None => None,
    }
}

/// A property value without surrounding whitespace, when anything is left.
pub open spec fn clean_spec(value: Option<Seq<char>>) -> Option<Seq<char>> {
    match value {
        Some(s) => if trim(s).len() > 0 {
            Some(trim(s))
        } else {
            None
        },
        None => None,
    }
}

/// A property value without surrounding whitespace; `None` when nothing
/// is left.
pub fn clean_property(value: Option<&str>) -> (r: Option<String>)
    ensures
        opt_view(r) == clean_spec(opt_str_view(value)),
{
    match value {
        Some(v) => {
            let c = chars_of(v);
            let t = trim_chars(c.as_slice());
            if t.len() > 0 {
                Some(string_from_chars(t.as_slice()))
            } else {
                None
            }
        },
        None => None,
    }
}

/// A property that reads as set: `1`, or `true` in any case.
pub open spec fn bool_property_spec(value: Option<Seq<char>>) -> bool {
    match clean_spec(value) {
        Some(s) => s == seq!['1'] || eq_fold(s, seq!['t', 'r', 'u', 'e']),
        None => false,
    }
}

/// Whether a property reads as set.
pub fn bool_property(value: Option<&str>) -> (r: bool)
    ensures
        r == bool_property_spec(opt_str_view(value)),
{
    let one = ['1'];
    assert(one@ =~= seq!['1']);
    match clean_property(value) {
        Some(v) => str_eq_chars(v.as_str(), one.as_slice()) || str_eq_fold(
            v.as_str(),
            ['t', 'r', 'u', 'e'].as_slice(),
        ),
        None => false,
    }
}

/// A port of the graph.
#[derive(Debug, Clone, Copy, PartialEq, Eq, Structural, Default)]
pub struct Port {
    pub global_id: u32,
    pub local_id: u32,
    pub node_id: u32,
    pub channel: Option<ChannelPosition>,
    pub direction: Option<PortDirection>,
    pub monitor: bool,
}

/// The port that a port announcement describes, when both its port id and
/// its node id read as numbers.
pub open spec fn port_spec(global_id: u32, props: PortProperties) -> Option<Port> {
    match (opt_view(props.port_id), opt_view(props.node_id)) {
        (Some(p), Some(n)) => match (parse_u32_spec(p), parse_u32_spec(n)) {
            (Some(local_id), Some(node_id)) => Some(
                Port {
                    global_id,
                    local_id,
                    node_id,
                    channel: match opt_view(props.channel) {
                        Some(c) => parse_position_spec(c),
                        None => None,
                    },
                    direction: port_direction_spec(opt_view(props.direction)),
                    monitor: bool_property_spec(opt_view(props.monitor)),
                },
            ),
            _ => None,
        },
        _ => None,
    }
}

fn parse_id(value: &Option<String>) -> (r: Option<u32>)
    ensures
        r == match opt_view(*value) {
            Some(v) => parse_u32_spec(v),
            None => None,
        },
{
    match value {
        Some(v) => {
            let c = chars_of(v.as_str());
            parse_u32(c.as_slice())
        },
        None => None,
    }
}

impl Port {
    /// The port that a port announcement describes; `None` when its port
    /// id or node id is missing or not a number.
    pub fn from_properties(global_id: u32, props: &PortProperties) -> (r: Option<Port>)
        ensures
            r == port_spec(global_id, *props),
    {
        let local_id = parse_id(&props.port_id);
        let node_id = parse_id(&props.node_id);
        match (local_id, node_id) {
            (Some(local_id), Some(node_id)) => {
                let channel = match &props.channel {
                    Some(c) => ChannelPosition::parse(c.as_str()),
                    None => None,
                };
                Some(
                    Port {
                        global_id,
                        local_id,
                        node_id,
                        channel,
                        direction: direction(opt_str(&props.direction)),
                        monitor: bool_property(opt_str(&props.monitor)),
                    },
                )
            },
            _ => None,
        }
    }
}

impl Ranked for Port {
    /// Ports go by their local id, then by their global id.
    open spec fn before(&self, other: &Port) -> bool {
        self.local_id < other.local_id || (self.local_id == other.local_id && self.global_id
            < other.global_id)
    }

    fn comes_before(&self, other: &Port) -> (r: bool) {
        self.local_id < other.local_id || (self.local_id == other.local_id && self.global_id
            < other.global_id)
    }

    proof fn before_irreflexive(a: &Port) {
    }

    proof fn before_transitive(a: &Port, b: &Port, c: &Port) {
    }
}

/// What kind of graph object a node is, by its media class.
#[derive(Debug, Clone, Copy, PartialEq, Eq, Structural, Default)]
pub enum NodeKind {
    Playback,
    Sink,
    Source,
    #[default]
    Other,
}

/// The media class of an application's playback stream.
pub open spec fn playback_class() -> Seq<char> {
    seq!['S', 't', 'r', 'e', 'a', 'm', '/', 'O', 'u', 't', 'p', 'u', 't', '/', 'A', 'u', 'd', 'i', 'o']
}

/// The kind that a media class names: a playback stream, a sink, a source
/// or anything else.
pub open spec fn classify_spec(class: Seq<char>) -> NodeKind {
    if eq_fold(class, playback_class()) {
        NodeKind::Playback
    } else if contains_fold(class, seq!['a', 'u', 'd', 'i', 'o', '/', 's', 'i', 'n', 'k']) {
        NodeKind::Sink
    } else if contains_fold(class, seq!['a', 'u', 'd', 'i', 'o', '/', 's', 'o', 'u', 'r', 'c', 'e']) {
        NodeKind::Source
    } else {
        NodeKind::Other
    }
}

/// The text of an optional string slice, or the empty text.
pub open spec fn text_or_empty(value: Option<Seq<char>>) -> Seq<char> {
    match value {
        Some(v) => v,
        None => Seq::empty(),
    }
}

/// Classifies a node by its media class.
pub fn classify(media_class: Option<&str>) -> (r: NodeKind)
    ensures
        r == classify_spec(text_or_empty(opt_str_view(media_class))),
{
    let class: Vec<char> = match media_class {
        Some(c) => chars_of(c),
        None => Vec::new(),
    };
    proof {
        if media_class is None {
            assert(class@ =~= Seq::<char>::empty());
        }
    }
    let class = class.as_slice();
    let playback = [
        'S', 't', 'r', 'e', 'a', 'm', '/', 'O', 'u', 't', 'p', 'u', 't', '/', 'A', 'u', 'd', 'i', 'o',
    ];
    assert(playback@ =~= playback_class());
    if crate::text::chars_eq_fold(class, playback.as_slice()) {
        NodeKind::Playback
    } else if crate::text::chars_contains_fold(
        class,
        ['a', 'u', 'd', 'i', 'o', '/', 's', 'i', 'n', 'k'].as_slice(),
    ) {
        NodeKind::Sink
    } else if crate::text::chars_contains_fold(
        class,
        ['a', 'u', 'd', 'i', 'o', '/', 's', 'o', 'u', 'r', 'c', 'e'].as_slice(),
    ) {
        NodeKind::Source
    } else {
        NodeKind::Other
    }
}

/// The property names from which a stream identity is taken, in order of
/// precedence.
pub open spec fn identity_key(index: int) -> Seq<char> {
    if index == 0 {
        seq!['a', 'p', 'p', 'l', 'i', 'c', 'a', 't', 'i', 'o', 'n', '.', 'i', 'd']
    } else if index == 1 {
        seq!['a', 'p', 'p', 'l', 'i', 'c', 'a', 't', 'i', 'o', 'n', '.', 'n', 'a', 'm', 'e']
    } else if index == 2 {
        seq!['m', 'e', 'd', 'i', 'a', '.', 'n', 'a', 'm', 'e']
    } else {
        seq!['n', 'o', 'd', 'e', '.', 'n', 'a', 'm', 'e']
    }
}

/// The first of the identifying properties that has a value, with its index.
pub open spec fn identity_source(
    application_id: Option<Seq<char>>,
    application_name: Option<Seq<char>>,
    media_name: Option<Seq<char>>,
    node_name: Option<Seq<char>>,
) -> Option<(int, Seq<char>)> {
    match clean_spec(application_id) {
        Some(v) => Some((0, v)),
        None => match clean_spec(application_name) {
            Some(v) => Some((1, v)),
            None => match clean_spec(media_name) {
                Some(v) => Some((2, v)),
                None => match clean_spec(node_name) {
                    Some(v) => Some((3, v)),
                    None => None,
                },
            },
        },
    }
}

/// The prefix that stream media classes share.
pub open spec fn stream_prefix() -> Seq<char> {
    seq!['S', 't', 'r', 'e', 'a', 'm', '/']
}

/// The identity of a stream: `<class>:<property>:<value>`, where the class
/// is the media class without its `Stream/` prefix and the property is the
/// first identifying property with a value.  None without a media class or
/// without such a property.
pub open spec fn identity_spec(
    media_class: Option<Seq<char>>,
    application_id: Option<Seq<char>>,
    application_name: Option<Seq<char>>,
    media_name: Option<Seq<char>>,
    node_name: Option<Seq<char>>,
) -> Option<Seq<char>> {
    match clean_spec(media_class) {
        None => None,
        Some(m) => {
            let stripped = if has_prefix(m, stream_prefix()) {
                m.skip(7)
            } else {
                m
            };
            match clean_spec(Some(stripped)) {
                None => None,
                Some(class) => match identity_source(
                    application_id,
                    application_name,
                    media_name,
                    node_name,
                ) {
                    Some((index, value)) => Some(
                        class + seq![':'] + identity_key(index) + seq![':'] + value,
                    ),
                    None => None,
                },
            }
        },
    }
}

fn identity_key_chars(index: usize) -> (r: Vec<char>)
    ensures
        r@ == identity_key(index as int),
{
    let r = if index == 0 {
        vec!['a', 'p', 'p', 'l', 'i', 'c', 'a', 't', 'i', 'o', 'n', '.', 'i', 'd']
    } else if index == 1 {
        vec!['a', 'p', 'p', 'l', 'i', 'c', 'a', 't', 'i', 'o', 'n', '.', 'n', 'a', 'm', 'e']
    } else if index == 2 {
        vec!['m', 'e', 'd', 'i', 'a', '.', 'n', 'a', 'm', 'e']
    } else {
        vec!['n', 'o', 'd', 'e', '.', 'n', 'a', 'm', 'e']
    };
    assert(r@ =~= identity_key(index as int));
    r
}

/// The stream identity of a node from its properties.
pub fn stream_identity(
    media_class: Option<&str>,
    application_id: Option<&str>,
    application_name: Option<&str>,
    media_name: Option<&str>,
    node_name: Option<&str>,
) -> (r: Option<StreamIdentity>)
    ensures
        match r {
            Some(i) => identity_spec(
                opt_str_view(media_class),
                opt_str_view(application_id),
                opt_str_view(application_name),
                opt_str_view(media_name),
                opt_str_view(node_name),
            ) == Some(i.0@),
            None => identity_spec(
                opt_str_view(media_class),
                opt_str_view(application_id),
                opt_str_view(application_name),
                opt_str_view(media_name),
                opt_str_view(node_name),
            ) is None,
        },
{
    let m = match clean_property(media_class) {
        Some(m) => m,
        None => return None,
    };
    let mc = chars_of(m.as_str());
    let prefix = ['S', 't', 'r', 'e', 'a', 'm', '/'];
    assert(prefix@ =~= stream_prefix());
    let stripped: Vec<char> = if chars_have_prefix(mc.as_slice(), prefix.as_slice()) {
        chars_from(mc.as_slice(), 7)
    } else {
        mc
    };
    let class = trim_chars(stripped.as_slice());
    if class.len() == 0 {
        return None;
    }
    let found: (usize, String) = match clean_property(application_id) {
        Some(v) => (0, v),
        None => match clean_property(application_name) {
            Some(v) => (1, v),
            None => match clean_property(media_name) {
                Some(v) => (2, v),
                None => match clean_property(node_name) {
                    Some(v) => (3, v),
                    None => return None,
                },
            },
        },
    };
    let (index, value) = found;
    let key = identity_key_chars(index);
    let value = chars_of(value.as_str());
    let mut out: Vec<char> = Vec::new();
    push_chars(&mut out, class.as_slice());
    out.push(':');
    push_chars(&mut out, key.as_slice());
    out.push(':');
    push_chars(&mut out, value.as_slice());
    proof {
        assert(out@ =~= class@ + seq![':'] + key@ + seq![':'] + value@);
    }
    Some(StreamIdentity(string_from_chars(out.as_slice())))
}

/// A node of the graph.
#[derive(Clone, Debug, Default, PartialEq, Eq)]
pub struct Node {
    pub id: u32,
    pub serial: Option<u64>,
    pub name: Option<String>,
    pub description: Option<String>,
    pub media_class: Option<String>,
    pub kind: NodeKind,
    pub virtual_node: bool,
    pub device: bool,
    pub client_id: Option<u32>,
    pub identity: Option<StreamIdentity>,
    pub application_name: Option<String>,
    pub ports: Vec<Port>,
}

/// The content of a node.
pub struct NodeView {
    pub id: u32,
    pub serial: Option<u64>,
    pub name: Option<Seq<char>>,
    pub description: Option<Seq<char>>,
    pub media_class: Option<Seq<char>>,
    pub kind: NodeKind,
    pub virtual_node: bool,
    pub device: bool,
    pub client_id: Option<u32>,
    pub identity: Option<Seq<char>>,
    pub application_name: Option<Seq<char>>,
    pub ports: Seq<Port>,
}

/// The text of an optional identity.
pub open spec fn identity_view(i: Option<StreamIdentity>) -> Option<Seq<char>> {
    match i {
        Some(i) => Some(i.0@),
        None => None,
    }
}

impl View for Node {
    type V = NodeView;

    open spec fn view(&self) -> NodeView {
        NodeView {
            id: self.id,
            serial: self.serial,
            name: opt_view(self.name),
            description: opt_view(self.description),
            media_class: opt_view(self.media_class),
            kind: self.kind,
            virtual_node: self.virtual_node,
            device: self.device,
            client_id: self.client_id,
            identity: identity_view(self.identity),
            application_name: opt_view(self.application_name),
            ports: self.ports@,
        }
    }
}

/// The node that a node announcement describes.  Its description falls
/// back to the media name and then to the node name; a `device.id`
/// property marks a device node.
pub open spec fn node_spec(id: u32, p: NodeProperties) -> NodeView {
    let name = clean_spec(opt_view(p.name));
    NodeView {
        id,
        serial: match clean_spec(opt_view(p.serial)) {
            Some(s) => parse_u64_spec(s),
            None => None,
        },
        name,
        description: match clean_spec(opt_view(p.description)) {
            Some(d) => Some(d),
            None => match clean_spec(opt_view(p.media_name)) {
                Some(m) => Some(m),
                None => name,
            },
        },
        media_class: clean_spec(opt_view(p.media_class)),
        kind: classify_spec(text_or_empty(clean_spec(opt_view(p.media_class)))),
        virtual_node: bool_property_spec(opt_view(p.virtual_node)),
        device: clean_spec(opt_view(p.device_id)) is Some,
        client_id: match clean_spec(opt_view(p.client_id)) {
            Some(c) => parse_u32_spec(c),
            None => None,
        },
        identity: identity_spec(
            opt_view(p.media_class),
            opt_view(p.application_id),
            opt_view(p.application_name),
            opt_view(p.media_name),
            opt_view(p.name),
        ),
        application_name: clean_spec(opt_view(p.application_name)),
        ports: Seq::empty(),
    }
}

/// The label by which a node is known: its name, else its description,
/// else `node#<id>`.
pub open spec fn token_spec(n: NodeView) -> Seq<char> {
    match n.name {
        Some(s) => s,
        None => match n.description {
            Some(d) => d,
            None => node_token_spec(n.id as nat),
        },
    }
}

/// The `target.object` that routes a stream to the node: its serial,
/// else its name.
pub open spec fn target_object_spec(n: NodeView) -> Option<Seq<char>> {
    match n.serial {
        Some(s) => Some(decimal(s as nat)),
        None => n.name,
    }
}

/// A hardware endpoint that can be captured: not virtual, not an
/// application, not a playback stream, and marked as a device, a sink or
/// source, an audio class, or a monitor by name or description.
pub open spec fn is_device_spec(n: NodeView) -> bool {
    &&& !n.virtual_node
    &&& n.application_name is None
    &&& n.kind != NodeKind::Playback
    &&& {
        ||| n.device
        ||| n.kind == NodeKind::Sink
        ||| n.kind == NodeKind::Source
        ||| (n.media_class is Some && contains_fold(
            n.media_class->0,
            seq!['a', 'u', 'd', 'i', 'o'],
        ))
        ||| (n.name is Some && contains_fold(n.name->0, seq!['m', 'o', 'n', 'i', 't', 'o', 'r']))
        ||| (n.description is Some && contains_fold(
            n.description->0,
            seq!['m', 'o', 'n', 'i', 't', 'o', 'r'],
        ))
    }
}

/// The ports of one direction, in port order: those whose monitor flag is
/// `prefer_monitor` when there are any, else all of that direction.
pub open spec fn ports_in_spec(ports: Seq<Port>, dir: PortDirection, prefer_monitor: bool) -> Seq<
    Port,
> {
    let preferred = ports.filter(|p: Port| p.direction == Some(dir) && p.monitor == prefer_monitor);
    if preferred.len() > 0 {
        sorted_by_rank(preferred)
    } else {
        sorted_by_rank(ports.filter(|p: Port| p.direction == Some(dir)))
    }
}

/// The ports whose direction is `dir`, and whose monitor flag is `monitor`
/// when one is given.
fn select_ports(ports: &Vec<Port>, dir: PortDirection, monitor: Option<bool>) -> (r: Vec<Port>)
    ensures
        r@ == match monitor {
            Some(m) => ports@.filter(|p: Port| p.direction == Some(dir) && p.monitor == m),
            None => ports@.filter(|p: Port| p.direction == Some(dir)),
        },
{
    let ghost pred = match monitor {
        Some(m) => |p: Port| p.direction == Some(dir) && p.monitor == m,
        None => |p: Port| p.direction == Some(dir),
    };
    let mut out: Vec<Port> = Vec::new();
    let mut i: usize = 0;
    while i < ports.len()
        invariant
            i <= ports@.len(),
            out@ == ports@.take(i as int).filter(pred),
            pred == (match monitor {
                Some(m) => |p: Port| p.direction == Some(dir) && p.monitor == m,
                None => |p: Port| p.direction == Some(dir),
            }),
        decreases ports@.len() - i,
    {
        let p = ports[i];
        proof {
            assert(ports@.take(i + 1).drop_last() =~= ports@.take(i as int));
            reveal_with_fuel(Seq::filter, 1);
        }
        let keep = p.direction == Some(dir) && match monitor {
            Some(m) => p.monitor == m,
            None => true,
        };
        if keep {
            out.push(p);
        }
        i += 1;
    }
    proof {
        assert(ports@.take(ports@.len() as int) =~= ports@);
    }
    out
}

impl Node {
    /// The node that a node announcement describes, without ports.
    pub fn from_properties(id: u32, props: &NodeProperties) -> (r: Node)
        ensures
            r@ == node_spec(id, *props),
    {
        let media_class = clean_property(opt_str(&props.media_class));
        let kind = match &media_class {
            Some(c) => classify(Some(c.as_str())),
            None => classify(None),
        };
        let identity = stream_identity(
            opt_str(&props.media_class),
            opt_str(&props.application_id),
            opt_str(&props.application_name),
            opt_str(&props.media_name),
            opt_str(&props.name),
        );
        let name = clean_property(opt_str(&props.name));
        let description = match clean_property(opt_str(&props.description)) {
            Some(d) => Some(d),
            None => match clean_property(opt_str(&props.media_name)) {
                Some(m) => Some(m),
                None => crate::text::copy_opt_string(&name),
            },
        };
        let serial = match clean_property(opt_str(&props.serial)) {
            Some(s) => {
                let c = chars_of(s.as_str());
                parse_u64(c.as_slice())
            },
            None => None,
        };
        let client_id = match clean_property(opt_str(&props.client_id)) {
            Some(s) => {
                let c = chars_of(s.as_str());
                parse_u32(c.as_slice())
            },
            None => None,
        };
        let device = clean_property(opt_str(&props.device_id)).is_some();
        Node {
            id,
            serial,
            name,
            description,
            media_class,
            kind,
            virtual_node: bool_property(opt_str(&props.virtual_node)),
            device,
            client_id,
            identity,
            application_name: clean_property(opt_str(&props.application_name)),
            ports: Vec::new(),
        }
    }

    /// The label by which the node is known: its name, else its
    /// description, else `node#<id>`.
    pub fn token(&self) -> (r: String)
        ensures
            r@ == token_spec(self@),
    {
        match &self.name {
            Some(n) => n.clone(),
            None => match &self.description {
                Some(d) => d.clone(),
                None => node_token_text(self.id),
            },
        }
    }

    /// The `target.object` that routes a stream to this node.
    pub fn target_object(&self) -> (r: Option<String>)
        ensures
            opt_view(r) == target_object_spec(self@),
    {
        match self.serial {
            Some(s) => Some(u64_to_text(s)),
            None => crate::text::copy_opt_string(&self.name),
        }
    }

    /// Whether the node is a capturable hardware endpoint.
    pub fn is_device(&self) -> (r: bool)
        ensures
            r == is_device_spec(self@),
    {
        if self.virtual_node || self.application_name.is_some() || self.kind == NodeKind::Playback {
            return false;
        }
        self.device || self.kind == NodeKind::Sink || self.kind == NodeKind::Source || match &self.media_class {
            Some(c) => str_contains_fold(c.as_str(), ['a', 'u', 'd', 'i', 'o'].as_slice()),
            None => false,
        } || match &self.name {
            Some(c) => str_contains_fold(c.as_str(), ['m', 'o', 'n', 'i', 't', 'o', 'r'].as_slice()),
            None => false,
        } || match &self.description {
            Some(c) => str_contains_fold(c.as_str(), ['m', 'o', 'n', 'i', 't', 'o', 'r'].as_slice()),
            None => false,
        }
    }

    /// The output ports that a capture reads, in port order; a sink offers
    /// its monitor ports.
    pub fn output_ports(&self) -> (r: Vec<Port>)
        ensures
            r@ == ports_in_spec(self.ports@, PortDirection::Output, self.kind == NodeKind::Sink),
    {
        self.ports_in(PortDirection::Output, self.kind == NodeKind::Sink)
    }

    /// The input ports, in port order.
    pub fn input_ports(&self) -> (r: Vec<Port>)
        ensures
            r@ == ports_in_spec(self.ports@, PortDirection::Input, false),
    {
        self.ports_in(PortDirection::Input, false)
    }

    /// The ports of one direction, preferring those whose monitor flag is
    /// `prefer_monitor`, in port order.
    pub fn ports_in(&self, dir: PortDirection, prefer_monitor: bool) -> (r: Vec<Port>)
        ensures
            r@ == ports_in_spec(self.ports@, dir, prefer_monitor),
    {
        let preferred = select_ports(&self.ports, dir, Some(prefer_monitor));
        if preferred.len() > 0 {
            sort_by_rank(preferred)
        } else {
            sort_by_rank(select_ports(&self.ports, dir, None))
        }
    }
}

} // verus!
