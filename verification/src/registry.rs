//! The registry model: nodes, ports and default targets that PipeWire
//! announces, and the queries that routing asks of a snapshot.
use crate::props::{NodeProperties, PortProperties};
use crate::search::{first_index, lemma_first_index_at, lemma_first_index_none, picks};
use crate::text::{
    ascii_fold,
    chars_of, contains_fold, copy_opt_string, decimal, eq_fold, node_token_spec,
    node_token_text, opt_str_view, opt_text_eq, opt_view, parse_u32, parse_u32_spec,
    str_contains_fold, str_eq_chars, str_eq_fold, trim, trim_chars, string_from_chars,
    u32_to_text, chars_eq_fold, opt_str,
};
use std::collections::HashMap;
use vstd::std_specs::hash::spec_hash_map_iter;
use vstd::std_specs::iter::IteratorSpec;
use vstd::prelude::*;

verus! {

/// The name of the virtual sink that OpenMeters itself publishes.
pub open spec fn virtual_sink_name() -> Seq<char> {
    seq!['o', 'p', 'e', 'n', 'm', 'e', 't', 'e', 'r', 's', '.', 's', 'i', 'n', 'k']
}

/// A speaker channel as the registry names it.
#[derive(Debug, Clone, Copy, PartialEq, Eq, Structural, Hash)]
pub enum AudioChannel {
    FrontLeft,
    FrontRight,
    FrontCenter,
    LowFrequency,
    RearLeft,
    RearRight,
    SideLeft,
    SideRight,
    Mono,
}

/// The short name of a channel.
pub open spec fn audio_channel_label(c: AudioChannel) -> Seq<char> {
    match c {
        AudioChannel::FrontLeft => seq!['F', 'L'],
        AudioChannel::FrontRight => seq!['F', 'R'],
        AudioChannel::FrontCenter => seq!['F', 'C'],
        AudioChannel::LowFrequency => seq!['L', 'F', 'E'],
        AudioChannel::RearLeft => seq!['R', 'L'],
        AudioChannel::RearRight => seq!['R', 'R'],
        AudioChannel::SideLeft => seq!['S', 'L'],
        AudioChannel::SideRight => seq!['S', 'R'],
        AudioChannel::Mono => seq!['M', 'O', 'N', 'O'],
    }
}

/// All channels, in the order in which names are tried.
pub open spec fn audio_channels_all() -> Seq<AudioChannel> {
    seq![
        AudioChannel::FrontLeft,
        AudioChannel::FrontRight,
        AudioChannel::FrontCenter,
        AudioChannel::LowFrequency,
        AudioChannel::RearLeft,
        AudioChannel::RearRight,
        AudioChannel::SideLeft,
        AudioChannel::SideRight,
        AudioChannel::Mono,
    ]
}

/// The channel whose short name `value` is, ignoring ASCII case.
pub open spec fn parse_audio_channel_spec(value: Seq<char>) -> Option<AudioChannel> {
    if eq_fold(value, seq!['F', 'L']) {
        Some(AudioChannel::FrontLeft)
    } else if eq_fold(value, seq!['F', 'R']) {
        Some(AudioChannel::FrontRight)
    } else if eq_fold(value, seq!['F', 'C']) {
        Some(AudioChannel::FrontCenter)
    } else if eq_fold(value, seq!['L', 'F', 'E']) {
        Some(AudioChannel::LowFrequency)
    } else if eq_fold(value, seq!['R', 'L']) {
        Some(AudioChannel::RearLeft)
    } else if eq_fold(value, seq!['R', 'R']) {
        Some(AudioChannel::RearRight)
    } else if eq_fold(value, seq!['S', 'L']) {
        Some(AudioChannel::SideLeft)
    } else if eq_fold(value, seq!['S', 'R']) {
        Some(AudioChannel::SideRight)
    } else if eq_fold(value, seq!['M', 'O', 'N', 'O']) {
        Some(AudioChannel::Mono)
    } else {
        None
    }
}

impl AudioChannel {
    /// The short name of the channel.
    pub fn label(self) -> (r: &'static str)
        ensures
            r@ == audio_channel_label(self),
    {
        proof {
            reveal_strlit("FL");
            reveal_strlit("FR");
            reveal_strlit("FC");
            reveal_strlit("LFE");
            reveal_strlit("RL");
            reveal_strlit("RR");
            reveal_strlit("SL");
            reveal_strlit("SR");
            reveal_strlit("MONO");
        }
        match self {
            AudioChannel::FrontLeft => "FL",
            AudioChannel::FrontRight => "FR",
            AudioChannel::FrontCenter => "FC",
            AudioChannel::LowFrequency => "LFE",
            AudioChannel::RearLeft => "RL",
            AudioChannel::RearRight => "RR",
            AudioChannel::SideLeft => "SL",
            AudioChannel::SideRight => "SR",
            AudioChannel::Mono => "MONO",
        }
    }

    /// Reads a channel name, ignoring ASCII case.
    pub fn parse(value: &str) -> (r: Option<AudioChannel>)
        ensures
            r == parse_audio_channel_spec(value@),
    {
        let v = chars_of(value);
        let v = v.as_slice();
        if chars_eq_fold(v, ['F', 'L'].as_slice()) {
            Some(AudioChannel::FrontLeft)
        } else if chars_eq_fold(v, ['F', 'R'].as_slice()) {
            Some(AudioChannel::FrontRight)
        } else if chars_eq_fold(v, ['F', 'C'].as_slice()) {
            Some(AudioChannel::FrontCenter)
        } else if chars_eq_fold(v, ['L', 'F', 'E'].as_slice()) {
            Some(AudioChannel::LowFrequency)
        } else if chars_eq_fold(v, ['R', 'L'].as_slice()) {
            Some(AudioChannel::RearLeft)
        } else if chars_eq_fold(v, ['R', 'R'].as_slice()) {
            Some(AudioChannel::RearRight)
        } else if chars_eq_fold(v, ['S', 'L'].as_slice()) {
            Some(AudioChannel::SideLeft)
        } else if chars_eq_fold(v, ['S', 'R'].as_slice()) {
            Some(AudioChannel::SideRight)
        } else if chars_eq_fold(v, ['M', 'O', 'N', 'O'].as_slice()) {
            Some(AudioChannel::Mono)
        } else {
            None
        }
    }
}

/// The flow direction of a node or port.
#[derive(Debug, Clone, Copy, PartialEq, Eq, Structural, Default)]
pub enum Direction {
    Input,
    Output,
    #[default]
    Unknown,
}

/// The direction that a `port.direction` value names.
pub open spec fn direction_spec(value: Option<Seq<char>>) -> Direction {
    match value {
        Some(s) => if eq_fold(s, seq!['i', 'n']) {
            Direction::Input
        } else if eq_fold(s, seq!['o', 'u', 't']) {
            Direction::Output
        } else {
            Direction::Unknown
        },
        None => Direction::Unknown,
    }
}

/// Reads a `port.direction` value.
pub fn pipewire_direction(value: Option<&str>) -> (r: Direction)
    ensures
        r == direction_spec(opt_str_view(value)),
{
    match value {
        Some(s) => if str_eq_fold(s, ['i', 'n'].as_slice()) {
            Direction::Input
        } else if str_eq_fold(s, ['o', 'u', 't'].as_slice()) {
            Direction::Output
        } else {
            Direction::Unknown
        },
        None => Direction::Unknown,
    }
}

/// `value` is present and contains `pattern`, ignoring ASCII case.
pub open spec fn opt_contains(value: Option<Seq<char>>, pattern: Seq<char>) -> bool {
    value is Some && contains_fold(value->0, pattern)
}

fn opt_contains_exec(value: &Option<String>, pattern: &[char]) -> (r: bool)
    ensures
        r == opt_contains(opt_view(*value), pattern@),
{
    match value {
        Some(s) => str_contains_fold(s.as_str(), pattern),
        None => false,
    }
}

/// The direction of a node: its media class decides when it mentions a
/// sink, output, source or input, its port direction otherwise.
pub open spec fn node_direction_spec(
    media_class: Option<Seq<char>>,
    port_direction: Option<Seq<char>>,
) -> Direction {
    let class = match media_class {
        Some(c) => c,
        None => Seq::empty(),
    };
    if contains_fold(class, seq!['s', 'i', 'n', 'k']) || contains_fold(
        class,
        seq!['o', 'u', 't', 'p', 'u', 't'],
    ) {
        Direction::Output
    } else if contains_fold(class, seq!['s', 'o', 'u', 'r', 'c', 'e']) || contains_fold(
        class,
        seq!['i', 'n', 'p', 'u', 't'],
    ) {
        Direction::Input
    } else {
        direction_spec(port_direction)
    }
}

/// The direction of a node from its media class and port direction.
pub fn derive_node_direction(media_class: Option<&str>, port_direction: Option<&str>) -> (r:
    Direction)
    ensures
        r == node_direction_spec(opt_str_view(media_class), opt_str_view(port_direction)),
{
    let class: Vec<char> = match media_class {
        Some(c) => chars_of(c),
        None => Vec::new(),
    };
    proof {
        if media_class is None {
            assert(class@ =~= Seq::<char>::empty());
        }
    }
    let class = class.as_slice();
    if crate::text::chars_contains_fold(class, ['s', 'i', 'n', 'k'].as_slice())
        || crate::text::chars_contains_fold(class, ['o', 'u', 't', 'p', 'u', 't'].as_slice()) {
        Direction::Output
    } else if crate::text::chars_contains_fold(class, ['s', 'o', 'u', 'r', 'c', 'e'].as_slice())
        || crate::text::chars_contains_fold(class, ['i', 'n', 'p', 'u', 't'].as_slice()) {
        Direction::Input
    } else {
        pipewire_direction(port_direction)
    }
}

/// A port of the graph as the registry records it.
#[derive(Clone, Copy, Debug, Default, PartialEq, Eq, Structural)]
pub struct GraphPort {
    pub global_id: u32,
    pub port_id: u32,
    pub node_id: u32,
    pub channel: Option<AudioChannel>,
    pub direction: Direction,
    pub is_monitor: bool,
}

/// `port.monitor` is set: `true` in any case, or `1`.
pub open spec fn monitor_flag_spec(value: Option<Seq<char>>) -> bool {
    match value {
        Some(v) => eq_fold(v, seq!['t', 'r', 'u', 'e']) || v == seq!['1'],
        None => false,
    }
}

/// The port that a set of port properties describes, when both ids read
/// as numbers.
pub open spec fn graph_port_spec(global_id: u32, props_port_id: Option<Seq<char>>, props_node_id: Option<
    Seq<char>,
>, direction: Option<Seq<char>>, channel: Option<Seq<char>>, monitor: Option<Seq<char>>) -> Option<
    GraphPort,
> {
    match (props_port_id, props_node_id) {
        (Some(p), Some(n)) => match (parse_u32_spec(p), parse_u32_spec(n)) {
            (Some(port_id), Some(node_id)) => Some(
                GraphPort {
                    global_id,
                    port_id,
                    node_id,
                    direction: direction_spec(direction),
                    channel: match channel {
                        Some(c) => parse_audio_channel_spec(c),
                        None => None,
                    },
                    is_monitor: monitor_flag_spec(monitor),
                },
            ),
            _ => None,
        },
        _ => None,
    }
}

fn parse_opt_u32(value: &Option<String>) -> (r: Option<u32>)
    ensures
        r == match opt_view(*value) {
            Some(v) => parse_u32_spec(v),
            None => None,
        },
{
    match value {
        Some(v) => {
            let c = chars_of(v.as_str());
            parse_u32(c.as_slice())
        },
        None => None,
    }
}

fn monitor_flag(value: &Option<String>) -> (r: bool)
    ensures
        r == monitor_flag_spec(opt_view(*value)),
{
    let one = ['1'];
    assert(one@ =~= seq!['1']);
    match value {
        Some(v) => str_eq_fold(v.as_str(), ['t', 'r', 'u', 'e'].as_slice()) || str_eq_chars(
            v.as_str(),
            one.as_slice(),
        ),
        None => false,
    }
}

impl GraphPort {
    /// The port that a port announcement describes; `None` when its port
    /// or node id is missing or not a number.
    pub fn from_properties(global_id: u32, props: &PortProperties) -> (r: Option<GraphPort>)
        ensures
            r == graph_port_spec(
                global_id,
                opt_view(props.port_id),
                opt_view(props.node_id),
                opt_view(props.direction),
                opt_view(props.channel),
                opt_view(props.monitor),
            ),
    {
        let port_id = parse_opt_u32(&props.port_id);
        let node_id = parse_opt_u32(&props.node_id);
        match (port_id, node_id) {
            (Some(port_id), Some(node_id)) => {
                let channel = match &props.channel {
                    Some(c) => AudioChannel::parse(c.as_str()),
                    None => None,
                };
                Some(
                    GraphPort {
                        global_id,
                        port_id,
                        node_id,
                        direction: pipewire_direction(opt_str(&props.direction)),
                        channel,
                        is_monitor: monitor_flag(&props.monitor),
                    },
                )
            },
            _ => None,
        }
    }
}

/// A default target that PipeWire metadata names.
#[derive(Clone, Debug, Default)]
pub struct DefaultTarget {
    pub metadata_id: Option<u32>,
    pub node_id: Option<u32>,
    pub name: Option<String>,
    pub type_hint: Option<String>,
}

/// The content of a default target.
pub struct DefaultTargetView {
    pub metadata_id: Option<u32>,
    pub node_id: Option<u32>,
    pub name: Option<Seq<char>>,
    pub type_hint: Option<Seq<char>>,
}

impl View for DefaultTarget {
    type V = DefaultTargetView;

    open spec fn view(&self) -> DefaultTargetView {
        DefaultTargetView {
            metadata_id: self.metadata_id,
            node_id: self.node_id,
            name: opt_view(self.name),
            type_hint: opt_view(self.type_hint),
        }
    }
}

/// The content of an optional default target.
pub open spec fn opt_target_view(t: Option<DefaultTarget>) -> Option<DefaultTargetView> {
    match t {
        Some(t) => Some(t@),
        None => None,
    }
}

impl DefaultTarget {
    /// A target read from metadata: subject `0` names no node.
    pub fn new(metadata_id: u32, subject: u32, type_hint: Option<&str>, name: Option<&str>) -> (r:
        DefaultTarget)
        ensures
            r@ == (DefaultTargetView {
                metadata_id: Some(metadata_id),
                node_id: if subject != 0 {
                    Some(subject)
                } else {
                    None
                },
                name: opt_str_view(name),
                type_hint: opt_str_view(type_hint),
            }),
    {
        DefaultTarget {
            metadata_id: Some(metadata_id),
            node_id: if subject != 0 {
                Some(subject)
            } else {
                None
            },
            type_hint: crate::text::opt_to_owned(type_hint),
            name: crate::text::opt_to_owned(name),
        }
    }

    /// A copy with the same content.
    pub fn duplicate(&self) -> (r: DefaultTarget)
        ensures
            r@ == self@,
    {
        DefaultTarget {
            metadata_id: self.metadata_id,
            node_id: self.node_id,
            name: copy_opt_string(&self.name),
            type_hint: copy_opt_string(&self.type_hint),
        }
    }

    /// Whether both targets hold the same content.
    pub fn same_as(&self, other: &DefaultTarget) -> (r: bool)
        ensures
            r == (self@ == other@),
    {
        self.metadata_id == other.metadata_id && self.node_id == other.node_id && opt_text_eq(
            &self.name,
            &other.name,
        ) && opt_text_eq(&self.type_hint, &other.type_hint)
    }
}

/// What `serde_json` reads from `text` when a string field `key` is
/// looked up: the kind of JSON value (`0` not JSON, `1` a JSON string,
/// `2` a JSON object, `3` any other value) and the string found (the
/// string itself, or the object's field `key` when it is a string).
pub uninterp spec fn json_string_field(text: Seq<char>, key: Seq<char>) -> (u8, Option<Seq<char>>);

/// Parses `text` with `serde_json::from_str::<serde_json::Value>` and,
/// for an object, reads its field `key` with `Map::get` and
/// `Value::as_str`.  The result is the value named
/// `json_string_field(text, key)`; the wrapper's own arms make the kind
/// `1` carry the string and the kinds `0` and `3` carry none.
#[verifier::external_body]
fn json_lookup_string(text: &str, key: &str) -> (r: (u8, Option<String>))
    ensures
        (r.0, opt_view(r.1)) == json_string_field(text@, key@),
        r.0 <= 3,
        r.0 == 1 ==> r.1 is Some,
        r.0 == 0 || r.0 == 3 ==> r.1 is None,
{
    match serde_json::from_str::<serde_json::Value>(text) {
        Ok(serde_json::Value::Object(map)) => (
            2,
            map.get(key).and_then(serde_json::Value::as_str).map(str::to_owned),
        ),
        Ok(serde_json::Value::String(value)) => (1, Some(value)),
        Ok(serde_json::Value::Null) => (3, None),
        Ok(serde_json::Value::Bool(_)) => (3, None),
        Ok(serde_json::Value::Number(_)) => (3, None),
        Ok(serde_json::Value::Array(_)) => (3, None),
        Err(_) => (0, None),
    }
}

/// The type hint that marks a JSON metadata value.
pub open spec fn json_hint() -> Seq<char> {
    seq!['S', 'p', 'a', ':', 'S', 't', 'r', 'i', 'n', 'g', ':', 'J', 'S', 'O', 'N']
}

/// The node name that a metadata value gives.  A plain value is its
/// trimmed text, unless empty.  A JSON value (marked by its type hint or
/// by a leading `{`) gives its `name` field when it is an object, or its
/// string when it is a string.
pub open spec fn metadata_name_spec(type_hint: Option<Seq<char>>, value: Seq<char>) -> Option<
    Seq<char>,
> {
    let t = trim(value);
    let json = (type_hint is Some && eq_fold(type_hint->0, json_hint())) || (t.len() > 0 && t[0]
        == '{');
    if !json {
        if t.len() > 0 {
            Some(t)
        } else {
            None
        }
    } else {
        let found = json_string_field(t, seq!['n', 'a', 'm', 'e']);
        if found.0 == 1 || found.0 == 2 {
            found.1
        } else {
            None
        }
    }
}

/// The node name that a default-target metadata value gives.
pub fn parse_metadata_name(type_hint: Option<&str>, value: &str) -> (r: Option<String>)
    ensures
        opt_view(r) == metadata_name_spec(opt_str_view(type_hint), value@),
{
    let raw = chars_of(value);
    let t = trim_chars(raw.as_slice());
    let hint = [
        'S', 'p', 'a', ':', 'S', 't', 'r', 'i', 'n', 'g', ':', 'J', 'S', 'O', 'N',
    ];
    assert(hint@ =~= json_hint());
    let hinted = match type_hint {
        Some(h) => str_eq_fold(h, hint.as_slice()),
        None => false,
    };
    let json = hinted || (t.len() > 0 && t[0] == '{');
    if !json {
        if t.len() > 0 {
            Some(string_from_chars(t.as_slice()))
        } else {
            None
        }
    } else {
        let text = string_from_chars(t.as_slice());
        let key = ['n', 'a', 'm', 'e'];
        let key = string_from_chars(key.as_slice());
        proof {
            assert(key@ =~= seq!['n', 'a', 'm', 'e']);
        }
        let found = json_lookup_string(text.as_str(), key.as_str());
        if found.0 == 1 || found.0 == 2 {
            found.1
        } else {
            None
        }
    }
}

/// The text of `object_serial` without surrounding whitespace when that
/// is not empty, the node id's decimal text otherwise; and the node id's
/// decimal text.
pub open spec fn target_metadata_spec(object_serial: Option<Seq<char>>, node_id: u32) -> (
    Seq<char>,
    Seq<char>,
) {
    let id = decimal(node_id as nat);
    let target = match object_serial {
        Some(s) => if trim(s).len() > 0 {
            trim(s)
        } else {
            id
        },
        None => id,
    };
    (target, id)
}

/// The `target.object` and `target.node` values that route a stream to
/// a node.
pub fn format_target_metadata(object_serial: Option<&str>, node_id: u32) -> (r: (String, String))
    ensures
        (r.0@, r.1@) == target_metadata_spec(opt_str_view(object_serial), node_id),
{
    let target = match object_serial {
        Some(s) => {
            let c = chars_of(s);
            let t = trim_chars(c.as_slice());
            if t.len() > 0 {
                string_from_chars(t.as_slice())
            } else {
                u32_to_text(node_id)
            }
        },
        None => u32_to_text(node_id),
    };
    (target, u32_to_text(node_id))
}

/// The metadata object names that routing prefers.
pub open spec fn preferred_metadata_name(name: Seq<char>) -> bool {
    eq_fold(name, seq!['s', 'e', 't', 't', 'i', 'n', 'g', 's']) || eq_fold(
        name,
        seq!['d', 'e', 'f', 'a', 'u', 'l', 't'],
    )
}

/// Whether a newly announced metadata object becomes the one that routes
/// applications: a preferred one always does, another only while none is
/// bound.
pub fn adopts_routing_metadata(name: Option<&str>, routing_bound: bool) -> (r: bool)
    ensures
        r == ((name is Some && preferred_metadata_name(name->0@)) || !routing_bound),
{
    let settings = ['s', 'e', 't', 't', 'i', 'n', 'g', 's'];
    let default = ['d', 'e', 'f', 'a', 'u', 'l', 't'];
    assert(settings@ =~= seq!['s', 'e', 't', 't', 'i', 'n', 'g', 's']);
    assert(default@ =~= seq!['d', 'e', 'f', 'a', 'u', 'l', 't']);
    let preferred = match name {
        Some(n) => str_eq_fold(n, settings.as_slice()) || str_eq_fold(n, default.as_slice()),
        None => false,
    };
    preferred || !routing_bound
}

/// A link between an output port and an input port.
#[derive(Debug, Clone, Copy, PartialEq, Eq, Structural, Hash, PartialOrd, Ord)]
pub struct LinkSpec {
    pub output_node: u32,
    pub output_port: u32,
    pub input_node: u32,
    pub input_port: u32,
}

/// A request to the registry thread.
#[derive(Debug, Clone)]
pub enum RegistryCommand {
    SetLinks(Vec<LinkSpec>),
    RouteNode { subject: u32, target: Option<(String, String)> },
    Shutdown,
}

/// The flow direction of a node.
pub type NodeDirection = Direction;

/// A device as the registry announces it, with its properties.
#[derive(Clone, Debug, Default, PartialEq)]
pub struct DeviceInfo {
    pub id: u32,
    pub name: Option<String>,
    pub description: Option<String>,
    pub properties: HashMap<String, String>,
}

/// A node of the graph as the registry records it.
#[derive(Clone, Debug, Default)]
pub struct NodeInfo {
    pub id: u32,
    pub name: Option<String>,
    pub description: Option<String>,
    pub media_class: Option<String>,
    pub direction: Direction,
    pub is_virtual: bool,
    pub app_name: Option<String>,
    pub object_serial: Option<String>,
    pub ports: Vec<GraphPort>,
}

/// The content of a node.
pub struct NodeInfoView {
    pub id: u32,
    pub name: Option<Seq<char>>,
    pub description: Option<Seq<char>>,
    pub media_class: Option<Seq<char>>,
    pub direction: Direction,
    pub is_virtual: bool,
    pub app_name: Option<Seq<char>>,
    pub object_serial: Option<Seq<char>>,
    pub ports: Seq<GraphPort>,
}

impl View for NodeInfo {
    type V = NodeInfoView;

    open spec fn view(&self) -> NodeInfoView {
        NodeInfoView {
            id: self.id,
            name: opt_view(self.name),
            description: opt_view(self.description),
            media_class: opt_view(self.media_class),
            direction: self.direction,
            is_virtual: self.is_virtual,
            app_name: opt_view(self.app_name),
            object_serial: opt_view(self.object_serial),
            ports: self.ports@,
        }
    }
}

/// The content of a list of nodes.
pub open spec fn nodes_view(nodes: Seq<NodeInfo>) -> Seq<NodeInfoView> {
    nodes.map_values(|n: NodeInfo| n@)
}

/// The node that a node announcement describes.  The description falls
/// back to the media name and then the node name; a node is virtual when
/// `node.virtual` is `true`, or, when that is absent, when it is our own
/// virtual sink.
pub open spec fn node_info_spec(id: u32, p: NodeProperties) -> NodeInfoView {
    let name = opt_view(p.name);
    let description = match opt_view(p.description) {
        Some(d) => Some(d),
        None => match opt_view(p.media_name) {
            Some(m) => Some(m),
            None => name,
        },
    };
    NodeInfoView {
        id,
        name,
        description,
        media_class: opt_view(p.media_class),
        direction: node_direction_spec(opt_view(p.media_class), opt_view(p.port_direction)),
        is_virtual: match opt_view(p.virtual_node) {
            Some(v) => v == seq!['t', 'r', 'u', 'e'],
            None => name == Some(virtual_sink_name()),
        },
        app_name: opt_view(p.application_name),
        object_serial: opt_view(p.serial),
        ports: Seq::empty(),
    }
}

/// The token by which a node is offered as a capture device: its name,
/// its description, or `node#<id>`.
pub open spec fn capture_token_spec(n: NodeInfoView) -> Seq<char> {
    match n.name {
        Some(s) => s,
        None => match n.description {
            Some(d) => d,
            None => node_token_spec(n.id as nat),
        },
    }
}

/// The node's name or description equals `label`, ignoring ASCII case.
pub open spec fn matches_label_spec(n: NodeInfoView, label: Seq<char>) -> bool {
    (n.name is Some && eq_fold(n.name->0, label)) || (n.description is Some && eq_fold(
        n.description->0,
        label,
    ))
}

/// A node that can be captured as a device: not virtual, not an
/// application, and an audio node or a monitor.
pub open spec fn capture_candidate_spec(n: NodeInfoView) -> bool {
    &&& !n.is_virtual
    &&& n.app_name is None
    &&& (opt_contains(n.media_class, seq!['a', 'u', 'd', 'i', 'o']) || opt_contains(
        n.name,
        seq!['m', 'o', 'n', 'i', 't', 'o', 'r'],
    ) || opt_contains(n.description, seq!['m', 'o', 'n', 'i', 't', 'o', 'r']))
}

/// An application that plays audio.
pub open spec fn audio_application_output_spec(n: NodeInfoView) -> bool {
    &&& n.direction == Direction::Output
    &&& opt_contains(n.media_class, seq!['a', 'u', 'd', 'i', 'o'])
    &&& n.app_name is Some
}

/// An application other than `sink` that plays audio.
pub open spec fn should_route_spec(n: NodeInfoView, sink: NodeInfoView) -> bool {
    n.id != sink.id && audio_application_output_spec(n)
}

/// The ports of one direction preferred for a loopback: the ports whose
/// monitor flag is `prefer_monitor`, else all ports of that direction,
/// else all ports.
pub open spec fn loopback_ports_spec(ports: Seq<GraphPort>, dir: Direction, prefer_monitor: bool) -> Seq<
    GraphPort,
> {
    let preferred = ports.filter(|p: GraphPort| p.direction == dir && p.is_monitor == prefer_monitor);
    let directed = ports.filter(|p: GraphPort| p.direction == dir);
    if preferred.len() > 0 {
        preferred
    } else if directed.len() > 0 {
        directed
    } else {
        ports
    }
}

/// The ports of `ports` with direction `dir`, and with monitor flag
/// `monitor` when one is given.
fn filter_ports(ports: &Vec<GraphPort>, dir: Direction, monitor: Option<bool>) -> (r: Vec<GraphPort>)
    ensures
        r@ == match monitor {
            Some(m) => ports@.filter(|p: GraphPort| p.direction == dir && p.is_monitor == m),
            None => ports@.filter(|p: GraphPort| p.direction == dir),
        },
{
    let ghost pred = match monitor {
        Some(m) => |p: GraphPort| p.direction == dir && p.is_monitor == m,
        None => |p: GraphPort| p.direction == dir,
    };
    let mut out: Vec<GraphPort> = Vec::new();
    let mut i: usize = 0;
    while i < ports.len()
        invariant
            i <= ports@.len(),
            out@ == ports@.take(i as int).filter(pred),
            pred == (match monitor {
                Some(m) => |p: GraphPort| p.direction == dir && p.is_monitor == m,
                None => |p: GraphPort| p.direction == dir,
            }),
        decreases ports@.len() - i,
    {
        let p = ports[i];
        proof {
            assert(ports@.take(i + 1).drop_last() =~= ports@.take(i as int));
            reveal_with_fuel(Seq::filter, 1);
        }
        let keep = p.direction == dir && match monitor {
            Some(m) => p.is_monitor == m,
            None => true,
        };
        if keep {
            out.push(p);
        }
        i += 1;
    }
    proof {
        assert(ports@.take(ports@.len() as int) =~= ports@);
    }
    out
}

/// A copy of a list of ports.
fn copy_ports(ports: &Vec<GraphPort>) -> (r: Vec<GraphPort>)
    ensures
        r@ == ports@,
{
    let mut out: Vec<GraphPort> = Vec::new();
    let mut i: usize = 0;
    while i < ports.len()
        invariant
            i <= ports@.len(),
            out@ == ports@.take(i as int),
        decreases ports@.len() - i,
    {
        out.push(ports[i]);
        proof {
            assert(ports@.take(i + 1) =~= ports@.take(i as int).push(ports@[i as int]));
        }
        i += 1;
    }
    proof {
        assert(ports@.take(ports@.len() as int) =~= ports@);
    }
    out
}

impl NodeInfo {
    /// The node that a node announcement describes.
    pub fn from_properties(id: u32, props: &NodeProperties) -> (r: NodeInfo)
        ensures
            r@ == node_info_spec(id, *props),
    {
        let name = copy_opt_string(&props.name);
        let description = match &props.description {
            Some(d) => Some(d.clone()),
            None => match &props.media_name {
                Some(m) => Some(m.clone()),
                None => copy_opt_string(&name),
            },
        };
        let sink_name = [
            'o', 'p', 'e', 'n', 'm', 'e', 't', 'e', 'r', 's', '.', 's', 'i', 'n', 'k',
        ];
        assert(sink_name@ =~= virtual_sink_name());
        let t = ['t', 'r', 'u', 'e'];
        assert(t@ =~= seq!['t', 'r', 'u', 'e']);
        let is_virtual = match &props.virtual_node {
            Some(v) => str_eq_chars(v.as_str(), t.as_slice()),
            None => match &name {
                Some(n) => str_eq_chars(n.as_str(), sink_name.as_slice()),
                None => false,
            },
        };
        let ports: Vec<GraphPort> = Vec::new();
        let r = NodeInfo {
            id,
            direction: derive_node_direction(
                opt_str(&props.media_class),
                opt_str(&props.port_direction),
            ),
            name,
            description,
            media_class: copy_opt_string(&props.media_class),
            is_virtual,
            app_name: copy_opt_string(&props.application_name),
            object_serial: copy_opt_string(&props.serial),
            ports,
        };
        assert(r.ports@ =~= Seq::<GraphPort>::empty());
        r
    }

    /// A copy with the same content.
    pub fn duplicate(&self) -> (r: NodeInfo)
        ensures
            r@ == self@,
    {
        NodeInfo {
            id: self.id,
            name: copy_opt_string(&self.name),
            description: copy_opt_string(&self.description),
            media_class: copy_opt_string(&self.media_class),
            direction: self.direction,
            is_virtual: self.is_virtual,
            app_name: copy_opt_string(&self.app_name),
            object_serial: copy_opt_string(&self.object_serial),
            ports: copy_ports(&self.ports),
        }
    }

    /// Whether both nodes hold the same content.
    pub fn same_as(&self, other: &NodeInfo) -> (r: bool)
        ensures
            r == (self@ == other@),
    {
        if !(self.id == other.id && opt_text_eq(&self.name, &other.name) && opt_text_eq(
            &self.description,
            &other.description,
        ) && opt_text_eq(&self.media_class, &other.media_class) && self.direction
            == other.direction && self.is_virtual == other.is_virtual && opt_text_eq(
            &self.app_name,
            &other.app_name,
        ) && opt_text_eq(&self.object_serial, &other.object_serial)) {
            return false;
        }
        if self.ports.len() != other.ports.len() {
            return false;
        }
        let mut i: usize = 0;
        while i < self.ports.len()
            invariant
                self.ports@.len() == other.ports@.len(),
                i <= self.ports@.len(),
                forall|k: int| 0 <= k < i ==> self.ports@[k] == other.ports@[k],
            decreases self.ports@.len() - i,
        {
            if self.ports[i] != other.ports[i] {
                return false;
            }
            i += 1;
        }
        proof {
            assert(self.ports@ =~= other.ports@);
        }
        true
    }

    /// The token by which the node is offered as a capture device.
    pub fn capture_device_token(&self) -> (r: String)
        ensures
            r@ == capture_token_spec(self@),
    {
        match &self.name {
            Some(n) => n.clone(),
            None => match &self.description {
                Some(d) => d.clone(),
                None => node_token_text(self.id),
            },
        }
    }

    /// The application that owns the node, if any.
    pub fn app_name(&self) -> (r: Option<&str>)
        ensures
            opt_str_view(r) == self@.app_name,
    {
        opt_str(&self.app_name)
    }

    /// The node's `object.serial`, if any.
    pub fn object_serial(&self) -> (r: Option<&str>)
        ensures
            opt_str_view(r) == self@.object_serial,
    {
        opt_str(&self.object_serial)
    }

    /// Whether the node's name or description is `label`, ignoring ASCII
    /// case.
    pub fn matches_label(&self, label: &str) -> (r: bool)
        ensures
            r == matches_label_spec(self@, label@),
    {
        let by_name = match &self.name {
            Some(n) => crate::text::eq_ignore_ascii_case(n.as_str(), label),
            None => false,
        };
        by_name || match &self.description {
            Some(d) => crate::text::eq_ignore_ascii_case(d.as_str(), label),
            None => false,
        }
    }

    /// Whether the node can be captured as a device.
    pub fn is_capture_device_candidate(&self) -> (r: bool)
        ensures
            r == capture_candidate_spec(self@),
    {
        let audio = ['a', 'u', 'd', 'i', 'o'];
        let monitor = ['m', 'o', 'n', 'i', 't', 'o', 'r'];
        !self.is_virtual && self.app_name.is_none() && (opt_contains_exec(
            &self.media_class,
            audio.as_slice(),
        ) || opt_contains_exec(&self.name, monitor.as_slice()) || opt_contains_exec(
            &self.description,
            monitor.as_slice(),
        ))
    }

    /// Whether the node is an application, other than `sink`, that plays
    /// audio.
    pub fn should_route_to(&self, sink: &NodeInfo) -> (r: bool)
        ensures
            r == should_route_spec(self@, sink@),
    {
        self.id != sink.id && self.is_audio_application_output()
    }

    /// Whether the node is an application that plays audio.
    pub fn is_audio_application_output(&self) -> (r: bool)
        ensures
            r == audio_application_output_spec(self@),
    {
        let audio = ['a', 'u', 'd', 'i', 'o'];
        self.direction == Direction::Output && opt_contains_exec(
            &self.media_class,
            audio.as_slice(),
        ) && self.app_name.is_some()
    }

    /// The output ports that a loopback reads, monitors first.
    pub fn output_ports_for_loopback(&self) -> (r: Vec<GraphPort>)
        ensures
            r@ == loopback_ports_spec(self@.ports, Direction::Output, true),
    {
        self.ports_for_loopback(Direction::Output, true)
    }

    /// The input ports that a loopback feeds, non-monitors first.
    pub fn input_ports_for_loopback(&self) -> (r: Vec<GraphPort>)
        ensures
            r@ == loopback_ports_spec(self@.ports, Direction::Input, false),
    {
        self.ports_for_loopback(Direction::Input, false)
    }

    /// The ports of direction `dir` preferred for a loopback.
    pub fn ports_for_loopback(&self, dir: Direction, prefer_monitor: bool) -> (r: Vec<GraphPort>)
        ensures
            r@ == loopback_ports_spec(self@.ports, dir, prefer_monitor),
    {
        let preferred = filter_ports(&self.ports, dir, Some(prefer_monitor));
        if preferred.len() > 0 {
            return preferred;
        }
        let directed = filter_ports(&self.ports, dir, None);
        if directed.len() > 0 {
            return directed;
        }
        copy_ports(&self.ports)
    }
}

/// The default targets that PipeWire metadata names.
#[derive(Clone, Debug, Default)]
pub struct MetadataDefaults {
    pub audio_sink: Option<DefaultTarget>,
    pub audio_source: Option<DefaultTarget>,
}

/// The content of the default targets.
pub struct MetadataDefaultsView {
    pub audio_sink: Option<DefaultTargetView>,
    pub audio_source: Option<DefaultTargetView>,
}

impl View for MetadataDefaults {
    type V = MetadataDefaultsView;

    open spec fn view(&self) -> MetadataDefaultsView {
        MetadataDefaultsView {
            audio_sink: opt_target_view(self.audio_sink),
            audio_source: opt_target_view(self.audio_source),
        }
    }
}

fn copy_opt_target(t: &Option<DefaultTarget>) -> (r: Option<DefaultTarget>)
    ensures
        opt_target_view(r) == opt_target_view(*t),
{
    match t {
        Some(t) => Some(t.duplicate()),
        None => None,
    }
}

/// The metadata key of the default sink.
pub open spec fn sink_key() -> Seq<char> {
    seq!['d', 'e', 'f', 'a', 'u', 'l', 't', '.', 'a', 'u', 'd', 'i', 'o', '.', 's', 'i', 'n', 'k']
}

/// The metadata key of the default source.
pub open spec fn source_key() -> Seq<char> {
    seq![
        'd', 'e', 'f', 'a', 'u', 'l', 't', '.', 'a', 'u', 'd', 'i', 'o', '.', 's', 'o', 'u', 'r',
        'c', 'e',
    ]
}

/// A default slot after a metadata property, and whether it changed.  A
/// value sets the slot to a target named by the value (its parsed name,
/// or the raw value when it gives none); clearing the value empties the
/// slot when the same metadata object had set it.
pub open spec fn slot_update_spec(
    slot: Option<DefaultTargetView>,
    metadata_id: u32,
    subject: u32,
    type_hint: Option<Seq<char>>,
    value: Option<Seq<char>>,
) -> (Option<DefaultTargetView>, bool) {
    match value {
        Some(v) => {
            let name = match metadata_name_spec(type_hint, v) {
                Some(n) => n,
                None => v,
            };
            let target = DefaultTargetView {
                metadata_id: Some(metadata_id),
                node_id: if subject != 0 {
                    Some(subject)
                } else {
                    None
                },
                name: Some(name),
                type_hint,
            };
            (Some(target), slot != Some(target))
        },
        None => if slot is Some && slot->0.metadata_id == Some(metadata_id) {
            (None, true)
        } else {
            (slot, false)
        },
    }
}

/// A slot after its target lost node `node_id`: the target forgets the
/// node, keeps or takes `fallback` as its name, and goes away when it
/// has neither.
pub open spec fn slot_clear_node_spec(
    slot: Option<DefaultTargetView>,
    node_id: u32,
    fallback: Option<Seq<char>>,
) -> (Option<DefaultTargetView>, bool) {
    match slot {
        Some(t) => if t.node_id == Some(node_id) {
            let name = match t.name {
                Some(n) => Some(n),
                None => fallback,
            };
            if name is None {
                (None, true)
            } else {
                (Some(DefaultTargetView { node_id: None, name, ..t }), true)
            }
        } else {
            (slot, false)
        },
        None => (None, false),
    }
}

/// A slot after metadata object `metadata_id` went away: a target that
/// it set is dropped when it names neither a node nor a name.
pub open spec fn slot_clear_metadata_spec(slot: Option<DefaultTargetView>, metadata_id: u32) -> (
    Option<DefaultTargetView>,
    bool,
) {
    match slot {
        Some(t) => if t.metadata_id == Some(metadata_id) {
            if t.node_id is None && t.name is None {
                (None, true)
            } else {
                (slot, true)
            }
        } else {
            (slot, false)
        },
        None => (None, false),
    }
}

/// A slot after reconciling with the nodes of a map: a target keeps a node
/// that still exists; otherwise it takes a node whose name is its name,
/// when there is one.
pub open spec fn slot_reconciled_map(
    old: Option<DefaultTargetView>,
    new: Option<DefaultTargetView>,
    nodes: Map<u32, NodeInfo>,
) -> bool {
    match old {
        None => new is None,
        Some(t) => {
            &&& new is Some
            &&& new->0.metadata_id == t.metadata_id
            &&& new->0.name == t.name
            &&& new->0.type_hint == t.type_hint
            &&& if t.node_id is Some && nodes.contains_key(t.node_id->0) {
                new->0.node_id == t.node_id
            } else {
                match new->0.node_id {
                    Some(k) => t.name is Some && nodes.contains_key(k) && nodes[k]@.name == t.name,
                    None => forall|k: u32|
                        #[trigger] nodes.contains_key(k) ==> t.name is None || nodes[k]@.name
                            != t.name,
                }
            }
        },
    }
}

/// A slot after reconciling with a list of nodes: a target keeps a node
/// that is still listed; otherwise it takes the first listed node whose
/// name is its name, when there is one.
pub open spec fn slot_reconciled_list(
    old: Option<DefaultTargetView>,
    new: Option<DefaultTargetView>,
    nodes: Seq<NodeInfo>,
) -> bool {
    match old {
        None => new is None,
        Some(t) => {
            &&& new is Some
            &&& new->0.metadata_id == t.metadata_id
            &&& new->0.name == t.name
            &&& new->0.type_hint == t.type_hint
            &&& if t.node_id is Some && first_index(nodes, node_has_id(t.node_id->0)) is Some {
                new->0.node_id == t.node_id
            } else {
                match t.name {
                    Some(name) => match first_index(nodes, node_named(name)) {
                        Some(i) => new->0.node_id == Some(nodes[i].id),
                        None => new->0.node_id is None,
                    },
                    None => new->0.node_id is None,
                }
            }
        },
    }
}

/// The node's name is exactly `name`.
pub open spec fn node_named(name: Seq<char>) -> spec_fn(NodeInfo) -> bool {
    |n: NodeInfo| n@.name == Some(name)
}

fn update_slot(
    slot: &mut Option<DefaultTarget>,
    metadata_id: u32,
    subject: u32,
    type_hint: Option<&str>,
    value: Option<&str>,
) -> (changed: bool)
    ensures
        (opt_target_view(*final(slot)), changed) == slot_update_spec(
            opt_target_view(*old(slot)),
            metadata_id,
            subject,
            opt_str_view(type_hint),
            opt_str_view(value),
        ),
{
    match value {
        Some(val) => {
            let parsed = parse_metadata_name(type_hint, val);
            let target = match &parsed {
                Some(name) => DefaultTarget::new(metadata_id, subject, type_hint, Some(name.as_str())),
                None => DefaultTarget::new(metadata_id, subject, type_hint, Some(val)),
            };
            let changed = match slot {
                Some(current) => !current.same_as(&target),
                None => true,
            };
            *slot = Some(target);
            changed
        },
        None => {
            let remove = match slot {
                Some(current) => current.metadata_id == Some(metadata_id),
                None => false,
            };
            if remove {
                *slot = None;
            }
            remove
        },
    }
}

fn clear_slot_node(slot: &mut Option<DefaultTarget>, node_id: u32, fallback: &Option<String>) -> (changed: bool)
    ensures
        (opt_target_view(*final(slot)), changed) == slot_clear_node_spec(
            opt_target_view(*old(slot)),
            node_id,
            opt_view(*fallback),
        ),
{
    let hit = match slot {
        Some(t) => t.node_id == Some(node_id),
        None => false,
    };
    if !hit {
        return false;
    }
    let current = slot.take();
    match current {
        Some(mut t) => {
            t.node_id = None;
            if t.name.is_none() {
                t.name = copy_opt_string(fallback);
            }
            if t.name.is_some() {
                *slot = Some(t);
            }
        },
        None => {},
    }
    true
}

fn clear_slot_metadata(slot: &mut Option<DefaultTarget>, metadata_id: u32) -> (changed: bool)
    ensures
        (opt_target_view(*final(slot)), changed) == slot_clear_metadata_spec(
            opt_target_view(*old(slot)),
            metadata_id,
        ),
{
    let (hit, empty) = match slot {
        Some(t) => (t.metadata_id == Some(metadata_id), t.node_id.is_none() && t.name.is_none()),
        None => (false, false),
    };
    if !hit {
        return false;
    }
    if empty {
        *slot = None;
    }
    true
}

fn reconcile_slot_map(slot: &mut Option<DefaultTarget>, nodes: &HashMap<u32, NodeInfo>)
    ensures
        slot_reconciled_map(opt_target_view(*old(slot)), opt_target_view(*final(slot)), nodes@),
{
    broadcast use vstd::std_specs::hash::group_hash_axioms;

    let current = slot.take();
    let mut t = match current {
        Some(t) => t,
        None => {
            return ;
        },
    };
    let keep = match t.node_id {
        Some(id) => nodes.contains_key(&id),
        None => false,
    };
    if !keep {
        let found = match &t.name {
            Some(name) => find_named(nodes, name),
            None => None,
        };
        t.node_id = found;
    }
    *slot = Some(t);
}

/// The key of some node in `nodes` whose name is `name`, if any has it.
fn find_named(nodes: &HashMap<u32, NodeInfo>, name: &String) -> (r: Option<u32>)
    ensures
        match r {
            Some(k) => nodes@.contains_key(k) && nodes@[k]@.name == Some(name@),
            None => forall|k: u32| #[trigger] nodes@.contains_key(k) ==> nodes@[k]@.name != Some(name@),
        },
{
    broadcast use vstd::std_specs::hash::group_hash_axioms;

    let ghost all = spec_hash_map_iter(nodes).remaining();
    let mut found: Option<u32> = None;
    for entry in it: nodes.iter()
        invariant
            it.seq() == all,
            found matches Some(k) ==> nodes@.contains_key(k) && nodes@[k]@.name == Some(name@),
            found is None ==> forall|j: int|
                0 <= j < it.index() ==> (#[trigger] all[j]).1@.name != Some(name@),
            forall|i: int| 0 <= i < all.len() ==> nodes@.contains_key(*all[i].0) && nodes@[*all[i].0] == *all[i].1,
    {
        let (k, v) = entry;
        if found.is_none() {
            let same = match &v.name {
                Some(n) => *n == *name,
                None => false,
            };
            if same {
                found = Some(*k);
            }
        }
    }
    proof {
        if found is None {
            assert forall|k: u32| #[trigger] nodes@.contains_key(k) implies nodes@[k]@.name != Some(name@) by {
                assert(all.contains((&k, &nodes@[k])));
                let j = choose|j: int| 0 <= j < all.len() && all[j] == (&k, &nodes@[k]);
                assert(all[j].1@.name != Some(name@));
            }
        }
    }
    found
}

impl MetadataDefaults {
    /// Applies a metadata property to the default targets; returns whether
    /// they changed.
    pub fn apply_update(
        &mut self,
        metadata_id: u32,
        subject: u32,
        key: &str,
        type_hint: Option<&str>,
        value: Option<&str>,
    ) -> (changed: bool)
        ensures
            key@ == sink_key() ==> (final(self)@.audio_sink, changed) == slot_update_spec(
                old(self)@.audio_sink,
                metadata_id,
                subject,
                opt_str_view(type_hint),
                opt_str_view(value),
            ) && final(self)@.audio_source == old(self)@.audio_source,
            key@ == source_key() ==> (final(self)@.audio_source, changed) == slot_update_spec(
                old(self)@.audio_source,
                metadata_id,
                subject,
                opt_str_view(type_hint),
                opt_str_view(value),
            ) && final(self)@.audio_sink == old(self)@.audio_sink,
            key@ != sink_key() && key@ != source_key() ==> !changed && final(self)@ == old(self)@,
    {
        let sink = [
            'd', 'e', 'f', 'a', 'u', 'l', 't', '.', 'a', 'u', 'd', 'i', 'o', '.', 's', 'i', 'n', 'k',
        ];
        let source = [
            'd', 'e', 'f', 'a', 'u', 'l', 't', '.', 'a', 'u', 'd', 'i', 'o', '.', 's', 'o', 'u', 'r',
            'c', 'e',
        ];
        assert(sink@ =~= sink_key());
        assert(source@ =~= source_key());
        if str_eq_chars(key, sink.as_slice()) {
            update_slot(&mut self.audio_sink, metadata_id, subject, type_hint, value)
        } else if str_eq_chars(key, source.as_slice()) {
            update_slot(&mut self.audio_source, metadata_id, subject, type_hint, value)
        } else {
            false
        }
    }

    /// Points each default target at an existing node: a target keeps its
    /// node while it exists, and otherwise takes a node named like it.
    pub fn reconcile_with_nodes(&mut self, nodes: &HashMap<u32, NodeInfo>)
        ensures
            slot_reconciled_map(old(self)@.audio_sink, final(self)@.audio_sink, nodes@),
            slot_reconciled_map(old(self)@.audio_source, final(self)@.audio_source, nodes@),
    {
        reconcile_slot_map(&mut self.audio_sink, nodes);
        reconcile_slot_map(&mut self.audio_source, nodes);
    }

    /// Drops the targets that metadata object `metadata_id` set and that
    /// name neither a node nor a name; returns whether any target was set
    /// by that object.
    pub fn clear_metadata(&mut self, metadata_id: u32) -> (changed: bool)
        ensures
            ({
                let (sink, a) = slot_clear_metadata_spec(old(self)@.audio_sink, metadata_id);
                let (source, b) = slot_clear_metadata_spec(old(self)@.audio_source, metadata_id);
                final(self)@.audio_sink == sink && final(self)@.audio_source == source && changed
                    == (a || b)
            }),
    {
        let a = clear_slot_metadata(&mut self.audio_sink, metadata_id);
        let b = clear_slot_metadata(&mut self.audio_source, metadata_id);
        a || b
    }

    /// Makes the targets that pointed at node `node_id` forget it; returns
    /// whether any did.
    pub fn clear_node(&mut self, node_id: u32, fallback_name: Option<String>) -> (changed: bool)
        ensures
            ({
                let (sink, a) = slot_clear_node_spec(
                    old(self)@.audio_sink,
                    node_id,
                    opt_view(fallback_name),
                );
                let (source, b) = slot_clear_node_spec(
                    old(self)@.audio_source,
                    node_id,
                    opt_view(fallback_name),
                );
                final(self)@.audio_sink == sink && final(self)@.audio_source == source && changed
                    == (a || b)
            }),
    {
        let a = clear_slot_node(&mut self.audio_sink, node_id, &fallback_name);
        let b = clear_slot_node(&mut self.audio_source, node_id, &fallback_name);
        a || b
    }

    /// A copy with the same content.
    pub fn duplicate(&self) -> (r: MetadataDefaults)
        ensures
            r@ == self@,
    {
        MetadataDefaults {
            audio_sink: copy_opt_target(&self.audio_sink),
            audio_source: copy_opt_target(&self.audio_source),
        }
    }
}

/// A point-in-time view of the registry.
#[derive(Clone, Debug, Default)]
pub struct RegistrySnapshot {
    pub serial: u64,
    pub nodes: Vec<NodeInfo>,
    pub device_count: usize,
    pub defaults: MetadataDefaults,
}

/// How a default target is shown: the device token of the node it
/// resolves to, and the name that metadata gave.
#[derive(Clone, Debug, PartialEq, Eq)]
pub struct TargetDescription {
    pub display: String,
    pub raw: String,
}

/// The text shown for a missing default target.
pub open spec fn none_label() -> Seq<char> {
    seq!['(', 'n', 'o', 'n', 'e', ')']
}

/// The node has id `id`.
pub open spec fn node_has_id(id: u32) -> spec_fn(NodeInfo) -> bool {
    |n: NodeInfo| n.id == id
}

/// The node's name or description is `label`.
pub open spec fn node_labelled(label: Seq<char>) -> spec_fn(NodeInfo) -> bool {
    |n: NodeInfo| matches_label_spec(n@, label)
}

/// The index of the node that a default target resolves to: the node
/// with the target's id, else the first node that its name labels.
pub open spec fn resolve_target_spec(nodes: Seq<NodeInfo>, t: DefaultTargetView) -> Option<int> {
    let by_id = match t.node_id {
        Some(id) => first_index(nodes, node_has_id(id)),
        None => None,
    };
    match by_id {
        Some(i) => Some(i),
        None => match t.name {
            Some(name) => first_index(nodes, node_labelled(name)),
            None => None,
        },
    }
}

/// The node id that a `node#<id>` token names; the digits must be the
/// id's own decimal text.
pub open spec fn strict_node_token_id(token: Seq<char>) -> Option<u32> {
    if token.len() >= 5 && eq_fold(token.take(5), seq!['n', 'o', 'd', 'e', '#']) {
        match parse_u32_spec(token.skip(5)) {
            Some(id) => if eq_fold(node_token_spec(id as nat), token) {
                Some(id)
            } else {
                None
            },
            None => None,
        }
    } else {
        None
    }
}

/// A capture candidate named `token`.
pub open spec fn device_named(n: NodeInfoView, token: Seq<char>) -> bool {
    capture_candidate_spec(n) && n.name is Some && eq_fold(n.name->0, token)
}

/// A capture candidate described by `token`, or an unnamed one that the
/// token names by id.
pub open spec fn device_described(n: NodeInfoView, token: Seq<char>) -> bool {
    &&& capture_candidate_spec(n)
    &&& ((n.description is Some && eq_fold(n.description->0, token)) || (n.name is None
        && n.description is None && strict_node_token_id(token) == Some(n.id)))
}

/// The index of the capture device that `token` selects: a name match
/// first, then a description or id match.
pub open spec fn capture_device_spec(nodes: Seq<NodeInfo>, token: Seq<char>) -> Option<int> {
    match first_index(nodes, |n: NodeInfo| device_named(n@, token)) {
        Some(i) => Some(i),
        None => first_index(nodes, |n: NodeInfo| device_described(n@, token)),
    }
}

/// The id that a `node#<id>` token names.
fn strict_node_token_id_exec(token: &str) -> (r: Option<u32>)
    ensures
        r == strict_node_token_id(token@),
{
    let t = chars_of(token);
    if t.len() < 5 {
        return None;
    }
    let head = [t[0], t[1], t[2], t[3], t[4]];
    assert(head@ =~= t@.take(5));
    if !chars_eq_fold(head.as_slice(), ['n', 'o', 'd', 'e', '#'].as_slice()) {
        return None;
    }
    let rest = crate::text::chars_from(t.as_slice(), 5);
    assert(rest@ =~= t@.skip(5));
    match parse_u32(rest.as_slice()) {
        Some(id) => {
            let formatted = node_token_text(id);
            if crate::text::eq_ignore_ascii_case(formatted.as_str(), token) {
                Some(id)
            } else {
                None
            }
        },
        None => None,
    }
}

impl RegistrySnapshot {
    /// The node that `target` resolves to.
    pub fn resolve_default_target(&self, target: &DefaultTarget) -> (r: Option<&NodeInfo>)
        ensures
            picks(r, self.nodes@, resolve_target_spec(self.nodes@, target@)),
    {
        let ghost nodes = self.nodes@;
        if let Some(id) = target.node_id {
            let ghost p = node_has_id(id);
            let mut i: usize = 0;
            while i < self.nodes.len()
                invariant
                    nodes == self.nodes@,
                    p == node_has_id(id),
                    target.node_id == Some(id),
                    i <= nodes.len(),
                    forall|j: int| 0 <= j < i ==> !p(#[trigger] nodes[j]),
                decreases nodes.len() - i,
            {
                if self.nodes[i].id == id {
                    proof {
                        lemma_first_index_at(nodes, p, i as int);
                    }
                    return Some(&self.nodes[i]);
                }
                i += 1;
            }
            proof {
                lemma_first_index_none(nodes, p);
            }
        }
        match &target.name {
            Some(name) => self.find_node_by_label(name.as_str()),
            None => None,
        }
    }

    /// The first node whose name or description is `label`.
    pub fn find_node_by_label(&self, label: &str) -> (r: Option<&NodeInfo>)
        ensures
            picks(r, self.nodes@, first_index(self.nodes@, node_labelled(label@))),
    {
        let ghost nodes = self.nodes@;
        let ghost p = node_labelled(label@);
        let mut i: usize = 0;
        while i < self.nodes.len()
            invariant
                nodes == self.nodes@,
                p == node_labelled(label@),
                i <= nodes.len(),
                forall|j: int| 0 <= j < i ==> !p(#[trigger] nodes[j]),
            decreases nodes.len() - i,
        {
            if self.nodes[i].matches_label(label) {
                proof {
                    lemma_first_index_at(nodes, p, i as int);
                }
                return Some(&self.nodes[i]);
            }
            i += 1;
        }
        proof {
            lemma_first_index_none(nodes, p);
        }
        None
    }

    /// OpenMeters' own virtual sink, if the registry has it.
    pub fn virtual_sink(&self) -> (r: Option<&NodeInfo>)
        ensures
            picks(
                r,
                self.nodes@,
                first_index(self.nodes@, |n: NodeInfo| n@.name == Some(virtual_sink_name())),
            ),
    {
        let ghost nodes = self.nodes@;
        let ghost p = |n: NodeInfo| n@.name == Some(virtual_sink_name());
        let sink_name = [
            'o', 'p', 'e', 'n', 'm', 'e', 't', 'e', 'r', 's', '.', 's', 'i', 'n', 'k',
        ];
        assert(sink_name@ =~= virtual_sink_name());
        let mut i: usize = 0;
        while i < self.nodes.len()
            invariant
                nodes == self.nodes@,
                p == (|n: NodeInfo| n@.name == Some(virtual_sink_name())),
                sink_name@ == virtual_sink_name(),
                i <= nodes.len(),
                forall|j: int| 0 <= j < i ==> !p(#[trigger] nodes[j]),
            decreases nodes.len() - i,
        {
            let hit = match &self.nodes[i].name {
                Some(n) => str_eq_chars(n.as_str(), sink_name.as_slice()),
                None => false,
            };
            if hit {
                proof {
                    lemma_first_index_at(nodes, p, i as int);
                }
                return Some(&self.nodes[i]);
            }
            i += 1;
        }
        proof {
            lemma_first_index_none(nodes, p);
        }
        None
    }

    /// The capture device that a device token selects.
    pub fn find_capture_device_by_token(&self, token: &str) -> (r: Option<&NodeInfo>)
        ensures
            picks(r, self.nodes@, capture_device_spec(self.nodes@, token@)),
    {
        let ghost nodes = self.nodes@;
        let ghost named = |n: NodeInfo| device_named(n@, token@);
        let ghost described = |n: NodeInfo| device_described(n@, token@);
        let token_id = strict_node_token_id_exec(token);
        let mut i: usize = 0;
        while i < self.nodes.len()
            invariant
                nodes == self.nodes@,
                named == (|n: NodeInfo| device_named(n@, token@)),
                i <= nodes.len(),
                forall|j: int| 0 <= j < i ==> !named(#[trigger] nodes[j]),
            decreases nodes.len() - i,
        {
            let n = &self.nodes[i];
            let hit = n.is_capture_device_candidate() && match &n.name {
                Some(name) => crate::text::eq_ignore_ascii_case(name.as_str(), token),
                None => false,
            };
            if hit {
                proof {
                    lemma_first_index_at(nodes, named, i as int);
                }
                return Some(n);
            }
            i += 1;
        }
        proof {
            lemma_first_index_none(nodes, named);
        }
        let mut i: usize = 0;
        while i < self.nodes.len()
            invariant
                nodes == self.nodes@,
                described == (|n: NodeInfo| device_described(n@, token@)),
                named == (|n: NodeInfo| device_named(n@, token@)),
                first_index(nodes, named) is None,
                token_id == strict_node_token_id(token@),
                i <= nodes.len(),
                forall|j: int| 0 <= j < i ==> !described(#[trigger] nodes[j]),
            decreases nodes.len() - i,
        {
            let n = &self.nodes[i];
            let by_description = match &n.description {
                Some(d) => crate::text::eq_ignore_ascii_case(d.as_str(), token),
                None => false,
            };
            let by_id = n.name.is_none() && n.description.is_none() && token_id == Some(n.id);
            if n.is_capture_device_candidate() && (by_description || by_id) {
                proof {
                    lemma_first_index_at(nodes, described, i as int);
                }
                return Some(n);
            }
            i += 1;
        }
        proof {
            lemma_first_index_none(nodes, described);
        }
        None
    }

    /// The applications that should be routed to `sink`, in registry
    /// order.
    pub fn route_candidates(&self, sink: &NodeInfo) -> (r: Vec<&NodeInfo>)
        ensures
            r@.map_values(|n: &NodeInfo| *n) == self.nodes@.filter(
                |n: NodeInfo| should_route_spec(n@, sink@),
            ),
    {
        let ghost p = |n: NodeInfo| should_route_spec(n@, sink@);
        let mut out: Vec<&NodeInfo> = Vec::new();
        let mut i: usize = 0;
        while i < self.nodes.len()
            invariant
                p == (|n: NodeInfo| should_route_spec(n@, sink@)),
                i <= self.nodes@.len(),
                out@.map_values(|n: &NodeInfo| *n) == self.nodes@.take(i as int).filter(p),
            decreases self.nodes@.len() - i,
        {
            let n = &self.nodes[i];
            proof {
                assert(self.nodes@.take(i + 1).drop_last() =~= self.nodes@.take(i as int));
                reveal_with_fuel(Seq::filter, 1);
            }
            if n.should_route_to(sink) {
                let ghost before = out@;
                out.push(n);
                proof {
                    assert(out@.map_values(|n: &NodeInfo| *n) =~= before.map_values(
                        |n: &NodeInfo| *n,
                    ).push(*n));
                }
            }
            i += 1;
        }
        proof {
            assert(self.nodes@.take(self.nodes@.len() as int) =~= self.nodes@);
        }
        out
    }

    /// How `target` is shown: the device token of the node that it resolves
    /// to, else its metadata name, else `(none)`.
    pub fn describe_default_target(&self, target: Option<&DefaultTarget>) -> (r: TargetDescription)
        ensures
            r.raw@ == match target {
                Some(t) => match t@.name {
                    Some(n) => n,
                    None => none_label(),
                },
                None => none_label(),
            },
            r.display@ == match target {
                Some(t) => match resolve_target_spec(self.nodes@, t@) {
                    Some(i) => capture_token_spec(self.nodes@[i]@),
                    None => r.raw@,
                },
                None => r.raw@,
            },
    {
        let none = ['(', 'n', 'o', 'n', 'e', ')'];
        assert(none@ =~= none_label());
        let raw = match target {
            Some(t) => match &t.name {
                Some(n) => n.clone(),
                None => string_from_chars(none.as_slice()),
            },
            None => string_from_chars(none.as_slice()),
        };
        let display = match target {
            Some(t) => match self.resolve_default_target(t) {
                Some(node) => node.capture_device_token(),
                None => raw.clone(),
            },
            None => raw.clone(),
        };
        TargetDescription { display, raw }
    }
}

/// A channel's short name reads back as that channel.
pub proof fn law_channel_label_reads_back(c: AudioChannel)
    ensures
        parse_audio_channel_spec(audio_channel_label(c)) == Some(c),
{
    let l = audio_channel_label(c);
    assert(eq_fold(l, l));
    if c != AudioChannel::FrontLeft {
        assert(!eq_fold(l, seq!['F', 'L'])) by {
            if l.len() == 2 {
                assert(ascii_fold(l[0]) != ascii_fold('F') || ascii_fold(l[1]) != ascii_fold('L'));
            }
        }
    }
    if c != AudioChannel::FrontRight {
        assert(!eq_fold(l, seq!['F', 'R'])) by {
            if l.len() == 2 {
                assert(ascii_fold(l[0]) != ascii_fold('F') || ascii_fold(l[1]) != ascii_fold('R'));
            }
        }
    }
    if c != AudioChannel::FrontCenter {
        assert(!eq_fold(l, seq!['F', 'C'])) by {
            if l.len() == 2 {
                assert(ascii_fold(l[0]) != ascii_fold('F') || ascii_fold(l[1]) != ascii_fold('C'));
            }
        }
    }
    if c != AudioChannel::LowFrequency {
        assert(!eq_fold(l, seq!['L', 'F', 'E'])) by {
            if l.len() == 3 {
                assert(ascii_fold(l[0]) != ascii_fold('L'));
            }
        }
    }
    if c != AudioChannel::RearLeft {
        assert(!eq_fold(l, seq!['R', 'L'])) by {
            if l.len() == 2 {
                assert(ascii_fold(l[0]) != ascii_fold('R') || ascii_fold(l[1]) != ascii_fold('L'));
            }
        }
    }
    if c != AudioChannel::RearRight {
        assert(!eq_fold(l, seq!['R', 'R'])) by {
            if l.len() == 2 {
                assert(ascii_fold(l[0]) != ascii_fold('R') || ascii_fold(l[1]) != ascii_fold('R'));
            }
        }
    }
    if c != AudioChannel::SideLeft {
        assert(!eq_fold(l, seq!['S', 'L'])) by {
            if l.len() == 2 {
                assert(ascii_fold(l[0]) != ascii_fold('S') || ascii_fold(l[1]) != ascii_fold('L'));
            }
        }
    }
    if c != AudioChannel::SideRight {
        assert(!eq_fold(l, seq!['S', 'R'])) by {
            if l.len() == 2 {
                assert(ascii_fold(l[0]) != ascii_fold('S') || ascii_fold(l[1]) != ascii_fold('R'));
            }
        }
    }
}

/// Reconciling a default target a second time with the same nodes
/// changes nothing.
pub proof fn law_reconcile_settles(
    first: Option<DefaultTargetView>,
    once: Option<DefaultTargetView>,
    twice: Option<DefaultTargetView>,
    nodes: Map<u32, NodeInfo>,
)
    requires
        slot_reconciled_map(first, once, nodes),
        slot_reconciled_map(once, twice, nodes),
    ensures
        twice == once,
{
    if once is Some {
        let t = once->0;
        let u = twice->0;
        if t.node_id is Some {
            assert(u.node_id == t.node_id);
        } else if u.node_id is Some {
            let k = u.node_id->0;
            assert(nodes.contains_key(k) && nodes[k]@.name == t.name);
            assert(t.name is None || nodes[k]@.name != t.name);
        }
        assert(u == t);
    }
}

/// Whether the candidate `n` answers to the token `t`, ignoring ASCII case:
/// by name, by description or by its own capture token.
pub open spec fn answers_to(n: NodeInfoView, t: Seq<char>) -> bool {
    &&& capture_candidate_spec(n)
    &&& {
        ||| (n.name is Some && eq_fold(n.name->0, t))
        ||| (n.description is Some && eq_fold(n.description->0, t))
        ||| eq_fold(capture_token_spec(n), t)
    }
}

proof fn lemma_eq_fold_refl(a: Seq<char>)
    ensures
        eq_fold(a, a),
{
}

/// A node without name or description is found by its `node#<id>` token.
proof fn lemma_token_names_id(id: u32)
    ensures
        strict_node_token_id(node_token_spec(id as nat)) == Some(id),
{
    let t = node_token_spec(id as nat);
    crate::text::lemma_node_token_reads_back(id as nat);
    crate::text::lemma_decimal_reads_back(id as nat);
    lemma_eq_fold_refl(t);
    lemma_eq_fold_refl(t.take(5));
    assert(crate::text::literal_digits(t.skip(5)) == t.skip(5));
}

/// A device search by token finds only a capture candidate of the snapshot.
/// And each candidate is found by its own capture token whenever no other
/// node of the snapshot answers to that token as a candidate.
pub proof fn law_capture_token_finds_its_device(nodes: Seq<NodeInfo>, i: int, t: Seq<char>)
    ensures
        capture_device_spec(nodes, t) matches Some(k) ==> 0 <= k < nodes.len()
            && capture_candidate_spec(nodes[k]@),
        0 <= i < nodes.len() && capture_candidate_spec(nodes[i]@) && t == capture_token_spec(
            nodes[i]@,
        ) && (forall|j: int| 0 <= j < nodes.len() && j != i ==> !answers_to(#[trigger] nodes[j]@, t))
            ==> capture_device_spec(nodes, t) == Some(i),
{
    let named = |n: NodeInfo| device_named(n@, t);
    let described = |n: NodeInfo| device_described(n@, t);
    crate::search::lemma_first_index_facts(nodes, named);
    crate::search::lemma_first_index_facts(nodes, described);
    if 0 <= i < nodes.len() && capture_candidate_spec(nodes[i]@) && t == capture_token_spec(nodes[i]@)
        && (forall|j: int| 0 <= j < nodes.len() && j != i ==> !answers_to(#[trigger] nodes[j]@, t)) {
        let n = nodes[i]@;
        lemma_eq_fold_refl(t);
        assert forall|j: int| 0 <= j < nodes.len() && j != i implies !named(#[trigger] nodes[j]) by {
            assert(!answers_to(nodes[j]@, t));
        }
        assert forall|j: int| 0 <= j < nodes.len() && j != i implies !described(#[trigger] nodes[j]) by {
            let m = nodes[j]@;
            assert(!answers_to(m, t));
            if m.name is None && m.description is None && strict_node_token_id(t) == Some(m.id) {
                assert(eq_fold(node_token_spec(m.id as nat), t));
                assert(capture_token_spec(m) == node_token_spec(m.id as nat));
            }
        }
        if n.name is Some {
            assert(named(nodes[i]));
            lemma_first_index_at(nodes, named, i);
        } else {
            assert forall|j: int| 0 <= j < nodes.len() implies !named(#[trigger] nodes[j]) by {
                if j == i {
                    assert(nodes[j]@.name is None);
                }
            }
            lemma_first_index_none(nodes, named);
            if n.description is None {
                lemma_token_names_id(n.id);
            }
            assert(described(nodes[i]));
            lemma_first_index_at(nodes, described, i);
        }
    }
}

} // verus!
