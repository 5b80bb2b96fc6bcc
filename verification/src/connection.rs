//! Decisions of the PipeWire thread: how objects and their properties are
//! read, which messages go to the user interface, and which links to create
//! or destroy.

use crate::messages::PipewireMessage;
use crate::pod::{PodObject, PodProperty, PodValue};
use crate::state::{Item, NodeDeviceInfo, RouteInfo, State, StateView};
use crate::text::{occurs_in, parse_i32, parse_i32_value, parse_u32, parse_u32_value, str_contains};
use crate::types::{Direction, MediaType, NodeType};
use vstd::prelude::*;

verus! {

/// Key of the mute flag in a `Props` object.
pub const SPA_PROP_MUTE: u32 = 0x10004;

/// Key of the per-channel volumes in a `Props` object.
pub const SPA_PROP_CHANNEL_VOLUMES: u32 = 0x10008;

/// Key of the route index in a `Route` object.
pub const SPA_PARAM_ROUTE_INDEX: u32 = 1;

/// Key of the route device in a `Route` object.
pub const SPA_PARAM_ROUTE_DEVICE: u32 = 3;

/// Key of the nested `Props` object in a `Route` object.
pub const SPA_PARAM_ROUTE_PROPS: u32 = 10;

/// The node type that a `media.class` names.
pub open spec fn class_type(class: Seq<char>) -> Option<NodeType> {
    if occurs_in(class, "Sink"@) || occurs_in(class, "Input"@) {
        Some(NodeType::Input)
    } else if occurs_in(class, "Source"@) || occurs_in(class, "Output"@) {
        Some(NodeType::Output)
    } else {
        None
    }
}

/// Classify a `media.class`: sinks and inputs consume, sources and outputs produce.
pub fn media_class_type(class: &str) -> (r: Option<NodeType>)
    ensures
        r == class_type(class@),
{
    if str_contains(class, "Sink") || str_contains(class, "Input") {
        Some(NodeType::Input)
    } else if str_contains(class, "Source") || str_contains(class, "Output") {
        Some(NodeType::Output)
    } else {
        None
    }
}

/// The type of a node from its `media.category` and `media.class` properties.
///
/// A duplex category is set aside, and the class is then read again, so the
/// class alone decides.
pub fn node_type(media_category: Option<&str>, media_class: Option<&str>) -> (r: Option<NodeType>)
    ensures
        r == match media_class {
            Some(c) => class_type(c@),
            None => None,
        },
{
    let from_category = match media_category {
        Some(category) => {
            if str_contains(category, "Duplex") {
                None
            } else {
                match media_class {
                    Some(c) => media_class_type(c),
                    None => None,
                }
            }
        },
        None => None,
    };
    match from_category {
        Some(t) => Some(t),
        None => match media_class {
            Some(c) => media_class_type(c),
            None => None,
        },
    }
}

/// The nicest name of a node: its description, else its nick, else its name,
/// else the empty string.
pub fn node_display_name<'a>(
    description: Option<&'a str>,
    nick: Option<&'a str>,
    name: Option<&'a str>,
) -> (r: &'a str)
    ensures
        r@ == match (description, nick, name) {
            (Some(d), _, _) => d@,
            (None, Some(n), _) => n@,
            (None, None, Some(n)) => n@,
            (None, None, None) => Seq::<char>::empty(),
        },
{
    match description {
        Some(d) => d,
        None => match nick {
            Some(n) => n,
            None => match name {
                Some(n) => n,
                None => {
                    proof {
                        reveal_strlit("");
                    }
                    ""
                },
            },
        },
    }
}

/// The device association that the `device.id` and `card.profile.device`
/// properties give, if `device.id` is a number.
pub open spec fn device_info_of(device_id: Option<Seq<char>>, card_profile_device: Option<Seq<char>>) -> Option<NodeDeviceInfo> {
    match device_id {
        Some(d) => match parse_u32_value(d) {
            Some(id) => Some(
                NodeDeviceInfo {
                    device_id: id,
                    card_profile_device: match card_profile_device {
                        Some(c) => match parse_i32_value(c) {
                            Some(v) => v,
                            None => 0,
                        },
                        None => 0,
                    },
                },
            ),
            None => None,
        },
        None => None,
    }
}

/// The view of an optional string.
pub open spec fn opt_view(s: Option<&str>) -> Option<Seq<char>> {
    match s {
        Some(x) => Some(x@),
        None => None,
    }
}

/// Read a node's device association; `card.profile.device` defaults to 0.
pub fn device_info(device_id: Option<&str>, card_profile_device: Option<&str>) -> (r: Option<
    NodeDeviceInfo,
>)
    ensures
        r == device_info_of(opt_view(device_id), opt_view(card_profile_device)),
{
    let id = match device_id {
        Some(d) => match parse_u32(d) {
            Some(v) => v,
            None => return None,
        },
        None => return None,
    };
    let card_profile_device = match card_profile_device {
        Some(c) => match parse_i32(c) {
            Some(v) => v,
            None => 0,
        },
        None => 0,
    };
    Some(NodeDeviceInfo { device_id: id, card_profile_device })
}

/// Record a new node and announce it.
pub fn register_node(
    state: &mut State,
    id: u32,
    name: String,
    node_type: Option<NodeType>,
    device_info: Option<NodeDeviceInfo>,
) -> (msg: PipewireMessage)
    ensures
        final(state)@ == match device_info {
            Some(info) => old(state)@.inserted(id, Item::Node { device_info }).with_device_info(
                id,
                info,
            ),
            None => old(state)@.inserted(id, Item::Node { device_info }),
        },
        msg matches PipewireMessage::NodeAdded { id: i, name: n, node_type: t } && i == id && n@
            == name@ && t == node_type,
{
    state.insert(id, Item::Node { device_info });
    if let Some(info) = device_info {
        state.set_node_device_info(id, info);
    }
    PipewireMessage::NodeAdded { id, name, node_type }
}

/// Take in the properties of a node's info event: update its device
/// association when `device.id` is a number, and announce its names when it
/// has a `media.name`.
pub fn node_info_update(
    state: &mut State,
    id: u32,
    device_id: Option<&str>,
    card_profile_device: Option<&str>,
    media_name: Option<&str>,
    name: &str,
) -> (msg: Option<PipewireMessage>)
    ensures
        final(state)@ == match device_info_of(opt_view(device_id), opt_view(card_profile_device)) {
            Some(info) => old(state)@.with_device_info(id, info),
            None => old(state)@,
        },
        msg is Some <==> media_name is Some,
        msg matches Some(m) ==> m matches PipewireMessage::NodeNameChanged {
            id: i,
            name: n,
            media_name: mn,
        } && i == id && n@ == name@ && mn@ == media_name->0@,
{
    if let Some(info) = device_info(device_id, card_profile_device) {
        state.set_node_device_info(id, info);
    }
    match media_name {
        Some(media_name) => Some(
            PipewireMessage::NodeNameChanged {
                id,
                name: name.to_owned(),
                media_name: media_name.to_owned(),
            },
        ),
        None => None,
    }
}

/// Whether a port's info event is its first: the port is not yet recorded as a port.
pub open spec fn port_is_new(s: StateView, id: u32) -> bool {
    !(s.items.get(id) matches Some(Item::Port { .. }))
}

/// Take in a port's info event. The first one records the port under the node
/// that `node.id` names and announces it; later ones change nothing.
pub fn register_port(
    state: &mut State,
    id: u32,
    node_id_prop: Option<&str>,
    port_name: Option<&str>,
    direction: Direction,
) -> (msg: Option<PipewireMessage>)
    requires
        port_is_new(old(state)@, id) ==> node_id_prop is Some && parse_u32_value(
            node_id_prop->0@,
        ) is Some,
    ensures
        !port_is_new(old(state)@, id) ==> final(state)@ == old(state)@ && msg is None,
        port_is_new(old(state)@, id) ==> {
            let node_id = parse_u32_value(node_id_prop->0@)->0;
            &&& final(state)@ == old(state)@.inserted(id, Item::Port { node_id })
            &&& msg matches Some(
                PipewireMessage::PortAdded { id: i, node_id: n, name, direction: d },
            )
            &&& i == id && n == node_id && d == direction
            &&& name@ == match port_name {
                Some(p) => p@,
                None => Seq::empty(),
            }
        },
{
    let known = match state.get(id) {
        Some(Item::Port { .. }) => true,
        _ => false,
    };
    if known {
        return None;
    }
    let name = match port_name {
        Some(p) => p.to_owned(),
        None => String::new(),
    };
    let node_id = match node_id_prop {
        Some(p) => match parse_u32(p) {
            Some(v) => v,
            None => 0,
        },
        None => 0,
    };
    state.insert(id, Item::Port { node_id });
    Some(PipewireMessage::PortAdded { id, node_id, name, direction })
}

/// What a port says of one of its parameters: whether it is the format
/// enumeration, and whether it can be read.
#[derive(Clone, Copy, Debug)]
pub struct ParamInfo {
    pub is_enum_format: bool,
    pub readable: bool,
}

/// Whether the first format enumeration among the parameters can be read.
pub open spec fn enum_format_readable(params: Seq<ParamInfo>) -> bool
    decreases params.len(),
{
    if params.len() == 0 {
        false
    } else if params[0].is_enum_format {
        params[0].readable
    } else {
        enum_format_readable(params.drop_first())
    }
}

/// Whether a port's formats should be asked for: its first format
/// enumeration parameter is readable.
pub fn should_enum_formats(params: &Vec<ParamInfo>) -> (r: bool)
    ensures
        r == enum_format_readable(params@),
{
    let mut i: usize = 0;
    proof {
        assert(params@.skip(0) =~= params@);
    }
    while i < params.len()
        invariant
            i <= params@.len(),
            enum_format_readable(params@) == enum_format_readable(params@.skip(i as int)),
        decreases params@.len() - i,
    {
        proof {
            assert(params@.skip(i as int).drop_first() =~= params@.skip(i + 1));
            assert(params@.skip(i as int)[0] == params@[i as int]);
        }
        if params[i].is_enum_format {
            return params[i].readable;
        }
        i = i + 1;
    }
    proof {
        assert(params@.skip(i as int).len() == 0);
    }
    false
}

/// Take in a link's info event. The first one records the link and announces
/// it; later ones announce changes of its state and of its format.
pub fn link_info_update(
    state: &mut State,
    id: u32,
    port_from: u32,
    port_to: u32,
    active: bool,
    media_type: MediaType,
    state_changed: bool,
    format_changed: bool,
) -> (msgs: Vec<PipewireMessage>)
    ensures
        (old(state)@.items.get(id) matches Some(Item::Link { .. })) ==> {
            &&& final(state)@ == old(state)@
            &&& msgs@.len() == (if state_changed {
                1int
            } else {
                0
            }) + (if format_changed {
                1int
            } else {
                0
            })
            &&& state_changed ==> msgs@[0] == PipewireMessage::LinkStateChanged { id, active }
            &&& format_changed ==> msgs@[msgs@.len() - 1] == PipewireMessage::LinkFormatChanged {
                id,
                media_type,
            }
        },
        !(old(state)@.items.get(id) matches Some(Item::Link { .. })) ==> {
            &&& final(state)@ == old(state)@.inserted(id, Item::Link { port_from, port_to })
            &&& msgs@ == seq![
                PipewireMessage::LinkAdded { id, port_from, port_to, active, media_type },
            ]
        },
{
    let mut msgs: Vec<PipewireMessage> = Vec::new();
    let known = match state.get(id) {
        Some(Item::Link { .. }) => true,
        _ => false,
    };
    if known {
        if state_changed {
            msgs.push(PipewireMessage::LinkStateChanged { id, active });
        }
        if format_changed {
            msgs.push(PipewireMessage::LinkFormatChanged { id, media_type });
        }
    } else {
        state.insert(id, Item::Link { port_from, port_to });
        msgs.push(PipewireMessage::LinkAdded { id, port_from, port_to, active, media_type });
        proof {
            assert(msgs@ =~= seq![
                PipewireMessage::LinkAdded { id, port_from, port_to, active, media_type },
            ]);
        }
    }
    msgs
}

/// What the user interface is told when a tracked item disappears.
pub fn removal_message(id: u32, item: Item) -> (msg: Option<PipewireMessage>)
    ensures
        match item {
            Item::Node { .. } => msg == Some(PipewireMessage::NodeRemoved { id }),
            Item::Port { node_id } => msg == Some(PipewireMessage::PortRemoved { id, node_id }),
            Item::Link { .. } => msg == Some(PipewireMessage::LinkRemoved { id }),
            Item::Device => msg is None,
        },
{
    match item {
        Item::Node { .. } => Some(PipewireMessage::NodeRemoved { id }),
        Item::Port { node_id } => Some(PipewireMessage::PortRemoved { id, node_id }),
        Item::Link { .. } => Some(PipewireMessage::LinkRemoved { id }),
        Item::Device => None,
    }
}

/// Forget an object that PipeWire removed, and say what the user interface is told.
pub fn global_removed(state: &mut State, id: u32) -> (msg: Option<PipewireMessage>)
    ensures
        final(state)@ == old(state)@.removed(id),
        match old(state)@.items.get(id) {
            Some(Item::Node { .. }) => msg == Some(PipewireMessage::NodeRemoved { id }),
            Some(Item::Port { node_id }) => msg == Some(PipewireMessage::PortRemoved { id, node_id }),
            Some(Item::Link { .. }) => msg == Some(PipewireMessage::LinkRemoved { id }),
            _ => msg is None,
        },
{
    match state.remove(id) {
        Some(item) => removal_message(id, item),
        None => None,
    }
}

/// The value of the last property with the key that holds an integer.
pub open spec fn last_int(props: Seq<PodProperty>, key: u32) -> Option<i32>
    decreases props.len(),
{
    if props.len() == 0 {
        None
    } else {
        match props.last().value {
            PodValue::Int(v) if props.last().key == key => Some(v),
            _ => last_int(props.drop_last(), key),
        }
    }
}

/// The route that a `Route` parameter describes: its index and its device,
/// each taken from the last integer property under its key.
pub open spec fn route_of(value: PodValue) -> Option<RouteInfo> {
    match value {
        PodValue::Object(obj) => match (
            last_int(obj.properties@, SPA_PARAM_ROUTE_INDEX),
            last_int(obj.properties@, SPA_PARAM_ROUTE_DEVICE),
        ) {
            (Some(index), Some(device)) => Some(RouteInfo { route_index: index, route_device: device }),
            _ => None,
        },
        _ => None,
    }
}

/// Read the route that a device's `Route` parameter describes.
pub fn parse_route(value: &PodValue) -> (r: Option<RouteInfo>)
    ensures
        r == route_of(*value),
{
    let obj = match value {
        PodValue::Object(obj) => obj,
        _ => return None,
    };
    let mut route_index: Option<i32> = None;
    let mut route_device: Option<i32> = None;
    let mut i: usize = 0;
    while i < obj.properties.len()
        invariant
            i <= obj.properties@.len(),
            route_index == last_int(obj.properties@.take(i as int), SPA_PARAM_ROUTE_INDEX),
            route_device == last_int(obj.properties@.take(i as int), SPA_PARAM_ROUTE_DEVICE),
        decreases obj.properties@.len() - i,
    {
        let prop = &obj.properties[i];
        proof {
            let t = obj.properties@.take(i + 1);
            assert(t.drop_last() =~= obj.properties@.take(i as int));
            assert(t.last() == *prop);
        }
        if prop.key == SPA_PARAM_ROUTE_INDEX {
            if let PodValue::Int(idx) = prop.value {
                route_index = Some(idx);
            }
        } else if prop.key == SPA_PARAM_ROUTE_DEVICE {
            if let PodValue::Int(dev) = prop.value {
                route_device = Some(dev);
            }
        }
        i = i + 1;
    }
    proof {
        assert(obj.properties@.take(i as int) =~= obj.properties@);
    }
    match (route_index, route_device) {
        (Some(index), Some(device)) => Some(RouteInfo { route_index: index, route_device: device }),
        _ => None,
    }
}

/// Record the route that a device's `Route` parameter describes, under the
/// device and the route's device index.
pub fn record_device_route(state: &mut State, device_id: u32, value: &PodValue)
    ensures
        final(state)@ == match route_of(*value) {
            Some(route) => old(state)@.with_route(device_id, route.route_device, route),
            None => old(state)@,
        },
{
    if let Some(route) = parse_route(value) {
        state.set_device_route(device_id, route.route_device, route);
    }
}

/// A volume or mute report read from a node's parameters. Volumes are the
/// first channel's level, by its bits.
#[derive(Clone, Copy, Debug, PartialEq, Eq, Structural)]
pub enum PropsEvent {
    VolumeF32 { node_id: u32, f32_bits: u32 },
    VolumeF64 { node_id: u32, f64_bits: u64 },
    Mute { node_id: u32, muted: bool },
}

/// The first property with the key.
pub open spec fn first_with_key(props: Seq<PodProperty>, key: u32) -> Option<PodProperty>
    decreases props.len(),
{
    if props.len() == 0 {
        None
    } else if props[0].key == key {
        Some(props[0])
    } else {
        first_with_key(props.drop_first(), key)
    }
}

/// The properties of the `Props` object nested in a `Route` object.
pub open spec fn route_props(props: Seq<PodProperty>) -> Seq<PodProperty> {
    match first_with_key(props, SPA_PARAM_ROUTE_PROPS) {
        Some(p) => match p.value {
            PodValue::Object(inner) => inner.properties@,
            _ => Seq::empty(),
        },
        None => Seq::empty(),
    }
}

/// The properties to read from a node's `Props` or `Route` parameter.
pub open spec fn props_of(is_route: bool, value: PodValue) -> Seq<PodProperty> {
    match value {
        PodValue::Object(obj) => if is_route {
            route_props(obj.properties@)
        } else {
            obj.properties@
        },
        _ => Seq::empty(),
    }
}

/// The volume report of one property, if it holds channel volumes.
pub open spec fn volume_event(node_id: u32, p: PodProperty) -> Seq<PropsEvent> {
    if p.key == SPA_PROP_CHANNEL_VOLUMES {
        match p.value {
            PodValue::FloatArray(v) => if v@.len() > 0 {
                seq![PropsEvent::VolumeF32 { node_id, f32_bits: v@[0] }]
            } else {
                Seq::empty()
            },
            PodValue::DoubleArray(v) => if v@.len() > 0 {
                seq![PropsEvent::VolumeF64 { node_id, f64_bits: v@[0] }]
            } else {
                Seq::empty()
            },
            _ => Seq::empty(),
        }
    } else {
        Seq::empty()
    }
}

/// Whether a property is a mute flag.
pub open spec fn is_mute(p: PodProperty) -> bool {
    p.key == SPA_PROP_MUTE && p.value is Bool
}

/// The reports of the properties in order: every channel-volume property, and
/// the first mute flag only.
pub open spec fn props_events(node_id: u32, props: Seq<PodProperty>, mute_sent: bool) -> Seq<
    PropsEvent,
>
    decreases props.len(),
{
    if props.len() == 0 {
        Seq::empty()
    } else {
        let p = props[0];
        if is_mute(p) && !mute_sent {
            volume_event(node_id, p) + seq![
                PropsEvent::Mute {
                    node_id,
                    muted: match p.value {
                        PodValue::Bool(b) => b,
                        _ => false,
                    },
                },
            ] + props_events(node_id, props.drop_first(), true)
        } else {
            volume_event(node_id, p) + props_events(node_id, props.drop_first(), mute_sent)
        }
    }
}

/// Skipping properties without the key does not change the search.
proof fn lemma_first_with_key_skip(props: Seq<PodProperty>, key: u32, i: int)
    requires
        0 <= i <= props.len(),
        forall|j: int| 0 <= j < i ==> #[trigger] props[j].key != key,
    ensures
        first_with_key(props, key) == first_with_key(props.skip(i), key),
    decreases i,
{
    if i > 0 {
        assert forall|j: int| 0 <= j < i - 1 implies #[trigger] props.drop_first()[j].key != key by {
            assert(props.drop_first()[j] == props[j + 1]);
        }
        lemma_first_with_key_skip(props.drop_first(), key, i - 1);
        assert(props.drop_first().skip(i - 1) =~= props.skip(i));
        assert(props[0].key != key);
    } else {
        assert(props.skip(0) =~= props);
    }
}

/// The properties of the nested `Props` object of a `Route` object.
fn find_route_props(props: &Vec<PodProperty>) -> (r: Option<&Vec<PodProperty>>)
    ensures
        r is Some ==> r->0@ == route_props(props@),
        r is None ==> route_props(props@) == Seq::<PodProperty>::empty(),
{
    let mut i: usize = 0;
    while i < props.len()
        invariant
            i <= props@.len(),
            forall|j: int| 0 <= j < i ==> #[trigger] props@[j].key != SPA_PARAM_ROUTE_PROPS,
        decreases props@.len() - i,
    {
        if props[i].key == SPA_PARAM_ROUTE_PROPS {
            proof {
                lemma_first_with_key_skip(props@, SPA_PARAM_ROUTE_PROPS, i as int);
                assert(props@.skip(i as int)[0] == props@[i as int]);
            }
            return match &props[i].value {
                PodValue::Object(inner) => Some(&inner.properties),
                _ => None,
            };
        }
        i = i + 1;
    }
    proof {
        lemma_first_with_key_skip(props@, SPA_PARAM_ROUTE_PROPS, i as int);
    }
    None
}

/// The volume and mute reports in a node's `Props` parameter, or in the
/// `Props` object nested in its `Route` parameter.
pub fn node_props_events(node_id: u32, is_route: bool, value: &PodValue) -> (events: Vec<
    PropsEvent,
>)
    ensures
        events@ == props_events(node_id, props_of(is_route, *value), false),
{
    let mut events: Vec<PropsEvent> = Vec::new();
    let obj = match value {
        PodValue::Object(obj) => obj,
        _ => return events,
    };
    let props: &Vec<PodProperty> = if is_route {
        match find_route_props(&obj.properties) {
            Some(p) => p,
            None => {
                proof {
                    assert(events@ =~= props_events(node_id, props_of(is_route, *value), false));
                }
                return events;
            },
        }
    } else {
        &obj.properties
    };
    let ghost all = props@;
    let mut mute_sent = false;
    let mut i: usize = 0;
    proof {
        assert(all.skip(0) =~= all);
    }
    while i < props.len()
        invariant
            i <= props@.len(),
            all == props@,
            all == props_of(is_route, *value),
            events@ + props_events(node_id, all.skip(i as int), mute_sent) == props_events(
                node_id,
                all,
                false,
            ),
        decreases props@.len() - i,
    {
        let prop = &props[i];
        let ghost before = events@;
        let ghost rest = all.skip(i as int);
        proof {
            assert(rest[0] == *prop);
            assert(rest.drop_first() =~= all.skip(i + 1));
        }
        if prop.key == SPA_PROP_CHANNEL_VOLUMES {
            match &prop.value {
                PodValue::FloatArray(volumes) => {
                    if volumes.len() > 0 {
                        events.push(PropsEvent::VolumeF32 { node_id, f32_bits: volumes[0] });
                    }
                },
                PodValue::DoubleArray(volumes) => {
                    if volumes.len() > 0 {
                        events.push(PropsEvent::VolumeF64 { node_id, f64_bits: volumes[0] });
                    }
                },
                _ => {},
            }
        }
        proof {
            assert(events@ =~= before + volume_event(node_id, *prop));
        }
        let ghost mid = events@;
        if prop.key == SPA_PROP_MUTE && !mute_sent {
            if let PodValue::Bool(muted) = prop.value {
                events.push(PropsEvent::Mute { node_id, muted });
                mute_sent = true;
                proof {
                    assert(events@ =~= mid + seq![PropsEvent::Mute { node_id, muted }]);
                }
            }
        }
        proof {
            assert(events@ + props_events(node_id, all.skip(i + 1), mute_sent) =~= props_events(
                node_id,
                all,
                false,
            ));
        }
        i = i + 1;
    }
    proof {
        assert(all.skip(i as int) =~= Seq::<PodProperty>::empty());
        assert(events@ =~= events@ + props_events(node_id, all.skip(i as int), mute_sent));
    }
    events
}

/// A request that the PipeWire thread makes about a link.
#[derive(Clone, Copy, Debug, PartialEq, Eq, Structural)]
pub enum LinkRequest {
    /// Destroy the link object with the id.
    Destroy { id: u32 },
    /// Create a lingering link from the output port of one node to the input port of another.
    Create { node_from: u32, port_from: u32, node_to: u32, port_to: u32 },
}

/// The request that creates a link between two ports whose nodes are known.
pub open spec fn create_request(s: StateView, port_from: u32, port_to: u32) -> LinkRequest {
    LinkRequest::Create {
        node_from: s.node_of_port(port_from)->0,
        port_from,
        node_to: s.node_of_port(port_to)->0,
        port_to,
    }
}

/// Whether both ports are known, so that a link between them can be requested.
pub open spec fn ports_known(s: StateView, port_from: u32, port_to: u32) -> bool {
    s.node_of_port(port_from) is Some && s.node_of_port(port_to) is Some
}

/// The create request for two known ports.
fn create_request_for(state: &State, port_from: u32, port_to: u32) -> (r: LinkRequest)
    requires
        ports_known(state@, port_from, port_to),
    ensures
        r == create_request(state@, port_from, port_to),
{
    let node_from = match state.get_node_of_port(port_from) {
        Some(n) => n,
        None => 0,
    };
    let node_to = match state.get_node_of_port(port_to) {
        Some(n) => n,
        None => 0,
    };
    LinkRequest::Create { node_from, port_from, node_to, port_to }
}

/// Toggle the link between two ports: destroy it if it exists, else create it.
/// Creating needs both ports to be known.
pub fn toggle_link(state: &State, port_from: u32, port_to: u32) -> (r: LinkRequest)
    requires
        state@.link_id(port_from, port_to) is None ==> ports_known(state@, port_from, port_to),
    ensures
        r == match state@.link_id(port_from, port_to) {
            Some(id) => LinkRequest::Destroy { id },
            None => create_request(state@, port_from, port_to),
        },
{
    match state.get_link_id(port_from, port_to) {
        Some(id) => LinkRequest::Destroy { id },
        None => create_request_for(state, port_from, port_to),
    }
}

/// Create the link between two ports, unless it exists. Creating needs both
/// ports to be known.
pub fn create_link(state: &State, port_from: u32, port_to: u32) -> (r: Option<LinkRequest>)
    requires
        state@.link_id(port_from, port_to) is None ==> ports_known(state@, port_from, port_to),
    ensures
        r == match state@.link_id(port_from, port_to) {
            Some(_) => None,
            None => Some(create_request(state@, port_from, port_to)),
        },
{
    if state.get_link_id(port_from, port_to).is_some() {
        return None;
    }
    Some(create_request_for(state, port_from, port_to))
}

/// Remove the link between two ports, if it exists.
pub fn remove_link(state: &State, port_from: u32, port_to: u32) -> (r: Option<LinkRequest>)
    ensures
        r == match state@.link_id(port_from, port_to) {
            Some(id) => Some(LinkRequest::Destroy { id }),
            None => None,
        },
{
    match state.get_link_id(port_from, port_to) {
        Some(id) => Some(LinkRequest::Destroy { id }),
        None => None,
    }
}

/// Messages that steer the connection loop itself.
pub enum ControlMessage {
    /// Stop the thread.
    Terminate,
    /// Connect to the named remote, or to the default one.
    Connect(Option<String>),
    /// Any message that is not about the loop.
    Other,
}

/// State of the connection loop: whether it is to stop, and which remote to connect to.
pub struct LoopState {
    pub is_stopped: bool,
    pub remote_name: Option<String>,
}

impl LoopState {
    pub fn new() -> (s: LoopState)
        ensures
            !s.is_stopped,
            s.remote_name is None,
    {
        LoopState { is_stopped: false, remote_name: None }
    }

    /// Take in a message; says whether it was about the loop.
    pub fn handle_message(&mut self, msg: ControlMessage) -> (handled: bool)
        ensures
            match msg {
                ControlMessage::Terminate => handled && final(self).is_stopped
                    && final(self).remote_name == old(self).remote_name,
                ControlMessage::Connect(remote) => handled && final(self).is_stopped == old(
                    self,
                ).is_stopped && final(self).remote_name == remote,
                ControlMessage::Other => !handled && final(self).is_stopped == old(self).is_stopped
                    && final(self).remote_name == old(self).remote_name,
            },
    {
        match msg {
            ControlMessage::Terminate => {
                self.is_stopped = true;
                true
            },
            ControlMessage::Connect(remote) => {
                self.remote_name = remote;
                true
            },
            ControlMessage::Other => false,
        }
    }
}

/// The message that is announced, if any.
pub open spec fn announced(announce: bool, msg: PipewireMessage) -> Option<PipewireMessage> {
    if announce {
        Some(msg)
    } else {
        None
    }
}

/// What one connection attempt does, from whether an attempt was already
/// under way and whether this one succeeded: whether one is under way after
/// it, and what is announced. A failure announces `Connecting` unless
/// connecting already; a success announces `Connected` only after failures.
pub open spec fn attempt(connecting: bool, ok: bool) -> (bool, Option<PipewireMessage>) {
    if ok {
        (false, announced(connecting, PipewireMessage::Connected))
    } else {
        (true, announced(!connecting, PipewireMessage::Connecting))
    }
}

/// What a run of connection attempts announces, in order (`true` for an
/// attempt that succeeds).
pub open spec fn announcements(connecting: bool, attempts: Seq<bool>) -> Seq<PipewireMessage>
    decreases attempts.len(),
{
    if attempts.len() == 0 {
        Seq::empty()
    } else {
        let (next, msg) = attempt(connecting, attempts[0]);
        let rest = announcements(next, attempts.skip(1));
        match msg {
            Some(m) => seq![m] + rest,
            None => rest,
        }
    }
}

/// `k` failed attempts, then one that succeeds.
pub open spec fn fails_then_ok(k: nat) -> Seq<bool>
    decreases k,
{
    if k == 0 {
        seq![true]
    } else {
        seq![false] + fails_then_ok((k - 1) as nat)
    }
}

/// Once connecting, further failures announce nothing, and the success that
/// ends them announces `Connected` alone.
pub proof fn lemma_failures_while_connecting(k: nat)
    ensures
        announcements(true, fails_then_ok(k)) == seq![PipewireMessage::Connected],
    decreases k,
{
    let a = fails_then_ok(k);
    if k == 0 {
        assert(a[0]);
        assert(a.skip(1) =~= Seq::<bool>::empty());
        assert(announcements(false, a.skip(1)) == Seq::<PipewireMessage>::empty());
        assert(seq![PipewireMessage::Connected] + Seq::<PipewireMessage>::empty() =~= seq![
            PipewireMessage::Connected,
        ]);
    } else {
        assert(!a[0]);
        assert(a.skip(1) =~= fails_then_ok((k - 1) as nat));
        lemma_failures_while_connecting((k - 1) as nat);
    }
}

/// A run of connection attempts that fails `k` times and then succeeds,
/// starting from no attempt under way, announces exactly one `Connecting` and
/// then one `Connected` when `k >= 1`, and nothing when the first attempt
/// succeeds; after it, no attempt is under way.
pub proof fn law_connection_run(k: nat)
    ensures
        k >= 1 ==> announcements(false, fails_then_ok(k)) == seq![
            PipewireMessage::Connecting,
            PipewireMessage::Connected,
        ],
        k == 0 ==> announcements(false, fails_then_ok(k)) == Seq::<PipewireMessage>::empty(),
{
    let a = fails_then_ok(k);
    if k == 0 {
        assert(a[0]);
        assert(a.skip(1) =~= Seq::<bool>::empty());
        assert(announcements(false, a.skip(1)) == Seq::<PipewireMessage>::empty());
    } else {
        assert(!a[0]);
        assert(a.skip(1) =~= fails_then_ok((k - 1) as nat));
        lemma_failures_while_connecting((k - 1) as nat);
        assert(seq![PipewireMessage::Connecting] + seq![PipewireMessage::Connected] =~= seq![
            PipewireMessage::Connecting,
            PipewireMessage::Connected,
        ]);
    }
}

/// Whether a connection attempt is under way, so that the user interface is
/// told once when connecting starts and once when it succeeds.
pub struct ConnectionTracker {
    pub is_connecting: bool,
}

impl ConnectionTracker {
    pub fn new() -> (t: ConnectionTracker)
        ensures
            !t.is_connecting,
    {
        ConnectionTracker { is_connecting: false }
    }

    /// A connection attempt failed: says whether to announce `Connecting`.
    pub fn connect_failed(&mut self) -> (announce: bool)
        ensures
            announce == !old(self).is_connecting,
            final(self).is_connecting,
            (final(self).is_connecting, announced(announce, PipewireMessage::Connecting)) == attempt(
                old(self).is_connecting,
                false,
            ),
    {
        if !self.is_connecting {
            self.is_connecting = true;
            true
        } else {
            false
        }
    }

    /// A connection was made: says whether to announce `Connected`.
    pub fn connected(&mut self) -> (announce: bool)
        ensures
            announce == old(self).is_connecting,
            !final(self).is_connecting,
            (final(self).is_connecting, announced(announce, PipewireMessage::Connected)) == attempt(
                old(self).is_connecting,
                true,
            ),
    {
        if self.is_connecting {
            self.is_connecting = false;
            true
        } else {
            false
        }
    }
}

/// libc's `EPIPE`: the error code of a broken pipe.
///
/// Its value differs between platforms (32 on most, 64 on some, others on a
/// few), so only what holds on every platform is stated: it is not 0.
#[verifier::external_body]
fn epipe() -> (r: i32)
    ensures
        r != 0,
{
    libc::EPIPE
}

/// Whether an error reported for an object means the connection is gone: it
/// concerns the core object and is `-EPIPE`, given the platform's `EPIPE`.
pub fn is_disconnect_with(id: u32, core_id: u32, res: i32, epipe_code: i32) -> (r: bool)
    ensures
        r == (id == core_id && res as int == -(epipe_code as int)),
{
    id == core_id && (res as i64) == -(epipe_code as i64)
}

/// Whether an error reported for an object means the connection is gone: it
/// concerns the core object and is `-EPIPE`. The platform's `EPIPE` decides
/// the rest: see [`is_disconnect_with`].
pub fn is_disconnect(id: u32, core_id: u32, res: i32) -> (r: bool)
    ensures
        r ==> id == core_id && res != 0,
{
    is_disconnect_with(id, core_id, res, epipe())
}

/// Object type of a `Props` object.
pub const SPA_TYPE_OBJECT_PROPS: u32 = 0x40002;

/// Object type of a `Route` parameter object.
pub const SPA_TYPE_OBJECT_PARAM_ROUTE: u32 = 0x40009;

/// Parameter id of `Props`.
pub const SPA_PARAM_PROPS: u32 = 2;

/// Parameter id of `Route`.
pub const SPA_PARAM_ROUTE: u32 = 13;

/// Key of the save flag in a `Route` object.
pub const SPA_PARAM_ROUTE_SAVE: u32 = 13;

/// How a node's volume and mute state are controlled.
#[derive(Clone, Copy, Debug)]
pub enum ControlRoute {
    /// Through a route of the device that the node belongs to.
    Device { device_id: u32, route: RouteInfo },
    /// Through the node's own `Props` parameter.
    Node,
}

/// How a node's volume and mute state are controlled: through its device's
/// route when the node is associated with a device whose route is known,
/// else through the node itself.
pub fn control_route(state: &State, node_id: u32) -> (r: ControlRoute)
    ensures
        match state@.node_route_info(node_id) {
            Some((device_id, route)) => r matches ControlRoute::Device { device_id: d, route: rt }
                && d == device_id && rt == route,
            None => r is Node,
        },
{
    match state.get_node_route_info(node_id) {
        Some((device_id, route)) => ControlRoute::Device { device_id, route: *route },
        None => ControlRoute::Node,
    }
}

/// Whether an object is a `Props` object of the given parameter id whose only
/// property is the given one.
pub open spec fn is_props_object(obj: PodObject, id: u32, key: u32, value: PodValue) -> bool {
    &&& obj.type_ == SPA_TYPE_OBJECT_PROPS
    &&& obj.id == id
    &&& obj.properties@.len() == 1
    &&& obj.properties@[0].key == key
    &&& obj.properties@[0].value == value
}

/// Whether a value is an array of two floats, both with the given bits.
pub open spec fn is_stereo(value: PodValue, bits: u32) -> bool {
    match value {
        PodValue::FloatArray(v) => v@ == seq![bits, bits],
        _ => false,
    }
}

/// Whether an object is a `Props` object of the given parameter id that sets
/// both channel volumes to the volume with the given bits.
pub open spec fn is_volume_props(obj: PodObject, id: u32, bits: u32) -> bool {
    &&& obj.type_ == SPA_TYPE_OBJECT_PROPS
    &&& obj.id == id
    &&& obj.properties@.len() == 1
    &&& obj.properties@[0].key == SPA_PROP_CHANNEL_VOLUMES
    &&& is_stereo(obj.properties@[0].value, bits)
}

/// A `Props` object with one property.
fn props_object(id: u32, key: u32, value: PodValue) -> (obj: PodObject)
    ensures
        obj.type_ == SPA_TYPE_OBJECT_PROPS,
        obj.id == id,
        obj.properties@ == seq![PodProperty { key, value }],
{
    let mut properties: Vec<PodProperty> = Vec::new();
    properties.push(PodProperty { key, value });
    proof {
        assert(properties@ =~= seq![PodProperty { key, value }]);
    }
    PodObject { type_: SPA_TYPE_OBJECT_PROPS, id, properties }
}

/// The two channel volumes of a stereo node, each by its bits.
fn stereo(bits: u32) -> (v: Vec<u32>)
    ensures
        v@ == seq![bits, bits],
{
    let mut v: Vec<u32> = Vec::new();
    v.push(bits);
    v.push(bits);
    proof {
        assert(v@ =~= seq![bits, bits]);
    }
    v
}

/// The `Props` parameter that sets both channel volumes of a node, the volume
/// given by its bits.
pub fn node_volume_param(volume_bits: u32) -> (obj: PodObject)
    ensures
        is_volume_props(obj, SPA_PARAM_PROPS, volume_bits),
{
    props_object(SPA_PARAM_PROPS, SPA_PROP_CHANNEL_VOLUMES, PodValue::FloatArray(stereo(volume_bits)))
}

/// The `Props` parameter that mutes or unmutes a node.
pub fn node_mute_param(muted: bool) -> (obj: PodObject)
    ensures
        is_props_object(obj, SPA_PARAM_PROPS, SPA_PROP_MUTE, PodValue::Bool(muted)),
{
    props_object(SPA_PARAM_PROPS, SPA_PROP_MUTE, PodValue::Bool(muted))
}

/// Whether an object is the `Route` parameter that applies nested props to a
/// device route and saves them.
pub open spec fn is_route_param(obj: PodObject, route: RouteInfo, props: PodObject) -> bool {
    &&& obj.type_ == SPA_TYPE_OBJECT_PARAM_ROUTE
    &&& obj.id == SPA_PARAM_ROUTE
    &&& obj.properties@.len() == 4
    &&& obj.properties@[0] == PodProperty {
        key: SPA_PARAM_ROUTE_INDEX,
        value: PodValue::Int(route.route_index),
    }
    &&& obj.properties@[1] == PodProperty {
        key: SPA_PARAM_ROUTE_DEVICE,
        value: PodValue::Int(route.route_device),
    }
    &&& obj.properties@[2] == PodProperty {
        key: SPA_PARAM_ROUTE_PROPS,
        value: PodValue::Object(props),
    }
    &&& obj.properties@[3] == PodProperty { key: SPA_PARAM_ROUTE_SAVE, value: PodValue::Bool(true) }
}

/// The `Route` parameter that applies nested props to a device route and saves them.
fn route_param(route: RouteInfo, props: PodObject) -> (obj: PodObject)
    ensures
        is_route_param(obj, route, props),
{
    let ghost p = props;
    let mut properties: Vec<PodProperty> = Vec::new();
    properties.push(PodProperty { key: SPA_PARAM_ROUTE_INDEX, value: PodValue::Int(route.route_index) });
    properties.push(PodProperty { key: SPA_PARAM_ROUTE_DEVICE, value: PodValue::Int(route.route_device) });
    properties.push(PodProperty { key: SPA_PARAM_ROUTE_PROPS, value: PodValue::Object(props) });
    properties.push(PodProperty { key: SPA_PARAM_ROUTE_SAVE, value: PodValue::Bool(true) });
    PodObject { type_: SPA_TYPE_OBJECT_PARAM_ROUTE, id: SPA_PARAM_ROUTE, properties }
}

/// The `Route` parameter that sets both channel volumes on a device route,
/// the volume given by its bits.
pub fn device_volume_param(route: RouteInfo, volume_bits: u32) -> (obj: PodObject)
    ensures
        obj.type_ == SPA_TYPE_OBJECT_PARAM_ROUTE,
        obj.id == SPA_PARAM_ROUTE,
        obj.properties@.len() == 4,
        obj.properties@[0] == (PodProperty {
            key: SPA_PARAM_ROUTE_INDEX,
            value: PodValue::Int(route.route_index),
        }),
        obj.properties@[1] == (PodProperty {
            key: SPA_PARAM_ROUTE_DEVICE,
            value: PodValue::Int(route.route_device),
        }),
        obj.properties@[3] == (PodProperty { key: SPA_PARAM_ROUTE_SAVE, value: PodValue::Bool(true) }),
        obj.properties@[2].key == SPA_PARAM_ROUTE_PROPS,
        obj.properties@[2].value matches PodValue::Object(inner) && is_volume_props(
            inner,
            SPA_PARAM_ROUTE,
            volume_bits,
        ),
{
    // The nested props carry the Route parameter id.
    let props = props_object(SPA_PARAM_ROUTE, SPA_PROP_CHANNEL_VOLUMES, PodValue::FloatArray(stereo(volume_bits)));
    route_param(route, props)
}

/// The `Route` parameter that mutes or unmutes a device route.
pub fn device_mute_param(route: RouteInfo, muted: bool) -> (obj: PodObject)
    ensures
        obj.properties@.len() == 4,
        obj.properties@[2].value matches PodValue::Object(inner) && is_route_param(obj, route, inner)
            && is_props_object(inner, SPA_PARAM_ROUTE, SPA_PROP_MUTE, PodValue::Bool(muted)),
{
    // The nested props carry the Route parameter id.
    let props = props_object(SPA_PARAM_ROUTE, SPA_PROP_MUTE, PodValue::Bool(muted));
    route_param(route, props)
}

/// The number of mute reports among events.
pub open spec fn mute_count(events: Seq<PropsEvent>) -> nat
    decreases events.len(),
{
    if events.len() == 0 {
        0
    } else {
        (if events.last() is Mute {
            1nat
        } else {
            0nat
        }) + mute_count(events.drop_last())
    }
}

proof fn lemma_mute_count_concat(a: Seq<PropsEvent>, b: Seq<PropsEvent>)
    ensures
        mute_count(a + b) == mute_count(a) + mute_count(b),
    decreases b.len(),
{
    if b.len() == 0 {
        assert(a + b =~= a);
    } else {
        lemma_mute_count_concat(a, b.drop_last());
        assert((a + b).drop_last() =~= a + b.drop_last());
    }
}

proof fn lemma_volume_event_no_mute(node_id: u32, p: PodProperty)
    ensures
        mute_count(volume_event(node_id, p)) == 0,
{
    let v = volume_event(node_id, p);
    if v.len() > 0 {
        assert(v.len() == 1);
        assert(!(v.last() is Mute));
        assert(v.drop_last() =~= Seq::<PropsEvent>::empty());
        assert(mute_count(v.drop_last()) == 0);
    }
}

proof fn lemma_props_events_mutes(node_id: u32, props: Seq<PodProperty>, mute_sent: bool)
    ensures
        mute_count(props_events(node_id, props, mute_sent)) <= (if mute_sent {
            0nat
        } else {
            1nat
        }),
    decreases props.len(),
{
    if props.len() > 0 {
        let p = props[0];
        lemma_volume_event_no_mute(node_id, p);
        if is_mute(p) && !mute_sent {
            lemma_props_events_mutes(node_id, props.drop_first(), true);
            let m = seq![
                PropsEvent::Mute {
                    node_id,
                    muted: match p.value {
                        PodValue::Bool(b) => b,
                        _ => false,
                    },
                },
            ];
            assert(m.drop_last() =~= Seq::<PropsEvent>::empty());
            lemma_mute_count_concat(volume_event(node_id, p), m);
            lemma_mute_count_concat(
                volume_event(node_id, p) + m,
                props_events(node_id, props.drop_first(), true),
            );
        } else {
            lemma_props_events_mutes(node_id, props.drop_first(), mute_sent);
            lemma_mute_count_concat(
                volume_event(node_id, p),
                props_events(node_id, props.drop_first(), mute_sent),
            );
        }
    }
}

/// A node's parameter yields at most one mute report, however many mute
/// properties it holds.
pub proof fn law_mute_reported_once(node_id: u32, is_route: bool, value: PodValue)
    ensures
        mute_count(props_events(node_id, props_of(is_route, value), false)) <= 1,
{
    lemma_props_events_mutes(node_id, props_of(is_route, value), false);
}

/// A route recorded from a device's `Route` parameter is the one used for a
/// node whose `card.profile.device` names that route's device index.
pub proof fn law_recorded_route_reaches_node(
    s: StateView,
    node_id: u32,
    device_id: u32,
    value: PodValue,
)
    requires
        route_of(value) is Some,
        s.device_info.get(node_id) == Some(
            NodeDeviceInfo {
                device_id,
                card_profile_device: route_of(value)->0.route_device,
            },
        ),
    ensures
        s.with_route(device_id, route_of(value)->0.route_device, route_of(value)->0).node_route_info(
            node_id,
        ) == Some((device_id, route_of(value)->0)),
{
}

/// A node that was added and then removed is announced as removed, and no
/// longer known.
pub proof fn law_added_node_removed(s: StateView, id: u32, info: Option<NodeDeviceInfo>)
    ensures
        s.inserted(id, Item::Node { device_info: info }).items.get(id) matches Some(Item::Node { .. }),
        s.inserted(id, Item::Node { device_info: info }).removed(id).items.get(id) is None,
        !s.inserted(id, Item::Node { device_info: info }).removed(id).device_info.contains_key(id),
{
}

} // verus!
