//! Registry of the PipeWire objects that the connection thread keeps track of.

use std::collections::HashMap;
use vstd::prelude::*;

verus! {

broadcast use vstd::std_specs::hash::group_hash_axioms;

/// Route information for a device.
#[derive(Clone, Copy, Debug)]
pub struct RouteInfo {
    pub route_index: i32,
    pub route_device: i32,
}

/// Info about a node's device association.
#[derive(Clone, Copy, Debug)]
pub struct NodeDeviceInfo {
    pub device_id: u32,
    /// The `card.profile.device` property: which route of the device applies to this node.
    pub card_profile_device: i32,
}

/// Any PipeWire item that is tracked, stored under its id.
#[derive(Clone, Copy, Debug)]
pub enum Item {
    Node { device_info: Option<NodeDeviceInfo> },
    /// The id of the node the port is on, so that the port can be removed from it.
    Port { node_id: u32 },
    Link { port_from: u32, port_to: u32 },
    Device,
}

/// Abstract contents of a [`State`].
pub struct StateView {
    /// PipeWire ids to items.
    pub items: Map<u32, Item>,
    /// `(output port, input port)` to the id of the link that connects them.
    pub links: Map<(u32, u32), u32>,
    /// `(device id, route device)` to route info.
    pub routes: Map<(u32, i32), RouteInfo>,
    /// Node ids to their device association.
    pub device_info: Map<u32, NodeDeviceInfo>,
}

impl StateView {
    pub open spec fn empty() -> StateView {
        StateView {
            items: Map::empty(),
            links: Map::empty(),
            routes: Map::empty(),
            device_info: Map::empty(),
        }
    }

    /// The state after an item is added under `id`.
    pub open spec fn inserted(self, id: u32, item: Item) -> StateView {
        StateView {
            items: self.items.insert(id, item),
            links: match item {
                Item::Link { port_from, port_to } => self.links.insert((port_from, port_to), id),
                _ => self.links,
            },
            ..self
        }
    }

    /// The state after the item under `id` is removed.
    pub open spec fn removed(self, id: u32) -> StateView {
        StateView {
            items: self.items.remove(id),
            links: match self.items.get(id) {
                Some(Item::Link { port_from, port_to }) => self.links.remove((port_from, port_to)),
                _ => self.links,
            },
            routes: match self.items.get(id) {
                Some(Item::Device) => self.routes.filter_keys(|k: (u32, i32)| k.0 != id),
                _ => self.routes,
            },
            device_info: match self.items.get(id) {
                Some(Item::Node { .. }) => self.device_info.remove(id),
                _ => self.device_info,
            },
        }
    }

    pub open spec fn link_id(self, output_port: u32, input_port: u32) -> Option<u32> {
        self.links.get((output_port, input_port))
    }

    pub open spec fn node_of_port(self, port: u32) -> Option<u32> {
        match self.items.get(port) {
            Some(Item::Port { node_id }) => Some(node_id),
            _ => None,
        }
    }

    /// The state after a node's device association is set.
    pub open spec fn with_device_info(self, node_id: u32, info: NodeDeviceInfo) -> StateView {
        StateView {
            device_info: self.device_info.insert(node_id, info),
            items: match self.items.get(node_id) {
                Some(Item::Node { .. }) => self.items.insert(
                    node_id,
                    Item::Node { device_info: Some(info) },
                ),
                _ => self.items,
            },
            ..self
        }
    }

    /// The state after a device route is recorded.
    pub open spec fn with_route(self, device_id: u32, route_device: i32, route: RouteInfo) -> StateView {
        StateView { routes: self.routes.insert((device_id, route_device), route), ..self }
    }

    /// The device of a node and the route of that device that applies to it.
    pub open spec fn node_route_info(self, node_id: u32) -> Option<(u32, RouteInfo)> {
        match self.device_info.get(node_id) {
            Some(info) => match self.routes.get((info.device_id, info.card_profile_device)) {
                Some(route) => Some((info.device_id, route)),
                None => None,
            },
            None => None,
        }
    }
}

/// A read of an id gives back the item last added under it.
pub proof fn law_get_after_insert(s: StateView, id: u32, item: Item)
    ensures
        s.inserted(id, item).items.get(id) == Some(item),
{
}

/// Once a link item is added, its pair of ports leads back to the link's id.
pub proof fn law_link_id_after_insert(s: StateView, id: u32, port_from: u32, port_to: u32)
    ensures
        s.inserted(id, Item::Link { port_from, port_to }).link_id(port_from, port_to) == Some(id),
{
}

/// Adding a port records the node it is on.
pub proof fn law_node_of_port_after_insert(s: StateView, port: u32, node_id: u32)
    ensures
        s.inserted(port, Item::Port { node_id }).node_of_port(port) == Some(node_id),
{
}

/// Removing an item right after adding it hands the item back and leaves the
/// items and link lookups as they were, except for that id and that pair of ports.
pub proof fn law_remove_undoes_insert(s: StateView, id: u32, item: Item)
    ensures
        s.inserted(id, item).items.get(id) == Some(item),
        s.inserted(id, item).removed(id).items == s.items.remove(id),
        match item {
            Item::Link { port_from, port_to } => s.inserted(id, item).removed(id).links
                == s.links.remove((port_from, port_to)),
            _ => s.inserted(id, item).removed(id).links == s.links,
        },
{
    assert(s.inserted(id, item).removed(id).items =~= s.items.remove(id));
    match item {
        Item::Link { port_from, port_to } => {
            assert(s.inserted(id, item).removed(id).links =~= s.links.remove((port_from, port_to)));
        },
        _ => {},
    }
}

/// Removing an id that holds nothing changes nothing.
pub proof fn law_remove_absent_is_noop(s: StateView, id: u32)
    requires
        !s.items.contains_key(id),
    ensures
        s.removed(id) == s,
{
    assert(s.removed(id).items =~= s.items);
}

/// After a link is removed, its ports are no longer linked in the lookup.
pub proof fn law_removed_link_forgotten(s: StateView, id: u32, port_from: u32, port_to: u32)
    requires
        s.items.get(id) == Some(Item::Link { port_from, port_to }),
    ensures
        s.removed(id).link_id(port_from, port_to) is None,
        s.removed(id).items.get(id) is None,
{
}

/// After a device is removed, none of its routes remain, so no node reaches a
/// route through it.
pub proof fn law_removed_device_has_no_routes(s: StateView, id: u32)
    requires
        s.items.get(id) == Some(Item::Device),
    ensures
        forall|route_device: i32| !#[trigger] s.removed(id).routes.contains_key((id, route_device)),
        forall|node: u32|
            #![trigger s.removed(id).node_route_info(node)]
            s.device_info.contains_key(node) && s.device_info[node].device_id == id
                ==> s.removed(id).node_route_info(node) is None,
{
}

/// After a node is removed, its device association is gone.
pub proof fn law_removed_node_loses_device_info(s: StateView, id: u32, info: Option<NodeDeviceInfo>)
    requires
        s.items.get(id) == Some(Item::Node { device_info: info }),
    ensures
        !s.removed(id).device_info.contains_key(id),
        s.removed(id).node_route_info(id) is None,
{
}

/// A node associated with a device, whose matching route is known, reaches that route.
pub proof fn law_node_route_after_setup(
    s: StateView,
    node_id: u32,
    info: NodeDeviceInfo,
    route: RouteInfo,
)
    ensures
        s.with_device_info(node_id, info).with_route(
            info.device_id,
            info.card_profile_device,
            route,
        ).node_route_info(node_id) == Some((info.device_id, route)),
{
}

/// One of the calls that change a [`State`], with its arguments.
pub enum StateCall {
    Insert { id: u32, item: Item },
    Remove { id: u32 },
    SetNodeDeviceInfo { node_id: u32, info: NodeDeviceInfo },
    SetDeviceRoute { device_id: u32, route_device: i32, route: RouteInfo },
}

/// The state after one call, as the call's own contract states it.
pub open spec fn after_call(s: StateView, call: StateCall) -> StateView {
    match call {
        StateCall::Insert { id, item } => s.inserted(id, item),
        StateCall::Remove { id } => s.removed(id),
        StateCall::SetNodeDeviceInfo { node_id, info } => s.with_device_info(node_id, info),
        StateCall::SetDeviceRoute { device_id, route_device, route } => s.with_route(
            device_id,
            route_device,
            route,
        ),
    }
}

/// The state reached from a new one by the calls, in order.
pub open spec fn after_calls(calls: Seq<StateCall>) -> StateView
    decreases calls.len(),
{
    if calls.len() == 0 {
        StateView::empty()
    } else {
        after_call(after_calls(calls.drop_last()), calls.last())
    }
}

/// Whether the last call removes a node under `id`: a removal of `id` while
/// a node is stored there.
pub open spec fn removes_node(calls: Seq<StateCall>, id: u32) -> bool {
    calls.len() > 0 && calls.last() == (StateCall::Remove { id }) && after_calls(
        calls.drop_last(),
    ).items.get(id) matches Some(Item::Node { .. })
}

/// Whether the last call removes a device under `id`.
pub open spec fn removes_device(calls: Seq<StateCall>, id: u32) -> bool {
    calls.len() > 0 && calls.last() == (StateCall::Remove { id }) && after_calls(
        calls.drop_last(),
    ).items.get(id) == Some(Item::Device)
}

/// A node's device association as the history of calls gives it: the last
/// `set_node_device_info` for the node, unless a removal of the node came
/// after it. Adding a node item does not set it.
pub open spec fn last_device_info(calls: Seq<StateCall>, n: u32) -> Option<NodeDeviceInfo>
    decreases calls.len(),
{
    if calls.len() == 0 {
        None
    } else if calls.last() matches StateCall::SetNodeDeviceInfo { node_id, info } && node_id == n {
        Some(calls.last()->info)
    } else if removes_node(calls, n) {
        None
    } else {
        last_device_info(calls.drop_last(), n)
    }
}

/// A device route as the history of calls gives it: the last
/// `set_device_route` for the device and route device, unless a removal of
/// the device came after it.
pub open spec fn last_route(calls: Seq<StateCall>, d: u32, rd: i32) -> Option<RouteInfo>
    decreases calls.len(),
{
    if calls.len() == 0 {
        None
    } else if calls.last() matches StateCall::SetDeviceRoute { device_id, route_device, route }
        && device_id == d && route_device == rd {
        Some(calls.last()->route)
    } else if removes_device(calls, d) {
        None
    } else {
        last_route(calls.drop_last(), d, rd)
    }
}

/// Whatever calls were made since the state was new, a node's device
/// association is the one its last `set_node_device_info` gave, unless the
/// node was removed after it, and none otherwise.
pub proof fn law_device_info_history(calls: Seq<StateCall>, n: u32)
    ensures
        after_calls(calls).device_info.get(n) == last_device_info(calls, n),
    decreases calls.len(),
{
    if calls.len() > 0 {
        law_device_info_history(calls.drop_last(), n);
    }
}

/// Whatever calls were made since the state was new, a device route is the
/// one its last `set_device_route` gave, unless the device was removed after
/// it, and none otherwise.
pub proof fn law_route_history(calls: Seq<StateCall>, d: u32, rd: i32)
    ensures
        after_calls(calls).routes.get((d, rd)) == last_route(calls, d, rd),
    decreases calls.len(),
{
    if calls.len() > 0 {
        law_route_history(calls.drop_last(), d, rd);
    }
}

/// Whatever calls were made since the state was new, a node reaches the
/// route that the history gives for its device association, and nothing
/// when it has no association or that route is not known.
pub proof fn law_node_route_history(calls: Seq<StateCall>, n: u32)
    ensures
        after_calls(calls).node_route_info(n) == match last_device_info(calls, n) {
            Some(i) => match last_route(calls, i.device_id, i.card_profile_device) {
                Some(r) => Some((i.device_id, r)),
                None => None,
            },
            None => None,
        },
{
    law_device_info_history(calls, n);
    match last_device_info(calls, n) {
        Some(i) => law_route_history(calls, i.device_id, i.card_profile_device),
        None => {},
    }
}

/// Keeps track of the relevant PipeWire items and stores them under their ids.
///
/// Given two port ids, it can also find the id of the link that connects them.
///
/// The lookups keyed by two ids are kept as two levels of maps keyed by one
/// integer each, whose hashing vstd specifies; their view is the map keyed by pairs.
pub struct State {
    items: HashMap<u32, Item>,
    /// Output port, then input port, to the id of the link between them.
    links: HashMap<u32, HashMap<u32, u32>>,
    /// Device id, then route device, to the route.
    device_routes: HashMap<u32, HashMap<i32, RouteInfo>>,
    node_device_info: HashMap<u32, NodeDeviceInfo>,
}

/// Flattens a two-level map into a map keyed by pairs.
pub open spec fn flatten<A, B, V>(m: Map<A, HashMap<B, V>>) -> Map<(A, B), V> {
    Map::new(
        |k: (A, B)| m.contains_key(k.0) && m[k.0]@.contains_key(k.1),
        |k: (A, B)| m[k.0]@[k.1],
    )
}

impl View for State {
    type V = StateView;

    closed spec fn view(&self) -> StateView {
        StateView {
            items: self.items@,
            links: flatten(self.links@),
            routes: flatten(self.device_routes@),
            device_info: self.node_device_info@,
        }
    }
}

impl State {
    /// Create a new, empty state.
    pub fn new() -> (s: Self)
        ensures
            s@ == StateView::empty(),
    {
        let s = State {
            items: HashMap::new(),
            links: HashMap::new(),
            device_routes: HashMap::new(),
            node_device_info: HashMap::new(),
        };
        proof {
            assert(s@.links =~= Map::empty());
            assert(s@.routes =~= Map::empty());
        }
        s
    }

    /// Add a new item under the specified id.
    pub fn insert(&mut self, id: u32, item: Item)
        ensures
            final(self)@ == old(self)@.inserted(id, item),
    {
        if let Item::Link { port_from, port_to } = item {
            let ghost before = self.links@;
            let mut inner = match self.links.remove(&port_from) {
                Some(m) => m,
                None => HashMap::new(),
            };
            inner.insert(port_to, id);
            self.links.insert(port_from, inner);
            proof {
                assert(flatten(self.links@) =~= flatten(before).insert((port_from, port_to), id));
            }
        }
        self.items.insert(id, item);
    }

    /// Get the item that has the specified id.
    pub fn get(&self, id: u32) -> (r: Option<&Item>)
        ensures
            r is Some <==> self@.items.contains_key(id),
            r matches Some(i) ==> *i == self@.items[id],
    {
        self.items.get(&id)
    }

    /// Get the id of the link that links the two specified ports.
    pub fn get_link_id(&self, output_port: u32, input_port: u32) -> (r: Option<u32>)
        ensures
            r == self@.link_id(output_port, input_port),
    {
        match self.links.get(&output_port) {
            Some(inner) => match inner.get(&input_port) {
                Some(id) => Some(*id),
                None => None,
            },
            None => None,
        }
    }

    /// Remove the item with the specified id, returning it if it exists.
    pub fn remove(&mut self, id: u32) -> (r: Option<Item>)
        ensures
            r == old(self)@.items.get(id),
            final(self)@ == old(self)@.removed(id),
    {
        let removed = self.items.remove(&id);
        match removed {
            Some(Item::Link { port_from, port_to }) => {
                let ghost before = self.links@;
                if let Some(mut inner) = self.links.remove(&port_from) {
                    inner.remove(&port_to);
                    self.links.insert(port_from, inner);
                }
                proof {
                    assert(flatten(self.links@) =~= flatten(before).remove((port_from, port_to)));
                }
            },
            Some(Item::Node { .. }) => {
                self.node_device_info.remove(&id);
            },
            Some(Item::Device) => {
                // Remove all routes for this device.
                let ghost before = self.device_routes@;
                self.device_routes.remove(&id);
                proof {
                    assert(flatten(self.device_routes@) =~= flatten(before).filter_keys(
                        |k: (u32, i32)| k.0 != id,
                    ));
                }
            },
            _ => {},
        }
        proof {
            assert(self@.items =~= old(self)@.removed(id).items);
            assert(self@.links =~= old(self)@.removed(id).links);
            assert(self@.routes =~= old(self)@.removed(id).routes);
            assert(self@.device_info =~= old(self)@.removed(id).device_info);
        }
        removed
    }

    /// Get the id of the node a port is on.
    pub fn get_node_of_port(&self, port: u32) -> (r: Option<u32>)
        ensures
            r == self@.node_of_port(port),
    {
        if let Some(Item::Port { node_id }) = self.get(port) {
            Some(*node_id)
        } else {
            None
        }
    }

    /// Set the device association for a node.
    pub fn set_node_device_info(&mut self, node_id: u32, info: NodeDeviceInfo)
        ensures
            final(self)@ == old(self)@.with_device_info(node_id, info),
    {
        self.node_device_info.insert(node_id, info);
        // Update the item if it is a node.
        let is_node = match self.items.get(&node_id) {
            Some(Item::Node { .. }) => true,
            _ => false,
        };
        if is_node {
            self.items.insert(node_id, Item::Node { device_info: Some(info) });
        }
    }

    /// Get the device info for a node.
    pub fn get_node_device_info(&self, node_id: u32) -> (r: Option<&NodeDeviceInfo>)
        ensures
            r is Some <==> self@.device_info.contains_key(node_id),
            r matches Some(i) ==> *i == self@.device_info[node_id],
    {
        self.node_device_info.get(&node_id)
    }

    /// Set the route info for a device route.
    pub fn set_device_route(&mut self, device_id: u32, route_device: i32, route_info: RouteInfo)
        ensures
            final(self)@ == old(self)@.with_route(device_id, route_device, route_info),
    {
        let ghost before = self.device_routes@;
        let mut inner = match self.device_routes.remove(&device_id) {
            Some(m) => m,
            None => HashMap::new(),
        };
        inner.insert(route_device, route_info);
        self.device_routes.insert(device_id, inner);
        proof {
            assert(flatten(self.device_routes@) =~= flatten(before).insert(
                (device_id, route_device),
                route_info,
            ));
        }
    }

    /// Get route info for a node, via its device and `card.profile.device`.
    pub fn get_node_route_info(&self, node_id: u32) -> (r: Option<(u32, &RouteInfo)>)
        ensures
            r is Some <==> self@.node_route_info(node_id) is Some,
            r matches Some(p) ==> self@.node_route_info(node_id) == Some((p.0, *p.1)),
    {
        let node_info = match self.node_device_info.get(&node_id) {
            Some(i) => i,
            None => return None,
        };
        let inner = match self.device_routes.get(&node_info.device_id) {
            Some(m) => m,
            None => return None,
        };
        match inner.get(&node_info.card_profile_device) {
            Some(route_info) => Some((node_info.device_id, route_info)),
            None => None,
        }
    }
}

} // verus!
