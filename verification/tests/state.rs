use audio_sharing::connection::{
    control_route, create_link, global_removed, link_info_update, record_device_route,
    register_node, register_port, remove_link, toggle_link, ControlRoute, LinkRequest,
};
use audio_sharing::messages::PipewireMessage;
use audio_sharing::pod::{PodObject, PodProperty, PodValue};
use audio_sharing::state::{Item, NodeDeviceInfo, RouteInfo, State};
use audio_sharing::types::{Direction, MediaType};

fn route_param(index: i32, device: i32) -> PodValue {
    PodValue::Object(PodObject {
        type_: 0x40009,
        id: 13,
        properties: vec![
            PodProperty { key: 1, value: PodValue::Int(index) },
            PodProperty { key: 3, value: PodValue::Int(device) },
        ],
    })
}

#[test]
fn new_state_is_empty() {
    let state = State::new();
    assert!(state.get(1).is_none());
    assert_eq!(state.get_link_id(1, 2), None);
    assert_eq!(state.get_node_of_port(1), None);
    assert!(state.get_node_device_info(1).is_none());
    assert!(state.get_node_route_info(1).is_none());
}

#[test]
fn get_after_insert_gives_item() {
    let mut state = State::new();
    state.insert(7, Item::Port { node_id: 3 });
    assert!(matches!(state.get(7), Some(Item::Port { node_id: 3 })));
    assert_eq!(state.get_node_of_port(7), Some(3));
}

#[test]
fn inserting_link_registers_port_pair() {
    let mut state = State::new();
    state.insert(40, Item::Link { port_from: 10, port_to: 20 });
    assert_eq!(state.get_link_id(10, 20), Some(40));
    assert_eq!(state.get_link_id(20, 10), None);
}

#[test]
fn removing_link_forgets_port_pair() {
    let mut state = State::new();
    state.insert(40, Item::Link { port_from: 10, port_to: 20 });
    let removed = state.remove(40);
    assert!(matches!(removed, Some(Item::Link { port_from: 10, port_to: 20 })));
    assert_eq!(state.get_link_id(10, 20), None);
    assert!(state.get(40).is_none());
}

#[test]
fn removing_absent_id_gives_nothing() {
    let mut state = State::new();
    state.insert(1, Item::Device);
    assert!(state.remove(2).is_none());
    assert!(matches!(state.get(1), Some(Item::Device)));
}

#[test]
fn node_of_port_is_none_for_other_items() {
    let mut state = State::new();
    state.insert(5, Item::Device);
    assert_eq!(state.get_node_of_port(5), None);
}

#[test]
fn device_info_updates_node_item() {
    let mut state = State::new();
    state.insert(5, Item::Node { device_info: None });
    state.set_node_device_info(5, NodeDeviceInfo { device_id: 50, card_profile_device: 2 });
    match state.get(5) {
        Some(Item::Node { device_info: Some(info) }) => {
            assert_eq!(info.device_id, 50);
            assert_eq!(info.card_profile_device, 2);
        }
        _ => panic!("node item should carry the device info"),
    }
    let info = state.get_node_device_info(5).unwrap();
    assert_eq!(info.device_id, 50);
}

#[test]
fn device_info_leaves_other_items_alone() {
    let mut state = State::new();
    state.insert(5, Item::Port { node_id: 1 });
    state.set_node_device_info(5, NodeDeviceInfo { device_id: 50, card_profile_device: 2 });
    assert!(matches!(state.get(5), Some(Item::Port { node_id: 1 })));
    assert_eq!(state.get_node_device_info(5).unwrap().device_id, 50);
}

#[test]
fn node_route_info_follows_device_and_profile() {
    let mut state = State::new();
    state.insert(5, Item::Node { device_info: None });
    state.set_node_device_info(5, NodeDeviceInfo { device_id: 50, card_profile_device: 2 });
    state.set_device_route(50, 1, RouteInfo { route_index: 9, route_device: 1 });
    assert!(state.get_node_route_info(5).is_none());
    state.set_device_route(50, 2, RouteInfo { route_index: 4, route_device: 2 });
    let (device, route) = state.get_node_route_info(5).unwrap();
    assert_eq!(device, 50);
    assert_eq!(route.route_index, 4);
    assert_eq!(route.route_device, 2);
}

#[test]
fn removing_device_drops_its_routes() {
    let mut state = State::new();
    state.insert(50, Item::Device);
    state.insert(5, Item::Node { device_info: None });
    state.set_node_device_info(5, NodeDeviceInfo { device_id: 50, card_profile_device: 0 });
    state.set_device_route(50, 0, RouteInfo { route_index: 1, route_device: 0 });
    state.set_device_route(60, 0, RouteInfo { route_index: 2, route_device: 0 });
    assert!(state.get_node_route_info(5).is_some());
    assert!(matches!(state.remove(50), Some(Item::Device)));
    assert!(state.get_node_route_info(5).is_none());
    state.set_node_device_info(5, NodeDeviceInfo { device_id: 60, card_profile_device: 0 });
    assert_eq!(state.get_node_route_info(5).unwrap().1.route_index, 2);
}

#[test]
fn removing_node_drops_device_info() {
    let mut state = State::new();
    state.insert(5, Item::Node { device_info: None });
    state.set_node_device_info(5, NodeDeviceInfo { device_id: 50, card_profile_device: 0 });
    state.remove(5);
    assert!(state.get_node_device_info(5).is_none());
}

#[test]
fn register_node_records_device_association() {
    let mut state = State::new();
    let info = NodeDeviceInfo { device_id: 77, card_profile_device: 3 };
    let msg = register_node(&mut state, 9, "Speakers".to_string(), None, Some(info));
    assert_eq!(msg, PipewireMessage::NodeAdded { id: 9, name: "Speakers".to_string(), node_type: None });
    assert_eq!(state.get_node_device_info(9).unwrap().device_id, 77);
    assert!(matches!(state.get(9), Some(Item::Node { device_info: Some(_) })));
}

#[test]
fn register_port_announces_first_info_only() {
    let mut state = State::new();
    let first = register_port(&mut state, 11, Some("9"), Some("playback_FL"), Direction::Input);
    assert_eq!(
        first,
        Some(PipewireMessage::PortAdded {
            id: 11,
            node_id: 9,
            name: "playback_FL".to_string(),
            direction: Direction::Input,
        })
    );
    assert_eq!(state.get_node_of_port(11), Some(9));
    let again = register_port(&mut state, 11, None, None, Direction::Input);
    assert_eq!(again, None);
}

#[test]
fn register_port_without_name_uses_empty_name() {
    let mut state = State::new();
    let msg = register_port(&mut state, 12, Some("+4"), None, Direction::Output);
    assert_eq!(
        msg,
        Some(PipewireMessage::PortAdded { id: 12, node_id: 4, name: String::new(), direction: Direction::Output })
    );
}

#[test]
fn link_info_first_then_updates() {
    let mut state = State::new();
    let first = link_info_update(&mut state, 30, 1, 2, true, MediaType::Audio, false, false);
    assert_eq!(
        first,
        vec![PipewireMessage::LinkAdded { id: 30, port_from: 1, port_to: 2, active: true, media_type: MediaType::Audio }]
    );
    assert_eq!(state.get_link_id(1, 2), Some(30));
    let updates = link_info_update(&mut state, 30, 1, 2, false, MediaType::Video, true, true);
    assert_eq!(
        updates,
        vec![
            PipewireMessage::LinkStateChanged { id: 30, active: false },
            PipewireMessage::LinkFormatChanged { id: 30, media_type: MediaType::Video },
        ]
    );
    let quiet = link_info_update(&mut state, 30, 1, 2, false, MediaType::Video, false, false);
    assert!(quiet.is_empty());
}

#[test]
fn global_removal_messages_by_kind() {
    let mut state = State::new();
    state.insert(1, Item::Node { device_info: None });
    state.insert(2, Item::Port { node_id: 1 });
    state.insert(3, Item::Link { port_from: 2, port_to: 4 });
    state.insert(5, Item::Device);
    assert_eq!(global_removed(&mut state, 1), Some(PipewireMessage::NodeRemoved { id: 1 }));
    assert_eq!(global_removed(&mut state, 2), Some(PipewireMessage::PortRemoved { id: 2, node_id: 1 }));
    assert_eq!(global_removed(&mut state, 3), Some(PipewireMessage::LinkRemoved { id: 3 }));
    assert_eq!(global_removed(&mut state, 5), None);
    assert_eq!(global_removed(&mut state, 99), None);
    assert_eq!(state.get_link_id(2, 4), None);
}

#[test]
fn link_requests_follow_state() {
    let mut state = State::new();
    state.insert(10, Item::Port { node_id: 1 });
    state.insert(20, Item::Port { node_id: 2 });
    assert_eq!(
        toggle_link(&state, 10, 20),
        LinkRequest::Create { node_from: 1, port_from: 10, node_to: 2, port_to: 20 }
    );
    assert_eq!(
        create_link(&state, 10, 20),
        Some(LinkRequest::Create { node_from: 1, port_from: 10, node_to: 2, port_to: 20 })
    );
    assert_eq!(remove_link(&state, 10, 20), None);
    state.insert(33, Item::Link { port_from: 10, port_to: 20 });
    assert_eq!(toggle_link(&state, 10, 20), LinkRequest::Destroy { id: 33 });
    assert_eq!(create_link(&state, 10, 20), None);
    assert_eq!(remove_link(&state, 10, 20), Some(LinkRequest::Destroy { id: 33 }));
}

#[test]
fn recorded_route_reaches_node() {
    let mut state = State::new();
    state.insert(5, Item::Node { device_info: None });
    state.set_node_device_info(5, NodeDeviceInfo { device_id: 50, card_profile_device: 1 });
    record_device_route(&mut state, 50, &route_param(6, 1));
    match control_route(&state, 5) {
        ControlRoute::Device { device_id, route } => {
            assert_eq!(device_id, 50);
            assert_eq!(route.route_index, 6);
            assert_eq!(route.route_device, 1);
        }
        ControlRoute::Node => panic!("the route should be known"),
    }
    assert!(matches!(control_route(&state, 6), ControlRoute::Node));
}

#[test]
fn incomplete_route_is_not_recorded() {
    let mut state = State::new();
    state.set_node_device_info(5, NodeDeviceInfo { device_id: 50, card_profile_device: 1 });
    let partial = PodValue::Object(PodObject {
        type_: 0x40009,
        id: 13,
        properties: vec![PodProperty { key: 1, value: PodValue::Int(6) }],
    });
    record_device_route(&mut state, 50, &partial);
    assert!(state.get_node_route_info(5).is_none());
}

#[test]
fn device_info_follows_last_setting_until_node_removed() {
    let mut s = State::new();
    s.insert(4, Item::Node { device_info: Some(NodeDeviceInfo { device_id: 9, card_profile_device: 1 }) });
    assert!(s.get_node_device_info(4).is_none());
    s.set_node_device_info(4, NodeDeviceInfo { device_id: 9, card_profile_device: 1 });
    s.set_node_device_info(4, NodeDeviceInfo { device_id: 8, card_profile_device: 2 });
    assert_eq!(s.get_node_device_info(4).map(|i| (i.device_id, i.card_profile_device)), Some((8, 2)));
    s.insert(8, Item::Device);
    s.set_device_route(8, 2, RouteInfo { route_index: 5, route_device: 2 });
    assert_eq!(s.get_node_route_info(4).map(|(d, r)| (d, r.route_index)), Some((8, 5)));
    s.remove(8);
    assert!(s.get_node_route_info(4).is_none());
    s.remove(4);
    assert!(s.get_node_device_info(4).is_none());
}
