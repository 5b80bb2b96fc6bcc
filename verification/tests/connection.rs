use audio_sharing::connection::{
    device_info, device_mute_param, device_volume_param, is_disconnect, is_disconnect_with,
    media_class_type, node_display_name, node_info_update, node_mute_param, node_props_events,
    node_type, node_volume_param, parse_route, should_enum_formats, ConnectionTracker,
    ControlMessage, LoopState, ParamInfo, PropsEvent,
};
use audio_sharing::messages::PipewireMessage;
use audio_sharing::pod::{PodObject, PodProperty, PodValue};
use audio_sharing::state::{RouteInfo, State};
use audio_sharing::text::{parse_i32, parse_u32, str_contains, str_eq};
use audio_sharing::types::NodeType;

fn object(properties: Vec<PodProperty>) -> PodValue {
    PodValue::Object(PodObject { type_: 0x40002, id: 2, properties })
}

fn prop(key: u32, value: PodValue) -> PodProperty {
    PodProperty { key, value }
}

#[test]
fn substring_search() {
    assert!(str_contains("Audio/Sink", "Sink"));
    assert!(!str_contains("Audio/Source", "Sink"));
    assert!(str_contains("abc", ""));
    assert!(!str_contains("ab", "abc"));
    assert!(str_contains("aab", "ab"));
    assert!(str_eq("x", "x"));
    assert!(!str_eq("x", "y"));
}

#[test]
fn parse_unsigned_like_std() {
    for s in ["0", "42", "+7", "007", "4294967295", "4294967296", "", "+", "-1", "1a", " 1", "99999999999"] {
        assert_eq!(parse_u32(s), s.parse::<u32>().ok(), "input {s:?}");
    }
}

#[test]
fn parse_signed_like_std() {
    for s in ["0", "-0", "-1", "+5", "2147483647", "2147483648", "-2147483648", "-2147483649", "-", "", "--1", "12x"] {
        assert_eq!(parse_i32(s), s.parse::<i32>().ok(), "input {s:?}");
    }
}

#[test]
fn media_class_classification() {
    assert_eq!(media_class_type("Audio/Sink"), Some(NodeType::Input));
    assert_eq!(media_class_type("Stream/Input/Audio"), Some(NodeType::Input));
    assert_eq!(media_class_type("Audio/Source"), Some(NodeType::Output));
    assert_eq!(media_class_type("Stream/Output/Audio"), Some(NodeType::Output));
    assert_eq!(media_class_type("Video/Device"), None);
}

#[test]
fn node_type_is_decided_by_class() {
    assert_eq!(node_type(Some("Duplex"), Some("Audio/Sink")), Some(NodeType::Input));
    assert_eq!(node_type(Some("Playback"), Some("Audio/Source")), Some(NodeType::Output));
    assert_eq!(node_type(None, Some("Stream/Output/Audio")), Some(NodeType::Output));
    assert_eq!(node_type(Some("Capture"), None), None);
    assert_eq!(node_type(None, None), None);
}

#[test]
fn display_name_fallback_chain() {
    assert_eq!(node_display_name(Some("Desc"), Some("Nick"), Some("name")), "Desc");
    assert_eq!(node_display_name(None, Some("Nick"), Some("name")), "Nick");
    assert_eq!(node_display_name(None, None, Some("name")), "name");
    assert_eq!(node_display_name(None, None, None), "");
}

#[test]
fn device_info_parsing() {
    let info = device_info(Some("45"), Some("2")).unwrap();
    assert_eq!((info.device_id, info.card_profile_device), (45, 2));
    let info = device_info(Some("45"), None).unwrap();
    assert_eq!(info.card_profile_device, 0);
    let info = device_info(Some("45"), Some("x")).unwrap();
    assert_eq!(info.card_profile_device, 0);
    assert!(device_info(Some("abc"), Some("2")).is_none());
    assert!(device_info(None, Some("2")).is_none());
}

#[test]
fn node_info_sets_device_and_names() {
    let mut state = State::new();
    let msg = node_info_update(&mut state, 8, Some("12"), Some("3"), Some("Song"), "Player");
    assert_eq!(
        msg,
        Some(PipewireMessage::NodeNameChanged { id: 8, name: "Player".to_string(), media_name: "Song".to_string() })
    );
    assert_eq!(state.get_node_device_info(8).unwrap().device_id, 12);
    let none = node_info_update(&mut state, 9, None, None, None, "X");
    assert_eq!(none, None);
    assert!(state.get_node_device_info(9).is_none());
}

#[test]
fn enum_format_needs_readable_first_entry() {
    let p = |is_enum_format, readable| ParamInfo { is_enum_format, readable };
    assert!(should_enum_formats(&vec![p(false, true), p(true, true)]));
    assert!(!should_enum_formats(&vec![p(true, false), p(true, true)]));
    assert!(!should_enum_formats(&vec![p(false, true)]));
    assert!(!should_enum_formats(&vec![]));
}

#[test]
fn route_takes_last_integer_per_key() {
    let param = object(vec![
        prop(1, PodValue::Int(3)),
        prop(3, PodValue::Int(5)),
        prop(1, PodValue::Int(4)),
        prop(3, PodValue::Bool(true)),
        prop(10, PodValue::Other),
    ]);
    let route = parse_route(&param).unwrap();
    assert_eq!((route.route_index, route.route_device), (4, 5));
    assert!(parse_route(&object(vec![prop(1, PodValue::Int(3))])).is_none());
    assert!(parse_route(&PodValue::Int(3)).is_none());
}

#[test]
fn props_report_volumes_and_first_mute() {
    let half: f32 = 0.125;
    let param = object(vec![
        prop(0x10004, PodValue::Bool(true)),
        prop(0x10008, PodValue::FloatArray(vec![half.to_bits(), 1.0f32.to_bits()])),
        prop(0x10004, PodValue::Bool(false)),
        prop(0x10008, PodValue::FloatArray(vec![])),
        prop(0x10003, PodValue::FloatArray(vec![1])),
    ]);
    let events = node_props_events(7, false, &param);
    assert_eq!(
        events,
        vec![
            PropsEvent::Mute { node_id: 7, muted: true },
            PropsEvent::VolumeF32 { node_id: 7, f32_bits: half.to_bits() },
        ]
    );
}

#[test]
fn route_props_are_read_from_nested_object() {
    let inner = PodObject {
        type_: 0x40002,
        id: 13,
        properties: vec![
            prop(0x10008, PodValue::DoubleArray(vec![0.5f64.to_bits()])),
            prop(0x10004, PodValue::Bool(false)),
        ],
    };
    let param = object(vec![prop(1, PodValue::Int(0)), prop(10, PodValue::Object(inner))]);
    let events = node_props_events(3, true, &param);
    assert_eq!(
        events,
        vec![
            PropsEvent::VolumeF64 { node_id: 3, f64_bits: 0.5f64.to_bits() },
            PropsEvent::Mute { node_id: 3, muted: false },
        ]
    );
    // Read as Props, the same object holds no volume or mute property.
    assert!(node_props_events(3, false, &param).is_empty());
    // A Route without nested props reports nothing.
    assert!(node_props_events(3, true, &object(vec![prop(10, PodValue::Int(1))])).is_empty());
}

#[test]
fn volume_and_mute_params() {
    let bits = 0.5f32.to_bits();
    let v = node_volume_param(bits);
    assert_eq!((v.type_, v.id), (0x40002, 2));
    assert_eq!(v.properties.len(), 1);
    assert_eq!(v.properties[0].key, 0x10008);
    assert!(matches!(&v.properties[0].value, PodValue::FloatArray(a) if a == &vec![bits, bits]));
    let m = node_mute_param(true);
    assert_eq!(m.properties[0].key, 0x10004);
    assert!(matches!(m.properties[0].value, PodValue::Bool(true)));
    let route = RouteInfo { route_index: 2, route_device: 5 };
    let d = device_volume_param(route, bits);
    assert_eq!((d.type_, d.id), (0x40009, 13));
    let keys: Vec<u32> = d.properties.iter().map(|p| p.key).collect();
    assert_eq!(keys, vec![1, 3, 10, 13]);
    assert!(matches!(d.properties[0].value, PodValue::Int(2)));
    assert!(matches!(d.properties[1].value, PodValue::Int(5)));
    assert!(matches!(d.properties[3].value, PodValue::Bool(true)));
    match &d.properties[2].value {
        PodValue::Object(inner) => {
            assert_eq!((inner.type_, inner.id), (0x40002, 13));
            assert!(matches!(&inner.properties[0].value, PodValue::FloatArray(a) if a == &vec![bits, bits]));
        }
        _ => panic!("nested props expected"),
    }
    let dm = device_mute_param(route, false);
    match &dm.properties[2].value {
        PodValue::Object(inner) => assert!(matches!(inner.properties[0].value, PodValue::Bool(false))),
        _ => panic!("nested props expected"),
    }
}

#[test]
fn loop_state_handles_control_messages() {
    let mut s = LoopState::new();
    assert!(s.handle_message(ControlMessage::Connect(Some("remote-1".to_string()))));
    assert_eq!(s.remote_name.as_deref(), Some("remote-1"));
    assert!(!s.is_stopped);
    assert!(s.handle_message(ControlMessage::Connect(None)));
    assert_eq!(s.remote_name, None);
    assert!(!s.handle_message(ControlMessage::Other));
    assert!(s.handle_message(ControlMessage::Terminate));
    assert!(s.is_stopped);
}

#[test]
fn connection_announcements_happen_once() {
    let mut t = ConnectionTracker::new();
    assert!(!t.connected());
    assert!(t.connect_failed());
    assert!(!t.connect_failed());
    assert!(t.connected());
    assert!(!t.connected());
}

#[test]
fn disconnect_is_broken_pipe_on_core() {
    assert!(is_disconnect_with(0, 0, -32, 32));
    assert!(!is_disconnect_with(1, 0, -32, 32));
    assert!(!is_disconnect_with(0, 0, -5, 32));
    assert!(is_disconnect(0, 0, -libc::EPIPE));
    assert!(!is_disconnect(3, 0, -libc::EPIPE));
    assert!(!is_disconnect(0, 0, libc::EPIPE));
    assert!(!is_disconnect(0, 0, 0));
}

#[test]
fn connection_run_announces_once_each() {
    let mut t = ConnectionTracker::new();
    let mut announced = Vec::new();
    for _ in 0..3 {
        if t.connect_failed() {
            announced.push(PipewireMessage::Connecting);
        }
    }
    if t.connected() {
        announced.push(PipewireMessage::Connected);
    }
    assert_eq!(announced, vec![PipewireMessage::Connecting, PipewireMessage::Connected]);
    let mut first_try = ConnectionTracker::new();
    assert!(!first_try.connected());
}
