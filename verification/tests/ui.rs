use audio_sharing::candidate::{CandidateData, CandidateType};
use audio_sharing::types::{Direction, MediaType, Node, Port};
use audio_sharing::ui::{
    clone_candidates, color_for_media_type, is_linkable_to, link_ends, mute_icon_name, port_alignment,
    port_allocation, port_css_class, port_handle_measure, port_label_for_size, port_measure_horizontal,
    port_measure_vertical, status_display, Alignment, Allocation, ColorSlot, Dropdown, DropdownSlot,
    MainView, Measure,
};
use std::collections::HashSet;

fn cands() -> Vec<CandidateData> {
    vec![
        CandidateData::new(2, CandidateType::Device, "Headphones".to_string()),
        CandidateData::new(3, CandidateType::Device, "Speakers".to_string()),
    ]
}

#[test]
fn candidate_type_raw_codes() {
    assert_eq!(CandidateType::Application.as_raw(), 0);
    assert_eq!(CandidateType::Device.as_raw(), 1);
    assert_eq!(CandidateType::from_raw(1), CandidateType::Device);
    assert_eq!(CandidateType::from_raw(0), CandidateType::Application);
    assert_eq!(CandidateType::from_raw(7), CandidateType::Application);
    assert_eq!(CandidateType::from_raw(CandidateType::Device.as_raw()), CandidateType::Device);
    assert_eq!(CandidateType::default(), CandidateType::Application);
    assert_eq!(CandidateType::Device.icon_name(), "audio-card-symbolic");
    assert_eq!(CandidateType::Application.icon_name(), "application-x-executable-symbolic");
}

#[test]
fn candidate_data_accessors() {
    let mut c = CandidateData::default();
    assert_eq!((c.id(), c.kind(), c.label()), (0, CandidateType::Application, String::new()));
    c.set_id(4);
    c.set_kind(CandidateType::Device);
    c.set_label("Card".to_string());
    assert_eq!((c.id(), c.kind(), c.label()), (4, CandidateType::Device, "Card".to_string()));
    let copy = c.clone();
    assert_eq!(copy.label(), "Card");
    let list = clone_candidates(&cands());
    assert_eq!(list.len(), 2);
    assert_eq!(list[1].label(), "Speakers");
}

#[test]
fn node_ports_by_label_and_id() {
    let mut n = Node::new("Sink", 2);
    assert_eq!((n.get_id(), n.get_name()), (2, "Sink".to_string()));
    n.add_port(Port::new("playback_FL", 21, Direction::Input));
    n.add_port(Port::new("playback_FR", 22, Direction::Input));
    assert!(n.has_port_by_label("playback_FR"));
    assert!(!n.has_port_by_label("monitor_FR"));
    assert_eq!(n.get_port_by_label("playback_FL").unwrap().get_id(), 21);
    assert_eq!(n.get_port_labels(), vec!["playback_FL".to_string(), "playback_FR".to_string()]);
    n.add_port(Port::new("renamed", 21, Direction::Output));
    assert_eq!(n.get_port_labels(), vec!["renamed".to_string(), "playback_FR".to_string()]);
    assert_eq!(n.get_port(21).unwrap().get_direction(), Direction::Output);
    n.get_port_mut(22).unwrap().set_media_type(MediaType::Audio);
    assert_eq!(n.get_port(22).unwrap().get_media_type(), MediaType::Audio);
    n.remove_port(21);
    assert!(n.get_port(21).is_none());
    assert_eq!(n.get_port_labels(), vec!["playback_FR".to_string()]);
    n.set_name("Other");
    n.set_media_name("Song");
    assert_eq!(n.get_name(), "Other");
}

#[test]
fn port_setters() {
    let mut p = Port::new("a", 1, Direction::Input);
    assert_eq!(p.get_media_type(), MediaType::Unknown);
    p.set_label("b".to_string());
    p.set_direction(Direction::Output);
    assert_eq!((p.get_label(), p.get_direction()), ("b".to_string(), Direction::Output));
}

#[test]
fn dropdown_confirm_and_edit() {
    let mut d = Dropdown::new();
    d.update_candidates(cands());
    assert!(!d.confirm_sensitive());
    assert_eq!(d.confirm(), None);
    d.set_selected(Some(1));
    assert!(d.confirm_sensitive());
    assert_eq!(d.selected_candidate().unwrap().id(), 3);
    assert_eq!(d.confirm(), Some((3, CandidateType::Device)));
    assert_eq!(d.confirmed_node_id(), Some(3));
    assert_eq!(d.control_target(), Some(3));
    assert_eq!(d.remove_requested_id(), 3);
    assert_eq!(d.edit(), Some(3));
    assert_eq!(d.confirmed_node_id(), None);
    assert_eq!(d.remove_requested_id(), 0);
    assert_eq!(d.edit(), None);
    d.set_selected(Some(5));
    assert!(d.selected_candidate().is_none());
}

#[test]
fn dropdown_disabled_candidates() {
    let mut d = Dropdown::new();
    d.update_candidates(cands());
    d.set_selected(Some(0));
    let mut ids = HashSet::new();
    ids.insert(2);
    assert_eq!(d.set_disabled_ids(ids), Some(false));
    assert!(!d.confirm_sensitive());
    assert_eq!(d.confirm(), None);
    assert_eq!(d.set_disabled_ids(HashSet::new()), Some(true));
    d.set_selected(None);
    assert_eq!(d.set_disabled_ids(HashSet::new()), None);
    d.set_removable(true);
    assert!(d.removable());
}

#[test]
fn mute_icons() {
    assert_eq!(mute_icon_name(true), "audio-volume-muted-symbolic");
    assert_eq!(mute_icon_name(false), "audio-volume-high-symbolic");
}

#[test]
fn main_view_target_dropdowns() {
    let mut m = MainView::new();
    assert_eq!(m.target_count(), 1);
    assert!(!m.target_dd(0).removable());
    m.update_candidates(vec![CandidateData::new(1, CandidateType::Application, "Player".to_string())], cands());
    assert_eq!(m.add_target_dropdown(), 1);
    assert!(m.target_dd(0).removable() && m.target_dd(1).removable());
    let mut second = m.target_dd(1).selected_candidate();
    assert!(second.is_none());
    let removed = m.remove_target_dropdown(1);
    assert_eq!(removed, 0);
    assert_eq!(m.target_count(), 1);
    assert!(!m.target_dd(0).removable());
    second = None;
    assert!(second.is_none());
    assert_eq!(m.source_dd().confirmed_node_id(), None);
}

#[test]
fn volume_goes_to_confirming_dropdown() {
    let mut m = MainView::new();
    assert_eq!(m.dropdown_for_node(3), None);
    m.update_candidates(vec![CandidateData::new(1, CandidateType::Application, "Player".to_string())], cands());
    m.source_dd_mut().set_selected(Some(0));
    assert_eq!(m.source_dd_mut().confirm(), Some((1, CandidateType::Application)));
    assert_eq!(m.add_target_dropdown(), 1);
    assert_eq!(m.target_dd(1).candidates().len(), 2);
    assert_eq!(m.target_dd(1).candidates()[1].label(), "Speakers");
    m.target_dd_mut(1).set_selected(Some(1));
    assert_eq!(m.target_dd_mut(1).confirm(), Some((3, CandidateType::Device)));
    assert_eq!(m.target_dd(0).confirmed_node_id(), None);
    assert_eq!(m.dropdown_for_node(1), Some(DropdownSlot::Source));
    assert_eq!(m.dropdown_for_node(3), Some(DropdownSlot::Target(1)));
    assert_eq!(m.dropdown_for_node(2), None);
    assert_eq!(m.remove_target_dropdown(1), 3);
    assert_eq!(m.dropdown_for_node(3), None);
}

#[test]
fn status_line_text() {
    let s = status_display(true, 2, None);
    assert_eq!((s.icon, s.text.as_str()), ("media-playback-start-symbolic", "Mirroring to 2 device(s)"));
    let s = status_display(true, 10, Some("link lost"));
    assert_eq!(s.text, "Mirroring to 10 device(s) - link lost");
    let s = status_display(true, 4294967295, None);
    assert_eq!(s.text, "Mirroring to 4294967295 device(s)");
    let s = status_display(false, 3, Some("x"));
    assert_eq!((s.icon, s.text.as_str()), ("media-playback-stop-symbolic", "Not mirroring"));
    let m = MainView::new();
    assert_eq!(m.set_status(true, 0, None).text, "Mirroring to 0 device(s)");
}

#[test]
fn colors_and_classes() {
    assert_eq!(color_for_media_type(MediaType::Audio), ColorSlot::Audio);
    assert_eq!(color_for_media_type(MediaType::Video), ColorSlot::Video);
    assert_eq!(color_for_media_type(MediaType::Stream), ColorSlot::Midi);
    assert_eq!(color_for_media_type(MediaType::Application), ColorSlot::Midi);
    assert_eq!(color_for_media_type(MediaType::Image), ColorSlot::Unknown);
    assert_eq!(color_for_media_type(MediaType::Other(99)), ColorSlot::Unknown);
    assert_eq!(port_css_class(MediaType::Video), Some("video"));
    assert_eq!(port_css_class(MediaType::Audio), Some("audio"));
    assert_eq!(port_css_class(MediaType::Stream), Some("midi"));
    assert_eq!(port_css_class(MediaType::Unknown), None);
    assert!(is_linkable_to(Direction::Input, Direction::Output));
    assert!(!is_linkable_to(Direction::Output, Direction::Output));
    assert_eq!(port_alignment(Direction::Input), Alignment::Start);
    assert_eq!(port_alignment(Direction::Output), Alignment::End);
}

#[test]
fn port_measurements() {
    let handle = port_handle_measure();
    assert_eq!(handle, Measure { minimum: 14, natural: 14, minimum_baseline: -1, natural_baseline: -1 });
    assert_eq!(port_label_for_size(100, 14), 93);
    assert_eq!(port_label_for_size(-1, 14), -1);
    assert_eq!(port_label_for_size(3, 14), -1);
    let label = Measure { minimum: 30, natural: 40, minimum_baseline: 5, natural_baseline: 6 };
    assert_eq!(
        port_measure_horizontal(handle, label),
        Measure { minimum: 37, natural: 47, minimum_baseline: -1, natural_baseline: -1 }
    );
    let tall = Measure { minimum: 10, natural: 20, minimum_baseline: -1, natural_baseline: -1 };
    assert_eq!(
        port_measure_vertical(tall, handle),
        Measure { minimum: 14, natural: 20, minimum_baseline: -1, natural_baseline: -1 }
    );
}

#[test]
fn port_layout_by_direction() {
    let (h, l) = port_allocation(Direction::Input, 100, 20, 14, 14);
    assert_eq!(h, Allocation { x: -7, y: 3, width: 14, height: 14 });
    assert_eq!(l, Allocation { x: 7, y: 0, width: 93, height: 20 });
    let (h, l) = port_allocation(Direction::Output, 100, 20, 14, 14);
    assert_eq!(h, Allocation { x: 93, y: 3, width: 14, height: 14 });
    assert_eq!(l, Allocation { x: 0, y: 0, width: 93, height: 20 });
    // A port smaller than its handle: the offset rounds toward zero.
    let (h, _) = port_allocation(Direction::Input, 10, 9, 14, 14);
    assert_eq!(h.y, (9 - 14) / 2);
}

#[test]
fn link_ends_by_direction() {
    assert_eq!(link_ends(Direction::Output, 5, 9), (5, 9));
    assert_eq!(link_ends(Direction::Input, 5, 9), (9, 5));
}

#[test]
fn port_by_label_finds_a_matching_port() {
    let mut n = Node::new("Sink", 2);
    assert!(n.get_port_by_label("playback_FL").is_none());
    n.add_port(Port::new("playback_FL", 21, Direction::Input));
    n.add_port(Port::new("monitor_FL", 22, Direction::Output));
    assert_eq!(n.get_port_by_label("monitor_FL").unwrap().get_id(), 22);
    assert_eq!(n.get_port_by_label("playback_FL").unwrap().get_label(), "playback_FL");
}

#[test]
fn new_main_view_is_empty() {
    let m = MainView::new();
    assert_eq!(m.source_dd().candidates().len(), 0);
    assert_eq!(m.source_dd().selected_candidate().map(|c| c.id()), None);
    assert!(!m.source_dd().confirm_sensitive());
    assert!(!m.target_dd(0).confirm_sensitive());
    assert_eq!(m.target_dd(0).candidates().len(), 0);
}
