use audio_sharing::candidate::CandidateType;
use audio_sharing::graph::{Action, GraphManager};
use audio_sharing::messages::PipewireMessage;
use audio_sharing::types::{Direction, MediaType};

fn port(g: &mut GraphManager, node: u32, id: u32, name: &str, dir: Direction) {
    g.receive(PipewireMessage::PortAdded { id, node_id: node, name: name.to_string(), direction: dir });
}

/// An application (1) with output ports, two sinks (2, 3) with playback ports
/// and a device (4) with monitor ports.
fn setup() -> GraphManager {
    let mut g = GraphManager::new();
    g.add_node(1, "Player", None);
    port(&mut g, 1, 101, "output_FL", Direction::Output);
    port(&mut g, 1, 102, "output_FR", Direction::Output);
    g.add_node(2, "Headphones", None);
    port(&mut g, 2, 201, "playback_FL", Direction::Input);
    port(&mut g, 2, 202, "playback_FR", Direction::Input);
    g.add_node(3, "Speakers", None);
    port(&mut g, 3, 301, "playback_FL", Direction::Input);
    port(&mut g, 3, 302, "playback_FR", Direction::Input);
    g.add_node(4, "Card", None);
    port(&mut g, 4, 401, "monitor_FL", Direction::Output);
    port(&mut g, 4, 402, "monitor_FR", Direction::Output);
    g
}

fn create(a: u32, b: u32) -> Action {
    Action::CreateLink { port_from: a, port_to: b }
}

fn remove(a: u32, b: u32) -> Action {
    Action::RemoveLink { port_from: a, port_to: b }
}

#[test]
fn node_and_port_events_refresh_candidates() {
    let mut g = GraphManager::new();
    assert_eq!(g.add_node(1, "Player", None), vec![Action::RefreshCandidates]);
    assert_eq!(g.add_port(11, "output_FL", 1, Direction::Output), vec![Action::RefreshCandidates]);
    assert_eq!(g.add_port(12, "x", 9, Direction::Output), vec![]);
    assert_eq!(g.node_name_changed(1, "Music", "Song"), vec![Action::RefreshCandidates]);
    assert_eq!(g.node_name_changed(9, "Nope", ""), vec![]);
    assert_eq!(g.remove_port(11, 1), vec![Action::RefreshCandidates]);
    assert_eq!(g.remove_port(11, 9), vec![]);
    assert_eq!(g.remove_node(1), vec![Action::RefreshCandidates]);
    assert_eq!(g.remove_node(1), vec![]);
}

#[test]
fn candidates_split_by_ports() {
    let g = setup();
    let mut sources: Vec<(u32, CandidateType, String)> =
        g.get_candidates_source().iter().map(|c| (c.id(), c.kind(), c.label())).collect();
    sources.sort_by_key(|c| c.0);
    assert_eq!(
        sources,
        vec![(1, CandidateType::Application, "Player".to_string()), (4, CandidateType::Device, "Card".to_string())]
    );
    let mut targets: Vec<u32> = g.get_candidates_target().iter().map(|c| c.id()).collect();
    targets.sort();
    assert_eq!(targets, vec![2, 3]);
    assert!(g.get_candidates_target().iter().all(|c| c.kind() == CandidateType::Device));
}

#[test]
fn candidate_label_follows_renaming() {
    let mut g = setup();
    g.node_name_changed(2, "Studio", "media");
    let labels: Vec<String> =
        g.get_candidates_target().iter().filter(|c| c.id() == 2).map(|c| c.label()).collect();
    assert_eq!(labels, vec!["Studio".to_string()]);
}

#[test]
fn mirroring_creates_links_per_target() {
    let mut g = setup();
    assert_eq!(g.add_target(2), vec![]);
    let acts = g.set_source(1, CandidateType::Application);
    assert_eq!(
        acts,
        vec![create(101, 201), create(102, 202), Action::SetStatus { mirroring: true, target_count: 1 }]
    );
    let acts = g.add_target(3);
    assert_eq!(
        acts,
        vec![create(101, 301), create(102, 302), Action::SetStatus { mirroring: true, target_count: 2 }]
    );
    assert_eq!(g.active_links(), &vec![(101, 201), (102, 202), (101, 301), (102, 302)]);
    assert_eq!(g.active_targets(), &vec![2, 3]);
}

#[test]
fn update_is_idempotent() {
    let mut g = setup();
    g.add_target(2);
    g.set_source(1, CandidateType::Application);
    let again = g.set_source(1, CandidateType::Application);
    assert_eq!(again, vec![Action::SetStatus { mirroring: true, target_count: 1 }]);
    let twice = g.add_target(2);
    assert_eq!(twice, vec![Action::SetStatus { mirroring: true, target_count: 1 }]);
    assert_eq!(g.active_targets(), &vec![2]);
}

#[test]
fn device_source_uses_monitor_ports() {
    let mut g = setup();
    g.add_target(3);
    let acts = g.set_source(4, CandidateType::Device);
    assert_eq!(
        acts,
        vec![create(401, 301), create(402, 302), Action::SetStatus { mirroring: true, target_count: 1 }]
    );
}

#[test]
fn source_without_ports_asks_nothing() {
    let mut g = setup();
    g.add_target(2);
    assert_eq!(g.set_source(4, CandidateType::Application), vec![]);
    assert_eq!(g.set_source(99, CandidateType::Device), vec![]);
    assert!(g.active_links().is_empty());
}

#[test]
fn target_without_ports_is_skipped() {
    let mut g = setup();
    g.add_target(1);
    let acts = g.set_source(4, CandidateType::Device);
    assert_eq!(acts, vec![Action::SetStatus { mirroring: true, target_count: 1 }]);
}

#[test]
fn lost_link_is_created_again() {
    let mut g = setup();
    g.add_target(2);
    g.set_source(1, CandidateType::Application);
    assert_eq!(g.add_link(500, 101, 201, true, MediaType::Audio), vec![]);
    assert_eq!(g.add_link(501, 7, 8, true, MediaType::Audio), vec![]);
    assert_eq!(g.remove_link(500), vec![create(101, 201)]);
    assert_eq!(g.remove_link(500), vec![]);
    assert_eq!(g.remove_link(501), vec![]);
}

#[test]
fn removed_target_loses_its_links() {
    let mut g = setup();
    g.add_target(2);
    g.add_target(3);
    g.set_source(1, CandidateType::Application);
    g.add_link(500, 101, 201, true, MediaType::Audio);
    let acts = g.remove_target(2);
    assert_eq!(
        acts,
        vec![remove(101, 201), remove(102, 202), Action::SetStatus { mirroring: true, target_count: 1 }]
    );
    assert_eq!(g.active_links(), &vec![(101, 301), (102, 302)]);
    assert_eq!(g.active_targets(), &vec![3]);
    // The removal of the forgotten link is not answered.
    assert_eq!(g.remove_link(500), vec![]);
}

#[test]
fn removing_unknown_target_only_updates_status() {
    let mut g = setup();
    g.add_target(2);
    g.add_target(77);
    let acts = g.remove_target(77);
    assert_eq!(acts, vec![Action::SetStatus { mirroring: false, target_count: 1 }]);
    assert_eq!(g.active_targets(), &vec![2]);
}

#[test]
fn clearing_source_removes_links_and_keeps_targets() {
    let mut g = setup();
    g.add_target(2);
    g.set_source(1, CandidateType::Application);
    g.add_link(500, 101, 201, true, MediaType::Audio);
    let acts = g.clear_source();
    assert_eq!(
        acts,
        vec![remove(101, 201), remove(102, 202), Action::SetStatus { mirroring: false, target_count: 1 }]
    );
    assert!(g.active_links().is_empty());
    assert_eq!(g.active_targets(), &vec![2]);
    assert_eq!(g.selected_source(), (None, None));
    assert_eq!(g.remove_link(500), vec![]);
    let relink = g.set_source(4, CandidateType::Device);
    assert_eq!(
        relink,
        vec![create(401, 201), create(402, 202), Action::SetStatus { mirroring: true, target_count: 1 }]
    );
}

#[test]
fn cleanup_forgets_everything() {
    let mut g = setup();
    g.add_target(2);
    g.set_source(1, CandidateType::Application);
    let acts = g.cleanup();
    assert_eq!(acts, vec![remove(101, 201), remove(102, 202)]);
    assert!(g.active_links().is_empty());
    assert!(g.active_targets().is_empty());
    assert_eq!(g.selected_source(), (None, None));
    assert_eq!(g.update_status(), vec![Action::SetStatus { mirroring: false, target_count: 0 }]);
}

#[test]
fn status_needs_source_and_target() {
    let mut g = setup();
    assert_eq!(g.update_status(), vec![Action::SetStatus { mirroring: false, target_count: 0 }]);
    g.add_target(2);
    assert_eq!(g.update_status(), vec![Action::SetStatus { mirroring: false, target_count: 1 }]);
}

#[test]
fn port_format_change_goes_through_bookkeeping() {
    let mut g = GraphManager::new();
    g.add_node(5, "Five", None);
    g.add_node(6, "Six", None);
    // The bookkeeping keys the port (6) added to node 5 under the node's id.
    g.add_port(6, "p", 5, Direction::Output);
    assert_eq!(g.port_media_type_changed(5, MediaType::Audio), vec![Action::RefreshCandidates]);
    assert_eq!(g.port_media_type_changed(6, MediaType::Audio), vec![]);
    let mut h = setup();
    // Node 2 holds port 202 in the bookkeeping, and there is no node 202.
    assert_eq!(h.port_media_type_changed(2, MediaType::Audio), vec![]);
    assert_eq!(h.port_media_type_changed(201, MediaType::Audio), vec![]);
}

#[test]
fn connection_messages_toggle_banner() {
    let mut g = GraphManager::new();
    assert_eq!(g.receive(PipewireMessage::Connecting), vec![Action::RevealBanner(true)]);
    assert_eq!(g.receive(PipewireMessage::Connected), vec![Action::RevealBanner(false)]);
    assert_eq!(g.receive(PipewireMessage::Disconnected), vec![]);
    assert_eq!(
        g.receive(PipewireMessage::MuteChanged { node_id: 3, muted: true }),
        vec![Action::UpdateMute { node_id: 3, muted: true }]
    );
    assert_eq!(g.receive(PipewireMessage::LinkStateChanged { id: 1, active: true }), vec![]);
    assert_eq!(g.receive(PipewireMessage::LinkFormatChanged { id: 1, media_type: MediaType::Audio }), vec![]);
}

#[test]
fn receive_dispatches_graph_events() {
    let mut g = GraphManager::new();
    assert_eq!(
        g.receive(PipewireMessage::NodeAdded { id: 1, name: "A".to_string(), node_type: None }),
        vec![Action::RefreshCandidates]
    );
    assert_eq!(
        g.receive(PipewireMessage::NodeNameChanged { id: 1, name: "B".to_string(), media_name: String::new() }),
        vec![Action::RefreshCandidates]
    );
    assert_eq!(g.receive(PipewireMessage::PortRemoved { id: 5, node_id: 1 }), vec![Action::RefreshCandidates]);
    assert_eq!(g.receive(PipewireMessage::NodeRemoved { id: 1 }), vec![Action::RefreshCandidates]);
    assert_eq!(g.receive(PipewireMessage::LinkRemoved { id: 4 }), vec![]);
}
