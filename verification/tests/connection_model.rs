use std::time::{Duration, SystemTime};

use warp_ssh::connection_model::{
    disconnect_reason_text, RemoteServerExitStatus, RemoteServerManagerEvent, SshConnectionModel,
    SshConnectionState, MAX_DISCONNECT_RECORDS,
};
use warp_ssh::ids::{EntityId, HostId, SessionId};

fn terminal(value: u64) -> EntityId {
    EntityId { value }
}

fn session(value: u64) -> SessionId {
    SessionId { value }
}

fn host(name: &str) -> HostId {
    HostId::new(name.to_string())
}

fn state(model: &SshConnectionModel, node: &str) -> SshConnectionState {
    model.connection_for_node(node).unwrap().state
}

fn reasons(model: &SshConnectionModel, node: &str) -> Vec<String> {
    let connection = model.connection_for_node(node).unwrap();
    connection.recent_disconnects.iter().map(|record| record.reason.clone()).collect()
}

/// A model in which the session 9 belongs to the node `a` in the terminal 1.
fn bound() -> SshConnectionModel {
    let mut model = SshConnectionModel::new();
    model.start_connect("a".to_string(), terminal(1));
    assert!(model.bind_terminal_session(terminal(1), session(9), None));
    model
}

#[test]
fn a_started_node_owns_its_terminal() {
    let mut model = SshConnectionModel::new();
    assert_eq!(model.node_id_for_terminal_view(terminal(1)), None);
    model.start_connect("a".to_string(), terminal(1));
    model.start_connect("b".to_string(), terminal(2));
    assert_eq!(model.node_id_for_terminal_view(terminal(1)), Some("a"));
    assert_eq!(model.node_id_for_terminal_view(terminal(2)), Some("b"));
    let connection = model.connection_for_node("a").unwrap();
    assert_eq!(connection.terminal_view_id, terminal(1));
    assert_eq!(connection.session_id, None);
    assert!(connection.host_id.is_none());
    assert_eq!(connection.state, SshConnectionState::Connecting);
    assert!(connection.recent_disconnects.is_empty());
    assert!(model.connection_for_node("c").is_none());
    assert!(model.host_id_for_node("c").is_none());
}

#[test]
fn starting_again_forgets_the_node() {
    let mut model = bound();
    assert!(model.mark_failed("a".to_string(), "x".to_string()));
    model.start_connect("a".to_string(), terminal(2));
    assert!(reasons(&model, "a").is_empty());
    assert_eq!(model.connection_for_node("a").unwrap().session_id, None);
    assert_eq!(model.node_id_for_terminal_view(terminal(1)), None);
    assert_eq!(model.node_id_for_terminal_view(terminal(2)), Some("a"));
}

#[test]
fn marking_connected_needs_a_known_node() {
    let mut model = SshConnectionModel::new();
    assert!(!model.mark_connected_with_host_id("a".to_string(), host("h")));
    assert!(model.connection_for_node("a").is_none());
    model.start_connect("a".to_string(), terminal(1));
    assert!(model.mark_connected_with_host_id("a".to_string(), host("h")));
    assert_eq!(state(&model, "a"), SshConnectionState::Connected);
    assert_eq!(model.host_id_for_node("a").unwrap().as_str(), "h");
}

#[test]
fn marking_failed_needs_a_known_node() {
    let mut model = SshConnectionModel::new();
    assert!(!model.mark_failed("a".to_string(), "x".to_string()));
    model.start_connect("a".to_string(), terminal(1));
    let before = SystemTime::now();
    assert!(model.mark_failed("a".to_string(), "refused".to_string()));
    assert_eq!(state(&model, "a"), SshConnectionState::Failed);
    assert_eq!(reasons(&model, "a"), ["refused"]);
    let connection = model.connection_for_node("a").unwrap().clone();
    assert!(connection.recent_disconnects[0].at >= before);
    assert_eq!(connection.state, SshConnectionState::Failed);
}

#[test]
fn binding_happens_once() {
    let mut model = SshConnectionModel::new();
    assert!(!model.bind_terminal_session(terminal(1), session(9), Some(host("h"))));
    model.start_connect("a".to_string(), terminal(1));
    assert!(model.bind_terminal_session(terminal(1), session(9), Some(host("h"))));
    assert!(!model.bind_terminal_session(terminal(1), session(8), None));
    let connection = model.connection_for_node("a").unwrap();
    assert_eq!(connection.session_id, Some(session(9)));
    assert_eq!(connection.host_id.as_ref().unwrap().as_str(), "h");
    assert_eq!(connection.state, SshConnectionState::Connected);
    assert_eq!(model.node_id_for_terminal_view(terminal(1)), Some("a"));
}

#[test]
fn binding_without_a_host_is_still_connecting() {
    let mut model = SshConnectionModel::new();
    model.start_connect("a".to_string(), terminal(1));
    assert!(model.mark_failed("a".to_string(), "x".to_string()));
    assert!(model.mark_connected_with_host_id("a".to_string(), host("h")));
    assert!(model.bind_terminal_session(terminal(1), session(9), None));
    assert_eq!(state(&model, "a"), SshConnectionState::Connecting);
    assert!(model.host_id_for_node("a").is_none());
    assert_eq!(reasons(&model, "a"), ["x"]);
}

#[test]
fn binding_brings_a_released_node_back() {
    let mut model = SshConnectionModel::new();
    model.start_connect("a".to_string(), terminal(1));
    model.start_connect("a".to_string(), terminal(2));
    assert_eq!(model.release_terminal_view(terminal(1)).as_deref(), Some("a"));
    assert!(model.connection_for_node("a").is_none());
    assert!(model.bind_terminal_session(terminal(2), session(9), Some(host("h"))));
    let connection = model.connection_for_node("a").unwrap();
    assert_eq!(connection.terminal_view_id, terminal(2));
    assert_eq!(connection.state, SshConnectionState::Connected);
    assert!(connection.recent_disconnects.is_empty());
}

#[test]
fn events_reach_the_node_of_their_session() {
    let mut model = bound();
    model.start_connect("b".to_string(), terminal(2));
    let s = Some(session(9));

    let event = RemoteServerManagerEvent::SessionConnected { host_id: host("h") };
    assert!(model.handle_remote_server_event(s, &event));
    assert_eq!(state(&model, "a"), SshConnectionState::Connected);
    assert_eq!(model.host_id_for_node("a").unwrap().as_str(), "h");

    assert!(model.handle_remote_server_event(s, &RemoteServerManagerEvent::SessionReconnectStarted));
    assert_eq!(state(&model, "a"), SshConnectionState::Reconnecting);
    assert_eq!(model.host_id_for_node("a").unwrap().as_str(), "h");

    let event = RemoteServerManagerEvent::SessionReconnected { host_id: host("h2") };
    assert!(model.handle_remote_server_event(s, &event));
    assert_eq!(state(&model, "a"), SshConnectionState::Connected);
    assert_eq!(model.host_id_for_node("a").unwrap().as_str(), "h2");

    let event = RemoteServerManagerEvent::SessionConnectionFailed { error: "no route".to_string() };
    assert!(model.handle_remote_server_event(s, &event));
    assert_eq!(state(&model, "a"), SshConnectionState::Failed);

    let event = RemoteServerManagerEvent::SessionDisconnected { exit_status: None };
    assert!(model.handle_remote_server_event(s, &event));
    assert_eq!(state(&model, "a"), SshConnectionState::Disconnected);
    assert_eq!(reasons(&model, "a"), ["remote server disconnected", "no route"]);

    assert!(model.handle_remote_server_event(s, &RemoteServerManagerEvent::SessionReconnectStarted));
    assert!(model.handle_remote_server_event(s, &RemoteServerManagerEvent::SessionDeregistered));
    assert_eq!(state(&model, "a"), SshConnectionState::Disconnected);
    assert_eq!(reasons(&model, "a").len(), 2);

    assert_eq!(state(&model, "b"), SshConnectionState::Connecting);
}

#[test]
fn other_events_change_nothing() {
    let mut model = bound();
    assert!(model.mark_connected_with_host_id("a".to_string(), host("h")));
    for event in [
        RemoteServerManagerEvent::SessionConnecting,
        RemoteServerManagerEvent::HostConnected,
        RemoteServerManagerEvent::HostDisconnected,
        RemoteServerManagerEvent::NavigatedToDirectory,
        RemoteServerManagerEvent::RepoMetadataSnapshot,
        RemoteServerManagerEvent::RepoMetadataUpdated,
        RemoteServerManagerEvent::RepoMetadataDirectoryLoaded,
        RemoteServerManagerEvent::SetupStateChanged,
        RemoteServerManagerEvent::BinaryCheckComplete,
        RemoteServerManagerEvent::BinaryInstallComplete,
        RemoteServerManagerEvent::ClientRequestFailed,
        RemoteServerManagerEvent::ServerMessageDecodingError,
    ] {
        assert!(model.handle_remote_server_event(Some(session(9)), &event));
        assert_eq!(state(&model, "a"), SshConnectionState::Connected);
        assert!(reasons(&model, "a").is_empty());
    }
}

#[test]
fn events_of_unknown_sessions_reach_nobody() {
    let mut model = bound();
    let event = RemoteServerManagerEvent::SessionDeregistered;
    assert!(!model.handle_remote_server_event(None, &event));
    assert!(!model.handle_remote_server_event(Some(session(1)), &event));
    assert_eq!(state(&model, "a"), SshConnectionState::Connecting);
}

#[test]
fn the_newest_disconnects_are_remembered() {
    let mut model = bound();
    for i in 0..7u64 {
        let at = SystemTime::UNIX_EPOCH + Duration::from_secs(i);
        if i % 2 == 0 {
            assert!(model.mark_failed_at("a".to_string(), i.to_string(), at));
        } else {
            let event = RemoteServerManagerEvent::SessionConnectionFailed { error: i.to_string() };
            assert!(model.handle_remote_server_event_at(Some(session(9)), &event, at));
        }
    }
    assert_eq!(reasons(&model, "a"), ["6", "5", "4", "3", "2"]);
    let connection = model.connection_for_node("a").unwrap();
    assert_eq!(connection.recent_disconnects.len(), MAX_DISCONNECT_RECORDS);
    let newest = &connection.recent_disconnects[0];
    assert_eq!(newest.at, SystemTime::UNIX_EPOCH + Duration::from_secs(6));
}

#[test]
fn reasons_of_disconnects() {
    let status = |code, signal_killed| Some(RemoteServerExitStatus { code, signal_killed });
    assert_eq!(disconnect_reason_text(&None), "remote server disconnected");
    assert_eq!(
        disconnect_reason_text(&status(Some(1), false)),
        "remote server exited (code=Some(1), signal_killed=false)"
    );
    assert_eq!(
        disconnect_reason_text(&status(None, true)),
        "remote server exited (code=None, signal_killed=true)"
    );
    assert_eq!(
        disconnect_reason_text(&status(Some(-9), true)),
        format!("remote server exited (code={:?}, signal_killed={})", Some(-9), true)
    );
}

#[test]
fn a_released_node_is_gone() {
    let mut model = bound();
    model.start_connect("b".to_string(), terminal(2));
    assert_eq!(model.release_terminal_view(terminal(3)), None);
    assert_eq!(model.release_terminal_view(terminal(1)).as_deref(), Some("a"));
    assert!(model.connection_for_node("a").is_none());
    assert_eq!(model.node_id_for_terminal_view(terminal(1)), None);
    let event = RemoteServerManagerEvent::SessionDeregistered;
    assert!(!model.handle_remote_server_event(Some(session(9)), &event));
    assert_eq!(model.release_terminal_view(terminal(1)), None);
    assert_eq!(model.node_id_for_terminal_view(terminal(2)), Some("b"));
    assert_eq!(model.release_terminal_view(terminal(2)).as_deref(), Some("b"));
}

#[test]
fn a_waiting_node_goes_before_the_others_of_a_terminal() {
    let mut model = bound();
    model.start_connect("b".to_string(), terminal(1));
    assert_eq!(model.node_id_for_terminal_view(terminal(1)), Some("b"));
    assert_eq!(model.release_terminal_view(terminal(1)).as_deref(), Some("b"));
    assert_eq!(model.node_id_for_terminal_view(terminal(1)), Some("a"));
    assert_eq!(model.release_terminal_view(terminal(1)).as_deref(), Some("a"));
}

#[test]
fn a_reconnected_node_remembers_the_loss() {
    let mut model = bound();
    model.start_connect("b".to_string(), terminal(2));
    let s = Some(session(9));
    for event in [
        RemoteServerManagerEvent::SessionConnected { host_id: host("h") },
        RemoteServerManagerEvent::SessionDisconnected {
            exit_status: Some(RemoteServerExitStatus { code: Some(3), signal_killed: false }),
        },
        RemoteServerManagerEvent::SessionReconnectStarted,
        RemoteServerManagerEvent::SessionReconnected { host_id: host("h") },
    ] {
        assert!(model.handle_remote_server_event(s, &event));
    }
    assert_eq!(state(&model, "a"), SshConnectionState::Connected);
    assert_eq!(model.host_id_for_node("a").unwrap().as_str(), "h");
    assert_eq!(
        reasons(&model, "a"),
        ["remote server exited (code=Some(3), signal_killed=false)"]
    );
    assert!(model.mark_failed("a".to_string(), "x".to_string()));
    assert_eq!(model.host_id_for_node("a").unwrap().as_str(), "h");
    assert_eq!(reasons(&model, "a").len(), 2);
    assert_eq!(state(&model, "b"), SshConnectionState::Connecting);
    assert!(model.host_id_for_node("b").is_none());
}

#[test]
fn lookup_and_release_take_the_same_node() {
    let mut model = SshConnectionModel::new();
    for (i, node) in ["a", "b", "c"].into_iter().enumerate() {
        model.start_connect(node.to_string(), terminal(1));
        assert!(model.awaits_session(terminal(1)));
        assert!(model.bind_terminal_session(terminal(1), session(i as u64), None));
        assert!(!model.awaits_session(terminal(1)));
    }
    for _ in 0..3 {
        let node = model.node_id_for_terminal_view(terminal(1)).unwrap().to_string();
        assert!(model.mark_failed(node.clone(), "x".to_string()));
        let event = RemoteServerManagerEvent::SessionReconnectStarted;
        let _ = model.handle_remote_server_event(Some(session(1)), &event);
        assert_eq!(model.node_id_for_terminal_view(terminal(1)), Some(node.as_str()));
        assert_eq!(model.release_terminal_view(terminal(1)), Some(node.clone()));
        assert!(model.connection_for_node(&node).is_none());
        assert!(!model.bind_terminal_session(terminal(1), session(7), None));
    }
    assert_eq!(model.node_id_for_terminal_view(terminal(1)), None);
}
