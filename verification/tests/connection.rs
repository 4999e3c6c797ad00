use poker_server::connection::{
    Activity, Connection, ConnectionAction, ConnectionEvent, DisconnectReason, MessageKind, Phase,
    SocketOperation,
};
use poker_server::models::{CreateGame, Role, ServerEvent};
use poker_server::service::{GameIdSource, GameService};

fn admitted(role: Role) -> Connection {
    let mut service = GameService::new();
    let mut ids = GameIdSource::new();
    let game = service
        .create_game(&mut ids, CreateGame { name: "g".to_string(), deck_size: 10, initial_chips: [1, 1] })
        .unwrap();
    let c = Connection::new(role);
    let (c, acts) = c.step(ConnectionEvent::Opened);
    assert_eq!(acts.len(), 1);
    let (c, acts) = c.step(ConnectionEvent::Admitted { seat: Some(2), game });
    assert!(matches!(acts[0], ConnectionAction::Log { seat: Some(2), activity: Activity::GameJoined }));
    match &acts[1] {
        ConnectionAction::Send { event: ServerEvent::Joined { role: r, seat: Some(2), game } } => {
            assert_eq!(*r, role);
            assert_eq!(game.name, "g");
        }
        other => panic!("unexpected {:?}", other),
    }
    let (c, acts) = c.step(ConnectionEvent::JoinedSent);
    assert!(matches!(acts[0], ConnectionAction::Log { activity: Activity::WebsocketSent, .. }));
    assert!(matches!(acts[1], ConnectionAction::NotifyUpdate));
    assert!(matches!(c.phase, Phase::Streaming { seat: Some(2) }));
    c
}

#[test]
fn refused_connection_reports_and_closes() {
    let c = Connection::new(Role::Player);
    let (c, acts) = c.step(ConnectionEvent::Opened);
    assert!(matches!(
        acts[..],
        [ConnectionAction::Log { seat: None, activity: Activity::WebsocketConnected }]
    ));
    let (c, acts) = c.step(ConnectionEvent::Refused { message: "Game is full" });
    assert!(c.is_closed());
    assert_eq!(acts.len(), 4);
    assert!(matches!(
        acts[0],
        ConnectionAction::Log { activity: Activity::JoinRejected { message: "Game is full" }, .. }
    ));
    assert!(matches!(acts[1], ConnectionAction::Send { event: ServerEvent::Error { message: "Game is full" } }));
    assert!(matches!(acts[2], ConnectionAction::SendClose));
    assert!(matches!(
        acts[3],
        ConnectionAction::Log {
            activity: Activity::WebsocketDisconnected { reason: DisconnectReason::JoinRejected },
            ..
        }
    ));
    let (c, acts) = c.step(ConnectionEvent::StreamEnded);
    assert!(c.is_closed());
    assert!(acts.is_empty());
}

#[test]
fn client_close_leaves_the_seat() {
    let c = admitted(Role::Player);
    let (c, acts) = c.step(ConnectionEvent::Received { kind: MessageKind::Text, bytes: 5 });
    assert!(matches!(
        acts[..],
        [ConnectionAction::Log {
            seat: Some(2),
            activity: Activity::WebsocketReceived { kind: MessageKind::Text, bytes: 5 }
        }]
    ));
    let (c, acts) = c.step(ConnectionEvent::Received { kind: MessageKind::Close, bytes: 0 });
    assert_eq!(acts.len(), 2);
    assert!(matches!(acts[1], ConnectionAction::Leave { seat: Some(2) }));
    assert!(matches!(c.phase, Phase::Leaving { seat: Some(2), reason: DisconnectReason::ClientClose }));
    let (c, acts) = c.step(ConnectionEvent::Left { found: true });
    assert!(c.is_closed());
    assert_eq!(acts.len(), 3);
    assert!(matches!(acts[0], ConnectionAction::NotifyUpdate));
    assert!(matches!(acts[1], ConnectionAction::Log { seat: Some(2), activity: Activity::GameLeft }));
    match &acts[2] {
        ConnectionAction::Log { activity: a @ Activity::WebsocketDisconnected { reason }, .. } => {
            assert_eq!(reason.name(), "client_close");
            assert_eq!(a.event_name(), "websocket_disconnected");
        }
        other => panic!("unexpected {:?}", other),
    }
}

#[test]
fn updates_are_refreshed_and_send_failures_end_the_stream() {
    let c = admitted(Role::Spectator);
    let (c, acts) = c.step(ConnectionEvent::GameChanged);
    assert!(matches!(acts[..], [ConnectionAction::RefreshGame { resync: false }]));
    let (c, acts) = c.step(ConnectionEvent::UpdatesLagged { skipped: 3 });
    assert!(matches!(acts[0], ConnectionAction::Log { activity: Activity::UpdateLagged { skipped: 3 }, .. }));
    assert!(matches!(acts[1], ConnectionAction::RefreshGame { resync: true }));
    let (c, acts) = c.step(ConnectionEvent::UpdateSendFailed { resync: true, error: "broken".to_string() });
    match &acts[0] {
        ConnectionAction::Log { activity: Activity::WebsocketError { operation, error }, .. } => {
            assert_eq!(*operation, SocketOperation::SendResync);
            assert_eq!(operation.name(), "send_resync");
            assert_eq!(error, "broken");
        }
        other => panic!("unexpected {:?}", other),
    }
    assert!(matches!(acts[1], ConnectionAction::Leave { seat: Some(2) }));
    let (c, acts) = c.step(ConnectionEvent::Left { found: false });
    assert!(c.is_closed());
    assert_eq!(acts.len(), 2);
}

#[test]
fn stream_end_and_receive_errors_have_their_reasons() {
    let (c, _) = admitted(Role::Player).step(ConnectionEvent::StreamEnded);
    assert!(matches!(c.phase, Phase::Leaving { reason: DisconnectReason::StreamEnded, .. }));
    let (c, _) = admitted(Role::Player).step(ConnectionEvent::UpdatesClosed);
    assert!(matches!(c.phase, Phase::Leaving { reason: DisconnectReason::StreamEnded, .. }));
    let (c, acts) = admitted(Role::Player).step(ConnectionEvent::ReceiveFailed { error: "e".to_string() });
    assert!(matches!(c.phase, Phase::Leaving { reason: DisconnectReason::ReceiveError, .. }));
    assert!(matches!(
        acts[0],
        ConnectionAction::Log { activity: Activity::WebsocketError { operation: SocketOperation::Receive, .. }, .. }
    ));
    assert_eq!(MessageKind::Binary.name(), "binary");
    assert_eq!(MessageKind::Ping.name(), "ping");
    assert_eq!(MessageKind::Pong.name(), "pong");
    assert_eq!(MessageKind::Close.name(), "close");
    assert_eq!(DisconnectReason::SendError.name(), "send_error");
    assert_eq!(DisconnectReason::ReceiveError.name(), "receive_error");
    assert_eq!(DisconnectReason::StreamEnded.name(), "stream_ended");
    assert_eq!(DisconnectReason::JoinRejected.name(), "join_rejected");
}

#[test]
fn failed_joined_send_leaves_with_send_error() {
    let mut service = GameService::new();
    let mut ids = GameIdSource::new();
    let game = service
        .create_game(&mut ids, CreateGame { name: "g".to_string(), deck_size: 10, initial_chips: [1, 1] })
        .unwrap();
    let (c, _) = Connection::new(Role::Player).step(ConnectionEvent::Opened);
    let (c, _) = c.step(ConnectionEvent::Admitted { seat: Some(1), game });
    let (c, acts) = c.step(ConnectionEvent::JoinedSendFailed { error: "x".to_string() });
    assert!(matches!(
        acts[0],
        ConnectionAction::Log { activity: Activity::WebsocketError { operation: SocketOperation::Send, .. }, .. }
    ));
    assert!(matches!(acts[1], ConnectionAction::Leave { seat: Some(1) }));
    assert!(matches!(c.phase, Phase::Leaving { seat: Some(1), reason: DisconnectReason::SendError }));
    // Events that do not fit the phase change nothing.
    let (c, acts) = c.step(ConnectionEvent::GameChanged);
    assert!(acts.is_empty());
    assert!(matches!(c.phase, Phase::Leaving { .. }));
}
