use replication::connection::handle_connect;
use replication::connection::handle_disconnect;
use replication::connection::process_events;
use replication::data::ConnectionEvent;
use replication::data::Outgoing;
use replication::data::ReplicationError;
use replication::data::ServerMessage;
use replication::data::spawn_state;
use replication::lobby::Lobby;

#[test]
fn insert_lookup_remove() {
    let mut lobby = Lobby::new();
    assert_eq!(lobby.len(), 0);
    assert!(lobby.insert(spawn_state(7)).is_ok());
    assert_eq!(lobby.len(), 1);
    assert!(lobby.contains(7));
    let found = lobby.lookup(7).expect("player present");
    assert_eq!(found.id, 7);
    let removed = lobby.remove(7).expect("removal succeeds");
    assert_eq!(removed.id, 7);
    assert_eq!(lobby.len(), 0);
    assert!(lobby.lookup(7).is_none());
}

#[test]
fn insert_duplicate_identity_fails() {
    let mut lobby = Lobby::new();
    assert!(lobby.insert(spawn_state(3)).is_ok());
    assert_eq!(
        lobby.insert(spawn_state(3)),
        Err(ReplicationError::DuplicateIdentity)
    );
    assert_eq!(lobby.len(), 1);
}

#[test]
fn remove_unknown_identity_fails() {
    let mut lobby = Lobby::new();
    assert_eq!(lobby.remove(5), Err(ReplicationError::UnknownIdentity));
}

#[test]
fn lobby_bijection_after_churn() {
    let mut lobby = Lobby::new();
    let events = vec![
        ConnectionEvent::Connected { id: 1 },
        ConnectionEvent::Connected { id: 2 },
        ConnectionEvent::Connected { id: 3 },
        ConnectionEvent::Disconnected { id: 2 },
        ConnectionEvent::Connected { id: 4 },
        ConnectionEvent::Disconnected { id: 9 },
        ConnectionEvent::Connected { id: 1 },
    ];
    process_events(&mut lobby, &events);
    assert_eq!(lobby.len(), 3);
    assert!(lobby.contains(1));
    assert!(!lobby.contains(2));
    assert!(lobby.contains(3));
    assert!(lobby.contains(4));
    assert!(!lobby.contains(9));
}

#[test]
fn disconnect_is_idempotent() {
    let mut lobby = Lobby::new();
    handle_connect(&mut lobby, 1);
    handle_connect(&mut lobby, 2);
    let first = handle_disconnect(&mut lobby, 2);
    assert_eq!(
        first,
        vec![Outgoing::Broadcast { message: ServerMessage::ClientDisconnected { id: 2 } }]
    );
    let after_once: Vec<u64> = lobby.players.iter().map(|p| p.id).collect();
    let second = handle_disconnect(&mut lobby, 2);
    assert!(second.is_empty());
    let after_twice: Vec<u64> = lobby.players.iter().map(|p| p.id).collect();
    assert_eq!(after_once, after_twice);
    assert_eq!(lobby.len(), 1);
    assert!(lobby.contains(1));
}

#[test]
fn roster_replay_on_connect() {
    let mut lobby = Lobby::new();
    handle_connect(&mut lobby, 10);
    handle_connect(&mut lobby, 11);
    let out = handle_connect(&mut lobby, 12);
    assert_eq!(
        out,
        vec![
            Outgoing::Direct { to: 12, message: ServerMessage::ClientConnected { id: 10 } },
            Outgoing::Direct { to: 12, message: ServerMessage::ClientConnected { id: 11 } },
            Outgoing::Broadcast { message: ServerMessage::ClientConnected { id: 12 } },
        ]
    );
}

#[test]
fn connect_existing_identity_is_noop() {
    let mut lobby = Lobby::new();
    handle_connect(&mut lobby, 10);
    let out = handle_connect(&mut lobby, 10);
    assert!(out.is_empty());
    assert_eq!(lobby.len(), 1);
}

#[test]
fn connect_spawns_default_state() {
    let mut lobby = Lobby::new();
    handle_connect(&mut lobby, 10);
    let p = lobby.lookup(10).expect("player present");
    assert_eq!(p.transform.translation.x, 0);
    assert_eq!(p.transform.translation.y, replication::data::SPAWN_HEIGHT);
    assert_eq!(p.transform.translation.z, 0);
    assert!(!p.input.forward);
    assert!(!p.input.jump);
}
