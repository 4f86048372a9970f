use replication::client::apply_lifecycle;
use replication::client::apply_snapshot;
use replication::client::snapshot_is_fresh;
use replication::codec::decode_snapshot;
use replication::codec::encode_snapshot;
use replication::connection::handle_connect;
use replication::data::CameraInput;
use replication::data::ClientData;
use replication::data::ServerMessage;
use replication::data::Vec3Fix;
use replication::data::spawn_state;
use replication::lobby::Lobby;
use replication::snapshot::build_snapshot;

#[test]
fn lifecycle_adds_and_removes_remote_players() {
    let mut roster = Lobby::new();
    roster.insert(spawn_state(1)).expect("seed own player");
    apply_lifecycle(&mut roster, &ServerMessage::ClientConnected { id: 2 });
    assert!(roster.contains(2));
    apply_lifecycle(&mut roster, &ServerMessage::ClientDisconnected { id: 2 });
    assert!(!roster.contains(2));
    assert!(roster.contains(1));
}

#[test]
fn own_connected_broadcast_is_noop_when_seeded() {
    let mut roster = Lobby::new();
    roster.insert(spawn_state(1)).expect("seed own player");
    apply_lifecycle(&mut roster, &ServerMessage::ClientConnected { id: 1 });
    assert_eq!(roster.len(), 1);
}

#[test]
fn snapshot_moves_known_players_and_ignores_unknown() {
    let mut roster = Lobby::new();
    roster.insert(spawn_state(1)).expect("seed own player");
    roster.insert(spawn_state(2)).expect("remote player");
    let entries = vec![
        ClientData {
            id: 2,
            pos: Vec3Fix { x: 10, y: 20, z: 30 },
            rot: CameraInput { pitch: 4, yaw: 5, roll: 6 },
        },
        ClientData {
            id: 99,
            pos: Vec3Fix { x: 1, y: 1, z: 1 },
            rot: CameraInput { pitch: 0, yaw: 0, roll: 0 },
        },
    ];
    apply_snapshot(&mut roster, &entries);
    let moved = roster.lookup(2).expect("player present");
    assert_eq!(moved.transform.translation, Vec3Fix { x: 10, y: 20, z: 30 });
    assert_eq!(moved.transform.rotation, CameraInput { pitch: 4, yaw: 5, roll: 6 });
    assert!(!roster.contains(99));
}

#[test]
fn later_snapshot_entry_wins() {
    let mut roster = Lobby::new();
    roster.insert(spawn_state(1)).expect("seed player");
    let entries = vec![
        ClientData {
            id: 1,
            pos: Vec3Fix { x: 7, y: 7, z: 7 },
            rot: CameraInput { pitch: 0, yaw: 0, roll: 0 },
        },
        ClientData {
            id: 1,
            pos: Vec3Fix { x: 8, y: 8, z: 8 },
            rot: CameraInput { pitch: 0, yaw: 0, roll: 0 },
        },
    ];
    apply_snapshot(&mut roster, &entries);
    let p = roster.lookup(1).expect("player present");
    assert_eq!(p.transform.translation.x, 8);
}

#[test]
fn snapshot_round_trips_from_server_to_client() {
    let mut server = Lobby::new();
    handle_connect(&mut server, 1);
    handle_connect(&mut server, 2);
    server.players[1].transform.translation = Vec3Fix { x: 3, y: 4, z: 5 };
    let entries = build_snapshot(&server);
    assert_eq!(entries.len(), 2);
    assert_eq!(entries[0].id, 1);
    assert_eq!(entries[1].id, 2);
    assert_eq!(entries[1].pos, Vec3Fix { x: 3, y: 4, z: 5 });
    let wire = encode_snapshot(7, &entries);
    let (tick, received) = decode_snapshot(&wire).expect("well-formed snapshot");
    assert_eq!(tick, 7);
    assert_eq!(received, entries);

    let mut roster = Lobby::new();
    roster.insert(spawn_state(1)).expect("seed own player");
    roster.insert(spawn_state(2)).expect("remote player");
    apply_snapshot(&mut roster, &received);
    let p = roster.lookup(2).expect("player present");
    assert_eq!(p.transform.translation, Vec3Fix { x: 3, y: 4, z: 5 });
}

#[test]
fn out_of_order_snapshot_is_discarded() {
    // no snapshot seen yet: anything is fresh, even tick zero
    assert!(snapshot_is_fresh(None, 0));
    // newer counters supersede, equal or older ones are discarded
    assert!(snapshot_is_fresh(Some(4), 5));
    assert!(!snapshot_is_fresh(Some(5), 5));
    assert!(!snapshot_is_fresh(Some(5), 4));
}
