use replication::codec::encode_client_input;
use replication::connection::handle_connect;
use replication::connection::handle_disconnect;
use replication::data::CameraInput;
use replication::data::ClientInput;
use replication::data::InboundInput;
use replication::data::PLAYER_MOVE_SPEED;
use replication::data::POS_ONE;
use replication::data::TRIG_ONE;
use replication::lobby::Lobby;
use replication::replicate::drain_inputs;
use replication::replicate::process_input_message;
use replication::tick::TrigPair;
use replication::tick::tick_players;

fn frame(forward: bool, right: bool) -> ClientInput {
    ClientInput {
        forward,
        backward: false,
        left: false,
        right,
        jump: false,
        camera: CameraInput { pitch: 0, yaw: 0, roll: 0 },
    }
}

#[test]
fn input_overwrites_stored_input() {
    let mut lobby = Lobby::new();
    handle_connect(&mut lobby, 5);
    let payload = encode_client_input(&frame(true, false));
    assert!(process_input_message(&mut lobby, 5, &payload).is_ok());
    let p = lobby.lookup(5).expect("player present");
    assert!(p.input.forward);
    assert!(!p.input.right);
}

#[test]
fn latest_input_wins_within_one_tick() {
    let mut lobby = Lobby::new();
    handle_connect(&mut lobby, 5);
    let msgs = vec![
        InboundInput { from: 5, payload: encode_client_input(&frame(true, false)) },
        InboundInput { from: 5, payload: encode_client_input(&frame(false, true)) },
    ];
    drain_inputs(&mut lobby, &msgs);
    let p = lobby.lookup(5).expect("player present");
    // only the second frame survives
    assert!(!p.input.forward);
    assert!(p.input.right);
    // and the integrated movement is the second frame's: sideways, one second
    tick_players(&mut lobby, &vec![TrigPair { cos_q: TRIG_ONE, sin_q: 0 }], 1_000_000);
    let p = lobby.lookup(5).expect("player present");
    assert_eq!(p.transform.translation.x, PLAYER_MOVE_SPEED * POS_ONE);
    assert_eq!(p.transform.translation.z, 0);
}

#[test]
fn stale_input_is_discarded_silently() {
    let mut lobby = Lobby::new();
    handle_connect(&mut lobby, 5);
    handle_connect(&mut lobby, 6);
    handle_disconnect(&mut lobby, 5);
    let payload = encode_client_input(&frame(true, false));
    // a frame for the departed identity: no error, no resurrected entry
    assert!(process_input_message(&mut lobby, 5, &payload).is_ok());
    assert!(!lobby.contains(5));
    assert_eq!(lobby.len(), 1);
    let p = lobby.lookup(6).expect("player present");
    assert!(!p.input.forward);
}

#[test]
fn malformed_input_is_dropped_without_effect() {
    let mut lobby = Lobby::new();
    handle_connect(&mut lobby, 5);
    let before = lobby.lookup(5).expect("player present");
    assert!(process_input_message(&mut lobby, 5, &[1, 2, 3]).is_err());
    let after = lobby.lookup(5).expect("player present");
    assert_eq!(before, after);
}

#[test]
fn malformed_frame_does_not_stop_the_drain() {
    let mut lobby = Lobby::new();
    handle_connect(&mut lobby, 5);
    let msgs = vec![
        InboundInput { from: 5, payload: vec![9, 9] },
        InboundInput { from: 5, payload: encode_client_input(&frame(true, false)) },
    ];
    drain_inputs(&mut lobby, &msgs);
    let p = lobby.lookup(5).expect("player present");
    assert!(p.input.forward);
}
