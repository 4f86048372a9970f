use replication::connection::handle_connect;
use replication::data::CameraInput;
use replication::data::ClientInput;
use replication::data::PLAYER_MOVE_SPEED;
use replication::data::POS_ONE;
use replication::data::TRIG_ONE;
use replication::data::POS_LIMIT;
use replication::data::SPAWN_HEIGHT;
use replication::lobby::Lobby;
use replication::replicate::apply_input;
use replication::tick::TrigPair;
use replication::tick::tick_players;

const ONE_SECOND_US: u32 = 1_000_000;

fn input(forward: bool, backward: bool, left: bool, right: bool) -> ClientInput {
    ClientInput {
        forward,
        backward,
        left,
        right,
        jump: false,
        camera: CameraInput { pitch: 1, yaw: 2, roll: 3 },
    }
}

/// Yaw of zero: cosine one, sine zero, in fixed-point scale.
const YAW_ZERO: TrigPair = TrigPair { cos_q: TRIG_ONE, sin_q: 0 };

#[test]
fn axial_displacement_is_speed_times_time() {
    let mut lobby = Lobby::new();
    handle_connect(&mut lobby, 1);
    apply_input(&mut lobby, 1, input(false, false, false, true));
    for _ in 0..3 {
        tick_players(&mut lobby, &vec![YAW_ZERO], ONE_SECOND_US);
    }
    let p = lobby.lookup(1).expect("player present");
    // three seconds of sideways movement at 5 world units per second
    assert_eq!(p.transform.translation.x, 3 * PLAYER_MOVE_SPEED * POS_ONE);
    assert_eq!(p.transform.translation.z, 0);
    assert_eq!(p.transform.translation.y, SPAWN_HEIGHT);
}

#[test]
fn axial_displacement_under_rotation() {
    // an exact Pythagorean yaw pair: 2460^2 + 3280^2 == 4100^2
    let yaw = TrigPair { cos_q: 2460, sin_q: 3280 };
    let mut lobby = Lobby::new();
    handle_connect(&mut lobby, 1);
    apply_input(&mut lobby, 1, input(false, false, false, true));
    tick_players(&mut lobby, &vec![yaw], ONE_SECOND_US);
    let p = lobby.lookup(1).expect("player present");
    let dx = p.transform.translation.x as i128;
    let dz = p.transform.translation.z as i128;
    let c = yaw.cos_q as i128;
    let s = yaw.sin_q as i128;
    // component along the rotated sideways axis (c, -s): speed * T, scaled
    // by TRIG_ONE^2 for the squared axis length and TRIG_ONE^3 overall
    let t = TRIG_ONE as i128;
    let expected = (PLAYER_MOVE_SPEED as i128) * (ONE_SECOND_US as i128) * t * t * t;
    assert_eq!(dx * c + dz * (-s), expected);
    // exactly zero along the orthogonal axis (s, c)
    assert_eq!(dx * s + dz * c, 0);
}

#[test]
fn diagonal_speed_equals_axial_speed() {
    let mut lobby = Lobby::new();
    handle_connect(&mut lobby, 1);
    apply_input(&mut lobby, 1, input(false, true, false, true));
    for _ in 0..4 {
        tick_players(&mut lobby, &vec![YAW_ZERO], ONE_SECOND_US);
    }
    let p = lobby.lookup(1).expect("player present");
    let dx = p.transform.translation.x as f64;
    let dz = p.transform.translation.z as f64;
    let magnitude_world = (dx * dx + dz * dz).sqrt() / POS_ONE as f64;
    // four seconds of diagonal movement still covers 5 * 4 world units,
    // up to the rounding of the fixed-point diagonal scale
    let expected = (PLAYER_MOVE_SPEED * 4) as f64;
    assert!((magnitude_world - expected).abs() < 0.01);
    // and definitely nowhere near sqrt(2) times that
    assert!(magnitude_world < expected * 1.01);
}

#[test]
fn zero_intent_means_zero_movement() {
    let mut lobby = Lobby::new();
    handle_connect(&mut lobby, 1);
    apply_input(&mut lobby, 1, input(false, false, false, false));
    tick_players(&mut lobby, &vec![YAW_ZERO], ONE_SECOND_US);
    let p = lobby.lookup(1).expect("player present");
    assert_eq!(p.transform.translation.x, 0);
    assert_eq!(p.transform.translation.z, 0);
}

#[test]
fn opposed_intents_cancel() {
    let mut lobby = Lobby::new();
    handle_connect(&mut lobby, 1);
    apply_input(&mut lobby, 1, input(true, true, true, true));
    tick_players(&mut lobby, &vec![YAW_ZERO], ONE_SECOND_US);
    let p = lobby.lookup(1).expect("player present");
    assert_eq!(p.transform.translation.x, 0);
    assert_eq!(p.transform.translation.z, 0);
}

#[test]
fn orientation_is_replicated_verbatim() {
    let mut lobby = Lobby::new();
    handle_connect(&mut lobby, 1);
    apply_input(&mut lobby, 1, input(true, false, false, false));
    tick_players(&mut lobby, &vec![YAW_ZERO], 7813);
    let p = lobby.lookup(1).expect("player present");
    assert_eq!(p.transform.rotation, CameraInput { pitch: 1, yaw: 2, roll: 3 });
}

#[test]
fn movement_scales_with_elapsed_time() {
    // one whole second in one tick equals a thousand ticks of a millisecond
    let mut coarse = Lobby::new();
    handle_connect(&mut coarse, 1);
    apply_input(&mut coarse, 1, input(true, false, false, false));
    tick_players(&mut coarse, &vec![YAW_ZERO], ONE_SECOND_US);
    let mut fine = Lobby::new();
    handle_connect(&mut fine, 1);
    apply_input(&mut fine, 1, input(true, false, false, false));
    for _ in 0..1000 {
        tick_players(&mut fine, &vec![YAW_ZERO], ONE_SECOND_US / 1000);
    }
    let pc = coarse.lookup(1).expect("player present");
    let pf = fine.lookup(1).expect("player present");
    assert_eq!(pc.transform.translation.z, pf.transform.translation.z);
}

#[test]
fn translation_is_clamped_at_world_bound() {
    let mut lobby = Lobby::new();
    handle_connect(&mut lobby, 1);
    apply_input(&mut lobby, 1, input(false, false, false, true));
    lobby.players[0].transform.translation.x = POS_LIMIT;
    tick_players(&mut lobby, &vec![YAW_ZERO], ONE_SECOND_US);
    assert_eq!(lobby.players[0].transform.translation.x, POS_LIMIT);
}
