//! Tick simulator: integrates each player's pending input into its pose once
//! per fixed tick.
//!
//! Per player and tick: the planar intent `(right - left, backward - forward)`
//! is scaled to a unit-length fixed-point vector — [`crate::data::DIAG_ONE`]
//! per axis when both axes are active, [`crate::data::TRIG_ONE`] otherwise,
//! so diagonal speed equals axial speed — then rotated by the player's yaw
//! and applied at [`crate::data::PLAYER_MOVE_SPEED`] for the elapsed time.
//! Multiplying by elapsed microseconds, not by a per-tick constant, keeps
//! motion independent of the tick frequency. The pose's orientation is then
//! set verbatim from the stored input's view angles.
//!
//! The caller supplies each player's yaw cosine/sine pair in
//! [`crate::data::TRIG_ONE`] scale, since this crate does not evaluate
//! trigonometric functions; any pair bounded by that scale is accepted, and
//! the laws below hold for every exact Pythagorean pair.

use vstd::prelude::*;

use crate::data::ClientInput;
use crate::data::DIAG_ONE;
use crate::data::PLAYER_MOVE_SPEED;
use crate::data::PlayerState;
use crate::data::POS_LIMIT;
use crate::data::Transform;
use crate::data::TRIG_ONE;
use crate::data::Vec3Fix;
use crate::lobby::Lobby;

verus! {

/// A yaw cosine/sine pair in [`TRIG_ONE`] scale, one per player and tick.
#[derive(Clone, Copy, Debug, PartialEq, Eq, Structural)]
pub struct TrigPair {
    pub cos_q: i64,
    pub sin_q: i64,
}

impl TrigPair {
    /// Both components bounded by the scale, as any rounded cosine/sine is.
    pub open spec fn wf(self) -> bool {
        &&& -TRIG_ONE <= self.cos_q <= TRIG_ONE
        &&& -TRIG_ONE <= self.sin_q <= TRIG_ONE
    }
}

/// One intent axis: `+1`, `-1`, or `0`.
pub open spec fn intent_axis(pos_dir: bool, neg_dir: bool) -> int {
    (if pos_dir {
        1int
    } else {
        0int
    }) - (if neg_dir {
        1int
    } else {
        0int
    })
}

/// Both planar axes are active, so the diagonal correction applies.
pub open spec fn diagonal(x: ClientInput) -> bool {
    intent_axis(x.right, x.left) != 0 && intent_axis(x.backward, x.forward) != 0
}

/// Per-axis magnitude of the unit intent vector.
pub open spec fn intent_scale(x: ClientInput) -> int {
    if diagonal(x) {
        DIAG_ONE as int
    } else {
        TRIG_ONE as int
    }
}

/// Sideways component of the unit intent vector, in [`TRIG_ONE`] scale.
pub open spec fn intent_x(x: ClientInput) -> int {
    intent_axis(x.right, x.left) * intent_scale(x)
}

/// Forward/backward component of the unit intent vector.
pub open spec fn intent_z(x: ClientInput) -> int {
    intent_axis(x.backward, x.forward) * intent_scale(x)
}

/// Translation this tick adds to the x coordinate, in grid units: the intent
/// rotated by the yaw pair `(c, s)`, at move speed, for `dt` microseconds.
pub open spec fn delta_x(x: ClientInput, c: int, s: int, dt: int) -> int {
    (intent_x(x) * c + intent_z(x) * s) * (PLAYER_MOVE_SPEED as int) * dt
}

/// Translation this tick adds to the z coordinate.
pub open spec fn delta_z(x: ClientInput, c: int, s: int, dt: int) -> int {
    (intent_z(x) * c - intent_x(x) * s) * (PLAYER_MOVE_SPEED as int) * dt
}

/// A coordinate held to the world bound.
pub open spec fn clamp_coord(v: int) -> i64 {
    if v < -POS_LIMIT {
        (-POS_LIMIT) as i64
    } else if v > POS_LIMIT {
        POS_LIMIT as i64
    } else {
        v as i64
    }
}

/// The pose one tick produces: translated in the plane, height kept, and the
/// orientation set verbatim from the stored input's view angles.
pub open spec fn step_transform(t: Transform, x: ClientInput, c: int, s: int, dt: int) -> Transform {
    Transform {
        translation: Vec3Fix {
            x: clamp_coord(t.translation.x + delta_x(x, c, s, dt)),
            y: t.translation.y,
            z: clamp_coord(t.translation.z + delta_z(x, c, s, dt)),
        },
        rotation: x.camera,
    }
}

/// The player record one tick produces: same identity, same stored input,
/// stepped pose.
pub open spec fn step_player(p: PlayerState, c: int, s: int, dt: int) -> PlayerState {
    PlayerState { transform: step_transform(p.transform, p.input, c, s, dt), ..p }
}

/// Clamp a computed coordinate to the world bound.
fn clamp_exec(v: i64) -> (r: i64)
    ensures
        r == clamp_coord(v as int),
        -POS_LIMIT <= r <= POS_LIMIT,
{
    if v < -POS_LIMIT {
        -POS_LIMIT
    } else if v > POS_LIMIT {
        POS_LIMIT
    } else {
        v
    }
}

/// Integrate one player's pending input into its pose for `dt_us`
/// microseconds of elapsed tick time, using the caller-computed yaw pair.
pub fn integrate_player(p: &mut PlayerState, trig: TrigPair, dt_us: u32)
    requires
        old(p).wf(),
        trig.wf(),
    ensures
        *final(p) == step_player(*old(p), trig.cos_q as int, trig.sin_q as int, dt_us as int),
        final(p).wf(),
{
    let dx_raw: i64 = (if p.input.right {
        1
    } else {
        0
    }) - (if p.input.left {
        1
    } else {
        0
    });
    let dz_raw: i64 = (if p.input.backward {
        1
    } else {
        0
    }) - (if p.input.forward {
        1
    } else {
        0
    });
    let scale: i64 = if dx_raw != 0 && dz_raw != 0 {
        DIAG_ONE
    } else {
        TRIG_ONE
    };
    proof {
        lemma_unit_product(dx_raw as int, scale as int);
        lemma_unit_product(dz_raw as int, scale as int);
    }
    let ax: i64 = dx_raw * scale;
    let az: i64 = dz_raw * scale;
    proof {
        assert(ax == intent_x(p.input) && az == intent_z(p.input));
        assert(-TRIG_ONE <= ax <= TRIG_ONE && -TRIG_ONE <= az <= TRIG_ONE);
    }
    let c = trig.cos_q;
    let s = trig.sin_q;
    proof {
        lemma_rotation_bounds(ax as int, az as int, c as int, s as int);
    }
    let rx: i64 = ax * c + az * s;
    let rz: i64 = az * c - ax * s;
    let speed_x: i64 = rx * PLAYER_MOVE_SPEED;
    let speed_z: i64 = rz * PLAYER_MOVE_SPEED;
    proof {
        lemma_speed_bounds(rx as int, rz as int, speed_x as int, speed_z as int, dt_us as int);
    }
    let ddx: i64 = speed_x * (dt_us as i64);
    let ddz: i64 = speed_z * (dt_us as i64);
    let new_x = clamp_exec(p.transform.translation.x + ddx);
    let new_z = clamp_exec(p.transform.translation.z + ddz);
    p.transform = Transform {
        translation: Vec3Fix { x: new_x, y: p.transform.translation.y, z: new_z },
        rotation: p.input.camera,
    };
}

/// Scaling one intent axis keeps it within the trig scale.
proof fn lemma_unit_product(raw: int, scale: int)
    requires
        -1 <= raw <= 1,
        0 <= scale <= TRIG_ONE,
    ensures
        -TRIG_ONE <= raw * scale <= TRIG_ONE,
{
    assert(-4100 <= raw * scale <= 4100) by (nonlinear_arith)
        requires
            -1 <= raw <= 1,
            0 <= scale <= 4100,
    ;
}

/// Bounds for the rotated intent: each product and each component of the
/// rotation of a vector bounded by the trig scale stays within twice the
/// scale squared.
proof fn lemma_rotation_bounds(ax: int, az: int, c: int, s: int)
    requires
        -TRIG_ONE <= ax <= TRIG_ONE,
        -TRIG_ONE <= az <= TRIG_ONE,
        -TRIG_ONE <= c <= TRIG_ONE,
        -TRIG_ONE <= s <= TRIG_ONE,
    ensures
        -16810000 <= ax * c <= 16810000,
        -16810000 <= az * s <= 16810000,
        -16810000 <= az * c <= 16810000,
        -16810000 <= ax * s <= 16810000,
        -2 * (TRIG_ONE as int) * (TRIG_ONE as int) <= ax * c + az * s <= 2 * (TRIG_ONE as int) * (
        TRIG_ONE as int),
        -2 * (TRIG_ONE as int) * (TRIG_ONE as int) <= az * c - ax * s <= 2 * (TRIG_ONE as int) * (
        TRIG_ONE as int),
{
    assert(-16810000 <= ax * c <= 16810000) by (nonlinear_arith)
        requires
            -4100 <= ax <= 4100,
            -4100 <= c <= 4100,
    ;
    assert(-16810000 <= az * s <= 16810000) by (nonlinear_arith)
        requires
            -4100 <= az <= 4100,
            -4100 <= s <= 4100,
    ;
    assert(-16810000 <= az * c <= 16810000) by (nonlinear_arith)
        requires
            -4100 <= az <= 4100,
            -4100 <= c <= 4100,
    ;
    assert(-16810000 <= ax * s <= 16810000) by (nonlinear_arith)
        requires
            -4100 <= ax <= 4100,
            -4100 <= s <= 4100,
    ;
}

/// Bounds for the per-tick translation: speed times any 32-bit tick duration
/// stays far inside the signed 64-bit range.
proof fn lemma_speed_bounds(rx: int, rz: int, speed_x: int, speed_z: int, dt: int)
    requires
        -33620000 <= rx <= 33620000,
        -33620000 <= rz <= 33620000,
        speed_x == rx * (PLAYER_MOVE_SPEED as int),
        speed_z == rz * (PLAYER_MOVE_SPEED as int),
        0 <= dt < 4294967296,
    ensures
        -168100000 <= speed_x <= 168100000,
        -168100000 <= speed_z <= 168100000,
        -722001999738700000 <= speed_x * dt <= 722001999738700000,
        -722001999738700000 <= speed_z * dt <= 722001999738700000,
{
    assert(-168100000 <= speed_x <= 168100000 && -168100000 <= speed_z <= 168100000)
        by (nonlinear_arith)
        requires
            -33620000 <= rx <= 33620000,
            -33620000 <= rz <= 33620000,
            speed_x == rx * 5,
            speed_z == rz * 5,
    ;
    assert(-722001999738700000 <= speed_x * dt <= 722001999738700000) by (nonlinear_arith)
        requires
            -168100000 <= speed_x <= 168100000,
            0 <= dt < 4294967296,
    ;
    assert(-722001999738700000 <= speed_z * dt <= 722001999738700000) by (nonlinear_arith)
        requires
            -168100000 <= speed_z <= 168100000,
            0 <= dt < 4294967296,
    ;
}

/// Integrate every player in the lobby for one tick. `trigs[i]` must hold
/// the yaw pair for `players[i]`, computed from that player's stored yaw.
pub fn tick_players(lobby: &mut Lobby, trigs: &Vec<TrigPair>, dt_us: u32)
    requires
        old(lobby).wf(),
        old(lobby).bounded(),
        trigs@.len() == old(lobby).players@.len(),
        forall|i: int| 0 <= i < trigs@.len() ==> (#[trigger] trigs@[i]).wf(),
    ensures
        final(lobby).wf(),
        final(lobby).bounded(),
        final(lobby).players@.len() == old(lobby).players@.len(),
        forall|i: int|
            0 <= i < old(lobby).players@.len() ==> final(lobby).players@[i] == step_player(
                old(lobby).players@[i],
                trigs@[i].cos_q as int,
                trigs@[i].sin_q as int,
                dt_us as int,
            ),
        final(lobby)@.dom() == old(lobby)@.dom(),
{
    let n = lobby.players.len();
    let mut i: usize = 0;
    while i < n
        invariant
            i <= n,
            n == lobby.players@.len(),
            n == old(lobby).players@.len(),
            n == trigs@.len(),
            forall|j: int| 0 <= j < trigs@.len() ==> (#[trigger] trigs@[j]).wf(),
            forall|j: int|
                0 <= j < i ==> lobby.players@[j] == step_player(
                    old(lobby).players@[j],
                    trigs@[j].cos_q as int,
                    trigs@[j].sin_q as int,
                    dt_us as int,
                ),
            forall|j: int| i <= j < n ==> lobby.players@[j] == old(lobby).players@[j],
            lobby.wf(),
            lobby.bounded(),
        decreases n - i,
    {
        let mut p = lobby.players[i];
        integrate_player(&mut p, trigs[i], dt_us);
        proof {
            assert(p.id == lobby.players@[i as int].id);
            assert forall|a: int, b: int|
                0 <= a < b < lobby.players@.update(i as int, p).len() implies lobby.players@.update(
                i as int,
                p,
            )[a].id != lobby.players@.update(i as int, p)[b].id by {
                assert(crate::lobby::unique_ids(lobby.players@));
            }
        }
        lobby.players[i] = p;
        i += 1;
    }
    proof {
        // integration never adds or drops a player: every identity stays put
        assert forall|id: u64| #[trigger] final(lobby)@.dom().contains(id)
            == old(lobby)@.dom().contains(id) by {
            crate::lobby::lemma_map_of_players_dom(final(lobby).players@, id);
            crate::lobby::lemma_map_of_players_dom(old(lobby).players@, id);
            assert(crate::lobby::has_id(final(lobby).players@, id) == crate::lobby::has_id(
                old(lobby).players@,
                id,
            )) by {
                if crate::lobby::has_id(final(lobby).players@, id) {
                    let j = choose|j: int|
                        0 <= j < final(lobby).players@.len() && final(lobby).players@[j].id == id;
                    assert(old(lobby).players@[j].id == id);
                }
                if crate::lobby::has_id(old(lobby).players@, id) {
                    let j = choose|j: int|
                        0 <= j < old(lobby).players@.len() && old(lobby).players@[j].id == id;
                    assert(final(lobby).players@[j].id == id);
                }
            }
        }
        assert(final(lobby)@.dom() =~= old(lobby)@.dom());
    }
}

/// Deterministic integration law: under constant sideways-only intent and an
/// exact unit yaw pair, the displacement's component along the rotated
/// sideways axis is exactly the move speed times the elapsed time — in grid
/// units, `PLAYER_MOVE_SPEED * dt` times the cube of the scale, the square
/// accounting for the unnormalized axis vector `(c, -s)` — and its component
/// along the orthogonal axis `(s, c)` is exactly zero.
pub proof fn lemma_axial_displacement(x: ClientInput, c: int, s: int, dt: int)
    requires
        x.right,
        !x.left,
        !x.forward,
        !x.backward,
        c * c + s * s == (TRIG_ONE as int) * (TRIG_ONE as int),
    ensures
        delta_x(x, c, s, dt) * c + delta_z(x, c, s, dt) * (-s) == (PLAYER_MOVE_SPEED as int) * dt
            * (TRIG_ONE as int) * (TRIG_ONE as int) * (TRIG_ONE as int),
        delta_x(x, c, s, dt) * s + delta_z(x, c, s, dt) * c == 0,
{
    let t = TRIG_ONE as int;
    assert(intent_axis(x.right, x.left) == 1);
    assert(intent_axis(x.backward, x.forward) == 0);
    assert(!diagonal(x));
    assert(intent_scale(x) == t);
    assert(intent_x(x) == 1 * t);
    assert(intent_z(x) == 0 * t);
    assert(intent_x(x) == t && intent_z(x) == 0);
    assert(delta_x(x, c, s, dt) == t * c * (PLAYER_MOVE_SPEED as int) * dt);
    assert(delta_z(x, c, s, dt) == (0 * c - t * s) * (PLAYER_MOVE_SPEED as int) * dt);
    assert((t * c * (PLAYER_MOVE_SPEED as int) * dt) * c + ((0 * c - t * s) * (
    PLAYER_MOVE_SPEED as int) * dt) * (-s) == (PLAYER_MOVE_SPEED as int) * dt * t * (c * c + s
        * s)) by (nonlinear_arith);
    assert((PLAYER_MOVE_SPEED as int) * dt * t * (c * c + s * s) == (PLAYER_MOVE_SPEED as int) * dt
        * t * t * t) by (nonlinear_arith)
        requires
            c * c + s * s == t * t,
    ;
    assert((t * c * (PLAYER_MOVE_SPEED as int) * dt) * s + ((0 * c - t * s) * (
    PLAYER_MOVE_SPEED as int) * dt) * c == 0) by (nonlinear_arith);
}

/// The per-tick translation is additive in the elapsed time: integrating for
/// `dt1 + dt2` microseconds equals integrating for `dt1` and then `dt2` under
/// the same intent and yaw. Hence constant input held for `T` seconds yields
/// the same displacement however the ticks divide `T`.
pub proof fn lemma_delta_additive(x: ClientInput, c: int, s: int, dt1: int, dt2: int)
    ensures
        delta_x(x, c, s, dt1) + delta_x(x, c, s, dt2) == delta_x(x, c, s, dt1 + dt2),
        delta_z(x, c, s, dt1) + delta_z(x, c, s, dt2) == delta_z(x, c, s, dt1 + dt2),
{
    let mx = intent_x(x) * c + intent_z(x) * s;
    let mz = intent_z(x) * c - intent_x(x) * s;
    assert(mx * (PLAYER_MOVE_SPEED as int) * dt1 + mx * (PLAYER_MOVE_SPEED as int) * dt2 == mx * (
    PLAYER_MOVE_SPEED as int) * (dt1 + dt2)) by (nonlinear_arith);
    assert(mz * (PLAYER_MOVE_SPEED as int) * dt1 + mz * (PLAYER_MOVE_SPEED as int) * dt2 == mz * (
    PLAYER_MOVE_SPEED as int) * (dt1 + dt2)) by (nonlinear_arith);
}

/// Diagonal correction law: under constant right-and-backward intent and an
/// exact unit yaw pair, the squared displacement magnitude is
/// `2 * DIAG_ONE^2 * TRIG_ONE^2 * (PLAYER_MOVE_SPEED * dt)^2` — the same as
/// the axial square up to the rounding of `DIAG_ONE`, not `sqrt(2)` times the
/// axial speed — and `DIAG_ONE` is the tightest such scale: doubling the
/// square of the next integer would already exceed the unit square.
pub proof fn lemma_diagonal_displacement(x: ClientInput, c: int, s: int, dt: int)
    requires
        x.right,
        x.backward,
        !x.left,
        !x.forward,
        c * c + s * s == (TRIG_ONE as int) * (TRIG_ONE as int),
    ensures
        delta_x(x, c, s, dt) * delta_x(x, c, s, dt) + delta_z(x, c, s, dt) * delta_z(x, c, s, dt)
            == 2 * (DIAG_ONE as int) * (DIAG_ONE as int) * (TRIG_ONE as int) * (TRIG_ONE as int) * (
        (PLAYER_MOVE_SPEED as int) * dt) * ((PLAYER_MOVE_SPEED as int) * dt),
        2 * (DIAG_ONE as int) * (DIAG_ONE as int) <= (TRIG_ONE as int) * (TRIG_ONE as int),
        (TRIG_ONE as int) * (TRIG_ONE as int) < 2 * ((DIAG_ONE as int) + 1) * ((DIAG_ONE as int)
            + 1),
{
    let d = DIAG_ONE as int;
    let t = TRIG_ONE as int;
    let k = (PLAYER_MOVE_SPEED as int) * dt;
    assert(intent_axis(x.right, x.left) == 1);
    assert(intent_axis(x.backward, x.forward) == 1);
    assert(diagonal(x));
    assert(intent_scale(x) == d);
    assert(intent_x(x) == 1 * d);
    assert(intent_z(x) == 1 * d);
    let dx = delta_x(x, c, s, dt);
    let dz = delta_z(x, c, s, dt);
    let u = d * c + d * s;
    let v = d * c - d * s;
    assert(dx == u * (PLAYER_MOVE_SPEED as int) * dt);
    assert(dz == v * (PLAYER_MOVE_SPEED as int) * dt);
    assert(dx == u * k) by (nonlinear_arith)
        requires
            dx == u * (PLAYER_MOVE_SPEED as int) * dt,
            k == (PLAYER_MOVE_SPEED as int) * dt,
    ;
    assert(dz == v * k) by (nonlinear_arith)
        requires
            dz == v * (PLAYER_MOVE_SPEED as int) * dt,
            k == (PLAYER_MOVE_SPEED as int) * dt,
    ;
    assert(u * u + v * v == 2 * d * d * (c * c + s * s)) by (nonlinear_arith)
        requires
            u == d * c + d * s,
            v == d * c - d * s,
    ;
    assert(u * u + v * v == 2 * d * d * (t * t));
    assert((u * k) * (u * k) + (v * k) * (v * k) == (u * u + v * v) * (k * k))
        by (nonlinear_arith);
    assert((2 * d * d * (t * t)) * (k * k) == 2 * d * d * t * t * k * k) by (nonlinear_arith);
    assert(dx * dx + dz * dz == (u * u + v * v) * (k * k));
}

} // verus!
