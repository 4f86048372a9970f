//! Shared data model: wire-visible records, the server-side player state, and
//! the fixed-point scalar conventions every component agrees on.
//!
//! Scalar conventions. World-space translations are stored in a signed
//! fixed-point grid: [`POS_ONE`] grid units equal one world unit. Direction
//! and trigonometric quantities are scaled by [`TRIG_ONE`]: a cosine/sine pair
//! for an angle is a pair `(c, s)` with `c*c + s*s` close to
//! `TRIG_ONE * TRIG_ONE`. The scale is chosen so that exact Pythagorean pairs
//! exist (for example `(2460, 3280)`), which keeps the motion laws below
//! satisfiable with exact integer values. View angles (yaw, pitch, roll) are
//! never interpreted by this crate: they are carried end to end as the 32-bit
//! encodings the client produced.

use vstd::prelude::*;

verus! {

/// Well-known default port the server listens on.
pub const DEFAULT_PORT: u16 = 9080;

/// Protocol identifier all peers must agree on at connect time.
pub const PROTOCOL_ID: u64 = 0;

/// Default fixed tick frequency of the server simulation, in Hz.
pub const DEFAULT_TICK_HZ: u64 = 128;

/// Player movement speed, in world units per second.
pub const PLAYER_MOVE_SPEED: i64 = 5;

/// Fixed-point scale of direction and trigonometric components.
pub const TRIG_ONE: i64 = 4100;

/// Per-axis intent component used when both planar axes are active: the
/// largest `k` with `2*k*k <= TRIG_ONE*TRIG_ONE`, so that a diagonal intent
/// vector `(k, k)` is the best under-approximation of a unit vector. Applying
/// it keeps diagonal speed equal to axial speed instead of `sqrt(2)` times it.
pub const DIAG_ONE: i64 = 2899;

/// Microseconds per second; tick durations are measured in microseconds.
pub const MICROS_PER_SEC: i64 = 1000000;

/// Translation grid units per world unit. One tick of axial movement at
/// speed 1 for one second advances a coordinate by exactly `POS_ONE`.
pub const POS_ONE: i64 = TRIG_ONE * TRIG_ONE * MICROS_PER_SEC;

/// World bound: every coordinate is kept in `[-POS_LIMIT, POS_LIMIT]`.
/// Generous enough for play (100000 world units from the origin) while
/// leaving headroom so one tick of movement can never overflow an `i64`.
pub const POS_LIMIT: i64 = 100000 * POS_ONE;

/// Height at which a freshly connected player spawns: half a world unit.
pub const SPAWN_HEIGHT: i64 = TRIG_ONE * TRIG_ONE * 500000;

/// A client's network identity: assigned by the transport at connect time,
/// unique for the lifetime of the connection.
#[derive(Clone, Copy, Debug, PartialEq, Eq, Structural)]
pub struct PlayerId(pub u64);

/// Client-reported view angles, carried as opaque 32-bit encodings of the
/// angle values in radians. The producer clamps pitch; this core only
/// replicates the record.
#[derive(Clone, Copy, Debug, PartialEq, Eq, Structural)]
pub struct CameraInput {
    pub pitch: u32,
    pub yaw: u32,
    pub roll: u32,
}

/// The latest known input of one player: boolean movement intents plus the
/// view angle record. A newer message simply overwrites the stored value.
#[derive(Clone, Copy, Debug, PartialEq, Eq, Structural)]
pub struct ClientInput {
    pub forward: bool,
    pub backward: bool,
    pub left: bool,
    pub right: bool,
    pub jump: bool,
    pub camera: CameraInput,
}

/// A translation in the fixed-point world grid (see [`POS_ONE`]).
#[derive(Clone, Copy, Debug, PartialEq, Eq, Structural)]
pub struct Vec3Fix {
    pub x: i64,
    pub y: i64,
    pub z: i64,
}

/// A player's pose: where it stands and which way it looks.
#[derive(Clone, Copy, Debug, PartialEq, Eq, Structural)]
pub struct Transform {
    pub translation: Vec3Fix,
    pub rotation: CameraInput,
}

/// One player record owned by the server: identity, pose, and latest input.
/// Created on connect, mutated every tick, destroyed on disconnect.
#[derive(Clone, Copy, Debug, PartialEq, Eq, Structural)]
pub struct PlayerState {
    pub id: u64,
    pub transform: Transform,
    pub input: ClientInput,
}

/// One snapshot entry: a player's identity and pose at the moment of capture.
#[derive(Clone, Copy, Debug, PartialEq, Eq, Structural)]
pub struct ClientData {
    pub id: u64,
    pub pos: Vec3Fix,
    pub rot: CameraInput,
}

/// Lifecycle notification sent to clients over the reliable-ordered channel.
#[derive(Clone, Copy, Debug, PartialEq, Eq, Structural)]
pub enum ServerMessage {
    ClientConnected { id: u64 },
    ClientDisconnected { id: u64 },
}

/// Transport-level connectivity event consumed by the connection manager.
/// A transport failure is surfaced as a `Disconnected` event for the affected
/// identity; it never terminates the server.
#[derive(Clone, Copy, Debug, PartialEq, Eq, Structural)]
pub enum ConnectionEvent {
    Connected { id: u64 },
    Disconnected { id: u64 },
}

/// A send the library asks the transport to perform on the reliable-ordered
/// channel: either to one client or to every connected client.
#[derive(Clone, Copy, Debug, PartialEq, Eq, Structural)]
pub enum Outgoing {
    Direct { to: u64, message: ServerMessage },
    Broadcast { message: ServerMessage },
}

/// Error taxonomy of the replication core. Every variant is recoverable: the
/// tick loop drops or ignores the offending message and keeps running.
#[derive(Clone, Copy, Debug, PartialEq, Eq, Structural)]
pub enum ReplicationError {
    /// A payload failed to decode; the message is dropped.
    MalformedMessage,
    /// An operation addressed an identity with no live player record.
    UnknownIdentity,
    /// A connect-time insertion addressed an identity already present.
    DuplicateIdentity,
    /// An underlying connection failed; treated as a disconnect signal.
    TransportFailure,
}

/// One inbound input message: the sender's identity and the raw payload.
pub struct InboundInput {
    pub from: u64,
    pub payload: Vec<u8>,
}

impl Vec3Fix {
    /// Every coordinate lies within the world bound.
    pub open spec fn wf(self) -> bool {
        &&& -POS_LIMIT <= self.x <= POS_LIMIT
        &&& -POS_LIMIT <= self.y <= POS_LIMIT
        &&& -POS_LIMIT <= self.z <= POS_LIMIT
    }
}

impl Transform {
    pub open spec fn wf(self) -> bool {
        self.translation.wf()
    }
}

impl PlayerState {
    pub open spec fn wf(self) -> bool {
        self.transform.wf()
    }
}

impl Default for CameraInput {
    /// All angles zero.
    fn default() -> (r: Self)
        ensures
            r == (CameraInput { pitch: 0, yaw: 0, roll: 0 }),
    {
        CameraInput { pitch: 0, yaw: 0, roll: 0 }
    }
}

impl Default for ClientInput {
    /// No intent, all angles zero.
    fn default() -> (r: Self)
        ensures
            r == spec_default_input(),
    {
        ClientInput {
            forward: false,
            backward: false,
            left: false,
            right: false,
            jump: false,
            camera: CameraInput { pitch: 0, yaw: 0, roll: 0 },
        }
    }
}

/// The input a player record starts with.
pub open spec fn spec_default_input() -> ClientInput {
    ClientInput {
        forward: false,
        backward: false,
        left: false,
        right: false,
        jump: false,
        camera: CameraInput { pitch: 0, yaw: 0, roll: 0 },
    }
}

/// The pose a player record starts with: at the origin, half a world unit up,
/// looking straight ahead.
pub open spec fn spec_spawn_transform() -> Transform {
    Transform {
        translation: Vec3Fix { x: 0, y: SPAWN_HEIGHT, z: 0 },
        rotation: CameraInput { pitch: 0, yaw: 0, roll: 0 },
    }
}

/// The player record created when `id` connects.
pub open spec fn spec_spawn_state(id: u64) -> PlayerState {
    PlayerState { id, transform: spec_spawn_transform(), input: spec_default_input() }
}

/// Build the player record for a freshly connected identity.
pub fn spawn_state(id: u64) -> (r: PlayerState)
    ensures
        r == spec_spawn_state(id),
        r.wf(),
{
    PlayerState {
        id,
        transform: Transform {
            translation: Vec3Fix { x: 0, y: SPAWN_HEIGHT, z: 0 },
            rotation: CameraInput { pitch: 0, yaw: 0, roll: 0 },
        },
        input: ClientInput::default(),
    }
}

} // verus!
