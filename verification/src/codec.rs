//! Wire codec: compact binary encoding of the three message kinds, with a
//! total decoding specification.
//!
//! Layouts, all little-endian, all fixed-width:
//! - input frame (17 bytes): five intent flags, one byte each, `0` or `1`;
//!   then pitch, yaw, roll as the 32-bit patterns the client produced;
//! - lifecycle message (9 bytes): a tag byte (`0` connected, `1`
//!   disconnected) followed by the 64-bit identity;
//! - snapshot: a 64-bit tick counter, a 64-bit entry count, then one
//!   44-byte entry per player (identity, three 64-bit coordinates, three
//!   32-bit angle patterns). The counter increases every tick, so a client
//!   can discard a snapshot the unreliable channel delivered out of order.
//!
//! Decoding consumes the whole payload: a truncated, oversized, or otherwise
//! corrupted payload yields `MalformedMessage`, never a crash. Encoding and
//! decoding are symmetric; the round-trip laws at the end of this module
//! state `decode(encode(x)) == x` for every constructible value.

use vstd::bytes::lemma_auto_spec_u32_to_from_le_bytes;
use vstd::bytes::lemma_auto_spec_u64_to_from_le_bytes;
use vstd::bytes::spec_u32_to_le_bytes;
use vstd::bytes::spec_u32_from_le_bytes;
use vstd::bytes::spec_u64_to_le_bytes;
use vstd::bytes::spec_u64_from_le_bytes;
use vstd::bytes::u32_from_le_bytes;
use vstd::bytes::u32_to_le_bytes;
use vstd::bytes::u64_from_le_bytes;
use vstd::bytes::u64_to_le_bytes;
use vstd::prelude::*;
use vstd::slice::slice_subrange;

use crate::data::CameraInput;
use crate::data::ClientData;
use crate::data::ClientInput;
use crate::data::ReplicationError;
use crate::data::ServerMessage;
use crate::data::Vec3Fix;

verus! {

/// Bytes of one intent flag.
pub open spec fn spec_encode_flag(b: bool) -> u8 {
    if b {
        1u8
    } else {
        0u8
    }
}

/// A flag byte is valid when it is `0` or `1`; anything else is corruption.
pub open spec fn flag_valid(x: u8) -> bool {
    x == 0 || x == 1
}

/// Bytes of a view-angle record: pitch, yaw, roll.
pub open spec fn spec_encode_camera(c: CameraInput) -> Seq<u8> {
    spec_u32_to_le_bytes(c.pitch) + spec_u32_to_le_bytes(c.yaw) + spec_u32_to_le_bytes(c.roll)
}

/// View-angle record denoted by 12 bytes; total, since any pattern is a
/// legal angle encoding.
pub open spec fn spec_decode_camera(s: Seq<u8>) -> CameraInput {
    CameraInput {
        pitch: spec_u32_from_le_bytes(s.subrange(0, 4)),
        yaw: spec_u32_from_le_bytes(s.subrange(4, 8)),
        roll: spec_u32_from_le_bytes(s.subrange(8, 12)),
    }
}

/// Bytes of an input frame.
pub open spec fn spec_encode_client_input(x: ClientInput) -> Seq<u8> {
    seq![
        spec_encode_flag(x.forward),
        spec_encode_flag(x.backward),
        spec_encode_flag(x.left),
        spec_encode_flag(x.right),
        spec_encode_flag(x.jump),
    ] + spec_encode_camera(x.camera)
}

/// Input frame denoted by a payload, or nothing if the payload is malformed.
pub open spec fn spec_decode_client_input(s: Seq<u8>) -> Option<ClientInput> {
    if s.len() == 17 && flag_valid(s[0]) && flag_valid(s[1]) && flag_valid(s[2]) && flag_valid(
        s[3],
    ) && flag_valid(s[4]) {
        Some(
            ClientInput {
                forward: s[0] == 1,
                backward: s[1] == 1,
                left: s[2] == 1,
                right: s[3] == 1,
                jump: s[4] == 1,
                camera: spec_decode_camera(s.subrange(5, 17)),
            },
        )
    } else {
        None
    }
}

/// Bytes of a lifecycle message.
pub open spec fn spec_encode_server_message(m: ServerMessage) -> Seq<u8> {
    match m {
        ServerMessage::ClientConnected { id } => seq![0u8] + spec_u64_to_le_bytes(id),
        ServerMessage::ClientDisconnected { id } => seq![1u8] + spec_u64_to_le_bytes(id),
    }
}

/// Lifecycle message denoted by a payload, or nothing if malformed.
pub open spec fn spec_decode_server_message(s: Seq<u8>) -> Option<ServerMessage> {
    if s.len() != 9 {
        None
    } else if s[0] == 0 {
        Some(ServerMessage::ClientConnected { id: spec_u64_from_le_bytes(s.subrange(1, 9)) })
    } else if s[0] == 1 {
        Some(ServerMessage::ClientDisconnected { id: spec_u64_from_le_bytes(s.subrange(1, 9)) })
    } else {
        None
    }
}

/// Bytes of a signed coordinate: its two's-complement 64-bit pattern.
pub open spec fn spec_encode_i64(x: i64) -> Seq<u8> {
    spec_u64_to_le_bytes(x as u64)
}

/// Coordinate denoted by 8 bytes.
pub open spec fn spec_decode_i64(s: Seq<u8>) -> i64 {
    spec_u64_from_le_bytes(s) as i64
}

/// Bytes of one snapshot entry (44 bytes).
pub open spec fn spec_encode_client_data(d: ClientData) -> Seq<u8> {
    spec_u64_to_le_bytes(d.id) + spec_encode_i64(d.pos.x) + spec_encode_i64(d.pos.y)
        + spec_encode_i64(d.pos.z) + spec_encode_camera(d.rot)
}

/// Snapshot entry denoted by 44 bytes; total.
pub open spec fn spec_decode_client_data(s: Seq<u8>) -> ClientData {
    ClientData {
        id: spec_u64_from_le_bytes(s.subrange(0, 8)),
        pos: Vec3Fix {
            x: spec_decode_i64(s.subrange(8, 16)),
            y: spec_decode_i64(s.subrange(16, 24)),
            z: spec_decode_i64(s.subrange(24, 32)),
        },
        rot: spec_decode_camera(s.subrange(32, 44)),
    }
}

/// Bytes of a run of snapshot entries.
pub open spec fn spec_encode_items(v: Seq<ClientData>) -> Seq<u8>
    decreases v.len(),
{
    if v.len() == 0 {
        Seq::empty()
    } else {
        spec_encode_client_data(v[0]) + spec_encode_items(v.drop_first())
    }
}

/// Bytes of a whole snapshot: tick counter, entry count, then the entries.
pub open spec fn spec_encode_snapshot(tick: u64, v: Seq<ClientData>) -> Seq<u8> {
    spec_u64_to_le_bytes(tick) + spec_u64_to_le_bytes(v.len() as u64) + spec_encode_items(v)
}

/// Run of `n` snapshot entries denoted by a byte run, or nothing unless the
/// run is exactly `44 * n` bytes.
pub open spec fn spec_decode_items(s: Seq<u8>, n: nat) -> Option<Seq<ClientData>>
    decreases n,
{
    if n == 0 {
        if s.len() == 0 {
            Some(Seq::empty())
        } else {
            None
        }
    } else if s.len() < 44 {
        None
    } else {
        match spec_decode_items(s.skip(44), (n - 1) as nat) {
            Some(rest) => Some(seq![spec_decode_client_data(s.take(44))] + rest),
            None => None,
        }
    }
}

/// Snapshot denoted by a payload, or nothing if malformed.
pub open spec fn spec_decode_snapshot(s: Seq<u8>) -> Option<(u64, Seq<ClientData>)> {
    if s.len() < 16 {
        None
    } else {
        match spec_decode_items(s.skip(16), spec_u64_from_le_bytes(s.subrange(8, 16)) as nat) {
            Some(items) => Some((spec_u64_from_le_bytes(s.take(8)), items)),
            None => None,
        }
    }
}

/// Append the little-endian bytes of `x`.
fn write_u32(v: &mut Vec<u8>, x: u32)
    ensures
        final(v)@ == old(v)@ + spec_u32_to_le_bytes(x),
{
    let mut b = u32_to_le_bytes(x);
    v.append(&mut b);
}

/// Append the little-endian bytes of `x`.
fn write_u64(v: &mut Vec<u8>, x: u64)
    ensures
        final(v)@ == old(v)@ + spec_u64_to_le_bytes(x),
{
    let mut b = u64_to_le_bytes(x);
    v.append(&mut b);
}

/// Read a `u32` at byte offset `off`.
fn read_u32(s: &[u8], off: usize) -> (r: u32)
    requires
        off + 4 <= s@.len(),
    ensures
        r == spec_u32_from_le_bytes(s@.subrange(off as int, off + 4)),
{
    let _n = s.len();
    u32_from_le_bytes(slice_subrange(s, off, off + 4))
}

/// Read a `u64` at byte offset `off`.
fn read_u64(s: &[u8], off: usize) -> (r: u64)
    requires
        off + 8 <= s@.len(),
    ensures
        r == spec_u64_from_le_bytes(s@.subrange(off as int, off + 8)),
{
    let _n = s.len();
    u64_from_le_bytes(slice_subrange(s, off, off + 8))
}

/// Encode an input frame for the reliable-ordered channel.
pub fn encode_client_input(x: &ClientInput) -> (r: Vec<u8>)
    ensures
        r@ == spec_encode_client_input(*x),
{
    let mut v: Vec<u8> = Vec::new();
    v.push(if x.forward { 1 } else { 0 });
    v.push(if x.backward { 1 } else { 0 });
    v.push(if x.left { 1 } else { 0 });
    v.push(if x.right { 1 } else { 0 });
    v.push(if x.jump { 1 } else { 0 });
    write_u32(&mut v, x.camera.pitch);
    write_u32(&mut v, x.camera.yaw);
    write_u32(&mut v, x.camera.roll);
    proof {
        assert(v@ =~= spec_encode_client_input(*x));
    }
    v
}

/// Decode an input frame; fails with `MalformedMessage` exactly on payloads
/// no encoding produces.
pub fn decode_client_input(s: &[u8]) -> (r: Result<ClientInput, ReplicationError>)
    ensures
        r == (match spec_decode_client_input(s@) {
            Some(x) => Ok::<ClientInput, ReplicationError>(x),
            None => Err::<ClientInput, ReplicationError>(ReplicationError::MalformedMessage),
        }),
{
    if s.len() != 17 {
        return Err(ReplicationError::MalformedMessage);
    }
    let mut flags: [bool; 5] = [false; 5];
    let mut i: usize = 0;
    while i < 5
        invariant
            i <= 5,
            s@.len() == 17,
            forall|j: int| 0 <= j < i ==> flag_valid(s@[j]),
            forall|j: int| 0 <= j < i ==> flags@[j] == (s@[j] == 1),
        decreases 5 - i,
    {
        let b = *vstd::slice::slice_index_get(s, i);
        if b > 1 {
            return Err(ReplicationError::MalformedMessage);
        }
        flags[i] = b == 1;
        i += 1;
    }
    let camera = CameraInput {
        pitch: read_u32(s, 5),
        yaw: read_u32(s, 9),
        roll: read_u32(s, 13),
    };
    proof {
        assert(s@.subrange(5, 17).subrange(0, 4) =~= s@.subrange(5, 9));
        assert(s@.subrange(5, 17).subrange(4, 8) =~= s@.subrange(9, 13));
        assert(s@.subrange(5, 17).subrange(8, 12) =~= s@.subrange(13, 17));
    }
    Ok(
        ClientInput {
            forward: flags[0],
            backward: flags[1],
            left: flags[2],
            right: flags[3],
            jump: flags[4],
            camera,
        },
    )
}

/// Encode a lifecycle message for the reliable-ordered channel.
pub fn encode_server_message(m: &ServerMessage) -> (r: Vec<u8>)
    ensures
        r@ == spec_encode_server_message(*m),
{
    let mut v: Vec<u8> = Vec::new();
    match m {
        ServerMessage::ClientConnected { id } => {
            v.push(0);
            write_u64(&mut v, *id);
        },
        ServerMessage::ClientDisconnected { id } => {
            v.push(1);
            write_u64(&mut v, *id);
        },
    }
    proof {
        assert(v@ =~= spec_encode_server_message(*m));
    }
    v
}

/// Decode a lifecycle message; fails with `MalformedMessage` exactly on
/// payloads no encoding produces.
pub fn decode_server_message(s: &[u8]) -> (r: Result<ServerMessage, ReplicationError>)
    ensures
        r == (match spec_decode_server_message(s@) {
            Some(m) => Ok::<ServerMessage, ReplicationError>(m),
            None => Err::<ServerMessage, ReplicationError>(ReplicationError::MalformedMessage),
        }),
{
    if s.len() != 9 {
        return Err(ReplicationError::MalformedMessage);
    }
    let tag = *vstd::slice::slice_index_get(s, 0);
    let id = read_u64(s, 1);
    if tag == 0 {
        Ok(ServerMessage::ClientConnected { id })
    } else if tag == 1 {
        Ok(ServerMessage::ClientDisconnected { id })
    } else {
        Err(ReplicationError::MalformedMessage)
    }
}

/// One snapshot entry occupies 44 bytes.
pub proof fn lemma_encode_client_data_len(d: ClientData)
    ensures
        spec_encode_client_data(d).len() == 44,
{
    lemma_auto_spec_u64_to_from_le_bytes();
    lemma_auto_spec_u32_to_from_le_bytes();
}

/// A run of entries occupies 44 bytes per entry.
pub proof fn lemma_encode_items_len(v: Seq<ClientData>)
    ensures
        spec_encode_items(v).len() == 44 * v.len(),
    decreases v.len(),
{
    if v.len() > 0 {
        lemma_encode_client_data_len(v[0]);
        lemma_encode_items_len(v.drop_first());
    }
}

/// Appending one entry extends the byte run at the tail.
proof fn lemma_encode_items_snoc(v: Seq<ClientData>, d: ClientData)
    ensures
        spec_encode_items(v.push(d)) == spec_encode_items(v) + spec_encode_client_data(d),
    decreases v.len(),
{
    reveal_with_fuel(spec_encode_items, 3);
    if v.len() == 0 {
        assert(v.push(d)[0] == d);
        assert(v.push(d).drop_first() =~= Seq::<ClientData>::empty());
        assert(spec_encode_items(v.push(d)) =~= spec_encode_client_data(d));
        assert(spec_encode_items(v) + spec_encode_client_data(d) =~= spec_encode_client_data(d));
    } else {
        lemma_encode_items_snoc(v.drop_first(), d);
        assert(v.push(d)[0] == v[0]);
        assert(v.push(d).drop_first() =~= v.drop_first().push(d));
        assert(spec_encode_client_data(v[0]) + (spec_encode_items(v.drop_first())
            + spec_encode_client_data(d)) =~= spec_encode_items(v) + spec_encode_client_data(d));
    }
}

/// Encode a snapshot for the unreliable channel, stamped with the tick it
/// was captured on.
pub fn encode_snapshot(tick: u64, items: &Vec<ClientData>) -> (r: Vec<u8>)
    ensures
        r@ == spec_encode_snapshot(tick, items@),
{
    let mut v: Vec<u8> = Vec::new();
    let n = items.len();
    write_u64(&mut v, tick);
    write_u64(&mut v, n as u64);
    let mut i: usize = 0;
    while i < n
        invariant
            i <= n,
            n == items@.len(),
            v@ == spec_u64_to_le_bytes(tick) + spec_u64_to_le_bytes(n as u64)
                + spec_encode_items(items@.take(i as int)),
        decreases n - i,
    {
        let ghost pre = v@;
        let d = items[i];
        write_u64(&mut v, d.id);
        write_u64(&mut v, d.pos.x as u64);
        write_u64(&mut v, d.pos.y as u64);
        write_u64(&mut v, d.pos.z as u64);
        write_u32(&mut v, d.rot.pitch);
        write_u32(&mut v, d.rot.yaw);
        write_u32(&mut v, d.rot.roll);
        proof {
            assert(v@ =~= pre + spec_encode_client_data(d));
            lemma_encode_items_snoc(items@.take(i as int), d);
            assert(items@.take(i + 1) =~= items@.take(i as int).push(d));
            assert(v@ =~= spec_u64_to_le_bytes(tick) + spec_u64_to_le_bytes(n as u64)
                + spec_encode_items(items@.take(i + 1)));
        }
        i += 1;
    }
    proof {
        assert(items@.take(n as int) =~= items@);
    }
    v
}

/// A run of `n` entries is denoted exactly when it is `44 * n` bytes long,
/// and then each entry is read off its own 44-byte chunk.
proof fn lemma_decode_items_explicit(s: Seq<u8>, n: nat)
    requires
        s.len() == 44 * n,
    ensures
        spec_decode_items(s, n) == Some(
            Seq::new(n as nat, |i: int| spec_decode_client_data(s.subrange(44 * i, 44 * i + 44))),
        ),
    decreases n,
{
    let want = Seq::new(
        n as nat,
        |i: int| spec_decode_client_data(s.subrange(44 * i, 44 * i + 44)),
    );
    if n == 0 {
        assert(want =~= Seq::<ClientData>::empty());
    } else {
        lemma_decode_items_explicit(s.skip(44), (n - 1) as nat);
        let rest = Seq::new(
            (n - 1) as nat,
            |i: int| spec_decode_client_data(s.skip(44).subrange(44 * i, 44 * i + 44)),
        );
        assert(spec_decode_items(s, n) == Some(seq![spec_decode_client_data(s.take(44))] + rest));
        assert forall|i: int| 0 <= i < n - 1 implies #[trigger] s.skip(44).subrange(
            44 * i,
            44 * i + 44,
        ) =~= s.subrange(44 * (i + 1), 44 * (i + 1) + 44) by {
        }
        assert(s.take(44) =~= s.subrange(0, 44));
        assert(seq![spec_decode_client_data(s.take(44))] + rest =~= want);
    }
}

/// A run whose length is not `44 * n` denotes nothing.
proof fn lemma_decode_items_bad_len(s: Seq<u8>, n: nat)
    requires
        s.len() != 44 * n,
    ensures
        spec_decode_items(s, n) is None,
    decreases n,
{
    if n != 0 && s.len() >= 44 {
        lemma_decode_items_bad_len(s.skip(44), (n - 1) as nat);
    }
}

/// Decode a snapshot; fails with `MalformedMessage` exactly on payloads no
/// encoding produces.
pub fn decode_snapshot(s: &[u8]) -> (r: Result<(u64, Vec<ClientData>), ReplicationError>)
    ensures
        match r {
            Ok((tick, v)) => spec_decode_snapshot(s@) == Some((tick, v@)),
            Err(e) => {
                &&& e == ReplicationError::MalformedMessage
                &&& spec_decode_snapshot(s@) is None
            },
        },
{
    let len = s.len();
    if len < 16 {
        return Err(ReplicationError::MalformedMessage);
    }
    let tick = read_u64(s, 0);
    let count = read_u64(s, 8);
    proof {
        assert(s@.subrange(0, 8) =~= s@.take(8));
    }
    let rem = len - 16;
    if rem % 44 != 0 || (rem / 44) as u64 != count {
        proof {
            lemma_decode_items_bad_len(s@.skip(16), count as nat);
        }
        return Err(ReplicationError::MalformedMessage);
    }
    let n = rem / 44;
    proof {
        lemma_decode_items_explicit(s@.skip(16), n as nat);
    }
    let ghost want = Seq::new(
        n as nat,
        |i: int| spec_decode_client_data(s@.skip(16).subrange(44 * i, 44 * i + 44)),
    );
    let mut out: Vec<ClientData> = Vec::new();
    let mut i: usize = 0;
    while i < n
        invariant
            i <= n,
            16 + 44 * n <= s@.len(),
            s@.len() <= usize::MAX,
            out@.len() == i,
            want == Seq::new(
                n as nat,
                |j: int| spec_decode_client_data(s@.skip(16).subrange(44 * j, 44 * j + 44)),
            ),
            forall|j: int| 0 <= j < i ==> out@[j] == want[j],
        decreases n - i,
    {
        let off = 16 + 44 * i;
        let id = read_u64(s, off);
        let x = #[verifier::truncate] (read_u64(s, off + 8) as i64);
        let y = #[verifier::truncate] (read_u64(s, off + 16) as i64);
        let z = #[verifier::truncate] (read_u64(s, off + 24) as i64);
        let pitch = read_u32(s, off + 32);
        let yaw = read_u32(s, off + 36);
        let roll = read_u32(s, off + 40);
        let d = ClientData {
            id,
            pos: Vec3Fix { x, y, z },
            rot: CameraInput { pitch, yaw, roll },
        };
        proof {
            let chunk = s@.skip(16).subrange(44 * i, 44 * i + 44);
            assert(chunk.subrange(0, 8) =~= s@.subrange(off as int, off + 8));
            assert(chunk.subrange(8, 16) =~= s@.subrange(off + 8, off + 16));
            assert(chunk.subrange(16, 24) =~= s@.subrange(off + 16, off + 24));
            assert(chunk.subrange(24, 32) =~= s@.subrange(off + 24, off + 32));
            assert(chunk.subrange(32, 44).subrange(0, 4) =~= s@.subrange(off + 32, off + 36));
            assert(chunk.subrange(32, 44).subrange(4, 8) =~= s@.subrange(off + 36, off + 40));
            assert(chunk.subrange(32, 44).subrange(8, 12) =~= s@.subrange(off + 40, off + 44));
            assert(d == spec_decode_client_data(chunk));
        }
        out.push(d);
        i += 1;
    }
    proof {
        assert(out@ =~= want);
    }
    Ok((tick, out))
}

/// Round-trip law: an encoded input frame decodes to itself.
pub proof fn lemma_client_input_round_trip(x: ClientInput)
    ensures
        spec_decode_client_input(spec_encode_client_input(x)) == Some(x),
{
    lemma_auto_spec_u32_to_from_le_bytes();
    let e = spec_encode_client_input(x);
    assert(e.subrange(5, 17) =~= spec_encode_camera(x.camera));
    assert(spec_encode_camera(x.camera).subrange(0, 4) =~= spec_u32_to_le_bytes(x.camera.pitch));
    assert(spec_encode_camera(x.camera).subrange(4, 8) =~= spec_u32_to_le_bytes(x.camera.yaw));
    assert(spec_encode_camera(x.camera).subrange(8, 12) =~= spec_u32_to_le_bytes(x.camera.roll));
}

/// Round-trip law: an encoded lifecycle message decodes to itself.
pub proof fn lemma_server_message_round_trip(m: ServerMessage)
    ensures
        spec_decode_server_message(spec_encode_server_message(m)) == Some(m),
{
    lemma_auto_spec_u64_to_from_le_bytes();
    let e = spec_encode_server_message(m);
    match m {
        ServerMessage::ClientConnected { id } => {
            assert(e.subrange(1, 9) =~= spec_u64_to_le_bytes(id));
        },
        ServerMessage::ClientDisconnected { id } => {
            assert(e.subrange(1, 9) =~= spec_u64_to_le_bytes(id));
        },
    }
}

/// An encoded snapshot entry decodes to itself.
proof fn lemma_client_data_round_trip(d: ClientData)
    ensures
        spec_decode_client_data(spec_encode_client_data(d)) == d,
{
    lemma_auto_spec_u64_to_from_le_bytes();
    lemma_auto_spec_u32_to_from_le_bytes();
    let e = spec_encode_client_data(d);
    assert(e.subrange(0, 8) =~= spec_u64_to_le_bytes(d.id));
    assert(e.subrange(8, 16) =~= spec_u64_to_le_bytes(d.pos.x as u64));
    assert(e.subrange(16, 24) =~= spec_u64_to_le_bytes(d.pos.y as u64));
    assert(e.subrange(24, 32) =~= spec_u64_to_le_bytes(d.pos.z as u64));
    assert(e.subrange(32, 44) =~= spec_encode_camera(d.rot));
    assert(spec_encode_camera(d.rot).subrange(0, 4) =~= spec_u32_to_le_bytes(d.rot.pitch));
    assert(spec_encode_camera(d.rot).subrange(4, 8) =~= spec_u32_to_le_bytes(d.rot.yaw));
    assert(spec_encode_camera(d.rot).subrange(8, 12) =~= spec_u32_to_le_bytes(d.rot.roll));
    let xv = d.pos.x;
    let yv = d.pos.y;
    let zv = d.pos.z;
    assert((xv as u64) as i64 == xv) by (bit_vector);
    assert((yv as u64) as i64 == yv) by (bit_vector);
    assert((zv as u64) as i64 == zv) by (bit_vector);
}

/// An encoded run of entries decodes to itself.
proof fn lemma_items_round_trip(v: Seq<ClientData>)
    ensures
        spec_decode_items(spec_encode_items(v), v.len()) == Some(v),
    decreases v.len(),
{
    lemma_encode_items_len(v);
    if v.len() > 0 {
        lemma_items_round_trip(v.drop_first());
        lemma_client_data_round_trip(v[0]);
        lemma_encode_client_data_len(v[0]);
        let e = spec_encode_items(v);
        assert(e.take(44) =~= spec_encode_client_data(v[0]));
        assert(e.skip(44) =~= spec_encode_items(v.drop_first()));
        assert(seq![v[0]] + v.drop_first() =~= v);
    }
}

/// Round-trip law: an encoded snapshot decodes to itself, tick counter
/// included, for every roster whose size a 64-bit count can carry.
pub proof fn lemma_snapshot_round_trip(tick: u64, v: Seq<ClientData>)
    requires
        v.len() <= 0xffffffffffffffff,
    ensures
        spec_decode_snapshot(spec_encode_snapshot(tick, v)) == Some((tick, v)),
{
    lemma_auto_spec_u64_to_from_le_bytes();
    lemma_items_round_trip(v);
    let e = spec_encode_snapshot(tick, v);
    assert(e.take(8) =~= spec_u64_to_le_bytes(tick));
    assert(e.subrange(8, 16) =~= spec_u64_to_le_bytes(v.len() as u64));
    assert(e.skip(16) =~= spec_encode_items(v));
    assert(spec_u64_from_le_bytes(e.subrange(8, 16)) as nat == v.len());
}

} // verus!
