//! State broadcaster: captures the per-tick snapshot of every connected
//! player's pose.
//!
//! Once per tick, after integration, the server builds one entry per live
//! player and sends the encoded roster to every client over the unreliable
//! channel. No acknowledgment, no retry, no delta: a dropped snapshot is
//! superseded by the next tick's, and a client that missed any number of
//! them heals completely on the next one received.

use vstd::prelude::*;

use crate::data::ClientData;
use crate::data::PlayerState;
use crate::lobby::Lobby;

verus! {

/// The snapshot entry a player record yields.
pub open spec fn snapshot_entry(p: PlayerState) -> ClientData {
    ClientData { id: p.id, pos: p.transform.translation, rot: p.transform.rotation }
}

/// Capture the snapshot: one entry per live player, in registry order
/// (which carries no meaning), each holding that player's identity and pose
/// at this moment.
pub fn build_snapshot(lobby: &Lobby) -> (r: Vec<ClientData>)
    ensures
        r@.len() == lobby.players@.len(),
        forall|i: int|
            0 <= i < r@.len() ==> r@[i] == snapshot_entry(#[trigger] lobby.players@[i]),
{
    let n = lobby.players.len();
    let mut out: Vec<ClientData> = Vec::new();
    let mut i: usize = 0;
    while i < n
        invariant
            i <= n,
            n == lobby.players@.len(),
            out@.len() == i,
            forall|j: int|
                0 <= j < i ==> out@[j] == snapshot_entry(#[trigger] lobby.players@[j]),
        decreases n - i,
    {
        let p = lobby.players[i];
        out.push(ClientData { id: p.id, pos: p.transform.translation, rot: p.transform.rotation });
        i += 1;
    }
    out
}

} // verus!
