//! Client-side sync: mirrors the server's roster from lifecycle messages and
//! applies received snapshots to the local representations of remote players.
//!
//! The client keeps its own [`Lobby`] of remote-player records. Lifecycle
//! messages over the reliable channel add and remove entries exactly as the
//! server's connection manager does; since the client's own record is seeded
//! at startup, the broadcast announcing the client itself lands on the
//! already-present branch and is a no-op. Snapshots over the unreliable
//! channel overwrite the pose of every known entry; entries for identities
//! the client does not know yet — the snapshot raced the lifecycle message —
//! are ignored until the roster catches up.

use vstd::prelude::*;

use crate::connection::apply_connect;
use crate::connection::apply_disconnect;
use crate::connection::step_records;
use crate::data::ClientData;
use crate::data::ConnectionEvent;
use crate::data::PlayerState;
use crate::data::ServerMessage;
use crate::data::Transform;
use crate::lobby::Lobby;
use crate::lobby::has_id;
use crate::lobby::unique_ids;

verus! {

/// Whether a snapshot stamped `tick` supersedes the last one applied. The
/// unreliable channel may reorder or drop snapshots; each is a full roster,
/// so the client applies a snapshot exactly when its counter is strictly
/// newer, and stale arrivals are discarded instead of rolling poses back.
pub fn snapshot_is_fresh(last_applied: Option<u64>, tick: u64) -> (r: bool)
    ensures
        r == (match last_applied {
            Some(last) => tick > last,
            None => true,
        }),
{
    match last_applied {
        Some(last) => tick > last,
        None => true,
    }
}

/// The record with its pose overwritten by a snapshot entry.
pub open spec fn with_pose(p: PlayerState, d: ClientData) -> PlayerState {
    PlayerState {
        transform: Transform { translation: d.pos, rotation: d.rot },
        ..p
    }
}

/// Effect of one snapshot entry on the record sequence: the first record
/// carrying the entry's identity takes its pose; an unknown identity is
/// ignored.
pub open spec fn seq_apply_entry(s: Seq<PlayerState>, d: ClientData) -> Seq<PlayerState>
    decreases s.len(),
{
    if s.len() == 0 {
        s
    } else if s[0].id == d.id {
        seq![with_pose(s[0], d)] + s.drop_first()
    } else {
        seq![s[0]] + seq_apply_entry(s.drop_first(), d)
    }
}

/// Effect of a whole snapshot, first entry first.
pub open spec fn seq_apply_snapshot(s: Seq<PlayerState>, entries: Seq<ClientData>) -> Seq<
    PlayerState,
> decreases entries.len(),
{
    if entries.len() == 0 {
        s
    } else {
        seq_apply_snapshot(seq_apply_entry(s, entries[0]), entries.drop_first())
    }
}

/// Apply one lifecycle message to the client's roster. The state change is
/// exactly the server-side transition for the same identity; no message is
/// emitted in turn.
pub fn apply_lifecycle(lobby: &mut Lobby, message: &ServerMessage)
    requires
        old(lobby).wf(),
    ensures
        final(lobby).wf(),
        match *message {
            ServerMessage::ClientConnected { id } => {
                &&& final(lobby).players@ == step_records(
                    old(lobby).players@,
                    (ConnectionEvent::Connected { id }),
                )
                &&& final(lobby)@ == apply_connect(old(lobby)@, id)
            },
            ServerMessage::ClientDisconnected { id } => {
                &&& final(lobby).players@ == step_records(
                    old(lobby).players@,
                    (ConnectionEvent::Disconnected { id }),
                )
                &&& final(lobby)@ == apply_disconnect(old(lobby)@, id)
            },
        },
        old(lobby).bounded() ==> final(lobby).bounded(),
{
    match message {
        ServerMessage::ClientConnected { id } => {
            let _ = crate::connection::handle_connect(lobby, *id);
        },
        ServerMessage::ClientDisconnected { id } => {
            let _ = crate::connection::handle_disconnect(lobby, *id);
        },
    }
}

/// A first-match pose overwrite is an update at the first matching index.
proof fn lemma_seq_apply_entry_at(s: Seq<PlayerState>, d: ClientData, i: int)
    requires
        0 <= i < s.len(),
        s[i].id == d.id,
        forall|j: int| 0 <= j < i ==> s[j].id != d.id,
    ensures
        seq_apply_entry(s, d) == s.update(i, with_pose(s[i], d)),
    decreases i,
{
    if i == 0 {
        assert(seq![with_pose(s[0], d)] + s.drop_first() =~= s.update(0, with_pose(s[0], d)));
    } else {
        lemma_seq_apply_entry_at(s.drop_first(), d, i - 1);
        assert(seq![s[0]] + s.drop_first().update(i - 1, with_pose(s[i], d)) =~= s.update(
            i,
            with_pose(s[i], d),
        ));
    }
}

/// A pose overwrite for an unknown identity changes nothing.
proof fn lemma_seq_apply_entry_absent(s: Seq<PlayerState>, d: ClientData)
    requires
        !has_id(s, d.id),
    ensures
        seq_apply_entry(s, d) == s,
    decreases s.len(),
{
    if s.len() > 0 {
        assert(s[0].id != d.id);
        assert(!has_id(s.drop_first(), d.id)) by {
            if has_id(s.drop_first(), d.id) {
                let j = choose|j: int|
                    0 <= j < s.drop_first().len() && s.drop_first()[j].id == d.id;
                assert(s[j + 1].id == d.id);
            }
        }
        lemma_seq_apply_entry_absent(s.drop_first(), d);
        assert(seq![s[0]] + s.drop_first() =~= s);
    }
}

/// Apply one snapshot entry: overwrite the pose of the record carrying the
/// entry's identity, or do nothing if there is none.
fn apply_entry(lobby: &mut Lobby, d: ClientData)
    requires
        old(lobby).wf(),
    ensures
        final(lobby).wf(),
        final(lobby).players@ == seq_apply_entry(old(lobby).players@, d),
{
    let n = lobby.players.len();
    let mut i: usize = 0;
    while i < n
        invariant
            i <= n,
            n == lobby.players@.len(),
            forall|j: int| 0 <= j < i ==> lobby.players@[j].id != d.id,
            lobby == old(lobby),
            lobby.wf(),
        decreases n - i,
    {
        if lobby.players[i].id == d.id {
            let updated = PlayerState {
                id: lobby.players[i].id,
                transform: Transform { translation: d.pos, rotation: d.rot },
                input: lobby.players[i].input,
            };
            proof {
                lemma_seq_apply_entry_at(lobby.players@, d, i as int);
                assert forall|a: int, b: int|
                    0 <= a < b < lobby.players@.update(i as int, updated).len() implies
                    lobby.players@.update(i as int, updated)[a].id != lobby.players@.update(
                    i as int,
                    updated,
                )[b].id by {
                    assert(unique_ids(lobby.players@));
                }
            }
            lobby.players[i] = updated;
            return ;
        }
        i += 1;
    }
    proof {
        lemma_seq_apply_entry_absent(lobby.players@, d);
    }
}

/// Apply a received snapshot to the local roster, first entry first. Entries
/// for unknown identities are ignored; every known player's pose becomes the
/// one the snapshot carries.
pub fn apply_snapshot(lobby: &mut Lobby, entries: &Vec<ClientData>)
    requires
        old(lobby).wf(),
    ensures
        final(lobby).wf(),
        final(lobby).players@ == seq_apply_snapshot(old(lobby).players@, entries@),
{
    let n = entries.len();
    let mut i: usize = 0;
    while i < n
        invariant
            i <= n,
            n == entries@.len(),
            lobby.wf(),
            lobby.players@ == seq_apply_snapshot(old(lobby).players@, entries@.take(i as int)),
        decreases n - i,
    {
        apply_entry(lobby, entries[i]);
        proof {
            lemma_seq_apply_snapshot_snoc(
                old(lobby).players@,
                entries@.take(i as int),
                entries@[i as int],
            );
            assert(entries@.take(i + 1) =~= entries@.take(i as int).push(entries@[i as int]));
        }
        i += 1;
    }
    proof {
        assert(entries@.take(n as int) =~= entries@);
    }
}

/// Applying one more entry composes at the tail.
proof fn lemma_seq_apply_snapshot_snoc(s: Seq<PlayerState>, entries: Seq<ClientData>, d: ClientData)
    ensures
        seq_apply_snapshot(s, entries.push(d)) == seq_apply_entry(
            seq_apply_snapshot(s, entries),
            d,
        ),
    decreases entries.len(),
{
    reveal_with_fuel(seq_apply_snapshot, 3);
    if entries.len() == 0 {
        assert(entries.push(d)[0] == d);
        assert(entries.push(d).drop_first() =~= Seq::<ClientData>::empty());
    } else {
        lemma_seq_apply_snapshot_snoc(seq_apply_entry(s, entries[0]), entries.drop_first(), d);
        assert(entries.push(d)[0] == entries[0]);
        assert(entries.push(d).drop_first() =~= entries.drop_first().push(d));
    }
}

} // verus!
