//! Connection manager: consumes transport connect/disconnect events, mutates
//! the lobby, and emits the lifecycle notifications the transport must send.
//!
//! Per-identity state machine: unknown, then connected, then disconnected
//! (terminal). A connect for an identity already present is treated as
//! already-connected (idempotent), and a disconnect for an absent identity is
//! a no-op, since a transport may surface disconnects after logical removal
//! already happened. A transport failure reaches this module as an ordinary
//! `Disconnected` event and never terminates the process.

use vstd::prelude::*;

use crate::data::ConnectionEvent;
use crate::data::Outgoing;
use crate::data::PlayerState;
use crate::data::ServerMessage;
use crate::data::spec_spawn_state;
use crate::data::spawn_state;
use crate::lobby::Lobby;
use crate::lobby::has_id;
use crate::lobby::map_of_players;
use crate::lobby::unique_ids;

verus! {

/// Effect of a connect on the abstract lobby map: a fresh identity gets a
/// spawn record; a known one is left as it is.
pub open spec fn apply_connect(m: Map<u64, PlayerState>, id: u64) -> Map<u64, PlayerState> {
    if m.dom().contains(id) {
        m
    } else {
        m.insert(id, spec_spawn_state(id))
    }
}

/// Effect of a disconnect on the abstract lobby map: a known identity is
/// removed; an unknown one is a no-op.
pub open spec fn apply_disconnect(m: Map<u64, PlayerState>, id: u64) -> Map<u64, PlayerState> {
    if m.dom().contains(id) {
        m.remove(id)
    } else {
        m
    }
}

/// Effect of one connectivity event on the abstract lobby map.
pub open spec fn apply_event(m: Map<u64, PlayerState>, e: ConnectionEvent) -> Map<
    u64,
    PlayerState,
> {
    match e {
        ConnectionEvent::Connected { id } => apply_connect(m, id),
        ConnectionEvent::Disconnected { id } => apply_disconnect(m, id),
    }
}

/// Effect of a whole event sequence, first event first.
pub open spec fn apply_events(m: Map<u64, PlayerState>, evs: Seq<ConnectionEvent>) -> Map<
    u64,
    PlayerState,
> decreases evs.len(),
{
    if evs.len() == 0 {
        m
    } else {
        apply_events(apply_event(m, evs[0]), evs.drop_first())
    }
}

/// The messages a connect emits, given the records present before it: one
/// roster-replay message to the new client per existing peer, then one
/// broadcast announcing the new client. A known identity emits nothing.
pub open spec fn connect_msgs(s: Seq<PlayerState>, id: u64) -> Seq<Outgoing> {
    if has_id(s, id) {
        Seq::empty()
    } else {
        Seq::new(s.len(), |i: int| (Outgoing::Direct {
            to: id,
            message: ServerMessage::ClientConnected { id: s[i].id },
        })).push(Outgoing::Broadcast { message: ServerMessage::ClientConnected { id } })
    }
}

/// The messages a disconnect emits: one broadcast if the identity was live,
/// nothing otherwise.
pub open spec fn disconnect_msgs(s: Seq<PlayerState>, id: u64) -> Seq<Outgoing> {
    if has_id(s, id) {
        seq![Outgoing::Broadcast { message: ServerMessage::ClientDisconnected { id } }]
    } else {
        Seq::empty()
    }
}

/// The messages one event emits, given the records present before it.
pub open spec fn event_msgs(s: Seq<PlayerState>, e: ConnectionEvent) -> Seq<Outgoing> {
    match e {
        ConnectionEvent::Connected { id } => connect_msgs(s, id),
        ConnectionEvent::Disconnected { id } => disconnect_msgs(s, id),
    }
}

/// Effect of one event on the record sequence itself.
pub open spec fn step_records(s: Seq<PlayerState>, e: ConnectionEvent) -> Seq<PlayerState> {
    match e {
        ConnectionEvent::Connected { id } => if has_id(s, id) {
            s
        } else {
            s.push(spec_spawn_state(id))
        },
        ConnectionEvent::Disconnected { id } => remove_id(s, id),
    }
}

/// The record sequence with the first record carrying `id` taken out.
pub open spec fn remove_id(s: Seq<PlayerState>, id: u64) -> Seq<PlayerState>
    decreases s.len(),
{
    if s.len() == 0 {
        s
    } else if s[0].id == id {
        s.drop_first()
    } else {
        seq![s[0]] + remove_id(s.drop_first(), id)
    }
}

/// Records after a whole event sequence.
pub open spec fn run_records(s: Seq<PlayerState>, evs: Seq<ConnectionEvent>) -> Seq<PlayerState>
    decreases evs.len(),
{
    if evs.len() == 0 {
        s
    } else {
        run_records(step_records(s, evs[0]), evs.drop_first())
    }
}

/// All messages a whole event sequence emits, in emission order.
pub open spec fn run_msgs(s: Seq<PlayerState>, evs: Seq<ConnectionEvent>) -> Seq<Outgoing>
    decreases evs.len(),
{
    if evs.len() == 0 {
        Seq::empty()
    } else {
        event_msgs(s, evs[0]) + run_msgs(step_records(s, evs[0]), evs.drop_first())
    }
}

/// Removing the first record carrying `id` is removal at its first index.
proof fn lemma_remove_id_at(s: Seq<PlayerState>, id: u64, i: int)
    requires
        0 <= i < s.len(),
        s[i].id == id,
        forall|j: int| 0 <= j < i ==> s[j].id != id,
    ensures
        remove_id(s, id) == s.remove(i),
    decreases i,
{
    if i == 0 {
        assert(remove_id(s, id) == s.drop_first());
        assert(s.drop_first() =~= s.remove(0));
    } else {
        lemma_remove_id_at(s.drop_first(), id, i - 1);
        assert(remove_id(s, id) == seq![s[0]] + s.drop_first().remove(i - 1));
        assert(seq![s[0]] + s.drop_first().remove(i - 1) =~= s.remove(i));
    }
}

/// When no record carries `id`, removal is the identity.
proof fn lemma_remove_id_absent(s: Seq<PlayerState>, id: u64)
    requires
        !has_id(s, id),
    ensures
        remove_id(s, id) == s,
    decreases s.len(),
{
    if s.len() > 0 {
        assert(s[0].id != id);
        assert(!has_id(s.drop_first(), id)) by {
            if has_id(s.drop_first(), id) {
                let j = choose|j: int|
                    0 <= j < s.drop_first().len() && s.drop_first()[j].id == id;
                assert(s[j + 1].id == id);
            }
        }
        lemma_remove_id_absent(s.drop_first(), id);
        assert(seq![s[0]] + s.drop_first() =~= s);
    }
}

/// Process one connect event. When the identity is new: a spawn record is
/// appended, every prior peer is replayed to the new client, and the new
/// identity is announced to everyone. When it is already live: nothing
/// changes and nothing is sent.
pub fn handle_connect(lobby: &mut Lobby, id: u64) -> (out: Vec<Outgoing>)
    requires
        old(lobby).wf(),
    ensures
        final(lobby).wf(),
        final(lobby).players@ == step_records(old(lobby).players@, (ConnectionEvent::Connected {
            id,
        })),
        final(lobby)@ == apply_connect(old(lobby)@, id),
        out@ == connect_msgs(old(lobby).players@, id),
        old(lobby).bounded() ==> final(lobby).bounded(),
{
    let mut out: Vec<Outgoing> = Vec::new();
    let n = lobby.len();
    if lobby.contains(id) {
        proof {
            crate::lobby::lemma_map_of_players_dom(lobby.players@, id);
        }
        return out;
    }
    proof {
        crate::lobby::lemma_map_of_players_dom(lobby.players@, id);
    }
    let mut i: usize = 0;
    while i < n
        invariant
            i <= n,
            n == lobby.players@.len(),
            out@.len() == i,
            forall|j: int|
                0 <= j < i ==> out@[j] == (Outgoing::Direct {
                    to: id,
                    message: ServerMessage::ClientConnected { id: lobby.players@[j].id },
                }),
        decreases n - i,
    {
        let peer = lobby.players[i].id;
        out.push(Outgoing::Direct { to: id, message: ServerMessage::ClientConnected { id: peer } });
        i += 1;
    }
    let inserted = lobby.insert(spawn_state(id));
    proof {
        assert(inserted is Ok);
    }
    out.push(Outgoing::Broadcast { message: ServerMessage::ClientConnected { id } });
    proof {
        assert(out@ =~= connect_msgs(old(lobby).players@, id));
    }
    out
}

/// Process one disconnect event. When the identity is live: its record is
/// removed and the departure is broadcast. Otherwise nothing changes and
/// nothing is sent; disconnecting again is a no-op.
pub fn handle_disconnect(lobby: &mut Lobby, id: u64) -> (out: Vec<Outgoing>)
    requires
        old(lobby).wf(),
    ensures
        final(lobby).wf(),
        final(lobby).players@ == step_records(
            old(lobby).players@,
            (ConnectionEvent::Disconnected { id }),
        ),
        final(lobby)@ == apply_disconnect(old(lobby)@, id),
        out@ == disconnect_msgs(old(lobby).players@, id),
        old(lobby).bounded() ==> final(lobby).bounded(),
{
    let mut out: Vec<Outgoing> = Vec::new();
    proof {
        crate::lobby::lemma_map_of_players_dom(lobby.players@, id);
    }
    match lobby.remove(id) {
        Ok(_) => {
            proof {
                let i = choose|i: int|
                    0 <= i < old(lobby).players@.len() && old(lobby).players@[i].id == id
                        && final(lobby).players@ == old(lobby).players@.remove(i);
                // identities are unique, so the removed index is the first match
                assert forall|k: int| 0 <= k < i implies old(lobby).players@[k].id != id by {
                    assert(unique_ids(old(lobby).players@));
                }
                lemma_remove_id_at(old(lobby).players@, id, i);
            }
            out.push(Outgoing::Broadcast { message: ServerMessage::ClientDisconnected { id } });
        },
        Err(_) => {
            proof {
                lemma_remove_id_absent(lobby.players@, id);
            }
        },
    }
    out
}

/// Drain a tick's connectivity events in arrival order, mutating the lobby
/// and collecting every lifecycle message to send.
pub fn process_events(lobby: &mut Lobby, events: &Vec<ConnectionEvent>) -> (out: Vec<Outgoing>)
    requires
        old(lobby).wf(),
    ensures
        final(lobby).wf(),
        final(lobby).players@ == run_records(old(lobby).players@, events@),
        final(lobby)@ == apply_events(old(lobby)@, events@),
        out@ == run_msgs(old(lobby).players@, events@),
        old(lobby).bounded() ==> final(lobby).bounded(),
{
    let mut out: Vec<Outgoing> = Vec::new();
    let n = events.len();
    let mut i: usize = 0;
    while i < n
        invariant
            i <= n,
            n == events@.len(),
            lobby.wf(),
            lobby.players@ == run_records(old(lobby).players@, events@.take(i as int)),
            lobby@ == apply_events(old(lobby)@, events@.take(i as int)),
            out@ == run_msgs(old(lobby).players@, events@.take(i as int)),
            old(lobby).bounded() ==> lobby.bounded(),
        decreases n - i,
    {
        let ghost pre = lobby.players@;
        let ghost pre_map = lobby@;
        let ghost out_pre = out@;
        let mut emitted = match events[i] {
            ConnectionEvent::Connected { id } => handle_connect(lobby, id),
            ConnectionEvent::Disconnected { id } => handle_disconnect(lobby, id),
        };
        out.append(&mut emitted);
        proof {
            let e = events@[i as int];
            assert(lobby.players@ == step_records(pre, e));
            assert(lobby@ == apply_event(pre_map, e));
            assert(out@ == out_pre + event_msgs(pre, e));
            lemma_run_snoc(old(lobby).players@, events@.take(i as int), e);
            lemma_apply_events_snoc(old(lobby)@, events@.take(i as int), e);
            assert(events@.take(i + 1) =~= events@.take(i as int).push(e));
        }
        i += 1;
    }
    proof {
        assert(events@.take(n as int) =~= events@);
    }
    out
}

/// Running one more event extends records and messages at the tail.
proof fn lemma_run_snoc(s: Seq<PlayerState>, evs: Seq<ConnectionEvent>, e: ConnectionEvent)
    ensures
        run_records(s, evs.push(e)) == step_records(run_records(s, evs), e),
        run_msgs(s, evs.push(e)) == run_msgs(s, evs) + event_msgs(run_records(s, evs), e),
    decreases evs.len(),
{
    reveal_with_fuel(run_records, 3);
    reveal_with_fuel(run_msgs, 3);
    if evs.len() == 0 {
        assert(evs.push(e)[0] == e);
        assert(evs.push(e).drop_first() =~= Seq::<ConnectionEvent>::empty());
        assert(run_msgs(s, evs.push(e)) =~= event_msgs(s, e));
        assert(run_msgs(s, evs) + event_msgs(run_records(s, evs), e) =~= event_msgs(s, e));
    } else {
        lemma_run_snoc(step_records(s, evs[0]), evs.drop_first(), e);
        assert(evs.push(e)[0] == evs[0]);
        assert(evs.push(e).drop_first() =~= evs.drop_first().push(e));
        assert(run_msgs(s, evs) + event_msgs(run_records(s, evs), e) =~= event_msgs(s, evs[0])
            + (run_msgs(step_records(s, evs[0]), evs.drop_first()) + event_msgs(
            run_records(step_records(s, evs[0]), evs.drop_first()),
            e,
        )));
    }
}

/// The set of identities that are live after an event sequence: those
/// connected and not since disconnected.
pub open spec fn live_ids(init: Set<u64>, evs: Seq<ConnectionEvent>) -> Set<u64>
    decreases evs.len(),
{
    if evs.len() == 0 {
        init
    } else {
        let rest = evs.drop_first();
        match evs[0] {
            ConnectionEvent::Connected { id } => live_ids(init.insert(id), rest),
            ConnectionEvent::Disconnected { id } => live_ids(init.remove(id), rest),
        }
    }
}

/// Lobby bijection law: after any sequence of connect and disconnect events,
/// the lobby keys are exactly the currently connected identities.
pub proof fn lemma_lobby_bijection(m: Map<u64, PlayerState>, evs: Seq<ConnectionEvent>)
    ensures
        apply_events(m, evs).dom() == live_ids(m.dom(), evs),
    decreases evs.len(),
{
    if evs.len() > 0 {
        let rest = evs.drop_first();
        match evs[0] {
            ConnectionEvent::Connected { id } => {
                lemma_lobby_bijection(apply_connect(m, id), rest);
                assert(apply_connect(m, id).dom() =~= m.dom().insert(id));
            },
            ConnectionEvent::Disconnected { id } => {
                lemma_lobby_bijection(apply_disconnect(m, id), rest);
                assert(apply_disconnect(m, id).dom() =~= m.dom().remove(id));
            },
        }
    }
}

/// Idempotent disconnect law: disconnecting an identity twice in a row
/// leaves the lobby exactly as disconnecting it once; the second disconnect
/// is a no-op and emits nothing.
pub proof fn lemma_disconnect_idempotent(m: Map<u64, PlayerState>, id: u64)
    ensures
        apply_disconnect(apply_disconnect(m, id), id) == apply_disconnect(m, id),
{
    assert(!apply_disconnect(m, id).dom().contains(id));
}

/// Roster replay law: a client connecting while `n` peers are live receives
/// exactly `n` individual `ClientConnected` messages, one per live peer with
/// no peer repeated, followed by the broadcast announcing the new client.
pub proof fn lemma_roster_replay(s: Seq<PlayerState>, id: u64)
    requires
        unique_ids(s),
        !has_id(s, id),
    ensures
        connect_msgs(s, id).len() == s.len() + 1,
        forall|i: int|
            0 <= i < s.len() ==> connect_msgs(s, id)[i] == (Outgoing::Direct {
                to: id,
                message: ServerMessage::ClientConnected { id: s[i].id },
            }),
        forall|i: int, j: int|
            0 <= i < j < s.len() ==> connect_msgs(s, id)[i] != connect_msgs(s, id)[j],
        connect_msgs(s, id).last() == (Outgoing::Broadcast {
            message: ServerMessage::ClientConnected { id },
        }),
        forall|peer: u64|
            map_of_players(s).dom().contains(peer) <==> exists|i: int|
                0 <= i < s.len() && connect_msgs(s, id)[i] == (Outgoing::Direct {
                    to: id,
                    message: ServerMessage::ClientConnected { id: peer },
                }),
{
    assert forall|peer: u64| map_of_players(s).dom().contains(peer) implies exists|i: int|
        0 <= i < s.len() && connect_msgs(s, id)[i] == (Outgoing::Direct {
            to: id,
            message: ServerMessage::ClientConnected { id: peer },
        }) by {
        crate::lobby::lemma_map_of_players_dom(s, peer);
        let i = choose|i: int| 0 <= i < s.len() && s[i].id == peer;
        assert(connect_msgs(s, id)[i] == (Outgoing::Direct {
            to: id,
            message: ServerMessage::ClientConnected { id: peer },
        }));
    }
    assert forall|peer: u64|
        (exists|i: int|
            0 <= i < s.len() && connect_msgs(s, id)[i] == (Outgoing::Direct {
                to: id,
                message: ServerMessage::ClientConnected { id: peer },
            })) implies map_of_players(s).dom().contains(peer) by {
        let i = choose|i: int|
            0 <= i < s.len() && connect_msgs(s, id)[i] == (Outgoing::Direct {
                to: id,
                message: ServerMessage::ClientConnected { id: peer },
            });
        assert(s[i].id == peer);
        crate::lobby::lemma_map_of_players_dom(s, peer);
    }
}

/// Applying one more event composes at the tail.
proof fn lemma_apply_events_snoc(
    m: Map<u64, PlayerState>,
    evs: Seq<ConnectionEvent>,
    e: ConnectionEvent,
)
    ensures
        apply_events(m, evs.push(e)) == apply_event(apply_events(m, evs), e),
    decreases evs.len(),
{
    reveal_with_fuel(apply_events, 3);
    if evs.len() == 0 {
        assert(evs.push(e)[0] == e);
        assert(evs.push(e).drop_first() =~= Seq::<ConnectionEvent>::empty());
    } else {
        lemma_apply_events_snoc(apply_event(m, evs[0]), evs.drop_first(), e);
        assert(evs.push(e)[0] == evs[0]);
        assert(evs.push(e).drop_first() =~= evs.drop_first().push(e));
    }
}

} // verus!
