//! Input replicator: drains the tick's inbound input frames and applies them
//! to the lobby with latest-wins semantics.
//!
//! Each frame addresses the sender's own record. A frame for an identity with
//! no live record — it raced a disconnect, or arrived before the connect
//! completed — is discarded silently; that is a tolerated race, not an error.
//! Only the most recent frame decoded before the tick boundary survives:
//! nothing is buffered, an earlier frame in the same tick leaves no trace.

use vstd::prelude::*;

use crate::codec::decode_client_input;
use crate::codec::spec_decode_client_input;
use crate::data::ClientInput;
use crate::data::InboundInput;
use crate::data::PlayerState;
use crate::data::ReplicationError;
use crate::lobby::Lobby;
use crate::lobby::has_id;
use crate::lobby::unique_ids;

verus! {

/// The record with its stored input overwritten.
pub open spec fn with_input(p: PlayerState, inp: ClientInput) -> PlayerState {
    PlayerState { input: inp, ..p }
}

/// Effect of one decoded frame on the abstract lobby map: overwrite the
/// sender's stored input, or do nothing if the sender has no record.
pub open spec fn apply_input_map(m: Map<u64, PlayerState>, id: u64, inp: ClientInput) -> Map<
    u64,
    PlayerState,
> {
    if m.dom().contains(id) {
        m.insert(id, with_input(m[id], inp))
    } else {
        m
    }
}

/// Effect of one decoded frame on the record sequence: the first record
/// carrying the identity gets the new input.
pub open spec fn seq_apply_input(s: Seq<PlayerState>, id: u64, inp: ClientInput) -> Seq<
    PlayerState,
> decreases s.len(),
{
    if s.len() == 0 {
        s
    } else if s[0].id == id {
        seq![with_input(s[0], inp)] + s.drop_first()
    } else {
        seq![s[0]] + seq_apply_input(s.drop_first(), id, inp)
    }
}

/// Effect of one raw frame: a frame that decodes is applied, a malformed one
/// is dropped.
pub open spec fn apply_raw(s: Seq<PlayerState>, id: u64, payload: Seq<u8>) -> Seq<PlayerState> {
    match spec_decode_client_input(payload) {
        Some(inp) => seq_apply_input(s, id, inp),
        None => s,
    }
}

/// Effect of a whole batch of raw frames, first frame first.
pub open spec fn drain_raw(s: Seq<PlayerState>, msgs: Seq<InboundInput>) -> Seq<PlayerState>
    decreases msgs.len(),
{
    if msgs.len() == 0 {
        s
    } else {
        drain_raw(apply_raw(s, msgs[0].from, msgs[0].payload@), msgs.drop_first())
    }
}

/// A first-match overwrite is an update at the first matching index.
proof fn lemma_seq_apply_input_at(s: Seq<PlayerState>, id: u64, inp: ClientInput, i: int)
    requires
        0 <= i < s.len(),
        s[i].id == id,
        forall|j: int| 0 <= j < i ==> s[j].id != id,
    ensures
        seq_apply_input(s, id, inp) == s.update(i, with_input(s[i], inp)),
    decreases i,
{
    if i == 0 {
        assert(seq![with_input(s[0], inp)] + s.drop_first() =~= s.update(
            0,
            with_input(s[0], inp),
        ));
    } else {
        lemma_seq_apply_input_at(s.drop_first(), id, inp, i - 1);
        assert(seq![s[0]] + s.drop_first().update(i - 1, with_input(s[i], inp)) =~= s.update(
            i,
            with_input(s[i], inp),
        ));
    }
}

/// Overwriting an absent identity changes nothing.
proof fn lemma_seq_apply_input_absent(s: Seq<PlayerState>, id: u64, inp: ClientInput)
    requires
        !has_id(s, id),
    ensures
        seq_apply_input(s, id, inp) == s,
    decreases s.len(),
{
    if s.len() > 0 {
        assert(s[0].id != id);
        assert(!has_id(s.drop_first(), id)) by {
            if has_id(s.drop_first(), id) {
                let j = choose|j: int|
                    0 <= j < s.drop_first().len() && s.drop_first()[j].id == id;
                assert(s[j + 1].id == id);
            }
        }
        lemma_seq_apply_input_absent(s.drop_first(), id, inp);
        assert(seq![s[0]] + s.drop_first() =~= s);
    }
}

/// Apply one decoded input frame.
pub fn apply_input(lobby: &mut Lobby, id: u64, input: ClientInput)
    requires
        old(lobby).wf(),
    ensures
        final(lobby).wf(),
        final(lobby).players@ == seq_apply_input(old(lobby).players@, id, input),
        final(lobby)@ == apply_input_map(old(lobby)@, id, input),
        old(lobby).bounded() ==> final(lobby).bounded(),
{
    proof {
        crate::lobby::lemma_map_of_players_dom(lobby.players@, id);
    }
    let n = lobby.players.len();
    let mut i: usize = 0;
    while i < n
        invariant
            i <= n,
            n == lobby.players@.len(),
            forall|j: int| 0 <= j < i ==> lobby.players@[j].id != id,
            lobby == old(lobby),
            lobby.wf(),
        decreases n - i,
    {
        if lobby.players[i].id == id {
            let updated = PlayerState {
                id: lobby.players[i].id,
                transform: lobby.players[i].transform,
                input,
            };
            proof {
                lemma_seq_apply_input_at(lobby.players@, id, input, i as int);
                crate::lobby::lemma_map_of_players_index(lobby.players@, i as int);
                crate::lobby::lemma_map_of_players_update(lobby.players@, i as int, updated);
                assert forall|a: int, b: int|
                    0 <= a < b < lobby.players@.update(i as int, updated).len() implies
                    lobby.players@.update(i as int, updated)[a].id != lobby.players@.update(
                    i as int,
                    updated,
                )[b].id by {
                    assert(unique_ids(lobby.players@));
                }
            }
            lobby.players[i] = updated;
            return ;
        }
        i += 1;
    }
    proof {
        lemma_seq_apply_input_absent(lobby.players@, id, input);
    }
}

/// Decode one inbound frame and apply it. A malformed payload is reported —
/// and dropped — without touching the lobby; a stale or early frame for an
/// unknown identity is discarded silently.
pub fn process_input_message(lobby: &mut Lobby, from: u64, payload: &[u8]) -> (r: Result<
    (),
    ReplicationError,
>)
    requires
        old(lobby).wf(),
    ensures
        final(lobby).wf(),
        final(lobby).players@ == apply_raw(old(lobby).players@, from, payload@),
        old(lobby).bounded() ==> final(lobby).bounded(),
        r is Ok <==> spec_decode_client_input(payload@) is Some,
        r is Err ==> r == Err::<(), ReplicationError>(ReplicationError::MalformedMessage),
{
    match decode_client_input(payload) {
        Ok(input) => {
            apply_input(lobby, from, input);
            Ok(())
        },
        Err(_) => Err(ReplicationError::MalformedMessage),
    }
}

/// Drain a tick's inbound input frames in arrival order. Later frames from
/// the same sender overwrite earlier ones; malformed or stale frames vanish
/// without failing the tick.
pub fn drain_inputs(lobby: &mut Lobby, msgs: &Vec<InboundInput>)
    requires
        old(lobby).wf(),
    ensures
        final(lobby).wf(),
        final(lobby).players@ == drain_raw(old(lobby).players@, msgs@),
        old(lobby).bounded() ==> final(lobby).bounded(),
{
    let n = msgs.len();
    let mut i: usize = 0;
    while i < n
        invariant
            i <= n,
            n == msgs@.len(),
            lobby.wf(),
            lobby.players@ == drain_raw(old(lobby).players@, msgs@.take(i as int)),
            old(lobby).bounded() ==> lobby.bounded(),
        decreases n - i,
    {
        let ghost pre = lobby.players@;
        let _ = process_input_message(lobby, msgs[i].from, msgs[i].payload.as_slice());
        proof {
            lemma_drain_raw_snoc(old(lobby).players@, msgs@.take(i as int), msgs@[i as int]);
            assert(msgs@.take(i + 1) =~= msgs@.take(i as int).push(msgs@[i as int]));
        }
        i += 1;
    }
    proof {
        assert(msgs@.take(n as int) =~= msgs@);
    }
}

/// Draining one more frame composes at the tail.
proof fn lemma_drain_raw_snoc(s: Seq<PlayerState>, msgs: Seq<InboundInput>, m: InboundInput)
    ensures
        drain_raw(s, msgs.push(m)) == apply_raw(drain_raw(s, msgs), m.from, m.payload@),
    decreases msgs.len(),
{
    reveal_with_fuel(drain_raw, 3);
    if msgs.len() == 0 {
        assert(msgs.push(m)[0] == m);
        assert(msgs.push(m).drop_first() =~= Seq::<InboundInput>::empty());
    } else {
        lemma_drain_raw_snoc(apply_raw(s, msgs[0].from, msgs[0].payload@), msgs.drop_first(), m);
        assert(msgs.push(m)[0] == msgs[0]);
        assert(msgs.push(m).drop_first() =~= msgs.drop_first().push(m));
    }
}

/// Latest-wins law: two frames from the same sender within one tick leave
/// exactly the state the second alone would have left; the first has no
/// residual effect.
pub proof fn lemma_latest_wins(
    m: Map<u64, PlayerState>,
    id: u64,
    first: ClientInput,
    second: ClientInput,
)
    ensures
        apply_input_map(apply_input_map(m, id, first), id, second) == apply_input_map(
            m,
            id,
            second,
        ),
{
    if m.dom().contains(id) {
        assert(apply_input_map(apply_input_map(m, id, first), id, second) =~= apply_input_map(
            m,
            id,
            second,
        ));
    }
}

/// Stale-input-discard law: a frame for an identity with no live record
/// leaves the lobby untouched — it cannot resurrect an entry.
pub proof fn lemma_stale_input_discard(m: Map<u64, PlayerState>, id: u64, inp: ClientInput)
    requires
        !m.dom().contains(id),
    ensures
        apply_input_map(m, id, inp) == m,
{
}

} // verus!
