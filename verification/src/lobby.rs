//! Lobby registry: the live mapping from client identity to player record.
//!
//! The registry is an explicit vector of [`PlayerState`] records owned by the
//! tick loop, with the invariant that identities are pairwise distinct. Its
//! abstract value is the finite map from identity to record ([`View`]), so
//! every key corresponds to exactly one live record and every record is
//! reachable from exactly one key. Iteration order carries no meaning; it is
//! only used for roster replay and snapshot capture, where order is
//! explicitly irrelevant. Lookups scan the vector: at lobby scale — a few
//! dozen concurrent players — that costs no more than hashing would, and it
//! keeps every operation and the uniqueness invariant directly provable.

use vstd::prelude::*;

use crate::data::PlayerState;
use crate::data::ReplicationError;

verus! {

/// The map a sequence of player records denotes: later records win, though
/// under the uniqueness invariant there is nothing to win over.
pub open spec fn map_of_players(s: Seq<PlayerState>) -> Map<u64, PlayerState>
    decreases s.len(),
{
    if s.len() == 0 {
        Map::empty()
    } else {
        map_of_players(s.drop_last()).insert(s.last().id, s.last())
    }
}

/// Identities in `s` are pairwise distinct.
pub open spec fn unique_ids(s: Seq<PlayerState>) -> bool {
    forall|i: int, j: int| 0 <= i < j < s.len() ==> s[i].id != s[j].id
}

/// Some record in `s` carries identity `id`.
pub open spec fn has_id(s: Seq<PlayerState>, id: u64) -> bool {
    exists|i: int| 0 <= i < s.len() && s[i].id == id
}

/// A key is in the denoted map exactly when some record carries it.
pub proof fn lemma_map_of_players_dom(s: Seq<PlayerState>, id: u64)
    ensures
        map_of_players(s).dom().contains(id) <==> has_id(s, id),
    decreases s.len(),
{
    if s.len() > 0 {
        lemma_map_of_players_dom(s.drop_last(), id);
        if has_id(s, id) {
            let i = choose|i: int| 0 <= i < s.len() && s[i].id == id;
            if i < s.len() - 1 {
                assert(s.drop_last()[i].id == id);
            }
        }
        if has_id(s.drop_last(), id) {
            let i = choose|i: int| 0 <= i < s.drop_last().len() && s.drop_last()[i].id == id;
            assert(s[i].id == id);
        }
    }
}

/// Under the uniqueness invariant, the denoted map sends each identity in the
/// sequence to the record that carries it.
pub proof fn lemma_map_of_players_index(s: Seq<PlayerState>, i: int)
    requires
        unique_ids(s),
        0 <= i < s.len(),
    ensures
        map_of_players(s).dom().contains(s[i].id),
        map_of_players(s)[s[i].id] == s[i],
    decreases s.len(),
{
    if i == s.len() - 1 {
        lemma_map_of_players_dom(s, s[i].id);
    } else {
        assert(unique_ids(s.drop_last()));
        lemma_map_of_players_index(s.drop_last(), i);
        assert(s.drop_last()[i] == s[i]);
        assert(s.last().id != s[i].id);
    }
}

/// Appending a fresh record denotes an insertion.
pub proof fn lemma_map_of_players_push(s: Seq<PlayerState>, p: PlayerState)
    ensures
        map_of_players(s.push(p)) == map_of_players(s).insert(p.id, p),
{
    assert(s.push(p).drop_last() == s);
    assert(s.push(p).last() == p);
}

/// Replacing the record at `i` by one with the same identity denotes an
/// insertion over that identity.
pub proof fn lemma_map_of_players_update(s: Seq<PlayerState>, i: int, p: PlayerState)
    requires
        unique_ids(s),
        0 <= i < s.len(),
        p.id == s[i].id,
    ensures
        map_of_players(s.update(i, p)) == map_of_players(s).insert(p.id, p),
    decreases s.len(),
{
    let t = s.update(i, p);
    if i == s.len() - 1 {
        assert(t.drop_last() == s.drop_last());
        assert(t.last() == p);
    } else {
        assert(unique_ids(s.drop_last()));
        lemma_map_of_players_update(s.drop_last(), i, p);
        assert(t.drop_last() == s.drop_last().update(i, p));
        assert(t.last() == s.last());
        assert(s.last().id != p.id);
        assert(map_of_players(t) == map_of_players(s.drop_last()).insert(p.id, p).insert(
            s.last().id,
            s.last(),
        ));
        assert(map_of_players(s.drop_last()).insert(p.id, p).insert(s.last().id, s.last())
            =~= map_of_players(s.drop_last()).insert(s.last().id, s.last()).insert(p.id, p));
    }
}

/// Removing the record at `i` denotes a removal of its identity.
pub proof fn lemma_map_of_players_remove(s: Seq<PlayerState>, i: int)
    requires
        unique_ids(s),
        0 <= i < s.len(),
    ensures
        map_of_players(s.remove(i)) == map_of_players(s).remove(s[i].id),
    decreases s.len(),
{
    let t = s.remove(i);
    if i == s.len() - 1 {
        assert(t == s.drop_last());
        lemma_map_of_players_dom(s.drop_last(), s[i].id);
        assert(!has_id(s.drop_last(), s[i].id)) by {
            if has_id(s.drop_last(), s[i].id) {
                let j = choose|j: int|
                    0 <= j < s.drop_last().len() && s.drop_last()[j].id == s[i].id;
                assert(s[j].id == s[i].id);
            }
        }
        assert(map_of_players(s).remove(s[i].id) =~= map_of_players(s.drop_last()));
    } else {
        assert(unique_ids(s.drop_last()));
        lemma_map_of_players_remove(s.drop_last(), i);
        assert(t.drop_last() == s.drop_last().remove(i));
        assert(t.last() == s.last());
        assert(map_of_players(t) == map_of_players(s.drop_last()).remove(s[i].id).insert(
            s.last().id,
            s.last(),
        ));
        assert(s.last().id != s[i].id);
        assert(map_of_players(s.drop_last()).remove(s[i].id).insert(s.last().id, s.last())
            =~= map_of_players(s.drop_last()).insert(s.last().id, s.last()).remove(s[i].id));
    }
}

/// Under the uniqueness invariant the denoted map has one entry per record:
/// no two identities share a record and no record is orphaned.
pub proof fn lemma_map_of_players_len(s: Seq<PlayerState>)
    requires
        unique_ids(s),
    ensures
        map_of_players(s).dom().finite(),
        map_of_players(s).dom().len() == s.len(),
    decreases s.len(),
{
    if s.len() > 0 {
        assert(unique_ids(s.drop_last()));
        lemma_map_of_players_len(s.drop_last());
        lemma_map_of_players_dom(s.drop_last(), s.last().id);
        assert(!has_id(s.drop_last(), s.last().id)) by {
            if has_id(s.drop_last(), s.last().id) {
                let j = choose|j: int|
                    0 <= j < s.drop_last().len() && s.drop_last()[j].id == s.last().id;
                assert(s[j].id == s.last().id);
            }
        }
    }
}

/// The lobby: the set of live player records, keyed by client identity.
pub struct Lobby {
    pub players: Vec<PlayerState>,
}

impl View for Lobby {
    type V = Map<u64, PlayerState>;

    open spec fn view(&self) -> Map<u64, PlayerState> {
        map_of_players(self.players@)
    }
}

impl Lobby {
    /// Structural invariant: identities are pairwise distinct.
    pub open spec fn wf(self) -> bool {
        unique_ids(self.players@)
    }

    /// Every record's pose lies within the world bound. The integrator needs
    /// this; components that only route messages merely preserve it.
    pub open spec fn bounded(self) -> bool {
        forall|i: int| 0 <= i < self.players@.len() ==> (#[trigger] self.players@[i]).wf()
    }

    /// An empty lobby: no one is connected.
    pub fn new() -> (r: Lobby)
        ensures
            r.wf(),
            r.bounded(),
            r@ == Map::<u64, PlayerState>::empty(),
            r.players@ == Seq::<PlayerState>::empty(),
    {
        Lobby { players: Vec::new() }
    }

    /// Number of live player records; equals the number of map entries.
    pub fn len(&self) -> (r: usize)
        requires
            self.wf(),
        ensures
            r == self.players@.len(),
            r == self@.dom().len(),
    {
        proof {
            lemma_map_of_players_len(self.players@);
        }
        self.players.len()
    }

    /// Index of the record carrying `id`, if any.
    fn find_index(&self, id: u64) -> (r: Option<usize>)
        ensures
            match r {
                Some(i) => i < self.players@.len() && self.players@[i as int].id == id,
                None => !has_id(self.players@, id),
            },
    {
        let n = self.players.len();
        let mut i: usize = 0;
        while i < n
            invariant
                i <= n,
                n == self.players@.len(),
                forall|j: int| 0 <= j < i ==> self.players@[j].id != id,
            decreases n - i,
        {
            if self.players[i].id == id {
                return Some(i);
            }
            i += 1;
        }
        None
    }

    /// Whether `id` is currently connected.
    pub fn contains(&self, id: u64) -> (r: bool)
        ensures
            r == self@.dom().contains(id),
    {
        proof {
            lemma_map_of_players_dom(self.players@, id);
        }
        self.find_index(id).is_some()
    }

    /// Register a player record. Fails with `DuplicateIdentity` exactly when
    /// the identity already has a live record, leaving the lobby unchanged.
    pub fn insert(&mut self, player: PlayerState) -> (r: Result<(), ReplicationError>)
        requires
            old(self).wf(),
        ensures
            final(self).wf(),
            match r {
                Ok(()) => {
                    &&& !old(self)@.dom().contains(player.id)
                    &&& final(self)@ == old(self)@.insert(player.id, player)
                    &&& final(self).players@ == old(self).players@.push(player)
                },
                Err(e) => {
                    &&& e == ReplicationError::DuplicateIdentity
                    &&& old(self)@.dom().contains(player.id)
                    &&& *final(self) == *old(self)
                },
            },
            old(self).bounded() && player.wf() ==> final(self).bounded(),
    {
        proof {
            lemma_map_of_players_dom(self.players@, player.id);
        }
        match self.find_index(player.id) {
            Some(_) => Err(ReplicationError::DuplicateIdentity),
            None => {
                proof {
                    lemma_map_of_players_push(self.players@, player);
                }
                self.players.push(player);
                Ok(())
            },
        }
    }

    /// Remove and return the record of `id`. Fails with `UnknownIdentity`
    /// exactly when no record carries `id`, leaving the lobby unchanged.
    pub fn remove(&mut self, id: u64) -> (r: Result<PlayerState, ReplicationError>)
        requires
            old(self).wf(),
        ensures
            final(self).wf(),
            match r {
                Ok(p) => {
                    &&& old(self)@.dom().contains(id)
                    &&& p == old(self)@[id]
                    &&& final(self)@ == old(self)@.remove(id)
                    &&& exists|i: int|
                        0 <= i < old(self).players@.len() && old(self).players@[i].id == id
                            && final(self).players@ == old(self).players@.remove(i)
                },
                Err(e) => {
                    &&& e == ReplicationError::UnknownIdentity
                    &&& !old(self)@.dom().contains(id)
                    &&& *final(self) == *old(self)
                },
            },
            old(self).bounded() ==> final(self).bounded(),
    {
        proof {
            lemma_map_of_players_dom(self.players@, id);
        }
        match self.find_index(id) {
            Some(i) => {
                proof {
                    lemma_map_of_players_index(self.players@, i as int);
                    lemma_map_of_players_remove(self.players@, i as int);
                }
                let ghost s0 = self.players@;
                let p = self.players.remove(i);
                proof {
                    assert(final(self).players@ == s0.remove(i as int));
                    assert forall|a: int, b: int|
                        0 <= a < b < s0.remove(i as int).len() implies s0.remove(i as int)[a].id
                        != s0.remove(i as int)[b].id by {
                        assert(unique_ids(s0));
                    }
                }
                Ok(p)
            },
            None => Err(ReplicationError::UnknownIdentity),
        }
    }

    /// Look up the record of `id`; never fails.
    pub fn lookup(&self, id: u64) -> (r: Option<PlayerState>)
        requires
            self.wf(),
        ensures
            r == (if self@.dom().contains(id) {
                Some(self@[id])
            } else {
                None::<PlayerState>
            }),
    {
        proof {
            lemma_map_of_players_dom(self.players@, id);
        }
        match self.find_index(id) {
            Some(i) => {
                proof {
                    lemma_map_of_players_index(self.players@, i as int);
                }
                Some(self.players[i])
            },
            None => None,
        }
    }
}

} // verus!
