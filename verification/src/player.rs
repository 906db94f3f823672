//! Players and the Players collection: uniquely named players, with
//! duplicate-rejecting insertion and presence-checked removal.

use vstd::prelude::*;
use crate::strutil::{concat3, str_eq};

verus! {

/// Number of positional arguments that name a player.
pub const PLAYER_FIELD_COUNT: usize = 1;

/// The fixed file that holds the Players collection.
pub const FILE_NAME_DATA: &'static str = "players.json";

/// One player, identified by a non-empty unique name.
#[derive(Debug)]
pub struct Player {
    player_name: String,
}

impl Player {
    pub closed spec fn name(&self) -> Seq<char> {
        self.player_name@
    }

    pub fn new(player_name: String) -> (r: Player)
        ensures
            r.name() == player_name@,
    {
        Player { player_name }
    }

    pub fn get_name(&self) -> (r: &str)
        ensures
            r@ == self.name(),
    {
        self.player_name.as_str()
    }

    pub fn duplicate(&self) -> (r: Player)
        ensures
            r.name() == self.name(),
    {
        Player { player_name: self.player_name.clone() }
    }
}

/// The first position of a name in a sequence of names.
pub open spec fn first_index(s: Seq<Seq<char>>, n: Seq<char>) -> int
    decreases s.len(),
{
    if s.len() == 0 {
        0
    } else if s[0] == n {
        0
    } else {
        1 + first_index(s.drop_first(), n)
    }
}

pub proof fn lemma_first_index(s: Seq<Seq<char>>, n: Seq<char>)
    requires
        s.contains(n),
    ensures
        0 <= first_index(s, n) < s.len(),
        s[first_index(s, n)] == n,
        forall|j: int| 0 <= j < first_index(s, n) ==> s[j] != n,
    decreases s.len(),
{
    if s.len() > 0 && s[0] != n {
        let t = s.drop_first();
        assert(t.contains(n)) by {
            let w = choose|w: int| 0 <= w < s.len() && s[w] == n;
            assert(t[w - 1] == n);
        }
        lemma_first_index(t, n);
        assert forall|j: int| 0 <= j < first_index(s, n) implies s[j] != n by {
            if j > 0 {
                assert(t[j - 1] == s[j]);
            }
        }
    }
}

/// Are the names of the given players pairwise distinct?
pub open spec fn distinct_names(s: Seq<Player>) -> bool {
    forall|i: int, j: int| 0 <= i < j < s.len() ==> s[i].name() != s[j].name()
}

pub open spec fn player_exists_msg(n: Seq<char>) -> Seq<char> {
    "Player "@ + n + " already exists."@
}

pub open spec fn player_not_found_msg(n: Seq<char>) -> Seq<char> {
    "Player "@ + n + " not found."@
}

/// The Players collection: a mapping from name to player, names unique.
#[derive(Debug)]
pub struct Players {
    players: Vec<Player>,
}

impl Players {
    /// The stored names, in insertion order.
    pub closed spec fn names(&self) -> Seq<Seq<char>> {
        self.players@.map_values(|p: Player| p.name())
    }

    pub open spec fn contains_name(&self, n: Seq<char>) -> bool {
        self.names().contains(n)
    }

    /// The collection's invariant: no two players share a name.
    pub open spec fn wf(&self) -> bool {
        forall|i: int, j: int|
            0 <= i < j < self.names().len() ==> self.names()[i] != self.names()[j]
    }

    /// Builds the collection from players whose names are pairwise distinct.
    pub fn from_players(players: Vec<Player>) -> (r: Players)
        requires
            distinct_names(players@),
        ensures
            r.names() =~= players@.map_values(|p: Player| p.name()),
            r.wf(),
    {
        let r = Players { players };
        proof {
            assert forall|i: int, j: int|
                0 <= i < j < r.names().len() implies r.names()[i] != r.names()[j] by {
                assert(r.players@[i].name() != r.players@[j].name());
            }
        }
        r
    }

    /// The position of a name among the stored players, if it is present.
    fn position_of(&self, name: &str) -> (r: Option<usize>)
        ensures
            match r {
                Some(i) => {
                    &&& i < self.names().len()
                    &&& self.names()[i as int] == name@
                    &&& forall|j: int| 0 <= j < i ==> self.names()[j] != name@
                },
                None => !self.contains_name(name@),
            },
    {
        let mut i: usize = 0;
        while i < self.players.len()
            invariant
                i <= self.players@.len(),
                forall|j: int| 0 <= j < i ==> self.names()[j] != name@,
            decreases self.players@.len() - i,
        {
            if str_eq(self.players[i].player_name.as_str(), name) {
                return Some(i);
            }
            i += 1;
        }
        proof {
            assert forall|j: int| 0 <= j < self.names().len() implies self.names()[j] != name@ by {}
        }
        None
    }

    pub fn len(&self) -> (r: usize)
        ensures
            r == self.names().len(),
    {
        self.players.len()
    }

    /// The stored name at one position, in insertion order.
    pub fn name_at(&self, i: usize) -> (r: String)
        requires
            i < self.names().len(),
        ensures
            r@ == self.names()[i as int],
    {
        self.players[i].player_name.clone()
    }

    /// Membership test by name.
    pub fn has_player(&self, player: Player) -> (r: bool)
        ensures
            r == self.contains_name(player.name()),
    {
        match self.position_of(player.player_name.as_str()) {
            Some(_) => true,
            None => false,
        }
    }

    /// Inserts a player: fails, and changes nothing, if the name is taken.
    pub fn add_player(&mut self, player: Player) -> (r: Result<(), String>)
        ensures
            match r {
                Ok(()) => {
                    &&& !old(self).contains_name(player.name())
                    &&& final(self).names() =~= old(self).names().push(player.name())
                },
                Err(e) => {
                    &&& old(self).contains_name(player.name())
                    &&& *final(self) == *old(self)
                    &&& e@ == player_exists_msg(player.name())
                },
            },
            old(self).wf() ==> final(self).wf(),
    {
        let ghost n = player.name();
        match self.position_of(player.player_name.as_str()) {
            Some(_) => {
                let msg = concat3("Player ", player.get_name(), " already exists.");
                Err(msg)
            },
            None => {
                self.players.push(player);
                proof {
                    assert(self.names() =~= old(self).names().push(n));
                    if old(self).wf() {
                        assert forall|i: int, j: int|
                            0 <= i < j < self.names().len() implies self.names()[i]
                            != self.names()[j] by {
                            if j < self.names().len() - 1 {
                                assert(old(self).names()[i] != old(self).names()[j]);
                            } else {
                                assert(!old(self).names().contains(n));
                                assert(old(self).names()[i] != n);
                            }
                        }
                    }
                }
                Ok(())
            },
        }
    }

    /// Deletes a player by name: fails, and changes nothing, if it is absent.
    pub fn remove_player(&mut self, player: Player) -> (r: Result<(), String>)
        ensures
            match r {
                Ok(()) => {
                    &&& old(self).contains_name(player.name())
                    &&& final(self).names() =~= old(self).names().remove(
                        first_index(old(self).names(), player.name()),
                    )
                },
                Err(e) => {
                    &&& !old(self).contains_name(player.name())
                    &&& *final(self) == *old(self)
                    &&& e@ == player_not_found_msg(player.name())
                },
            },
            old(self).wf() ==> final(self).wf(),
    {
        let ghost n = player.name();
        match self.position_of(player.player_name.as_str()) {
            Some(i) => {
                proof {
                    assert(old(self).names().contains(n)) by {
                        assert(old(self).names()[i as int] == n);
                    }
                    lemma_first_index(old(self).names(), n);
                    assert(first_index(old(self).names(), n) == i as int) by {
                        let f = first_index(old(self).names(), n);
                        if f < i {
                            assert(old(self).names()[f] != n);
                        }
                        if i < f {
                            assert(old(self).names()[i as int] != n);
                        }
                    }
                }
                self.players.remove(i);
                proof {
                    assert(self.names() =~= old(self).names().remove(i as int));
                    if old(self).wf() {
                        lemma_remove_keeps_distinct(old(self).names(), i as int);
                    }
                }
                Ok(())
            },
            None => {
                let msg = concat3("Player ", player.get_name(), " not found.");
                Err(msg)
            },
        }
    }
}

proof fn lemma_remove_keeps_distinct(s: Seq<Seq<char>>, i: int)
    requires
        0 <= i < s.len(),
        forall|a: int, b: int| 0 <= a < b < s.len() ==> s[a] != s[b],
    ensures
        forall|a: int, b: int| 0 <= a < b < s.remove(i).len() ==> s.remove(i)[a] != s.remove(i)[b],
{
    let t = s.remove(i);
    assert forall|a: int, b: int| 0 <= a < b < t.len() implies t[a] != t[b] by {
        let sa: int = if a < i {
            a
        } else {
            a + 1
        };
        let sb: int = if b < i {
            b
        } else {
            b + 1
        };
        assert(t[a] == s[sa]);
        assert(t[b] == s[sb]);
    }
}

/// Adding a player with a name that is not yet present and then deleting that
/// name returns the Players collection to its prior state: the fresh name is
/// appended at the end, deletion removes exactly that entry, and what is left
/// is the original sequence of names.
pub proof fn lemma_add_then_remove_round_trip(names: Seq<Seq<char>>, n: Seq<char>)
    requires
        !names.contains(n),
    ensures
        first_index(names.push(n), n) == names.len(),
        names.push(n).remove(first_index(names.push(n), n)) =~= names,
    decreases names.len(),
{
    let s = names.push(n);
    assert(s.contains(n)) by {
        assert(s[names.len() as int] == n);
    }
    lemma_first_index(s, n);
    let f = first_index(s, n);
    if f < names.len() {
        assert(s[f] == names[f]);
        assert(names.contains(n)) by {
            assert(names[f] == n);
        }
    }
}

/// A name just added is present: a second insertion of the same name meets
/// the duplicate case of `add_player`, which fails and leaves the collection
/// unchanged.
pub proof fn lemma_second_add_sees_duplicate(names: Seq<Seq<char>>, n: Seq<char>)
    ensures
        names.push(n).contains(n),
{
    assert(names.push(n)[names.len() as int] == n);
}

} // verus!
