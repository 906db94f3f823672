//! The add-player command: validate the arguments, then insert the player
//! into the loaded Players document, or start a fresh one.

use vstd::prelude::*;
use crate::args::{find_disallowed, first_disallowed, OptArgs};
use crate::player::{distinct_names, player_exists_msg, Player, Players, PLAYER_FIELD_COUNT};
use crate::strutil::concat3;

verus! {

/// A validated add-player invocation.
#[derive(Debug)]
pub struct AddPlayer {
    pub player: Player,
    pub optional_args: OptArgs,
}

impl AddPlayer {
    /// Validates the raw arguments: the flags must be admitted and exactly
    /// one positional argument, the player name, must be given.
    pub fn create(args: &Vec<String>, optional_args: &OptArgs) -> (r: Result<AddPlayer, String>)
        ensures
            match r {
                Ok(c) => {
                    &&& first_disallowed(optional_args.view_entries(), false) is None
                    &&& args@.len() == PLAYER_FIELD_COUNT
                    &&& c.player.name() == args@[0]@
                    &&& c.optional_args.view_entries() == optional_args.view_entries()
                },
                Err(e) => match first_disallowed(optional_args.view_entries(), false) {
                    Some(k) => e@ == "Unknown optional command for add-player "@ + k + "."@,
                    None => {
                        &&& args@.len() != PLAYER_FIELD_COUNT
                        &&& e@ == "Invalid number of arguments for add-player."@
                    },
                },
            },
    {
        match find_disallowed(optional_args, false) {
            Some(k) => {
                return Err(concat3("Unknown optional command for add-player ", k.as_str(), "."));
            },
            None => {},
        }
        if args.len() != PLAYER_FIELD_COUNT {
            return Err(String::from_str("Invalid number of arguments for add-player."));
        }
        let new_player = Player::new(args[0].clone());
        Ok(AddPlayer { player: new_player, optional_args: optional_args.duplicate() })
    }

    /// The document to store back: a singleton collection when no Players
    /// document exists yet, else the loaded collection with the player
    /// inserted; a duplicate name fails and leaves nothing to store.
    pub fn apply(&self, doc: Option<Players>) -> (r: Result<Players, String>)
        ensures
            match r {
                Ok(p) => match doc {
                    None => p.names() =~= seq![self.player.name()] && p.wf(),
                    Some(ps) => {
                        &&& !ps.contains_name(self.player.name())
                        &&& p.names() =~= ps.names().push(self.player.name())
                        &&& (ps.wf() ==> p.wf())
                    },
                },
                Err(e) => match doc {
                    None => false,
                    Some(ps) => {
                        &&& ps.contains_name(self.player.name())
                        &&& e@ == player_exists_msg(self.player.name())
                    },
                },
            },
    {
        match doc {
            None => {
                let mut initial: Vec<Player> = Vec::new();
                initial.push(self.player.duplicate());
                proof {
                    assert(distinct_names(initial@));
                }
                let players = Players::from_players(initial);
                proof {
                    assert(players.names() =~= seq![self.player.name()]);
                }
                Ok(players)
            },
            Some(mut players) => {
                match players.add_player(self.player.duplicate()) {
                    Ok(()) => Ok(players),
                    Err(e) => Err(e),
                }
            },
        }
    }
}

} // verus!
