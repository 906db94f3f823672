//! The delete-player command: validate the arguments, then remove the player
//! from the loaded Players document.

use vstd::prelude::*;
use crate::args::{find_disallowed, first_disallowed, OptArgs};
use crate::player::{first_index, player_not_found_msg, Player, Players, PLAYER_FIELD_COUNT};
use crate::strutil::concat3;

verus! {

/// A validated delete-player invocation.
#[derive(Debug)]
pub struct DeletePlayer {
    pub player: Player,
    pub optional_args: OptArgs,
}

impl DeletePlayer {
    /// Validates the raw arguments: the flags must be admitted and exactly
    /// one positional argument, the player name, must be given.
    pub fn create(args: &Vec<String>, optional_args: &OptArgs) -> (r: Result<DeletePlayer, String>)
        ensures
            match r {
                Ok(c) => {
                    &&& first_disallowed(optional_args.view_entries(), false) is None
                    &&& args@.len() == PLAYER_FIELD_COUNT
                    &&& c.player.name() == args@[0]@
                    &&& c.optional_args.view_entries() == optional_args.view_entries()
                },
                Err(e) => match first_disallowed(optional_args.view_entries(), false) {
                    Some(k) => e@ == "Unknown optional command for delete-player "@ + k + "."@,
                    None => {
                        &&& args@.len() != PLAYER_FIELD_COUNT
                        &&& e@ == "Invalid number of arguments for delete-player."@
                    },
                },
            },
    {
        match find_disallowed(optional_args, false) {
            Some(k) => {
                return Err(concat3("Unknown optional command for delete-player ", k.as_str(), "."));
            },
            None => {},
        }
        if args.len() != PLAYER_FIELD_COUNT {
            return Err(String::from_str("Invalid number of arguments for delete-player."));
        }
        let new_player = Player::new(args[0].clone());
        Ok(DeletePlayer { player: new_player, optional_args: optional_args.duplicate() })
    }

    /// The document to store back: the loaded collection with the player
    /// removed. An absent Players document, or an absent name, fails and
    /// leaves nothing to store.
    pub fn apply(&self, doc: Option<Players>) -> (r: Result<Players, String>)
        ensures
            match r {
                Ok(p) => match doc {
                    None => false,
                    Some(ps) => {
                        &&& ps.contains_name(self.player.name())
                        &&& p.names() =~= ps.names().remove(
                            first_index(ps.names(), self.player.name()),
                        )
                        &&& (ps.wf() ==> p.wf())
                    },
                },
                Err(e) => match doc {
                    None => e@ == "No players' data found."@,
                    Some(ps) => {
                        &&& !ps.contains_name(self.player.name())
                        &&& e@ == player_not_found_msg(self.player.name())
                    },
                },
            },
    {
        match doc {
            None => Err(String::from_str("No players' data found.")),
            Some(mut players) => {
                match players.remove_player(self.player.duplicate()) {
                    Ok(()) => Ok(players),
                    Err(e) => Err(e),
                }
            },
        }
    }
}

} // verus!
