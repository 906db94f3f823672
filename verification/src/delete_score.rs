//! The delete-score command: validate the arguments, decode the identifier,
//! and remove the record from whichever Games document holds it.

use vstd::prelude::*;
use crate::args::{find_disallowed, first_disallowed, OptArgs};
use crate::ids::{parse_uuid, uuid_of};
use crate::strutil::concat3;

verus! {

/// A validated delete-score invocation.
#[derive(Debug)]
pub struct DeleteScore {
    pub game_id: String,
    pub optional_args: OptArgs,
}

impl DeleteScore {
    /// Validates the raw arguments: the flags must be admitted and exactly
    /// one positional argument, the identifier, must be given.
    pub fn create(args: &Vec<String>, optional_args: &OptArgs) -> (r: Result<DeleteScore, String>)
        ensures
            match r {
                Ok(c) => {
                    &&& first_disallowed(optional_args.view_entries(), false) is None
                    &&& args@.len() == 1
                    &&& c.game_id@ == args@[0]@
                    &&& c.optional_args.view_entries() == optional_args.view_entries()
                },
                Err(e) => match first_disallowed(optional_args.view_entries(), false) {
                    Some(k) => e@ == "Unknown optional command for delete-score "@ + k + "."@,
                    None => {
                        &&& args@.len() != 1
                        &&& e@ == "Invalid number of arguments for delete-score."@
                    },
                },
            },
    {
        match find_disallowed(optional_args, false) {
            Some(k) => {
                return Err(concat3("Unknown optional command for delete-score ", k.as_str(), "."));
            },
            None => {},
        }
        if args.len() != 1 {
            return Err(String::from_str("Invalid number of arguments for delete-score."));
        }
        Ok(DeleteScore { game_id: args[0].clone(), optional_args: optional_args.duplicate() })
    }

    /// Decodes the identifier argument: a string that is not a well-formed
    /// identifier fails.
    pub fn decode_id(&self) -> (r: Result<u128, String>)
        ensures
            match r {
                Ok(v) => uuid_of(self.game_id@) == Some(v as int),
                Err(e) => {
                    &&& uuid_of(self.game_id@) is None
                    &&& e@ == "Impossible to decode id "@ + self.game_id@ + "."@
                },
            },
    {
        match parse_uuid(self.game_id.as_str()) {
            Some(v) => Ok(v),
            None => Err(concat3("Impossible to decode id ", self.game_id.as_str(), ".")),
        }
    }

    /// The failure reported when no Games document holds the identifier.
    pub fn not_found_error(&self) -> (r: String)
        ensures
            r@ == "Game with id "@ + self.game_id@ + " not found."@,
    {
        concat3("Game with id ", self.game_id.as_str(), " not found.")
    }
}

} // verus!
