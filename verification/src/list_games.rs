//! The list-games command: validate the arguments and merge every loaded
//! Games document into one collection for display.

use vstd::prelude::*;
use crate::args::{find_disallowed, first_disallowed, OptArgs};
use crate::game::{games_merge, Games};
use crate::strutil::concat3;

verus! {

/// A validated list-games invocation.
#[derive(Debug)]
pub struct ListGames {
    pub optional_args: OptArgs,
}

/// The records of all documents from position `i` on, merged into the
/// accumulated sequence, identifier collisions overwriting.
pub open spec fn merge_all(docs: Seq<Games>, i: int, acc: Seq<crate::game::GameView>) -> Seq<
    crate::game::GameView,
>
    decreases docs.len() - i,
{
    if i < 0 || i >= docs.len() {
        acc
    } else {
        merge_all(docs, i + 1, games_merge(acc, docs[i].view_games(), 0))
    }
}

impl ListGames {
    /// Validates the raw arguments: the flags must be admitted; positional
    /// arguments are ignored.
    pub fn create(_args: &Vec<String>, optional_args: &OptArgs) -> (r: Result<ListGames, String>)
        ensures
            match r {
                Ok(c) => {
                    &&& first_disallowed(optional_args.view_entries(), false) is None
                    &&& c.optional_args.view_entries() == optional_args.view_entries()
                },
                Err(e) => match first_disallowed(optional_args.view_entries(), false) {
                    Some(k) => e@ == "Unknown optional command for list-games "@ + k + "."@,
                    None => false,
                },
            },
    {
        match find_disallowed(optional_args, false) {
            Some(k) => {
                return Err(concat3("Unknown optional command for list-games ", k.as_str(), "."));
            },
            None => {},
        }
        Ok(ListGames { optional_args: optional_args.duplicate() })
    }

    /// Merges the loaded Games documents into one aggregate collection.
    pub fn aggregate(docs: Vec<Games>) -> (r: Games)
        ensures
            r.view_games() =~= merge_all(docs@, 0, Seq::empty()),
            r.wf(),
    {
        let mut all = Games::create_empy();
        let mut i: usize = 0;
        while i < docs.len()
            invariant
                i <= docs@.len(),
                merge_all(docs@, 0, Seq::empty()) == merge_all(docs@, i as int, all.view_games()),
                all.wf(),
            decreases docs@.len() - i,
        {
            let ghost pre = all.view_games();
            all.extend(&docs[i]);
            proof {
                assert(merge_all(docs@, i as int, pre) == merge_all(
                    docs@,
                    i + 1,
                    games_merge(pre, docs@[i as int].view_games(), 0),
                ));
            }
            i += 1;
        }
        all
    }
}

} // verus!
