//! The add-score command: build the game record from the arguments, check
//! that every scored player exists, then insert the record into the loaded
//! Games document, or start a fresh one.

use vstd::prelude::*;
use crate::args::{find_disallowed, first_disallowed, kv_get, OptArgs, TIME_OPTIONAL_ARGUMENT};
use crate::date::date_of;
use crate::game::{game_views, games_insert, Game, Games};
use crate::player::{Player, Players};
use crate::score::spec_parse_scores;
use crate::strutil::{concat3, str_views};

verus! {

/// The subdirectory that holds the per-game-name files.
pub const GAMES_FOLER: &'static str = "games";

/// A validated add-score invocation, holding the built game record.
#[derive(Debug)]
pub struct AddScore {
    pub game: Game,
    pub optional_args: OptArgs,
}

/// The first scored player that is not among the given names, in score-entry
/// order, if any.
pub open spec fn first_absent(sc: Seq<(Seq<char>, int)>, names: Seq<Seq<char>>) -> Option<
    Seq<char>,
>
    decreases sc.len(),
{
    if sc.len() == 0 {
        None
    } else if !names.contains(sc[0].0) {
        Some(sc[0].0)
    } else {
        first_absent(sc.drop_first(), names)
    }
}

proof fn lemma_first_absent_at(sc: Seq<(Seq<char>, int)>, names: Seq<Seq<char>>, i: int)
    requires
        0 <= i < sc.len(),
        !names.contains(sc[i].0),
        forall|j: int| 0 <= j < i ==> names.contains(#[trigger] sc[j].0),
    ensures
        first_absent(sc, names) == Some(sc[i].0),
    decreases sc.len(),
{
    if i > 0 {
        lemma_first_absent_at(sc.drop_first(), names, i - 1);
    }
}

proof fn lemma_first_absent_none(sc: Seq<(Seq<char>, int)>, names: Seq<Seq<char>>)
    requires
        forall|j: int| 0 <= j < sc.len() ==> names.contains(#[trigger] sc[j].0),
    ensures
        first_absent(sc, names) is None,
    decreases sc.len(),
{
    if sc.len() > 0 {
        lemma_first_absent_none(sc.drop_first(), names);
    }
}

impl AddScore {
    /// Validates the raw arguments and builds the game record: the first
    /// positional argument names the game, the rest are `player::score`
    /// tokens, and `--time` may give the date.
    pub fn create(args: &Vec<String>, optional_args: &OptArgs) -> (r: Result<AddScore, String>)
        ensures
            match r {
                Ok(c) => {
                    &&& first_disallowed(optional_args.view_entries(), true) is None
                    &&& args@.len() >= 1
                    &&& spec_parse_scores(str_views(args@.skip(1))) == Some(c.game.view().scores)
                    &&& c.game.view().scores.len() > 0
                    &&& c.game.view().name == args@[0]@
                    &&& c.game.view().date.valid()
                    &&& match kv_get(optional_args.view_entries(), "--time"@) {
                        Some(t) => date_of(t) == Some(
                            (
                                c.game.view().date.year as int,
                                c.game.view().date.month as int,
                                c.game.view().date.day as int,
                            ),
                        ),
                        None => true,
                    }
                    &&& c.optional_args.view_entries() == optional_args.view_entries()
                },
                Err(e) => match first_disallowed(optional_args.view_entries(), true) {
                    Some(k) => e@ == "Unknown optional command for add-score "@ + k + "."@,
                    None => if args@.len() == 0 {
                        e@ == "Invalid number of arguments for add-score."@
                    } else { match spec_parse_scores(str_views(args@.skip(1))) {
                        None => e@
                            == "Error parsing scores. The input format is player::score."@,
                        Some(sheet) => if sheet.len() == 0 {
                            e@ == "No scores provided."@
                        } else {
                            match kv_get(optional_args.view_entries(), "--time"@) {
                                Some(t) => date_of(t) is None && e@
                                    == "Error parsing date. The input format is YYYY-MM-DD."@,
                                None => false,
                            }
                        },
                    } },
                },
            },
    {
        match find_disallowed(optional_args, true) {
            Some(k) => {
                return Err(concat3("Unknown optional command for add-score ", k.as_str(), "."));
            },
            None => {},
        }
        if args.len() == 0 {
            return Err(String::from_str("Invalid number of arguments for add-score."));
        }
        let mut rest: Vec<String> = Vec::new();
        let mut i: usize = 1;
        while i < args.len()
            invariant
                1 <= i <= args@.len(),
                rest@ =~= args@.subrange(1, i as int),
            decreases args@.len() - i,
        {
            rest.push(args[i].clone());
            i += 1;
        }
        proof {
            assert(rest@ =~= args@.skip(1));
            assert(str_views(rest@) =~= str_views(args@.skip(1)));
        }
        let time_val = optional_args.get(TIME_OPTIONAL_ARGUMENT);
        let built = match &time_val {
            Some(t) => Game::build(args[0].clone(), rest, Some(t.as_str())),
            None => Game::build(args[0].clone(), rest, None),
        };
        match built {
            Ok(new_game) => Ok(
                AddScore { game: new_game, optional_args: optional_args.duplicate() },
            ),
            Err(e) => Err(e),
        }
    }

    /// Checks that every scored player exists in the Players document: an
    /// absent document, or the first absent name, fails.
    pub fn check_players_existance(&self, players: Option<&Players>) -> (r: Result<(), String>)
        ensures
            match players {
                None => r matches Err(e) && e@ == "No Players' data found."@,
                Some(ps) => match first_absent(self.game.view().scores, ps.names()) {
                    Some(n) => r matches Err(e) && e@ == "Player "@ + n + " does not exist."@,
                    None => r is Ok,
                },
            },
    {
        match players {
            None => Err(String::from_str("No Players' data found.")),
            Some(ps) => {
                let ghost sc = self.game.view().scores;
                let scores = self.game.get_scores();
                let total = scores.len();
                let mut i: usize = 0;
                while i < total
                    invariant
                        players == Some(ps),
                        i <= total,
                        total == sc.len(),
                        sc == self.game.view().scores,
                        scores.view_entries() == sc,
                        forall|j: int| 0 <= j < i ==> ps.names().contains(#[trigger] sc[j].0),
                    decreases total - i,
                {
                    let name = scores.player_at(i);
                    let candidate = Player::new(name.clone());
                    if !ps.has_player(candidate) {
                        proof {
                            lemma_first_absent_at(sc, ps.names(), i as int);
                        }
                        return Err(concat3("Player ", name.as_str(), " does not exist."));
                    }
                    i += 1;
                }
                proof {
                    lemma_first_absent_none(sc, ps.names());
                }
                Ok(())
            },
        }
    }

    /// The Games document to store back: a singleton collection when no file
    /// exists yet for this game name, else the loaded collection with the
    /// record inserted.
    pub fn apply(&self, doc: Option<Games>) -> (r: Games)
        ensures
            match doc {
                None => r.view_games() =~= seq![self.game.view()] && r.wf(),
                Some(gs) => {
                    &&& r.view_games() =~= games_insert(gs.view_games(), self.game.view())
                    &&& (gs.wf() ==> r.wf())
                },
            },
    {
        match doc {
            None => {
                let mut initial: Vec<Game> = Vec::new();
                initial.push(self.game.duplicate());
                proof {
                    assert(game_views(initial@) =~= seq![self.game.view()]);
                }
                let games = Games::from_games(initial);
                proof {
                    assert(games.view_games() =~= seq![self.game.view()]);
                }
                games
            },
            Some(mut games) => {
                games.add_game(self.game.duplicate());
                games
            },
        }
    }
}

} // verus!
