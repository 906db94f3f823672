//! Games and the Games collection: score records with unique identifiers and
//! dates, merged across files and ordered for display.

use vstd::prelude::*;
use crate::date::{parse_date, today, date_of, Date};
use crate::ids::fresh_uuid;
use crate::score::{spec_parse_scores, collect_scores, split_token, Scores};
use crate::strutil::str_views;

verus! {

/// The mathematical content of one game record.
pub ghost struct GameView {
    pub id: u128,
    pub name: Seq<char>,
    pub scores: Seq<(Seq<char>, int)>,
    pub date: Date,
}

/// One recorded play-through: a fresh identifier, the game's name, a score
/// sheet with at least one entry, and a date.
#[derive(Debug)]
pub struct Game {
    id: u128,
    game_name: String,
    scores: Scores,
    time: Date,
}

impl Game {
    pub closed spec fn view(&self) -> GameView {
        GameView {
            id: self.id,
            name: self.game_name@,
            scores: self.scores.view_entries(),
            date: self.time,
        }
    }

    /// Parses `player::score` tokens into a score sheet; any malformed token
    /// fails the whole parse.
    pub fn parse_scores(scores: &Vec<String>) -> (r: Result<Scores, String>)
        ensures
            match r {
                Ok(sc) => spec_parse_scores(str_views(scores@)) == Some(sc.view_entries()),
                Err(e) => {
                    &&& spec_parse_scores(str_views(scores@)) is None
                    &&& e@ == "Error parsing scores. The input format is player::score."@
                },
            },
    {
        let ghost toks = str_views(scores@);
        let mut sheet = Scores::new();
        let mut i: usize = 0;
        while i < scores.len()
            invariant
                i <= scores@.len(),
                toks == str_views(scores@),
                collect_scores(toks, 0, Seq::empty()) == collect_scores(
                    toks,
                    i as int,
                    sheet.view_entries(),
                ),
            decreases scores@.len() - i,
        {
            match split_token(scores[i].as_str()) {
                Some(pv) => {
                    let ghost pre = sheet.view_entries();
                    let ghost pview = pv.0@;
                    let ghost vval = pv.1 as int;
                    sheet.insert_score(pv.0, pv.1);
                    proof {
                        assert(collect_scores(toks, i as int, pre) == collect_scores(
                            toks,
                            i + 1,
                            crate::assoc::assoc_insert(pre, pview, vval),
                        ));
                    }
                    i += 1;
                },
                None => {
                    return Err(String::from_str(
                        "Error parsing scores. The input format is player::score.",
                    ));
                },
            }
        }
        Ok(sheet)
    }

    /// Builds a game record from its name, its raw score tokens and an
    /// optional date string, drawing a fresh identifier.
    pub fn build(gamename: String, scores: Vec<String>, time: Option<&str>) -> (r: Result<
        Game,
        String,
    >)
        ensures
            match r {
                Ok(g) => {
                    &&& spec_parse_scores(str_views(scores@)) == Some(g.view().scores)
                    &&& g.view().scores.len() > 0
                    &&& g.view().name == gamename@
                    &&& g.view().date.valid()
                    &&& match time {
                        Some(t) => date_of(t@) == Some(
                            (
                                g.view().date.year as int,
                                g.view().date.month as int,
                                g.view().date.day as int,
                            ),
                        ),
                        None => true,
                    }
                },
                Err(e) => match spec_parse_scores(str_views(scores@)) {
                    None => e@ == "Error parsing scores. The input format is player::score."@,
                    Some(sheet) => if sheet.len() == 0 {
                        e@ == "No scores provided."@
                    } else {
                        match time {
                            Some(t) => date_of(t@) is None && e@
                                == "Error parsing date. The input format is YYYY-MM-DD."@,
                            None => false,
                        }
                    },
                },
            },
    {
        let parsed_scores = match Self::parse_scores(&scores) {
            Ok(p) => p,
            Err(e) => {
                return Err(e);
            },
        };
        if parsed_scores.len() == 0 {
            return Err(String::from_str("No scores provided."));
        }
        let date = match time {
            Some(t) => match parse_date(t) {
                Some(d) => d,
                None => {
                    return Err(String::from_str(
                        "Error parsing date. The input format is YYYY-MM-DD.",
                    ));
                },
            },
            None => today(),
        };
        let id = fresh_uuid();
        Ok(Game { id, game_name: gamename, scores: parsed_scores, time: date })
    }

    /// Rebuilds a record from its stored parts, as a loaded document hands
    /// them back.
    pub fn from_parts(id: u128, game_name: String, scores: Scores, time: Date) -> (r: Game)
        ensures
            r.view() == (GameView {
                id,
                name: game_name@,
                scores: scores.view_entries(),
                date: time,
            }),
    {
        Game { id, game_name, scores, time }
    }

    pub fn get_datetime(&self) -> (r: Date)
        ensures
            r == self.view().date,
    {
        self.time
    }

    pub fn get_name(&self) -> (r: &str)
        ensures
            r@ == self.view().name,
    {
        self.game_name.as_str()
    }

    pub fn get_id(&self) -> (r: u128)
        ensures
            r == self.view().id,
    {
        self.id
    }

    pub fn get_scores(&self) -> (r: &Scores)
        ensures
            r.view_entries() == self.view().scores,
    {
        &self.scores
    }

    pub fn duplicate(&self) -> (r: Game)
        ensures
            r.view() == self.view(),
    {
        let r = Game {
            id: self.id,
            game_name: self.game_name.clone(),
            scores: self.scores.duplicate(),
            time: self.time,
        };
        proof {
            assert(r.view().scores =~= self.view().scores);
        }
        r
    }
}

/// The views of a sequence of game records.
pub open spec fn game_views(s: Seq<Game>) -> Seq<GameView> {
    s.map_values(|g: Game| g.view())
}

/// Does some record in the sequence carry this identifier?
pub open spec fn contains_id(s: Seq<GameView>, id: u128) -> bool {
    exists|i: int| 0 <= i < s.len() && s[i].id == id
}

/// The first position of an identifier in a sequence of records.
pub open spec fn first_id_index(s: Seq<GameView>, id: u128) -> int
    decreases s.len(),
{
    if s.len() == 0 {
        0
    } else if s[0].id == id {
        0
    } else {
        1 + first_id_index(s.drop_first(), id)
    }
}

pub proof fn lemma_first_id_index(s: Seq<GameView>, id: u128)
    requires
        contains_id(s, id),
    ensures
        0 <= first_id_index(s, id) < s.len(),
        s[first_id_index(s, id)].id == id,
        forall|j: int| 0 <= j < first_id_index(s, id) ==> s[j].id != id,
    decreases s.len(),
{
    if s.len() > 0 && s[0].id != id {
        let t = s.drop_first();
        assert(contains_id(t, id)) by {
            let w = choose|w: int| 0 <= w < s.len() && s[w].id == id;
            assert(t[w - 1].id == id);
        }
        lemma_first_id_index(t, id);
        assert forall|j: int| 0 <= j < first_id_index(s, id) implies s[j].id != id by {
            if j > 0 {
                assert(t[j - 1] == s[j]);
            }
        }
    }
}

/// Inserting a record keyed by its identifier: replace in place if the
/// identifier is present, append otherwise.
pub open spec fn games_insert(s: Seq<GameView>, g: GameView) -> Seq<GameView>
    decreases s.len(),
{
    if s.len() == 0 {
        seq![g]
    } else if s[0].id == g.id {
        seq![g] + s.drop_first()
    } else {
        seq![s[0]] + games_insert(s.drop_first(), g)
    }
}

pub proof fn lemma_games_insert_at(s: Seq<GameView>, g: GameView, i: int)
    requires
        0 <= i < s.len(),
        s[i].id == g.id,
        forall|j: int| 0 <= j < i ==> s[j].id != g.id,
    ensures
        games_insert(s, g) =~= s.update(i, g),
    decreases s.len(),
{
    if i == 0 {
        assert(games_insert(s, g) == seq![g] + s.drop_first());
        assert(seq![g] + s.drop_first() =~= s.update(0, g));
    } else {
        lemma_games_insert_at(s.drop_first(), g, i - 1);
        assert(games_insert(s, g) == seq![s[0]] + games_insert(s.drop_first(), g));
        assert(seq![s[0]] + s.drop_first().update(i - 1, g) =~= s.update(i, g));
    }
}

pub proof fn lemma_games_insert_absent(s: Seq<GameView>, g: GameView)
    requires
        !contains_id(s, g.id),
    ensures
        games_insert(s, g) =~= s.push(g),
    decreases s.len(),
{
    if s.len() == 0 {
        assert(games_insert(s, g) =~= s.push(g));
    } else {
        assert(s[0].id != g.id);
        assert(!contains_id(s.drop_first(), g.id)) by {
            if contains_id(s.drop_first(), g.id) {
                let w = choose|w: int|
                    0 <= w < s.drop_first().len() && s.drop_first()[w].id == g.id;
                assert(s[w + 1].id == g.id);
            }
        }
        lemma_games_insert_absent(s.drop_first(), g);
        assert(seq![s[0]] + s.drop_first().push(g) =~= s.push(g));
    }
}

/// Merging the records of `other`, from position `i` on, into the
/// accumulated sequence, identifier collisions overwriting.
pub open spec fn games_merge(acc: Seq<GameView>, other: Seq<GameView>, i: int) -> Seq<GameView>
    decreases other.len() - i,
{
    if i < 0 || i >= other.len() {
        acc
    } else {
        games_merge(games_insert(acc, other[i]), other, i + 1)
    }
}

/// Records ordered by date, ties broken by identifier.
pub open spec fn game_le(a: GameView, b: GameView) -> bool {
    if a.date != b.date {
        a.date.spec_le(&b.date)
    } else {
        a.id <= b.id
    }
}

/// Is the sequence sorted by date, ties broken by identifier?
pub open spec fn sorted_games(s: Seq<GameView>) -> bool {
    forall|i: int, j: int| 0 <= i < j < s.len() ==> game_le(s[i], s[j])
}

pub proof fn lemma_game_le_total(a: GameView, b: GameView)
    ensures
        game_le(a, b) || game_le(b, a),
{
}

pub proof fn lemma_game_le_trans(a: GameView, b: GameView, c: GameView)
    requires
        game_le(a, b),
        game_le(b, c),
    ensures
        game_le(a, c),
{
}

/// The Games collection: a mapping from identifier to record, identifiers
/// unique.
#[derive(Debug)]
pub struct Games {
    games: Vec<Game>,
}

impl Games {
    pub closed spec fn spec_games(&self) -> Seq<Game> {
        self.games@
    }

    pub open spec fn view_games(&self) -> Seq<GameView> {
        game_views(self.spec_games())
    }

    /// The collection's invariant: no two records share an identifier.
    pub open spec fn wf(&self) -> bool {
        forall|i: int, j: int|
            0 <= i < j < self.view_games().len() ==> self.view_games()[i].id
                != self.view_games()[j].id
    }

    /// Builds the collection from records whose identifiers are pairwise
    /// distinct.
    pub fn from_games(games: Vec<Game>) -> (r: Games)
        requires
            forall|i: int, j: int|
                0 <= i < j < games@.len() ==> game_views(games@)[i].id != game_views(games@)[j].id,
        ensures
            r.view_games() =~= game_views(games@),
            r.wf(),
    {
        Games { games }
    }

    pub fn create_empy() -> (r: Games)
        ensures
            r.view_games() =~= Seq::<GameView>::empty(),
            r.wf(),
    {
        Games { games: Vec::new() }
    }

    pub fn get_games(&self) -> (r: &Vec<Game>)
        ensures
            r@ == self.spec_games(),
            game_views(r@) == self.view_games(),
    {
        &self.games
    }

    /// The position of an identifier among the records, if it is present.
    fn position_of(&self, id: u128) -> (r: Option<usize>)
        ensures
            match r {
                Some(i) => {
                    &&& i < self.view_games().len()
                    &&& self.view_games()[i as int].id == id
                    &&& forall|j: int| 0 <= j < i ==> self.view_games()[j].id != id
                },
                None => !contains_id(self.view_games(), id),
            },
    {
        let mut i: usize = 0;
        while i < self.games.len()
            invariant
                i <= self.games@.len(),
                forall|j: int| 0 <= j < i ==> game_views(self.games@)[j].id != id,
            decreases self.games@.len() - i,
        {
            if self.games[i].id == id {
                return Some(i);
            }
            i += 1;
        }
        None
    }

    /// Inserts a record keyed by its identifier, overwriting any record that
    /// already carries it.
    pub fn add_game(&mut self, game: Game)
        ensures
            final(self).view_games() =~= games_insert(old(self).view_games(), game.view()),
            old(self).wf() ==> final(self).wf(),
    {
        let ghost orig = self.view_games();
        let ghost gview = game.view();
        match self.position_of(game.id) {
            Some(i) => {
                proof {
                    lemma_games_insert_at(orig, gview, i as int);
                }
                self.games.set(i, game);
                proof {
                    assert(self.view_games() =~= orig.update(i as int, gview));
                    if old(self).wf() {
                        assert forall|a: int, b: int|
                            0 <= a < b < self.view_games().len() implies self.view_games()[a].id
                            != self.view_games()[b].id by {
                            assert(orig[a].id != orig[b].id);
                        }
                    }
                }
            },
            None => {
                proof {
                    lemma_games_insert_absent(orig, gview);
                }
                self.games.push(game);
                proof {
                    assert(self.view_games() =~= orig.push(gview));
                    if old(self).wf() {
                        assert forall|a: int, b: int|
                            0 <= a < b < self.view_games().len() implies self.view_games()[a].id
                            != self.view_games()[b].id by {
                            if b < self.view_games().len() - 1 {
                                assert(orig[a].id != orig[b].id);
                            } else {
                                assert(!contains_id(orig, gview.id));
                                assert(orig[a].id != gview.id);
                            }
                        }
                    }
                }
            },
        }
    }

    /// Removes and returns the record with the given identifier: fails, and
    /// changes nothing, if no record carries it.
    pub fn delete(&mut self, game_id: u128) -> (r: Result<Game, String>)
        ensures
            match r {
                Ok(g) => {
                    &&& contains_id(old(self).view_games(), game_id)
                    &&& g.view() == old(self).view_games()[first_id_index(
                        old(self).view_games(),
                        game_id,
                    )]
                    &&& g.view().id == game_id
                    &&& final(self).view_games() =~= old(self).view_games().remove(
                        first_id_index(old(self).view_games(), game_id),
                    )
                },
                Err(e) => {
                    &&& !contains_id(old(self).view_games(), game_id)
                    &&& *final(self) == *old(self)
                    &&& e@ == "Game not found."@
                },
            },
            old(self).wf() ==> final(self).wf(),
    {
        let ghost orig = self.view_games();
        match self.position_of(game_id) {
            Some(i) => {
                proof {
                    assert(contains_id(orig, game_id)) by {
                        assert(orig[i as int].id == game_id);
                    }
                    lemma_first_id_index(orig, game_id);
                    assert(first_id_index(orig, game_id) == i as int) by {
                        let f = first_id_index(orig, game_id);
                        if f < i {
                            assert(orig[f].id != game_id);
                        }
                        if i < f {
                            assert(orig[i as int].id != game_id);
                        }
                    }
                }
                let g = self.games.remove(i);
                proof {
                    assert(self.view_games() =~= orig.remove(i as int));
                    if old(self).wf() {
                        lemma_remove_keeps_distinct_ids(orig, i as int);
                    }
                }
                Ok(g)
            },
            None => Err(String::from_str("Game not found.")),
        }
    }

    /// Inserts every record of `other`, overwriting on identifier collision.
    pub fn extend(&mut self, games: &Games)
        ensures
            final(self).view_games() =~= games_merge(
                old(self).view_games(),
                games.view_games(),
                0,
            ),
            old(self).wf() ==> final(self).wf(),
    {
        let ghost other = games.view_games();
        let mut i: usize = 0;
        while i < games.games.len()
            invariant
                i <= games.games@.len(),
                other == games.view_games(),
                games_merge(old(self).view_games(), other, 0) == games_merge(
                    self.view_games(),
                    other,
                    i as int,
                ),
                old(self).wf() ==> self.wf(),
            decreases games.games@.len() - i,
        {
            let ghost pre = self.view_games();
            let g = games.games[i].duplicate();
            proof {
                assert(g.view() == other[i as int]);
            }
            self.add_game(g);
            proof {
                assert(games_merge(pre, other, i as int) == games_merge(
                    games_insert(pre, other[i as int]),
                    other,
                    i + 1,
                ));
            }
            i += 1;
        }
    }

    /// The records ordered ascending by date, ties broken by identifier: a
    /// permutation of the collection's contents.
    pub fn order_by_date(&self) -> (r: Vec<Game>)
        ensures
            sorted_games(game_views(r@)),
            game_views(r@).to_multiset() == self.view_games().to_multiset(),
    {
        let ghost all = self.view_games();
        let mut out: Vec<Game> = Vec::new();
        proof {
            assert(game_views(out@) =~= all.take(0));
        }
        let mut i: usize = 0;
        while i < self.games.len()
            invariant
                i <= self.games@.len(),
                all == self.view_games(),
                sorted_games(game_views(out@)),
                game_views(out@).to_multiset() == all.take(i as int).to_multiset(),
            decreases self.games@.len() - i,
        {
            let g = self.games[i].duplicate();
            let ghost gview = g.view();
            let ghost ov = game_views(out@);
            let mut p: usize = 0;
            while p < out.len() && le_game(&out[p], &g)
                invariant
                    p <= out@.len(),
                    ov == game_views(out@),
                    gview == g.view(),
                    forall|k: int| 0 <= k < p ==> game_le(ov[k], gview),
                decreases out@.len() - p,
            {
                p += 1;
            }
            proof {
                if p < out@.len() {
                    lemma_game_le_total(ov[p as int], gview);
                }
            }
            out.insert(p, g);
            proof {
                assert(game_views(out@) =~= ov.insert(p as int, gview));
                assert forall|a: int, b: int|
                    0 <= a < b < game_views(out@).len() implies game_le(
                    game_views(out@)[a],
                    game_views(out@)[b],
                ) by {
                    let nv = ov.insert(p as int, gview);
                    if a < p && b == p {
                        assert(nv[a] == ov[a]);
                    } else if a == p && b > p {
                        assert(nv[b] == ov[b - 1]);
                        if p < ov.len() {
                            lemma_game_le_trans(gview, ov[p as int], ov[b - 1]);
                        }
                    } else if a < p && b > p {
                        assert(nv[a] == ov[a] && nv[b] == ov[b - 1]);
                    } else if b < p {
                        assert(nv[a] == ov[a] && nv[b] == ov[b]);
                    } else if a > p {
                        assert(nv[a] == ov[a - 1] && nv[b] == ov[b - 1]);
                    }
                }
                assert(gview == all[i as int]);
                vstd::seq_lib::to_multiset_insert(ov, p as int, gview);
                assert(all.take(i + 1) =~= all.take(i as int).push(all[i as int]));
                vstd::seq_lib::to_multiset_build(all.take(i as int), all[i as int]);
                assert(game_views(out@).to_multiset() == all.take(i + 1).to_multiset());
            }
            i += 1;
        }
        proof {
            assert(all.take(self.games@.len() as int) =~= all);
        }
        out
    }
}

/// Executable comparison matching `game_le` on the views.
fn le_game(a: &Game, b: &Game) -> (r: bool)
    ensures
        r == game_le(a.view(), b.view()),
{
    let ad = a.get_datetime();
    let bd = b.get_datetime();
    if ad == bd {
        a.get_id() <= b.get_id()
    } else {
        ad.le(&bd)
    }
}

proof fn lemma_remove_keeps_distinct_ids(s: Seq<GameView>, i: int)
    requires
        0 <= i < s.len(),
        forall|a: int, b: int| 0 <= a < b < s.len() ==> s[a].id != s[b].id,
    ensures
        forall|a: int, b: int|
            0 <= a < b < s.remove(i).len() ==> s.remove(i)[a].id != s.remove(i)[b].id,
{
    let t = s.remove(i);
    assert forall|a: int, b: int| 0 <= a < b < t.len() implies t[a].id != t[b].id by {
        let sa: int = if a < i {
            a
        } else {
            a + 1
        };
        let sb: int = if b < i {
            b
        } else {
            b + 1
        };
        assert(t[a] == s[sa]);
        assert(t[b] == s[sb]);
    }
}

/// A record inserted under an identifier that no record carries lands at the
/// end, is found again by that identifier, and deleting that identifier
/// returns the collection to its prior state.
pub proof fn lemma_record_then_delete_round_trip(s: Seq<GameView>, g: GameView)
    requires
        !contains_id(s, g.id),
    ensures
        contains_id(games_insert(s, g), g.id),
        first_id_index(games_insert(s, g), g.id) == s.len(),
        games_insert(s, g).remove(first_id_index(games_insert(s, g), g.id)) =~= s,
{
    lemma_games_insert_absent(s, g);
    let t = s.push(g);
    assert(games_insert(s, g) =~= t);
    assert(contains_id(t, g.id)) by {
        assert(t[s.len() as int].id == g.id);
    }
    lemma_first_id_index(t, g.id);
    let f = first_id_index(t, g.id);
    if f < s.len() {
        assert(t[f] == s[f]);
        assert(contains_id(s, g.id)) by {
            assert(s[f].id == g.id);
        }
    }
    assert(t.remove(s.len() as int) =~= s);
}

} // verus!
