//! Score sheets: a mapping from player name to score, and the parsing of
//! `player::score` tokens.

use vstd::prelude::*;
use crate::assoc::{
    assoc_get, assoc_insert, lemma_assoc_get_absent, lemma_assoc_get_at, lemma_assoc_insert_absent,
    lemma_assoc_insert_at,
};
use crate::strutil::{is_usize_literal, parse_usize, str_eq, usize_literal_val};

verus! {

/// The views of a sequence of name/score entries.
pub open spec fn score_views(s: Seq<(String, usize)>) -> Seq<(Seq<char>, int)> {
    s.map_values(|e: (String, usize)| (e.0@, e.1 as int))
}

/// A score sheet: player names mapped to non-negative scores, names unique,
/// kept in insertion order.
#[derive(Debug)]
pub struct Scores {
    pub(crate) entries: Vec<(String, usize)>,
}

impl Scores {
    pub closed spec fn view_entries(&self) -> Seq<(Seq<char>, int)> {
        score_views(self.entries@)
    }

    pub fn new() -> (r: Scores)
        ensures
            r.view_entries() =~= Seq::<(Seq<char>, int)>::empty(),
    {
        Scores { entries: Vec::new() }
    }

    pub fn len(&self) -> (r: usize)
        ensures
            r == self.view_entries().len(),
    {
        self.entries.len()
    }

    pub fn is_empty(&self) -> (r: bool)
        ensures
            r == (self.view_entries().len() == 0),
    {
        self.entries.len() == 0
    }

    /// The position of a player among the entries, if it is present.
    fn position_of(&self, name: &str) -> (r: Option<usize>)
        ensures
            match r {
                Some(i) => {
                    &&& i < self.view_entries().len()
                    &&& self.view_entries()[i as int].0 == name@
                    &&& forall|j: int| 0 <= j < i ==> self.view_entries()[j].0 != name@
                },
                None => forall|j: int|
                    0 <= j < self.view_entries().len() ==> self.view_entries()[j].0 != name@,
            },
    {
        let mut i: usize = 0;
        while i < self.entries.len()
            invariant
                i <= self.entries@.len(),
                forall|j: int| 0 <= j < i ==> score_views(self.entries@)[j].0 != name@,
            decreases self.entries@.len() - i,
        {
            if str_eq(self.entries[i].0.as_str(), name) {
                return Some(i);
            }
            i += 1;
        }
        None
    }

    /// Stores a score for a player, replacing any earlier score.
    pub fn insert_score(&mut self, player: String, score: usize)
        ensures
            final(self).view_entries() =~= assoc_insert(
                old(self).view_entries(),
                player@,
                score as int,
            ),
    {
        let ghost orig = self.view_entries();
        let ghost pview = player@;
        match self.position_of(player.as_str()) {
            Some(i) => {
                proof {
                    lemma_assoc_insert_at(orig, pview, score as int, i as int);
                }
                self.entries.set(i, (player, score));
                proof {
                    assert(self.view_entries() =~= orig.update(i as int, (pview, score as int)));
                }
            },
            None => {
                proof {
                    lemma_assoc_insert_absent(orig, pview, score as int);
                }
                self.entries.push((player, score));
                proof {
                    assert(self.view_entries() =~= orig.push((pview, score as int)));
                }
            },
        }
    }

    /// The score stored for a player, if any.
    pub fn get_score(&self, name: &str) -> (r: Option<usize>)
        ensures
            match r {
                Some(v) => assoc_get(self.view_entries(), name@) == Some(v as int),
                None => assoc_get(self.view_entries(), name@) is None,
            },
    {
        match self.position_of(name) {
            Some(i) => {
                proof {
                    lemma_assoc_get_at(self.view_entries(), name@, i as int);
                }
                Some(self.entries[i].1)
            },
            None => {
                proof {
                    lemma_assoc_get_absent(self.view_entries(), name@);
                }
                None
            },
        }
    }

    /// The player name at one position, in insertion order.
    pub fn player_at(&self, i: usize) -> (r: String)
        requires
            i < self.view_entries().len(),
        ensures
            r@ == self.view_entries()[i as int].0,
    {
        self.entries[i].0.clone()
    }

    /// The entry at one position, in insertion order.
    pub fn entry_at(&self, i: usize) -> (r: (String, usize))
        requires
            i < self.view_entries().len(),
        ensures
            r.0@ == self.view_entries()[i as int].0,
            r.1 as int == self.view_entries()[i as int].1,
    {
        (self.entries[i].0.clone(), self.entries[i].1)
    }

    pub fn duplicate(&self) -> (r: Scores)
        ensures
            r.view_entries() =~= self.view_entries(),
    {
        let mut out: Vec<(String, usize)> = Vec::new();
        let mut i: usize = 0;
        while i < self.entries.len()
            invariant
                i <= self.entries@.len(),
                out@.len() == i,
                forall|j: int|
                    0 <= j < i ==> (#[trigger] out@[j]).0@ == self.entries@[j].0@ && out@[j].1
                        == self.entries@[j].1,
            decreases self.entries@.len() - i,
        {
            let k = self.entries[i].0.clone();
            out.push((k, self.entries[i].1));
            i += 1;
        }
        let r = Scores { entries: out };
        proof {
            assert(r.view_entries() =~= self.view_entries());
        }
        r
    }
}

/// Is there a `::` separator starting at position `i`?
pub open spec fn sep_at(s: Seq<char>, i: int) -> bool {
    0 <= i && i + 1 < s.len() && s[i] == ':' && s[i + 1] == ':'
}

/// The first position at or after `i` where a `::` separator starts, or -1.
pub open spec fn first_sep_from(s: Seq<char>, i: int) -> int
    decreases s.len() - i,
{
    if i < 0 || i + 1 >= s.len() {
        -1
    } else if s[i] == ':' && s[i + 1] == ':' {
        i
    } else {
        first_sep_from(s, i + 1)
    }
}

pub proof fn lemma_first_sep_bounds(s: Seq<char>, i: int)
    requires
        0 <= i,
    ensures
        first_sep_from(s, i) == -1 || (i <= first_sep_from(s, i) && sep_at(s, first_sep_from(s, i))),
    decreases s.len() - i,
{
    if !(i + 1 >= s.len()) && !(s[i] == ':' && s[i + 1] == ':') {
        lemma_first_sep_bounds(s, i + 1);
    }
}

/// Finds the leftmost `::` separator, scanning as `str::split` does.
pub fn find_sep(s: &str) -> (r: Option<usize>)
    ensures
        match r {
            Some(i) => first_sep_from(s@, 0) == i,
            None => first_sep_from(s@, 0) == -1,
        },
{
    let len = s.unicode_len();
    if len < 2 {
        return None;
    }
    let mut i: usize = 0;
    while i + 1 < len
        invariant
            len == s@.len(),
            i + 1 <= len,
            first_sep_from(s@, 0) == first_sep_from(s@, i as int),
        decreases len - i,
    {
        if s.get_char(i) == ':' && s.get_char(i + 1) == ':' {
            return Some(i);
        }
        i += 1;
    }
    None
}

/// Splitting a token at its `::` separator: the player part and the score
/// part, or nothing when there is no separator or more than one.
pub open spec fn spec_split_token(t: Seq<char>) -> Option<(Seq<char>, Seq<char>)> {
    let i = first_sep_from(t, 0);
    if i < 0 {
        None
    } else {
        let before = t.subrange(0, i);
        let after = t.subrange(i + 2, t.len() as int);
        if first_sep_from(after, 0) >= 0 {
            None
        } else {
            Some((before, after))
        }
    }
}

/// A parsed `player::score` token: the player name and the score value, or
/// nothing when the token is malformed.
pub open spec fn spec_parse_token(t: Seq<char>) -> Option<(Seq<char>, int)> {
    match spec_split_token(t) {
        None => None,
        Some(pv) => if is_usize_literal(pv.1) {
            Some((pv.0, usize_literal_val(pv.1)))
        } else {
            None
        },
    }
}

/// Parses one `player::score` token.
pub fn split_token(t: &str) -> (r: Option<(String, usize)>)
    ensures
        match r {
            Some(pv) => spec_parse_token(t@) == Some((pv.0@, pv.1 as int)),
            None => spec_parse_token(t@) is None,
        },
{
    match find_sep(t) {
        None => None,
        Some(i) => {
            proof {
                lemma_first_sep_bounds(t@, 0);
            }
            let len = t.unicode_len();
            let player = t.substring_char(0, i);
            let num = t.substring_char(i + 2, len);
            match find_sep(num) {
                Some(_) => None,
                None => match parse_usize(num) {
                    Some(v) => {
                        proof {
                            assert(spec_split_token(t@) == Some(
                                (t@.subrange(0, i as int), t@.subrange(i + 2, t@.len() as int)),
                            ));
                        }
                        Some((String::from_str(player), v))
                    },
                    None => None,
                },
            }
        },
    }
}

/// The scores collected from a sequence of tokens, from position `i` on, into
/// the accumulated sheet: any malformed token fails the whole parse.
pub open spec fn collect_scores(
    tokens: Seq<Seq<char>>,
    i: int,
    acc: Seq<(Seq<char>, int)>,
) -> Option<Seq<(Seq<char>, int)>>
    decreases tokens.len() - i,
{
    if i < 0 || i >= tokens.len() {
        Some(acc)
    } else {
        match spec_parse_token(tokens[i]) {
            None => None,
            Some(pv) => collect_scores(tokens, i + 1, assoc_insert(acc, pv.0, pv.1)),
        }
    }
}

/// What parsing a token list yields: a score sheet, or a parse failure.
pub open spec fn spec_parse_scores(tokens: Seq<Seq<char>>) -> Option<Seq<(Seq<char>, int)>> {
    collect_scores(tokens, 0, Seq::empty())
}

} // verus!
