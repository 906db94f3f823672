//! Tokenizing of the command line: positional arguments, `--flag value`
//! pairs, and the command tag.

use vstd::prelude::*;
use crate::assoc::{assoc_get, assoc_insert, lemma_assoc_get_absent, lemma_assoc_get_at, lemma_assoc_insert_absent, lemma_assoc_insert_at};
use crate::strutil::{concat2, is_flag, spec_is_flag, str_eq};

verus! {

pub const SAVE_DIR_OPTIONAL_ARGUMENT: &'static str = "--save-dir";

pub const TIME_OPTIONAL_ARGUMENT: &'static str = "--time";

/// The optional arguments of one invocation: `--flag value` pairs with
/// unique flags, later values for a flag replacing earlier ones.
#[derive(Debug)]
pub struct OptArgs {
    pub(crate) entries: Vec<(String, String)>,
}

/// The views of a sequence of key/value pairs.
pub open spec fn kv_views(s: Seq<(String, String)>) -> Seq<(Seq<char>, Seq<char>)> {
    s.map_values(|p: (String, String)| (p.0@, p.1@))
}

/// Inserting a flag's value: replace in place if the flag is present,
/// append otherwise.
pub open spec fn kv_insert(
    s: Seq<(Seq<char>, Seq<char>)>,
    k: Seq<char>,
    v: Seq<char>,
) -> Seq<(Seq<char>, Seq<char>)> {
    assoc_insert(s, k, v)
}

/// The value stored for a flag, if any.
pub open spec fn kv_get(s: Seq<(Seq<char>, Seq<char>)>, k: Seq<char>) -> Option<Seq<char>> {
    assoc_get(s, k)
}

impl OptArgs {
    pub closed spec fn view_entries(&self) -> Seq<(Seq<char>, Seq<char>)> {
        kv_views(self.entries@)
    }

    pub fn new() -> (r: OptArgs)
        ensures
            r.view_entries() =~= Seq::<(Seq<char>, Seq<char>)>::empty(),
    {
        OptArgs { entries: Vec::new() }
    }

    pub fn len(&self) -> (r: usize)
        ensures
            r == self.view_entries().len(),
    {
        self.entries.len()
    }

    pub fn is_empty(&self) -> (r: bool)
        ensures
            r == (self.view_entries().len() == 0),
    {
        self.entries.len() == 0
    }

    /// The position of a key among the entries, if it is present.
    fn position_of(&self, key: &str) -> (r: Option<usize>)
        ensures
            match r {
                Some(i) => {
                    &&& i < self.view_entries().len()
                    &&& self.view_entries()[i as int].0 == key@
                    &&& forall|j: int| 0 <= j < i ==> self.view_entries()[j].0 != key@
                },
                None => forall|j: int|
                    0 <= j < self.view_entries().len() ==> self.view_entries()[j].0 != key@,
            },
    {
        let mut i: usize = 0;
        while i < self.entries.len()
            invariant
                i <= self.entries@.len(),
                forall|j: int| 0 <= j < i ==> kv_views(self.entries@)[j].0 != key@,
            decreases self.entries@.len() - i,
        {
            if str_eq(self.entries[i].0.as_str(), key) {
                return Some(i);
            }
            i += 1;
        }
        None
    }

    /// Stores a value for a key, replacing any earlier value.
    pub fn insert(&mut self, key: String, value: String)
        ensures
            final(self).view_entries() =~= kv_insert(old(self).view_entries(), key@, value@),
    {
        let ghost orig = self.view_entries();
        let ghost kview = key@;
        let ghost vview = value@;
        match self.position_of(key.as_str()) {
            Some(i) => {
                proof {
                    lemma_assoc_insert_at(orig, kview, vview, i as int);
                }
                self.entries.set(i, (key, value));
                proof {
                    assert(self.view_entries() =~= orig.update(i as int, (kview, vview)));
                }
            },
            None => {
                proof {
                    lemma_assoc_insert_absent(orig, kview, vview);
                }
                self.entries.push((key, value));
                proof {
                    assert(self.view_entries() =~= orig.push((kview, vview)));
                }
            },
        }
    }

    /// The value stored for a key, cloned out of the collection.
    pub fn get(&self, key: &str) -> (r: Option<String>)
        ensures
            match r {
                Some(v) => kv_get(self.view_entries(), key@) == Some(v@),
                None => kv_get(self.view_entries(), key@) is None,
            },
    {
        match self.position_of(key) {
            Some(i) => {
                proof {
                    lemma_assoc_get_at(self.view_entries(), key@, i as int);
                }
                Some(self.entries[i].1.clone())
            },
            None => {
                proof {
                    lemma_assoc_get_absent(self.view_entries(), key@);
                }
                None
            },
        }
    }

    pub fn duplicate(&self) -> (r: OptArgs)
        ensures
            r.view_entries() =~= self.view_entries(),
    {
        let mut out: Vec<(String, String)> = Vec::new();
        let mut i: usize = 0;
        while i < self.entries.len()
            invariant
                i <= self.entries@.len(),
                out@.len() == i,
                forall|j: int|
                    0 <= j < i ==> (#[trigger] out@[j]).0@ == self.entries@[j].0@ && out@[j].1@
                        == self.entries@[j].1@,
            decreases self.entries@.len() - i,
        {
            let k = self.entries[i].0.clone();
            let v = self.entries[i].1.clone();
            out.push((k, v));
            i += 1;
        }
        let r = OptArgs { entries: out };
        proof {
            assert(r.view_entries() =~= self.view_entries());
        }
        r
    }
}

/// How many arguments stand before the first `--` flag.
pub open spec fn pos_count(s: Seq<String>) -> int
    decreases s.len(),
{
    if s.len() == 0 {
        0
    } else if spec_is_flag(s[0]@) {
        0
    } else {
        1 + pos_count(s.drop_first())
    }
}

proof fn lemma_pos_count_bounds(s: Seq<String>)
    ensures
        0 <= pos_count(s) <= s.len(),
        forall|j: int| 0 <= j < pos_count(s) ==> !spec_is_flag(s[j]@),
        pos_count(s) < s.len() ==> spec_is_flag(s[pos_count(s)]@),
    decreases s.len(),
{
    if s.len() > 0 && !spec_is_flag(s[0]@) {
        let t = s.drop_first();
        lemma_pos_count_bounds(t);
        assert forall|j: int| 0 <= j < pos_count(s) implies !spec_is_flag(s[j]@) by {
            if j > 0 {
                assert(t[j - 1] == s[j]);
            }
        }
        if pos_count(s) < s.len() {
            assert(t[pos_count(t)] == s[pos_count(s)]);
        }
    }
}

/// The arguments before the first `--` flag, in order.
pub fn get_positional_args(args: &Vec<String>) -> (r: Vec<String>)
    ensures
        r@ =~= args@.subrange(0, pos_count(args@)),
{
    proof {
        lemma_pos_count_bounds(args@);
    }
    let mut positional_args: Vec<String> = Vec::new();
    let mut i: usize = 0;
    while i < args.len()
        invariant
            i <= args@.len(),
            forall|j: int| 0 <= j < i ==> !spec_is_flag(args@[j]@),
            positional_args@ =~= args@.subrange(0, i as int),
        decreases args@.len() - i,
    {
        if is_flag(args[i].as_str()) {
            proof {
                lemma_pos_count_prefix(args@, i as int);
            }
            return positional_args;
        }
        positional_args.push(args[i].clone());
        i += 1;
    }
    proof {
        lemma_pos_count_prefix(args@, args@.len() as int);
    }
    positional_args
}

/// If the first `i` entries are not flags and entry `i` (when present) is
/// one, the positional prefix has length exactly `i`.
proof fn lemma_pos_count_prefix(s: Seq<String>, i: int)
    requires
        0 <= i <= s.len(),
        forall|j: int| 0 <= j < i ==> !spec_is_flag(s[j]@),
        i < s.len() ==> spec_is_flag(s[i]@),
    ensures
        pos_count(s) == i,
    decreases s.len(),
{
    if s.len() > 0 && i > 0 {
        lemma_pos_count_prefix(s.drop_first(), i - 1);
    }
}

pub open spec fn unknown_opt_msg(a: Seq<char>) -> Seq<char> {
    "Unknown optional argument "@ + a
}

pub open spec fn missing_val_msg(a: Seq<char>) -> Seq<char> {
    "Missing value for optional argument "@ + a
}

/// Is the flag one that any command understands? Which commands admit
/// which flag is checked later, per command.
pub open spec fn spec_known_flag(a: Seq<char>) -> bool {
    a == "--save-dir"@ || a == "--time"@
}

/// Reading `--flag value` pairs from position `i` on, into the accumulated
/// entries: the first unknown flag, or a flag without a value, is an error.
pub open spec fn spec_collect_opts(
    s: Seq<String>,
    i: int,
    acc: Seq<(Seq<char>, Seq<char>)>,
) -> Result<Seq<(Seq<char>, Seq<char>)>, Seq<char>>
    decreases s.len() - i,
{
    if i < 0 || i >= s.len() {
        Ok(acc)
    } else if !spec_known_flag(s[i]@) {
        Err(unknown_opt_msg(s[i]@))
    } else if i + 1 >= s.len() || spec_is_flag(s[i + 1]@) {
        Err(missing_val_msg(s[i]@))
    } else {
        spec_collect_opts(s, i + 2, kv_insert(acc, s[i]@, s[i + 1]@))
    }
}

/// Reads the optional arguments: alternating known flags and their values.
pub fn get_optional_args(args: &Vec<String>) -> (r: Result<OptArgs, String>)
    ensures
        match r {
            Ok(o) => spec_collect_opts(args@, 0, Seq::empty()) == Ok::<_, Seq<char>>(
                o.view_entries(),
            ),
            Err(e) => spec_collect_opts(args@, 0, Seq::empty()) == Err::<
                Seq<(Seq<char>, Seq<char>)>,
                _,
            >(e@),
        },
{
    let mut optional_args = OptArgs::new();
    let mut i: usize = 0;
    while i < args.len()
        invariant
            i <= args@.len(),
            spec_collect_opts(args@, 0, Seq::empty()) == spec_collect_opts(
                args@,
                i as int,
                optional_args.view_entries(),
            ),
        decreases args@.len() - i,
    {
        let known = str_eq(args[i].as_str(), SAVE_DIR_OPTIONAL_ARGUMENT) || str_eq(
            args[i].as_str(),
            TIME_OPTIONAL_ARGUMENT,
        );
        if known {
            if i + 1 < args.len() {
                if is_flag(args[i + 1].as_str()) {
                    let msg = concat2("Missing value for optional argument ", args[i].as_str());
                    return Err(msg);
                }
                let ghost pre = optional_args.view_entries();
                let key = args[i].clone();
                let value = args[i + 1].clone();
                optional_args.insert(key, value);
                proof {
                    assert(optional_args.view_entries() == kv_insert(
                        pre,
                        args@[i as int]@,
                        args@[i + 1]@,
                    ));
                    assert(spec_collect_opts(args@, i as int, pre) == spec_collect_opts(
                        args@,
                        i + 2,
                        kv_insert(pre, args@[i as int]@, args@[i + 1]@),
                    ));
                }
                i += 2;
            } else {
                let msg = concat2("Missing value for optional argument ", args[i].as_str());
                return Err(msg);
            }
        } else {
            let msg = concat2("Unknown optional argument ", args[i].as_str());
            return Err(msg);
        }
    }
    Ok(optional_args)
}

/// Splits an argument list into its positional prefix and its optional
/// `--flag value` pairs.
pub fn parse_args(args: &Vec<String>) -> (r: Result<(Vec<String>, OptArgs), String>)
    ensures
        match r {
            Ok(p) => {
                &&& p.0@ =~= args@.subrange(0, pos_count(args@))
                &&& spec_collect_opts(args@, pos_count(args@), Seq::empty()) == Ok::<
                    _,
                    Seq<char>,
                >(p.1.view_entries())
            },
            Err(e) => spec_collect_opts(args@, pos_count(args@), Seq::empty()) == Err::<
                Seq<(Seq<char>, Seq<char>)>,
                _,
            >(e@),
        },
{
    let positional_args = get_positional_args(args);
    let optional_start = positional_args.len();
    let mut rest: Vec<String> = Vec::new();
    let mut i: usize = optional_start;
    proof {
        lemma_pos_count_bounds(args@);
    }
    while i < args.len()
        invariant
            optional_start <= i <= args@.len(),
            optional_start == pos_count(args@),
            rest@ =~= args@.subrange(optional_start as int, i as int),
        decreases args@.len() - i,
    {
        rest.push(args[i].clone());
        i += 1;
    }
    proof {
        lemma_collect_opts_shift(args@, rest@, optional_start as int, 0, Seq::empty());
    }
    match get_optional_args(&rest) {
        Ok(optional_args) => Ok((positional_args, optional_args)),
        Err(e) => Err(e),
    }
}

/// Collecting flags from a suffix equals collecting from the copied-out
/// suffix vector.
proof fn lemma_collect_opts_shift(
    s: Seq<String>,
    t: Seq<String>,
    base: int,
    i: int,
    acc: Seq<(Seq<char>, Seq<char>)>,
)
    requires
        0 <= base <= s.len(),
        0 <= i,
        t =~= s.subrange(base, s.len() as int),
    ensures
        spec_collect_opts(t, i, acc) == spec_collect_opts(s, base + i, acc),
    decreases t.len() - i,
{
    if 0 <= i < t.len() {
        if spec_known_flag(t[i]@) && !(i + 1 >= t.len() || spec_is_flag(t[i + 1]@)) {
            lemma_collect_opts_shift(s, t, base, i + 2, kv_insert(acc, t[i]@, t[i + 1]@));
        }
    }
}

/// Is the flag one that this command admits? Every command takes
/// `--save-dir`; `add-score` also takes `--time`.
pub open spec fn spec_admitted(k: Seq<char>, allow_time: bool) -> bool {
    k == "--save-dir"@ || (allow_time && k == "--time"@)
}

/// The first stored flag that the command does not admit, in insertion
/// order, if any.
pub open spec fn first_disallowed(s: Seq<(Seq<char>, Seq<char>)>, allow_time: bool) -> Option<
    Seq<char>,
>
    decreases s.len(),
{
    if s.len() == 0 {
        None
    } else if !spec_admitted(s[0].0, allow_time) {
        Some(s[0].0)
    } else {
        first_disallowed(s.drop_first(), allow_time)
    }
}

proof fn lemma_first_disallowed_at(s: Seq<(Seq<char>, Seq<char>)>, allow_time: bool, i: int)
    requires
        0 <= i < s.len(),
        !spec_admitted(s[i].0, allow_time),
        forall|j: int| 0 <= j < i ==> spec_admitted(#[trigger] s[j].0, allow_time),
    ensures
        first_disallowed(s, allow_time) == Some(s[i].0),
    decreases s.len(),
{
    if i > 0 {
        lemma_first_disallowed_at(s.drop_first(), allow_time, i - 1);
    }
}

proof fn lemma_first_disallowed_none(s: Seq<(Seq<char>, Seq<char>)>, allow_time: bool)
    requires
        forall|j: int| 0 <= j < s.len() ==> spec_admitted(#[trigger] s[j].0, allow_time),
    ensures
        first_disallowed(s, allow_time) is None,
    decreases s.len(),
{
    if s.len() > 0 {
        lemma_first_disallowed_none(s.drop_first(), allow_time);
    }
}

/// The first stored flag that the command does not admit, cloned out, if any.
pub fn find_disallowed(o: &OptArgs, allow_time: bool) -> (r: Option<String>)
    ensures
        match r {
            Some(k) => first_disallowed(o.view_entries(), allow_time) == Some(k@),
            None => first_disallowed(o.view_entries(), allow_time) is None,
        },
{
    let mut i: usize = 0;
    while i < o.entries.len()
        invariant
            i <= o.entries@.len(),
            forall|j: int|
                0 <= j < i ==> spec_admitted(#[trigger] o.view_entries()[j].0, allow_time),
        decreases o.entries@.len() - i,
    {
        let k = &o.entries[i].0;
        let admitted = str_eq(k.as_str(), SAVE_DIR_OPTIONAL_ARGUMENT) || (allow_time && str_eq(
            k.as_str(),
            TIME_OPTIONAL_ARGUMENT,
        ));
        if !admitted {
            proof {
                lemma_first_disallowed_at(o.view_entries(), allow_time, i as int);
            }
            return Some(k.clone());
        }
        i += 1;
    }
    proof {
        lemma_first_disallowed_none(o.view_entries(), allow_time);
    }
    None
}

/// The command named on the command line.
#[derive(Debug)]
pub enum CommandType {
    AddPlayer,
    DeletePlayer,
    AddScore,
    DeleteScore,
    ListGames,
    Invalid,
}

pub open spec fn spec_command_type(s: Seq<String>) -> CommandType {
    if s.len() == 0 {
        CommandType::Invalid
    } else if s[0]@ == "add-player"@ {
        CommandType::AddPlayer
    } else if s[0]@ == "delete-player"@ {
        CommandType::DeletePlayer
    } else if s[0]@ == "add-score"@ {
        CommandType::AddScore
    } else if s[0]@ == "delete-score"@ {
        CommandType::DeleteScore
    } else if s[0]@ == "list-games"@ {
        CommandType::ListGames
    } else {
        CommandType::Invalid
    }
}

/// A parsed invocation: the command tag, its positional arguments and its
/// optional arguments.
#[derive(Debug)]
pub struct Command {
    command: CommandType,
    args: Vec<String>,
    optional_args: OptArgs,
}

impl Command {
    pub closed spec fn spec_command(&self) -> CommandType {
        self.command
    }

    pub closed spec fn spec_args(&self) -> Seq<String> {
        self.args@
    }

    pub closed spec fn spec_opts(&self) -> Seq<(Seq<char>, Seq<char>)> {
        self.optional_args.view_entries()
    }

    pub fn new(command_type: CommandType, args: Vec<String>, optional_args: OptArgs) -> (r:
        Command)
        ensures
            r.spec_command() == command_type,
            r.spec_args() == args@,
            r.spec_opts() == optional_args.view_entries(),
    {
        Command { command: command_type, args, optional_args }
    }

    pub fn get_command(&self) -> (r: &CommandType)
        ensures
            r == self.spec_command(),
    {
        &self.command
    }

    pub fn get_args(&self) -> (r: Vec<String>)
        ensures
            r@ =~= self.spec_args(),
    {
        let mut out: Vec<String> = Vec::new();
        let mut i: usize = 0;
        while i < self.args.len()
            invariant
                i <= self.args@.len(),
                out@ =~= self.args@.subrange(0, i as int),
            decreases self.args@.len() - i,
        {
            out.push(self.args[i].clone());
            i += 1;
        }
        out
    }

    pub fn get_optional_args(&self) -> (r: OptArgs)
        ensures
            r.view_entries() =~= self.spec_opts(),
    {
        self.optional_args.duplicate()
    }

    /// Reads the command tag from the first argument and tokenizes the rest.
    pub fn parse(args: &Vec<String>) -> (r: Result<Command, String>)
        ensures
            match r {
                Ok(c) => {
                    let rest = args@.skip(if args@.len() == 0 { 0int } else { 1int });
                    &&& c.spec_command() == spec_command_type(args@)
                    &&& c.spec_args() =~= rest.subrange(0, pos_count(rest))
                    &&& spec_collect_opts(rest, pos_count(rest), Seq::empty()) == Ok::<
                        _,
                        Seq<char>,
                    >(c.spec_opts())
                },
                Err(e) => {
                    let rest = args@.skip(if args@.len() == 0 { 0int } else { 1int });
                    spec_collect_opts(rest, pos_count(rest), Seq::empty()) == Err::<
                        Seq<(Seq<char>, Seq<char>)>,
                        _,
                    >(e@)
                },
            },
{
        let command_type = if args.len() == 0 {
            CommandType::Invalid
        } else if str_eq(args[0].as_str(), "add-player") {
            CommandType::AddPlayer
        } else if str_eq(args[0].as_str(), "delete-player") {
            CommandType::DeletePlayer
        } else if str_eq(args[0].as_str(), "add-score") {
            CommandType::AddScore
        } else if str_eq(args[0].as_str(), "delete-score") {
            CommandType::DeleteScore
        } else if str_eq(args[0].as_str(), "list-games") {
            CommandType::ListGames
        } else {
            CommandType::Invalid
        };

        let start: usize = if args.len() == 0 {
            0
        } else {
            1
        };
        let mut rest: Vec<String> = Vec::new();
        let mut i: usize = start;
        while i < args.len()
            invariant
                start <= i <= args@.len(),
                rest@ =~= args@.subrange(start as int, i as int),
            decreases args@.len() - i,
        {
            rest.push(args[i].clone());
            i += 1;
        }
        proof {
            assert(rest@ =~= args@.skip(start as int));
        }
        match parse_args(&rest) {
            Ok(p) => Ok(Command::new(command_type, p.0, p.1)),
            Err(e) => Err(e),
        }
    }
}

} // verus!
