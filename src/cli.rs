//! Command-line arguments of the Carlo executable.

use vstd::prelude::*;
use crate::error::Error;
use crate::text::{chars_of, same_text, string_of, string_of_all};

verus! {

/// Subcommands of the Carlo executable.
#[derive(Clone, Copy, PartialEq, Eq, Structural, Debug)]
pub enum Subcommand {
    Repl,
    Run,
    Latex,
    Help,
    Version,
}

/// Flags of the Carlo executable.
#[derive(Clone, Copy, PartialEq, Eq, Structural, Debug)]
pub enum Flag {
    /// Runs the parser in debug mode.
    Debug,
    /// Runs the help menu interactively.
    Interactive,
    /// Shows the help of a subcommand.
    Help,
}

/// The subcommand of a given name.
pub open spec fn subcommand_named(s: Seq<char>) -> Option<Subcommand> {
    if s == seq!['r', 'e', 'p', 'l'] {
        Some(Subcommand::Repl)
    } else if s == seq!['r', 'u', 'n'] {
        Some(Subcommand::Run)
    } else if s == seq!['l', 'a', 't', 'e', 'x'] {
        Some(Subcommand::Latex)
    } else if s == seq!['h', 'e', 'l', 'p'] {
        Some(Subcommand::Help)
    } else if s == seq!['v', 'e', 'r', 's', 'i', 'o', 'n'] {
        Some(Subcommand::Version)
    } else {
        None
    }
}

/// The flag of a given long name.
pub open spec fn flag_named(s: Seq<char>) -> Option<Flag> {
    if s == seq!['d', 'e', 'b', 'u', 'g'] {
        Some(Flag::Debug)
    } else if s == seq!['i', 'n', 't', 'e', 'r', 'a', 'c', 't', 'i', 'v', 'e'] {
        Some(Flag::Interactive)
    } else if s == seq!['h', 'e', 'l', 'p'] {
        Some(Flag::Help)
    } else {
        None
    }
}

/// The flag of a given letter.
pub open spec fn flag_lettered(c: char) -> Option<Flag> {
    if c == 'd' {
        Some(Flag::Debug)
    } else if c == 'i' {
        Some(Flag::Interactive)
    } else if c == 'h' {
        Some(Flag::Help)
    } else {
        None
    }
}

impl Subcommand {
    /// The subcommand of a given name, if there is one.
    pub fn from_name(s: &str) -> (r: Option<Subcommand>)
        ensures
            r == subcommand_named(s@),
    {
        proof {
            reveal_strlit("repl");
            reveal_strlit("run");
            reveal_strlit("latex");
            reveal_strlit("help");
            reveal_strlit("version");
            assert("repl"@ =~= seq!['r', 'e', 'p', 'l']);
            assert("run"@ =~= seq!['r', 'u', 'n']);
            assert("latex"@ =~= seq!['l', 'a', 't', 'e', 'x']);
            assert("help"@ =~= seq!['h', 'e', 'l', 'p']);
            assert("version"@ =~= seq!['v', 'e', 'r', 's', 'i', 'o', 'n']);
        }
        if same_text(s, "repl") {
            Some(Subcommand::Repl)
        } else if same_text(s, "run") {
            Some(Subcommand::Run)
        } else if same_text(s, "latex") {
            Some(Subcommand::Latex)
        } else if same_text(s, "help") {
            Some(Subcommand::Help)
        } else if same_text(s, "version") {
            Some(Subcommand::Version)
        } else {
            None
        }
    }
}

impl Flag {
    /// The flag of a given long name, if there is one.
    pub fn from_name(s: &str) -> (r: Option<Flag>)
        ensures
            r == flag_named(s@),
    {
        proof {
            reveal_strlit("debug");
            reveal_strlit("interactive");
            reveal_strlit("help");
            assert("debug"@ =~= seq!['d', 'e', 'b', 'u', 'g']);
            assert("interactive"@ =~= seq!['i', 'n', 't', 'e', 'r', 'a', 'c', 't', 'i', 'v', 'e']);
            assert("help"@ =~= seq!['h', 'e', 'l', 'p']);
        }
        if same_text(s, "debug") {
            Some(Flag::Debug)
        } else if same_text(s, "interactive") {
            Some(Flag::Interactive)
        } else if same_text(s, "help") {
            Some(Flag::Help)
        } else {
            None
        }
    }

    /// The flag of a given letter, if there is one.
    pub fn from_letter(c: char) -> (r: Option<Flag>)
        ensures
            r == flag_lettered(c),
    {
        if c == 'd' {
            Some(Flag::Debug)
        } else if c == 'i' {
            Some(Flag::Interactive)
        } else if c == 'h' {
            Some(Flag::Help)
        } else {
            None
        }
    }
}

/// Does the word begin with `-`?
pub open spec fn is_dashed(s: Seq<char>) -> bool {
    s.len() > 0 && s[0] == '-'
}

/// The flags that one word after the subcommand gives: `--name` gives one,
/// `-abc` one per letter; `None` if a name or letter is unknown or the word
/// is not a flag at all.
pub open spec fn word_flags(s: Seq<char>) -> Option<Seq<Flag>> {
    if s.len() >= 2 && s[0] == '-' && s[1] == '-' {
        match flag_named(s.subrange(2, s.len() as int)) {
            Some(f) => Some(seq![f]),
            None => None,
        }
    } else if is_dashed(s) {
        letter_flags(s, s.len() as int)
    } else {
        None
    }
}

/// The flags of the letters `s[1..n]`.
pub open spec fn letter_flags(s: Seq<char>, n: int) -> Option<Seq<Flag>>
    decreases n,
{
    if n <= 1 {
        Some(Seq::empty())
    } else {
        match (letter_flags(s, n - 1), flag_lettered(s[n - 1])) {
            (Some(fs), Some(f)) => Some(fs.push(f)),
            _ => None,
        }
    }
}

/// The flags of the words `ws[i..]`.
pub open spec fn words_flags(ws: Seq<Seq<char>>, i: int) -> Option<Seq<Flag>>
    decreases ws.len() - i,
{
    if i >= ws.len() || i < 0 {
        Some(Seq::empty())
    } else {
        match (word_flags(ws[i]), words_flags(ws, i + 1)) {
            (Some(a), Some(b)) => Some(a + b),
            _ => None,
        }
    }
}

/// Command-line arguments of the Carlo executable.
pub struct CliArgs {
    /// The subcommand's name.
    pub subcommand: String,
    /// The argument of `help`.
    pub argument: Option<String>,
    /// The input file of the other subcommands.
    pub inputfile: Option<String>,
    pub flags: Vec<Flag>,
}

/// The words of a command line, as the contracts see them.
pub open spec fn words_view(ws: Seq<String>) -> Seq<Seq<char>> {
    ws.map_values(|w: String| w@)
}

/// The subcommand a command line names: its second word, or `repl`.
pub open spec fn subcommand_of(ws: Seq<Seq<char>>) -> Seq<char> {
    if ws.len() > 1 {
        ws[1]
    } else {
        seq!['r', 'e', 'p', 'l']
    }
}

/// Is the third word the subcommand's own argument (for `help`) or input
/// file (for the others)? It is when it exists and does not begin with `-`.
pub open spec fn has_operand(ws: Seq<Seq<char>>) -> bool {
    ws.len() > 2 && !is_dashed(ws[2])
}

impl CliArgs {
    /// Reads a command line (the program's name first).
    pub fn parse(args: &Vec<String>) -> (r: Result<CliArgs, Error>)
        ensures
            ({
                let ws = words_view(args@);
                let first = if has_operand(ws) {
                    3int
                } else {
                    2int
                };
                match r {
                    Ok(c) => c.subcommand@ == subcommand_of(ws) && (c.argument is Some <==> (
                    has_operand(ws) && subcommand_of(ws) == seq!['h', 'e', 'l', 'p'])) && (
                    c.inputfile is Some <==> (has_operand(ws) && subcommand_of(ws) != seq![
                        'h',
                        'e',
                        'l',
                        'p',
                    ])) && (c.argument is Some ==> c.argument->0@ == ws[2]) && (c.inputfile is Some
                        ==> c.inputfile->0@ == ws[2]) && words_flags(ws, first) == Some(c.flags@),
                    Err(_) => words_flags(ws, first) is None,
                }
            }),
    {
        let ghost ws = words_view(args@);
        let subcommand = if args.len() > 1 {
            args[1].clone()
        } else {
            proof {
                reveal_strlit("repl");
            }
            string_of_all(&vec!['r', 'e', 'p', 'l'])
        };
        let operand = args.len() > 2 && !starts_with_dash(args[2].as_str());
        proof {
            reveal_strlit("help");
            assert("help"@ =~= seq!['h', 'e', 'l', 'p']);
            assert(ws.len() == args@.len());
            if args@.len() > 2 {
                assert(ws[2] == args@[2]@);
            }
            if args@.len() > 1 {
                assert(ws[1] == args@[1]@);
            }
        }
        let is_help = same_text(subcommand.as_str(), "help");
        let mut argument: Option<String> = None;
        let mut inputfile: Option<String> = None;
        if operand {
            if is_help {
                argument = Some(args[2].clone());
            } else {
                inputfile = Some(args[2].clone());
            }
        }
        let first: usize = if operand {
            3
        } else {
            2
        };
        let mut flags: Vec<Flag> = Vec::new();
        let mut i: usize = first;
        while i < args.len()
            invariant
                first <= i,
                i <= args@.len() || args@.len() < first,
                first as int == (if has_operand(ws) {
                    3int
                } else {
                    2int
                }),
                ws == words_view(args@),
                ws.len() == args@.len(),
                words_flags(ws, first as int) == match words_flags(ws, i as int) {
                    Some(rest) => Some(flags@ + rest),
                    None => None::<Seq<Flag>>,
                },
            decreases args@.len() - i,
        {
            proof {
                assert(ws[i as int] == args@[i as int]@);
            }
            match word_flags_exec(args[i].as_str()) {
                Some(fs) => {
                    let ghost before = flags@;
                    let mut k: usize = 0;
                    while k < fs.len()
                        invariant
                            k <= fs@.len(),
                            flags@ == before + fs@.subrange(0, k as int),
                        decreases fs@.len() - k,
                    {
                        flags.push(fs[k]);
                        proof {
                            assert(fs@.subrange(0, k + 1) =~= fs@.subrange(0, k as int).push(
                                fs@[k as int],
                            ));
                        }
                        k += 1;
                    }
                    proof {
                        assert(fs@.subrange(0, fs@.len() as int) =~= fs@);
                        match words_flags(ws, i + 1) {
                            Some(rest) => {
                                assert(before + (fs@ + rest) =~= flags@ + rest);
                            },
                            None => {},
                        }
                    }
                },
                None => {
                    proof {
                        assert(word_flags(ws[i as int]) is None);
                        assert(words_flags(ws, i as int) is None);
                    }
                    return Err(Error::UnrecognizedArgument(args[i].clone()));
                },
            }
            i += 1;
        }
        proof {
            assert(words_flags(ws, i as int) == Some(Seq::<Flag>::empty()));
            assert(flags@ + Seq::<Flag>::empty() =~= flags@);
        }
        Ok(CliArgs { subcommand, argument, inputfile, flags })
    }

    /// Check if a specific flag is contained in these arguments.
    pub fn contains(&self, flag: Flag) -> (r: bool)
        ensures
            r == self.flags@.contains(flag),
    {
        let mut i: usize = 0;
        while i < self.flags.len()
            invariant
                i <= self.flags@.len(),
                forall|j: int| 0 <= j < i ==> self.flags@[j] != flag,
            decreases self.flags@.len() - i,
        {
            if self.flags[i] == flag {
                return true;
            }
            i += 1;
        }
        false
    }
}

fn starts_with_dash(s: &str) -> (r: bool)
    ensures
        r == is_dashed(s@),
{
    s.unicode_len() > 0 && s.get_char(0) == '-'
}

/// The flags one word gives.
pub fn word_flags_exec(s: &str) -> (r: Option<Vec<Flag>>)
    ensures
        match r {
            Some(fs) => word_flags(s@) == Some(fs@),
            None => word_flags(s@) is None,
        },
{
    let cs = chars_of(s);
    if cs.len() >= 2 && cs[0] == '-' && cs[1] == '-' {
        let name = string_of(&cs, 2, cs.len());
        match Flag::from_name(name.as_str()) {
            Some(f) => {
                let v = vec![f];
                proof {
                    assert(v@ =~= seq![f]);
                }
                Some(v)
            },
            None => None,
        }
    } else if cs.len() > 0 && cs[0] == '-' {
        let mut fs: Vec<Flag> = Vec::new();
        let mut k: usize = 1;
        while k < cs.len()
            invariant
                1 <= k <= cs@.len(),
                cs@ == s@,
                cs@.len() > 0 && cs@[0] == '-',
                !(cs@.len() >= 2 && cs@[0] == '-' && cs@[1] == '-'),
                letter_flags(s@, k as int) == Some(fs@),
            decreases cs@.len() - k,
        {
            match Flag::from_letter(cs[k]) {
                Some(f) => {
                    fs.push(f);
                },
                None => {
                    proof {
                        assert(flag_lettered(s@[k as int]) is None);
                        assert(letter_flags(s@, k + 1) is None);
                        lemma_letter_flags_none(s@, k + 1, s@.len() as int);
                        assert(!(s@.len() >= 2 && s@[0] == '-' && s@[1] == '-'));
                        assert(is_dashed(s@));
                    }
                    return None;
                },
            }
            k += 1;
        }
        Some(fs)
    } else {
        None
    }
}

proof fn lemma_letter_flags_none(s: Seq<char>, a: int, b: int)
    requires
        a <= b,
        letter_flags(s, a) is None,
    ensures
        letter_flags(s, b) is None,
    decreases b - a,
{
    if a < b {
        lemma_letter_flags_none(s, a, b - 1);
    }
}

} // verus!
