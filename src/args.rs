//! The command-line arguments that a driver accepts: `-h`, `-v`, `-c` and
//! `-c -p [INDENT]`, with the program name first.
use vstd::prelude::*;
use crate::reader::int_of_chars;
use crate::value::int_of_text;
use crate::writer::{WriteConfig, WriteMode, DEFAULT_INDENT};

verus! {

/// How many words, the program name included, a command line may have.
pub open spec fn spec_num_args_valid(argc: nat) -> bool {
    2 <= argc && argc <= 4
}

pub fn is_num_args_valid(argc: usize) -> (r: bool)
    ensures
        r == spec_num_args_valid(argc as nat),
{
    match argc {
        2 | 3 | 4 => true,
        _ => false,
    }
}

/// A word that is a non-empty run of decimal digits.
pub open spec fn spec_is_indent(w: Seq<char>) -> bool {
    w.len() > 0 && forall|i: int| 0 <= i < w.len() ==> '0' <= #[trigger] w[i] && w[i] <= '9'
}

/// The command lines accepted: `-h`, `-v`, `-c`, `-c -p`, `-c -p INDENT`.
pub open spec fn spec_args_valid(argv: Seq<Seq<char>>) -> bool {
    spec_num_args_valid(argv.len()) && {
        let a = argv[1];
        if argv.len() == 2 {
            a == seq!['-', 'h'] || a == seq!['-', 'v'] || a == seq!['-', 'c']
        } else {
            a == seq!['-', 'c'] && argv[2] == seq!['-', 'p'] && (argv.len() == 3
                || spec_is_indent(argv[3]))
        }
    }
}

fn word_is(w: &String, lit: &str) -> (r: bool)
    ensures
        r == (w@ == lit@),
{
    let a: &str = w.as_str();
    let n: usize = a.unicode_len();
    if n != lit.unicode_len() {
        return false;
    }
    let mut i: usize = 0;
    while i < n
        invariant
            n == a@.len(),
            n == lit@.len(),
            a@ == w@,
            i <= n,
            forall|k: int| 0 <= k < i ==> a@[k] == lit@[k],
        decreases n - i,
    {
        if a.get_char(i) != lit.get_char(i) {
            return false;
        }
        i = i + 1;
    }
    assert(w@ =~= lit@);
    true
}

fn word_is_indent(w: &String) -> (r: bool)
    ensures
        r == spec_is_indent(w@),
{
    let a: &str = w.as_str();
    let n: usize = a.unicode_len();
    if n == 0 {
        return false;
    }
    let mut i: usize = 0;
    while i < n
        invariant
            n == a@.len(),
            a@ == w@,
            i <= n,
            forall|k: int| 0 <= k < i ==> '0' <= #[trigger] a@[k] && a@[k] <= '9',
        decreases n - i,
    {
        let c: char = a.get_char(i);
        if !('0' <= c && c <= '9') {
            return false;
        }
        i = i + 1;
    }
    true
}

/// Whether `argv` (program name first, `argc` words) is a command line that
/// the driver accepts.
pub fn are_cargo_args_valid(argc: usize, argv: Vec<String>) -> (r: bool)
    ensures
        r == (argc == argv@.len() && spec_args_valid(argv@.map_values(|w: String| w@))),
{
    proof {
        reveal_strlit("-h");
        reveal_strlit("-v");
        reveal_strlit("-c");
        reveal_strlit("-p");
    }
    let ghost words = argv@.map_values(|w: String| w@);
    assert("-h"@ =~= seq!['-', 'h']);
    assert("-v"@ =~= seq!['-', 'v']);
    assert("-c"@ =~= seq!['-', 'c']);
    assert("-p"@ =~= seq!['-', 'p']);
    if argc != argv.len() || !is_num_args_valid(argc) {
        return false;
    }
    assert(words[1] == argv@[1]@);
    assert(argc > 2 ==> words[2] == argv@[2]@);
    assert(argc > 3 ==> words[3] == argv@[3]@);
    let a: &String = &argv[1];
    if argc == 2 {
        word_is(a, "-h") || word_is(a, "-v") || word_is(a, "-c")
    } else {
        word_is(a, "-c") && word_is(&argv[2], "-p") && (argc == 3 || word_is_indent(&argv[3]))
    }
}

/// What a command line asks the driver to do.
#[derive(Debug, Clone, Copy, PartialEq, Eq, Structural)]
pub enum Command {
    /// Print the usage text.
    Help,
    /// Read a document and report whether it is well formed.
    Validate,
    /// Read a document and write it out as `config` says.
    Canonicalize(WriteConfig),
}

/// The command that a command line gives, if it is accepted and its INDENT
/// fits in a `usize`.
pub open spec fn spec_command(argv: Seq<Seq<char>>) -> Option<Command> {
    if !spec_args_valid(argv) {
        None
    } else if argv.len() == 2 {
        if argv[1] == seq!['-', 'h'] {
            Some(Command::Help)
        } else if argv[1] == seq!['-', 'v'] {
            Some(Command::Validate)
        } else {
            Some(
                Command::Canonicalize(
                    WriteConfig { mode: WriteMode::Canonical, indent_width: DEFAULT_INDENT },
                ),
            )
        }
    } else if argv.len() == 3 {
        Some(Command::Canonicalize(WriteConfig { mode: WriteMode::Pretty, indent_width: DEFAULT_INDENT }))
    } else {
        match int_of_text(argv[3]) {
            Some(w) => if w <= usize::MAX {
                Some(Command::Canonicalize(WriteConfig { mode: WriteMode::Pretty, indent_width: w as usize }))
            } else {
                None
            },
            None => None,
        }
    }
}

fn chars_of(w: &String) -> (r: Vec<char>)
    ensures
        r@ == w@,
{
    let a: &str = w.as_str();
    let n: usize = a.unicode_len();
    let mut r: Vec<char> = Vec::new();
    let mut i: usize = 0;
    while i < n
        invariant
            n == a@.len(),
            a@ == w@,
            i <= n,
            r@ == a@.take(i as int),
        decreases n - i,
    {
        r.push(a.get_char(i));
        i = i + 1;
        assert(r@ =~= a@.take(i as int));
    }
    assert(a@.take(n as int) =~= a@);
    r
}

/// The command that `argv` (program name first) gives; `None` where it is
/// no accepted command line.
pub fn cargo_init(argv: Vec<String>) -> (r: Option<Command>)
    ensures
        r == spec_command(argv@.map_values(|w: String| w@)),
{
    let ghost words = argv@.map_values(|w: String| w@);
    if !are_cargo_args_valid(argv.len(), argv.clone()) {
        return None;
    }
    proof {
        reveal_strlit("-h");
        reveal_strlit("-v");
        assert("-h"@ =~= seq!['-', 'h']);
        assert("-v"@ =~= seq!['-', 'v']);
    }
    assert(words[1] == argv@[1]@);
    if argv.len() == 2 {
        if word_is(&argv[1], "-h") {
            Some(Command::Help)
        } else if word_is(&argv[1], "-v") {
            Some(Command::Validate)
        } else {
            Some(
                Command::Canonicalize(
                    WriteConfig { mode: WriteMode::Canonical, indent_width: DEFAULT_INDENT },
                ),
            )
        }
    } else if argv.len() == 3 {
        Some(Command::Canonicalize(WriteConfig { mode: WriteMode::Pretty, indent_width: DEFAULT_INDENT }))
    } else {
        assert(words[3] == argv@[3]@);
        match int_of_chars(&chars_of(&argv[3])) {
            Some(w) => if w <= usize::MAX as u64 {
                Some(Command::Canonicalize(WriteConfig { mode: WriteMode::Pretty, indent_width: w as usize }))
            } else {
                None
            },
            None => None,
        }
    }
}

} // verus!
