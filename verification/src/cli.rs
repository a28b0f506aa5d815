//! The command line: which subcommand to run on which operands, and where the
//! configuration's relative paths resolve.
use vstd::prelude::*;
use vstd::string::StringExecFns;
use crate::text::{same_text, ends_with, has_suffix, opt_text};

verus! {

/// A subcommand with its operands.
pub enum Command {
    /// Verify every module's claim against the evidence.
    Check { config: String },
    /// The port status of one function.
    Explain { name: String, config: String },
    /// Which functions are still missing, optionally in one file only.
    Next { file: Option<String>, config: String },
    /// The parity table across all modules.
    Report { config: String },
    /// Anything else: print the usage and fail.
    Usage,
}

/// A command, its text taken as characters.
pub enum CommandView {
    Check { config: Seq<char> },
    Explain { name: Seq<char>, config: Seq<char> },
    Next { file: Option<Seq<char>>, config: Seq<char> },
    Report { config: Seq<char> },
    Usage,
}

impl View for Command {
    type V = CommandView;

    open spec fn view(&self) -> CommandView {
        match self {
            Command::Check { config } => CommandView::Check { config: config@ },
            Command::Explain { name, config } => CommandView::Explain { name: name@, config: config@ },
            Command::Next { file, config } => CommandView::Next { file: opt_text(*file), config: config@ },
            Command::Report { config } => CommandView::Report { config: config@ },
            Command::Usage => CommandView::Usage,
        }
    }
}

/// The configuration used when none is named.
pub open spec fn default_config() -> Seq<char> {
    "portcourt.toml"@
}

/// The operand at `i`, or the default configuration when there is none.
pub open spec fn config_at(args: Seq<Seq<char>>, i: int) -> Seq<char> {
    if i < args.len() {
        args[i]
    } else {
        default_config()
    }
}

/// How the arguments (the program name left out) are read. `next` takes an
/// optional file and an optional config: a single operand ending in `.toml` is
/// the config, any other single operand is a file filter.
pub open spec fn command_of(args: Seq<Seq<char>>) -> CommandView {
    if args.len() == 0 {
        CommandView::Usage
    } else if args[0] == "check"@ {
        CommandView::Check { config: config_at(args, 1) }
    } else if args[0] == "explain"@ {
        if args.len() < 2 {
            CommandView::Usage
        } else {
            CommandView::Explain { name: args[1], config: config_at(args, 2) }
        }
    } else if args[0] == "next"@ {
        if args.len() >= 3 {
            CommandView::Next { file: Some(args[1]), config: args[2] }
        } else if args.len() == 2 {
            if has_suffix(args[1], ".toml"@) {
                CommandView::Next { file: None, config: args[1] }
            } else {
                CommandView::Next { file: Some(args[1]), config: default_config() }
            }
        } else {
            CommandView::Next { file: None, config: default_config() }
        }
    } else if args[0] == "report"@ {
        CommandView::Report { config: config_at(args, 1) }
    } else {
        CommandView::Usage
    }
}

/// The four subcommand words differ.
proof fn lemma_words_differ()
    ensures
        "check"@ != "explain"@,
        "check"@ != "next"@,
        "check"@ != "report"@,
        "explain"@ != "next"@,
        "explain"@ != "report"@,
        "next"@ != "report"@,
{
    reveal_strlit("check");
    reveal_strlit("explain");
    reveal_strlit("next");
    reveal_strlit("report");
    assert("check"@.len() == 5);
    assert("explain"@.len() == 7);
    assert("next"@.len() == 4);
    assert("report"@.len() == 6);
}

/// The usage is printed exactly when there is no subcommand, the first word
/// is none of `check`, `explain`, `next` and `report`, or `explain` comes
/// without a function name.
pub proof fn lemma_usage_iff(args: Seq<Seq<char>>)
    ensures
        command_of(args) is Usage <==> args.len() == 0 || (args[0] != "check"@ && args[0] != "explain"@ && args[0]
            != "next"@ && args[0] != "report"@) || (args[0] == "explain"@ && args.len() == 1),
{
    lemma_words_differ();
}

/// Each subcommand takes its operands in place: the first word names it,
/// `explain` names the function by its second word, and the configuration is
/// the operand after the subcommand's other operands, or `portcourt.toml` when
/// there is none; `next` with one operand reads it as the configuration
/// exactly when it ends in `.toml`.
pub proof fn lemma_operands(args: Seq<Seq<char>>)
    ensures
        command_of(args) matches CommandView::Check { config } ==> args[0] == "check"@ && config == (if args.len() > 1 {
            args[1]
        } else {
            "portcourt.toml"@
        }),
        command_of(args) matches CommandView::Report { config } ==> args[0] == "report"@ && config == (if args.len()
            > 1 {
            args[1]
        } else {
            "portcourt.toml"@
        }),
        command_of(args) matches CommandView::Explain { name, config } ==> args[0] == "explain"@ && args.len() >= 2
            && name == args[1] && config == (if args.len() > 2 {
            args[2]
        } else {
            "portcourt.toml"@
        }),
        command_of(args) matches CommandView::Next { file, config } ==> args[0] == "next"@ && (if args.len() >= 3 {
            file == Some(args[1]) && config == args[2]
        } else if args.len() == 2 {
            if has_suffix(args[1], ".toml"@) {
                file is None && config == args[1]
            } else {
                file == Some(args[1]) && config == "portcourt.toml"@
            }
        } else {
            file is None && config == "portcourt.toml"@
        }),
        args.len() >= 1 && args[0] == "check"@ ==> command_of(args) is Check,
        args.len() >= 1 && args[0] == "report"@ ==> command_of(args) is Report,
        args.len() >= 1 && args[0] == "next"@ ==> command_of(args) is Next,
        args.len() >= 2 && args[0] == "explain"@ ==> command_of(args) is Explain,
{
    lemma_words_differ();
}

/// The operand at `i`, or the default configuration.
fn config_operand(args: &Vec<String>, i: usize) -> (r: String)
    ensures
        r@ == config_at(args@.map_values(|s: String| s@), i as int),
{
    if i < args.len() {
        args[i].clone()
    } else {
        String::from_str("portcourt.toml")
    }
}

/// Reads the command line (without the program name).
pub fn parse_command(args: &Vec<String>) -> (c: Command)
    ensures
        c@ == command_of(args@.map_values(|s: String| s@)),
        c is Usage <==> args@.len() == 0 || (args@[0]@ != "check"@ && args@[0]@ != "explain"@ && args@[0]@ != "next"@
            && args@[0]@ != "report"@) || (args@[0]@ == "explain"@ && args@.len() == 1),
{
    proof {
        lemma_usage_iff(args@.map_values(|s: String| s@));
    }
    if args.len() == 0 {
        return Command::Usage;
    }
    let first = args[0].as_str();
    if same_text(first, "check") {
        Command::Check { config: config_operand(args, 1) }
    } else if same_text(first, "explain") {
        if args.len() < 2 {
            Command::Usage
        } else {
            Command::Explain { name: args[1].clone(), config: config_operand(args, 2) }
        }
    } else if same_text(first, "next") {
        if args.len() >= 3 {
            Command::Next { file: Some(args[1].clone()), config: args[2].clone() }
        } else if args.len() == 2 {
            if ends_with(args[1].as_str(), ".toml") {
                Command::Next { file: None, config: args[1].clone() }
            } else {
                Command::Next { file: Some(args[1].clone()), config: String::from_str("portcourt.toml") }
            }
        } else {
            Command::Next { file: None, config: String::from_str("portcourt.toml") }
        }
    } else if same_text(first, "report") {
        Command::Report { config: config_operand(args, 1) }
    } else {
        Command::Usage
    }
}

/// What `std::path::Path::parent` gives for a path written as text.
pub uninterp spec fn path_parent(path: Seq<char>) -> Option<Seq<char>>;

/// Calls `std::path::Path::parent` on `path` and gives the parent back as
/// text. Trusted: the result is `path_parent` of the path, and there is none
/// for the empty path, as the documentation says; the text of a parent that
/// came from a `&str` is valid UTF-8, so the conversion loses nothing.
#[verifier::external_body]
fn parent_of(path: &str) -> (r: Option<String>)
    ensures
        opt_text(r) == path_parent(path@),
        path@.len() == 0 ==> r is None,
{
    match std::path::Path::new(path).parent() {
        Some(p) => Some(p.to_string_lossy().into_owned()),
        None => None,
    }
}

/// The directory the config lives in, given the config path's parent: the
/// parent itself, or the current directory `.` when the path has none.
pub fn base_from_parent(parent: Option<String>) -> (r: String)
    ensures
        r@ == match opt_text(parent) {
            Some(p) => p,
            None => "."@,
        },
{
    match parent {
        Some(p) => p,
        None => String::from_str("."),
    }
}

/// The directory the config lives in: all other paths resolve relative to it.
pub fn config_base(path: &str) -> (r: String)
    ensures
        r@ == match path_parent(path@) {
            Some(p) => p,
            None => "."@,
        },
        path@.len() == 0 ==> r@ == "."@,
{
    base_from_parent(parent_of(path))
}

} // verus!
