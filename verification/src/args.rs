//! Decodes the command-line arguments into the command to run.

use vstd::prelude::*;

verus! {

/// What the program was asked to do.
#[derive(PartialEq, Debug)]
pub enum Command {
    ResolveWuala(String),
    ResolveDropbox(String),
    PrintHelp,
    InvalidUsage,
}

/// The mathematical image of a `Command`.
#[verifier::ext_equal]
pub ghost enum CommandView {
    ResolveWuala(Seq<char>),
    ResolveDropbox(Seq<char>),
    PrintHelp,
    InvalidUsage,
}

impl View for Command {
    type V = CommandView;

    open spec fn view(&self) -> CommandView {
        match self {
            Command::ResolveWuala(p) => CommandView::ResolveWuala(p@),
            Command::ResolveDropbox(p) => CommandView::ResolveDropbox(p@),
            Command::PrintHelp => CommandView::PrintHelp,
            Command::InvalidUsage => CommandView::InvalidUsage,
        }
    }
}

/// Whether `arg` asks for the usage text.
pub open spec fn spec_is_help_arg(arg: Seq<char>) -> bool {
    arg == "--help"@ || arg == "-h"@
}

/// What the argument list decodes to: the program name comes first, then
/// either a help flag, or a conflict kind and the directory to search.
pub open spec fn spec_parse_args(args: Seq<Seq<char>>) -> CommandView {
    if args.len() == 2 && spec_is_help_arg(args[1]) {
        CommandView::PrintHelp
    } else if args.len() == 3 && args[1] == "wuala"@ && spec_is_help_arg(args[2]) {
        CommandView::PrintHelp
    } else if args.len() == 3 && args[1] == "wuala"@ {
        CommandView::ResolveWuala(args[2])
    } else if args.len() == 3 && args[1] == "dropbox"@ && spec_is_help_arg(args[2]) {
        CommandView::PrintHelp
    } else if args.len() == 3 && args[1] == "dropbox"@ {
        CommandView::ResolveDropbox(args[2])
    } else {
        CommandView::InvalidUsage
    }
}

fn is_help_arg(arg: &String) -> (b: bool)
    ensures
        b == spec_is_help_arg(arg@),
{
    *arg == String::from_str("--help") || *arg == String::from_str("-h")
}

fn is_wuala_arg(arg: &String) -> (b: bool)
    ensures
        b == (arg@ == "wuala"@),
{
    *arg == String::from_str("wuala")
}

fn is_dropbox_arg(arg: &String) -> (b: bool)
    ensures
        b == (arg@ == "dropbox"@),
{
    *arg == String::from_str("dropbox")
}

/// Decodes the argument list, program name included, into the command.
pub fn parse_args(args: &Vec<String>) -> (cmd: Command)
    ensures
        cmd@ == spec_parse_args(args.deep_view()),
{
    proof {
        assert(args.deep_view().len() == args@.len());
    }
    if args.len() == 2 && is_help_arg(&args[1]) {
        Command::PrintHelp
    } else if args.len() == 3 && is_wuala_arg(&args[1]) && is_help_arg(&args[2]) {
        Command::PrintHelp
    } else if args.len() == 3 && is_wuala_arg(&args[1]) {
        Command::ResolveWuala(args[2].clone())
    } else if args.len() == 3 && is_dropbox_arg(&args[1]) && is_help_arg(&args[2]) {
        Command::PrintHelp
    } else if args.len() == 3 && is_dropbox_arg(&args[1]) {
        Command::ResolveDropbox(args[2].clone())
    } else {
        Command::InvalidUsage
    }
}

} // verus!
