//! The command line of `devc` itself.
use crate::text::same;
use vstd::prelude::*;

verus! {

/// Whether the arguments ask for the usage: `-h` or `--help` on its own. Behind other arguments it
/// belongs to the command that is run in the container.
pub open spec fn is_help_request(args: Seq<String>) -> bool {
    args.len() == 1 && (args[0]@ == "-h"@ || args[0]@ == "--help"@)
}

/// Whether the arguments ask for the usage.
pub fn asks_for_help(args: &Vec<String>) -> (r: bool)
    ensures
        r == is_help_request(args@),
{
    args.len() == 1 && (same(args[0].as_str(), "-h") || same(args[0].as_str(), "--help"))
}

/// What is printed where the usage is asked for.
pub const USAGE: &'static str = "devc \u{2014} bring up the current directory's dev container.

Usage:
  devc                 build/start the container and open an interactive shell
  devc <command>...    build/start the container and run <command> inside it

Run from a project directory that has a .devcontainer spec.";

/// The usage of `devc`.
pub fn usage() -> (r: String)
    ensures
        r@ == USAGE@,
{
    USAGE.to_owned()
}

/// The nearest exit code that a process can end with.
pub open spec fn nearest_code(code: int) -> int {
    if code < 0 {
        0
    } else if code > 255 {
        255
    } else {
        code
    }
}

/// The nearest exit code that a process can end with.
pub fn process_code(code: i32) -> (r: u8)
    ensures
        r == nearest_code(code as int),
{
    if code < 0 {
        0
    } else if code > 255 {
        255
    } else {
        code as u8
    }
}

// --- laws ---

/// `-h` and `--help` ask for the usage where they stand alone; nothing else does.
pub proof fn law_help_stands_alone(args: Seq<String>)
    ensures
        args.len() == 1 && args[0]@ == "-h"@ ==> is_help_request(args),
        args.len() == 1 && args[0]@ == "--help"@ ==> is_help_request(args),
        args.len() != 1 ==> !is_help_request(args),
        args.len() == 1 && args[0]@ != "-h"@ && args[0]@ != "--help"@ ==> !is_help_request(args),
{
}

/// The exit code of a process is one that it can end with, and no such code is nearer to the one that
/// was asked for.
pub proof fn law_nearest_code(code: int, other: int)
    requires
        0 <= other <= 255,
    ensures
        0 <= nearest_code(code) <= 255,
        0 <= code <= 255 ==> nearest_code(code) == code,
        code <= nearest_code(code) ==> nearest_code(code) <= other || other <= code,
        nearest_code(code) <= code ==> other <= nearest_code(code) || code <= other,
{
}

} // verus!
