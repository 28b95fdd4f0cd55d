//! The command line: a mode and the path of a dictionary.

use vstd::prelude::*;
use vstd::string::StringExecFns;

verus! {

/// What the program is asked to do.
pub enum Command {
    /// Train on the dictionary at the path.
    Train(String),
    /// Write a new dictionary to the path.
    Create(String),
    /// Say how the program is called.
    Usage,
}

/// Reads the arguments of the program, its own name first. There must be
/// a mode, `train` or `create`, and a path; anything else asks for the
/// usage line.
pub fn command(args: &Vec<String>) -> (command: Command)
    ensures
        if args@.len() == 3 && args@[1]@ == "train"@ {
            command matches Command::Train(path) && path@ == args@[2]@
        } else if args@.len() == 3 && args@[1]@ == "create"@ {
            command matches Command::Create(path) && path@ == args@[2]@
        } else {
            command is Usage
        },
{
    if args.len() != 3 {
        return Command::Usage;
    }
    let train = String::from_str("train");
    let create = String::from_str("create");
    if args[1] == train {
        Command::Train(args[2].clone())
    } else if args[1] == create {
        Command::Create(args[2].clone())
    } else {
        Command::Usage
    }
}

} // verus!
