//! The commands of the program and its help text.

use crate::text::string_views;
use vstd::prelude::*;
use vstd::string::StringExecFns;

verus! {

/// The help text.
pub const HELP: &'static str =
    "kick - Project Template Generator\n\nUSAGE:\n    kick <COMMAND> [OPTIONS]\n\nCOMMANDS:\n    new <template> <project_name [--options]\n        Creates project with given name using template\n\n    list\n        List all available templates in config dir\n\n    help\n        print commands and discription";

/// The command that shows the help text.
pub struct CmdHelp;

impl CmdHelp {
    /// The command; it takes no arguments.
    pub fn new(_args: Vec<String>) -> Self {
        CmdHelp
    }

    /// The text to show.
    pub fn init(&mut self) -> (text: String)
        ensures
            text@ == HELP@,
    {
        String::from_str(HELP)
    }
}

/// What the command line asks for.
#[derive(Clone, Copy, Debug, PartialEq, Eq, Structural)]
pub enum Verb {
    List,
    New,
    Help,
    /// A word that names no command: the help text is shown after the
    /// remark that the command was not found.
    Unknown,
}

/// What the word after the program's name asks for; where there is no such
/// word, for help.
pub open spec fn verb_of(args: Seq<Seq<char>>) -> Verb {
    if args.len() <= 1 {
        Verb::Help
    } else if args[1] == "list"@ {
        Verb::List
    } else if args[1] == "new"@ {
        Verb::New
    } else if args[1] == "help"@ {
        Verb::Help
    } else {
        Verb::Unknown
    }
}

/// Takes the command's name out of the command line, where it stands after
/// the program's name, and says what it asks for.
pub fn dispatch(args: &mut Vec<String>) -> (verb: Verb)
    ensures
        verb == verb_of(string_views(old(args)@)),
        string_views(final(args)@) == if old(args)@.len() > 1 {
            string_views(old(args)@).remove(1)
        } else {
            string_views(old(args)@)
        },
{
    if args.len() <= 1 {
        return Verb::Help;
    }
    let word = args.remove(1);
    assert(string_views(args@) =~= string_views(old(args)@).remove(1));
    assert(word@ == string_views(old(args)@)[1]);
    proof {
        reveal_strlit("list");
        reveal_strlit("new");
        reveal_strlit("help");
    }
    if word == String::from_str("list") {
        Verb::List
    } else if word == String::from_str("new") {
        Verb::New
    } else if word == String::from_str("help") {
        Verb::Help
    } else {
        Verb::Unknown
    }
}

} // verus!
