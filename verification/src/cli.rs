//! The command line: which command the arguments ask for.

use vstd::prelude::*;
use vstd::string::*;

use crate::text::{copy_str, str_eq, views};

verus! {

/// What the command line asks for.
#[derive(Debug, PartialEq, Eq)]
pub enum Command {
    /// No option: show the banner.
    Banner,
    /// `-i`/`--install <package> [--force|-f]`
    Install { name: String, force: bool },
    /// `-r`/`--remove <package>`
    Remove { name: String },
    /// `-s`/`--search <text>`
    Search { query: String },
    /// `-l`/`--list`
    List,
    /// `--info`
    Info,
    /// `-h`/`--help`
    Help,
    /// `-v`/`--version`
    Version,
    /// An option that needs an argument came without one; the usage message.
    MissingArgument(String),
    /// An option that is not known.
    Unknown(String),
}

/// The contents of a `Command`.
pub enum CommandView {
    Banner,
    Install { name: Seq<char>, force: bool },
    Remove { name: Seq<char> },
    Search { query: Seq<char> },
    List,
    Info,
    Help,
    Version,
    MissingArgument(Seq<char>),
    Unknown(Seq<char>),
}

impl View for Command {
    type V = CommandView;

    open spec fn view(&self) -> CommandView {
        match self {
            Command::Banner => CommandView::Banner,
            Command::Install { name, force } => CommandView::Install { name: name@, force: *force },
            Command::Remove { name } => CommandView::Remove { name: name@ },
            Command::Search { query } => CommandView::Search { query: query@ },
            Command::List => CommandView::List,
            Command::Info => CommandView::Info,
            Command::Help => CommandView::Help,
            Command::Version => CommandView::Version,
            Command::MissingArgument(m) => CommandView::MissingArgument(m@),
            Command::Unknown(o) => CommandView::Unknown(o@),
        }
    }
}

pub open spec fn is_force_flag(a: Seq<char>) -> bool {
    a == "--force"@ || a == "-f"@
}

/// What the arguments after the program name ask for. For `-i`, any of the
/// arguments after the option (the package name included) being `--force`
/// or `-f` asks for a forced install.
pub open spec fn command_of(args: Seq<Seq<char>>) -> CommandView {
    if args.len() < 2 {
        CommandView::Banner
    } else {
        let opt = args[1];
        let rest = args.skip(2);
        if opt == "-i"@ || opt == "--install"@ {
            if rest.len() == 0 {
                CommandView::MissingArgument(
                    "Missing package name. Usage: sudo katyusha -i <package> [--force]"@,
                )
            } else {
                CommandView::Install {
                    name: rest[0],
                    force: exists|k: int| 0 <= k < rest.len() && is_force_flag(#[trigger] rest[k]),
                }
            }
        } else if opt == "-r"@ || opt == "--remove"@ {
            if rest.len() == 0 {
                CommandView::MissingArgument(
                    "Missing package name. Usage: sudo katyusha -r <package>"@,
                )
            } else {
                CommandView::Remove { name: rest[0] }
            }
        } else if opt == "-s"@ || opt == "--search"@ {
            if rest.len() == 0 {
                CommandView::MissingArgument("Missing search term. Usage: katyusha -s <text>"@)
            } else {
                CommandView::Search { query: rest[0] }
            }
        } else if opt == "-l"@ || opt == "--list"@ {
            CommandView::List
        } else if opt == "--info"@ {
            CommandView::Info
        } else if opt == "-h"@ || opt == "--help"@ {
            CommandView::Help
        } else if opt == "-v"@ || opt == "--version"@ {
            CommandView::Version
        } else {
            CommandView::Unknown(opt)
        }
    }
}

/// Reads the command line (`args[0]` is the program name).
pub fn parse_command(args: &[String]) -> (r: Command)
    ensures
        r@ == command_of(views(args@)),
{
    let ghost av = views(args@);
    if args.len() < 2 {
        return Command::Banner;
    }
    proof {
        assert(av[1] == args@[1]@);
        assert forall|k: int| 0 <= k < av.skip(2).len() implies av.skip(2)[k] == args@[k + 2]@ by {}
    }
    let opt = args[1].as_str();
    let has_rest = args.len() > 2;
    if str_eq(opt, "-i") || str_eq(opt, "--install") {
        if !has_rest {
            return Command::MissingArgument(
                String::from_str("Missing package name. Usage: sudo katyusha -i <package> [--force]"),
            );
        }
        let mut force = false;
        let mut k: usize = 2;
        while k < args.len()
            invariant
                av == views(args@),
                2 <= k <= args@.len(),
                force <==> exists|j: int| 0 <= j < k - 2 && is_force_flag(#[trigger] av.skip(2)[j]),
            decreases args@.len() - k,
        {
            proof {
                assert(av.skip(2)[k - 2] == args@[k as int]@);
            }
            if str_eq(args[k].as_str(), "--force") || str_eq(args[k].as_str(), "-f") {
                force = true;
            }
            k = k + 1;
        }
        Command::Install { name: args[2].clone(), force }
    } else if str_eq(opt, "-r") || str_eq(opt, "--remove") {
        if !has_rest {
            return Command::MissingArgument(
                String::from_str("Missing package name. Usage: sudo katyusha -r <package>"),
            );
        }
        Command::Remove { name: args[2].clone() }
    } else if str_eq(opt, "-s") || str_eq(opt, "--search") {
        if !has_rest {
            return Command::MissingArgument(
                String::from_str("Missing search term. Usage: katyusha -s <text>"),
            );
        }
        Command::Search { query: args[2].clone() }
    } else if str_eq(opt, "-l") || str_eq(opt, "--list") {
        Command::List
    } else if str_eq(opt, "--info") {
        Command::Info
    } else if str_eq(opt, "-h") || str_eq(opt, "--help") {
        Command::Help
    } else if str_eq(opt, "-v") || str_eq(opt, "--version") {
        Command::Version
    } else {
        Command::Unknown(copy_str(opt))
    }
}

/// The options and what each asks for, whatever the program name and the
/// arguments after the option: `-h`/`--help` show the help, `-v`/`--version`
/// the version, `-l`/`--list` the list, `--info` the system information;
/// `-i`/`--install`, `-r`/`--remove` and `-s`/`--search` take the next
/// argument, and without one give their usage message; no option gives the
/// banner.
pub proof fn lemma_option_table(args: Seq<Seq<char>>)
    ensures
        args.len() < 2 ==> command_of(args) == CommandView::Banner,
        args.len() >= 2 && (args[1] == "-h"@ || args[1] == "--help"@) ==> command_of(args)
            == CommandView::Help,
        args.len() >= 2 && (args[1] == "-v"@ || args[1] == "--version"@) ==> command_of(args)
            == CommandView::Version,
        args.len() >= 2 && (args[1] == "-l"@ || args[1] == "--list"@) ==> command_of(args)
            == CommandView::List,
        args.len() >= 2 && args[1] == "--info"@ ==> command_of(args) == CommandView::Info,
        args.len() >= 3 && (args[1] == "-i"@ || args[1] == "--install"@) ==> command_of(args)
            == (CommandView::Install {
            name: args[2],
            force: exists|k: int| 2 <= k < args.len() && (#[trigger] args[k] == "--force"@ || args[k] == "-f"@),
        }),
        args.len() == 2 && (args[1] == "-i"@ || args[1] == "--install"@) ==> command_of(args)
            == CommandView::MissingArgument(
            "Missing package name. Usage: sudo katyusha -i <package> [--force]"@,
        ),
        args.len() >= 3 && (args[1] == "-r"@ || args[1] == "--remove"@) ==> command_of(args)
            == (CommandView::Remove { name: args[2] }),
        args.len() == 2 && (args[1] == "-r"@ || args[1] == "--remove"@) ==> command_of(args)
            == CommandView::MissingArgument("Missing package name. Usage: sudo katyusha -r <package>"@),
        args.len() >= 3 && (args[1] == "-s"@ || args[1] == "--search"@) ==> command_of(args)
            == (CommandView::Search { query: args[2] }),
        args.len() == 2 && (args[1] == "-s"@ || args[1] == "--search"@) ==> command_of(args)
            == CommandView::MissingArgument("Missing search term. Usage: katyusha -s <text>"@),
{
    reveal_strlit("-h");
    reveal_strlit("--help");
    reveal_strlit("-v");
    reveal_strlit("--version");
    reveal_strlit("-l");
    reveal_strlit("--list");
    reveal_strlit("--info");
    reveal_strlit("-i");
    reveal_strlit("--install");
    reveal_strlit("-r");
    reveal_strlit("--remove");
    reveal_strlit("-s");
    reveal_strlit("--search");
    reveal_strlit("--force");
    reveal_strlit("-f");
    assert("-h"@[1] == 'h' && "-v"@[1] == 'v' && "-l"@[1] == 'l' && "-i"@[1] == 'i');
    assert("-r"@[1] == 'r' && "-s"@[1] == 's');
    assert("--help"@[2] == 'h' && "--list"@[2] == 'l' && "--info"@[2] == 'i');
    assert("--version"@[2] == 'v' && "--install"@[2] == 'i');
    assert("--remove"@[2] == 'r' && "--search"@[2] == 's');
    assert("--info"@ != "--help"@ && "--info"@ != "--list"@);
    assert("--info"@.len() == 6 && "--install"@.len() == 9 && "--version"@.len() == 9);
    assert("--remove"@.len() == 8 && "--search"@.len() == 8);
    if args.len() >= 3 && (args[1] == "-i"@ || args[1] == "--install"@) {
        let rest = args.skip(2);
        assert((exists|k: int| 0 <= k < rest.len() && is_force_flag(#[trigger] rest[k])) <==> (exists|
            k: int,
        | 2 <= k < args.len() && (#[trigger] args[k] == "--force"@ || args[k] == "-f"@))) by {
            if exists|k: int| 0 <= k < rest.len() && is_force_flag(#[trigger] rest[k]) {
                let k = choose|k: int| 0 <= k < rest.len() && is_force_flag(#[trigger] rest[k]);
                assert(rest[k] == args[k + 2]);
            }
            if exists|k: int| 2 <= k < args.len() && (#[trigger] args[k] == "--force"@ || args[k] == "-f"@) {
                let k = choose|k: int| 2 <= k < args.len() && (#[trigger] args[k] == "--force"@ || args[k] == "-f"@);
                assert(rest[k - 2] == args[k]);
            }
        }
    }
}

/// An option that none of the known ones matches is reported as unknown,
/// with its text.
pub proof fn lemma_unknown_option(args: Seq<Seq<char>>)
    requires
        args.len() >= 2,
        args[1] != "-h"@ && args[1] != "--help"@ && args[1] != "-v"@ && args[1] != "--version"@,
        args[1] != "-l"@ && args[1] != "--list"@ && args[1] != "--info"@,
        args[1] != "-i"@ && args[1] != "--install"@ && args[1] != "-r"@ && args[1] != "--remove"@,
        args[1] != "-s"@ && args[1] != "--search"@,
    ensures
        command_of(args) == CommandView::Unknown(args[1]),
{
}

} // verus!
