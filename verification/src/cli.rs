//! What the arguments of the program ask for.
use crate::release::VERSION;
use crate::summary;
use crate::text;
use vstd::prelude::*;

verus! {

/// What the arguments ask for.
#[derive(Debug)]
pub enum Command {
    /// Show the monitor.
    Monitor,
    /// Update the program, or only check for a newer release.
    Update { check_only: bool },
    /// Say a line, and end with success.
    Say(String),
    /// Say lines as an error, and end with the status 2.
    Refuse(Vec<String>),
}

#[verifier::ext_equal]
pub enum CommandView {
    Monitor,
    Update { check_only: bool },
    Say(Seq<char>),
    Refuse(Seq<Seq<char>>),
}

impl View for Command {
    type V = CommandView;

    open spec fn view(&self) -> CommandView {
        match self {
            Command::Monitor => CommandView::Monitor,
            Command::Update { check_only } => CommandView::Update { check_only: *check_only },
            Command::Say(line) => CommandView::Say(line@),
            Command::Refuse(lines) => CommandView::Refuse(summary::texts(lines@)),
        }
    }
}

/// What the arguments ask for. Without any it is the monitor.
pub open spec fn asked(args: Seq<Seq<char>>) -> CommandView {
    if args.len() == 0 {
        CommandView::Monitor
    } else if args[0] == "update"@ {
        CommandView::Update { check_only: args.contains("--check"@) || args.contains("-n"@) }
    } else if args[0] == "--version"@ || args[0] == "-V"@ {
        CommandView::Say("ollama-shepherd v"@ + VERSION@)
    } else {
        CommandView::Refuse(
            seq![
                "unknown command: "@ + args[0],
                "usage: ollama-shepherd [update [--check] | --version]"@,
            ],
        )
    }
}

fn names(args: &Vec<String>, name: &str) -> (r: bool)
    ensures
        r == summary::texts(args@).contains(name@),
{
    let ghost all = summary::texts(args@);
    for i in 0..args.len()
        invariant
            all == summary::texts(args@),
            forall|k: int| 0 <= k < i ==> #[trigger] all[k] != name@,
    {
        assert(all[i as int] == args@[i as int]@);
        if text::same(args[i].as_str(), name) {
            return true;
        }
    }
    false
}

/// What the arguments ask for.
pub fn command(args: &Vec<String>) -> (r: Command)
    ensures
        r@ == asked(summary::texts(args@)),
{
    if args.is_empty() {
        return Command::Monitor;
    }
    let first = args[0].as_str();
    assert(summary::texts(args@)[0] == first@);
    if text::same(first, "update") {
        return Command::Update { check_only: names(args, "--check") || names(args, "-n") };
    }
    if text::same(first, "--version") || text::same(first, "-V") {
        let mut line = "ollama-shepherd v".to_owned();
        line.append(VERSION);
        return Command::Say(line);
    }
    let mut unknown = "unknown command: ".to_owned();
    unknown.append(first);
    let mut lines: Vec<String> = Vec::new();
    lines.push(unknown);
    lines.push("usage: ollama-shepherd [update [--check] | --version]".to_owned());
    assert(summary::texts(lines@) =~= asked(summary::texts(args@))->Refuse_0);
    Command::Refuse(lines)
}

/// The first argument decides. An update only checks exactly if one of the arguments asks for that,
/// wherever it stands.
pub proof fn law_first_argument_decides(args: Seq<Seq<char>>)
    ensures
        asked(args) is Monitor <==> args.len() == 0,
        args.len() > 0 && args[0] == "update"@ ==> (asked(args) matches CommandView::Update {
            check_only,
        } && (check_only <==> exists|i: int|
            0 <= i < args.len() && (#[trigger] args[i] == "--check"@ || args[i] == "-n"@))),
        args.len() > 0 && args[0] != "update"@ ==> !(asked(args) is Update),
        args.len() > 0 && (args[0] == "--version"@ || args[0] == "-V"@) ==> (
        asked(args) matches CommandView::Say(line) && text::ends_with(line, VERSION@)),
        args.len() > 0 && args[0] != "update"@ && args[0] != "--version"@ && args[0] != "-V"@ ==> (
        asked(args) matches CommandView::Refuse(lines) && lines.len() == 2 && text::ends_with(
            lines[0],
            args[0],
        )),
{
    reveal_strlit("update");
    reveal_strlit("--version");
    reveal_strlit("-V");
    text::lemma_ends_with("ollama-shepherd v"@, VERSION@);
    if args.len() > 0 {
        text::lemma_ends_with("unknown command: "@, args[0]);
        assert("update"@.len() != "--version"@.len() && "update"@.len() != "-V"@.len());
    }
}

} // verus!
