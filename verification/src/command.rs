//! The commands: how Maven is called, and what is made of its output.

use vstd::prelude::*;

use crate::ansi::{plain, strip_ansi};
use crate::build_filter::{build_scan, build_text, filter_mvn_build};
use crate::log::{indented_lines, log_lines};
use crate::reword::{reword_if_failed, reworded};
use crate::strings::join;
use crate::test_report::{checked_filter_mvn_test, reportable, test_text};
use crate::test_scan::test_scan;
use crate::text::{contents, joined};

verus! {

/// How the output of a command is condensed.
#[derive(Debug, Clone, Copy, PartialEq, Eq, Structural)]
pub enum Condensing {
    /// As that of a test run.
    Tests,
    /// As that of a build.
    Build,
    /// Not at all, but for colour codes. To condense a build is to keep lines of
    /// a few known forms, which would erase the output of any other goal, such as
    /// a dependency tree.
    Nothing,
}

/// A call of Maven, and the texts that go with it.
#[derive(Debug)]
pub struct Invocation {
    /// How the output is condensed.
    pub condensing: Condensing,
    /// The arguments of `mvn`.
    pub arguments: Vec<String>,
    /// What is announced before the call.
    pub announcement: Option<String>,
    /// What is said where `mvn` cannot be started.
    pub start_error: String,
    /// The name of the command where its exit code is told.
    pub exit_label: String,
    /// The name under which the full output is stored.
    pub output_name: String,
    /// The command as the user would have given it to Maven.
    pub plain_command: String,
    /// The command as the user gave it.
    pub given_command: String,
}

/// The contents of an [`Invocation`].
#[verifier::ext_equal]
pub struct InvocationModel {
    pub condensing: Condensing,
    pub arguments: Seq<Seq<char>>,
    pub announcement: Option<Seq<char>>,
    pub start_error: Seq<char>,
    pub exit_label: Seq<char>,
    pub output_name: Seq<char>,
    pub plain_command: Seq<char>,
    pub given_command: Seq<char>,
}

impl View for Invocation {
    type V = InvocationModel;

    open spec fn view(&self) -> InvocationModel {
        InvocationModel {
            condensing: self.condensing,
            arguments: contents(self.arguments@),
            announcement: match self.announcement {
                Some(text) => Some(text@),
                None => None,
            },
            start_error: self.start_error@,
            exit_label: self.exit_label@,
            output_name: self.output_name@,
            plain_command: self.plain_command@,
            given_command: self.given_command@,
        }
    }
}

/// Why a command cannot be run.
#[derive(Debug, Clone, Copy, PartialEq, Eq, Structural)]
pub enum CommandError {
    /// There is no goal to call Maven with.
    NoSubcommand,
}

/// What is said where there is no goal.
pub open spec fn no_subcommand_text() -> Seq<char> {
    "mvn: no subcommand specified"@
}

impl CommandError {
    /// The error in words.
    pub fn message(&self) -> (r: String)
        ensures
            r@ == no_subcommand_text(),
    {
        "mvn: no subcommand specified".to_owned()
    }
}

/// A phase and its arguments, as on a command line.
pub open spec fn phase_line(phase: Seq<char>, args: Seq<Seq<char>>) -> Seq<char> {
    "mvn "@ + phase + " "@ + joined(args, " "@)
}

/// The call of Maven for a phase.
pub open spec fn phase_invocation(
    condensing: Condensing,
    phase: Seq<char>,
    args: Seq<Seq<char>>,
    verbose: nat,
) -> InvocationModel {
    InvocationModel {
        condensing,
        arguments: seq![phase] + args,
        announcement: if verbose > 0 {
            Some("Running: "@ + phase_line(phase, args))
        } else {
            None
        },
        start_error: "Failed to run mvn "@ + phase + ". Is Maven installed?"@,
        exit_label: "mvn "@ + phase,
        output_name: "mvn_"@ + phase,
        plain_command: phase_line(phase, args),
        given_command: "rtk "@ + phase_line(phase, args),
    }
}

/// The call of Maven for any other goal.
pub open spec fn goal_invocation(args: Seq<Seq<char>>, verbose: nat) -> InvocationModel {
    let goal = args[0];
    InvocationModel {
        condensing: Condensing::Nothing,
        arguments: args,
        announcement: if verbose > 0 {
            Some("Running: mvn "@ + goal + " ..."@)
        } else {
            None
        },
        start_error: "Failed to run mvn "@ + goal,
        exit_label: "mvn"@,
        output_name: "mvn_"@ + goal,
        plain_command: "mvn "@ + goal,
        given_command: "rtk mvn "@ + goal,
    }
}

/// `head`, `middle` and `tail` in one string.
fn in_one(head: &str, middle: &str, tail: &str) -> (r: String)
    ensures
        r@ == head@ + middle@ + tail@,
{
    let mut r = head.to_owned();
    r.append(middle);
    r.append(tail);
    r
}

/// `start` with copies of the strings of a list behind it.
fn followed_by(start: Vec<String>, list: &[String]) -> (r: Vec<String>)
    ensures
        contents(r@) == contents(start@) + contents(list@),
{
    let mut r = start;
    let mut i: usize = 0;
    assert(contents(list@).take(0) =~= seq![]);
    assert(contents(r@) =~= contents(start@) + contents(list@).take(0));
    while i < list.len()
        invariant
            i <= list@.len(),
            contents(r@) == contents(start@) + contents(list@).take(i as int),
        decreases list@.len() - i,
    {
        let ghost before = contents(r@);
        r.push(list[i].clone());
        assert(contents(r@) =~= before.push(list@[i as int]@));
        assert(contents(r@) =~= contents(start@) + contents(list@).take(i as int + 1));
        i += 1;
    }
    assert(contents(list@).take(i as int) =~= contents(list@));
    r
}

/// The call of Maven for a phase.
fn prepare_phase(condensing: Condensing, phase: &str, args: &[String], verbose: u8) -> (r:
    Invocation)
    ensures
        r@ == phase_invocation(condensing, phase@, contents(args@), verbose as nat),
{
    let rest = followed_by(Vec::new(), args);
    assert(contents(rest@) =~= contents(args@));
    let mut line = in_one("mvn ", phase, " ");
    line.append(join(&rest, " ").as_str());
    let mut start: Vec<String> = Vec::new();
    start.push(phase.to_owned());
    assert(contents(start@) =~= seq![phase@]);
    let announcement = if verbose > 0 {
        Some(in_one("Running: ", line.as_str(), ""))
    } else {
        None
    };
    let r = Invocation {
        condensing,
        arguments: followed_by(start, args),
        announcement,
        start_error: in_one("Failed to run mvn ", phase, ". Is Maven installed?"),
        exit_label: in_one("mvn ", phase, ""),
        output_name: in_one("mvn_", phase, ""),
        given_command: in_one("rtk ", line.as_str(), ""),
        plain_command: line,
    };
    proof {
        reveal_strlit("");
        assert(forall|s: Seq<char>| s + #[trigger] ""@ =~= s);
    }
    assert(r@ =~= phase_invocation(condensing, phase@, contents(args@), verbose as nat));
    r
}

/// The call of `mvn test`.
pub fn run_test(args: &[String], verbose: u8) -> (r: Invocation)
    ensures
        r@ == phase_invocation(Condensing::Tests, "test"@, contents(args@), verbose as nat),
{
    prepare_phase(Condensing::Tests, "test", args, verbose)
}

/// The call of Maven for a phase of the build, such as `compile` or `package`.
pub fn run_build_phase(phase: &str, args: &[String], verbose: u8) -> (r: Invocation)
    ensures
        r@ == phase_invocation(Condensing::Build, phase@, contents(args@), verbose as nat),
{
    prepare_phase(Condensing::Build, phase, args, verbose)
}

/// The call of `mvn compile`.
pub fn run_compile(args: &[String], verbose: u8) -> (r: Invocation)
    ensures
        r@ == phase_invocation(Condensing::Build, "compile"@, contents(args@), verbose as nat),
{
    run_build_phase("compile", args, verbose)
}

/// The call of `mvn package`.
pub fn run_package(args: &[String], verbose: u8) -> (r: Invocation)
    ensures
        r@ == phase_invocation(Condensing::Build, "package"@, contents(args@), verbose as nat),
{
    run_build_phase("package", args, verbose)
}

/// The call of Maven for any other goal, which is the first argument.
pub fn run_other(args: &[String], verbose: u8) -> (r: Result<Invocation, CommandError>)
    ensures
        match r {
            Ok(invocation) => args@.len() > 0 && invocation@ == goal_invocation(
                contents(args@),
                verbose as nat,
            ),
            Err(error) => args@.len() == 0 && error == CommandError::NoSubcommand,
        },
{
    if args.is_empty() {
        return Err(CommandError::NoSubcommand);
    }
    let goal = args[0].as_str();
    let announcement = if verbose > 0 {
        Some(in_one("Running: mvn ", goal, " ..."))
    } else {
        None
    };
    let r = Invocation {
        condensing: Condensing::Nothing,
        arguments: followed_by(Vec::new(), args),
        announcement,
        start_error: in_one("Failed to run mvn ", goal, ""),
        exit_label: "mvn".to_owned(),
        output_name: in_one("mvn_", goal, ""),
        plain_command: in_one("mvn ", goal, ""),
        given_command: in_one("rtk mvn ", goal, ""),
    };
    proof {
        reveal_strlit("");
        assert(forall|s: Seq<char>| s + #[trigger] ""@ =~= s);
    }
    assert(r@ =~= goal_invocation(contents(args@), verbose as nat));
    Ok(r)
}

/// The whole output of a command: what it wrote to its standard output, and on a
/// new line what it wrote to its standard error.
pub open spec fn whole(stdout: Seq<char>, stderr: Seq<char>) -> Seq<char> {
    stdout + "\n"@ + stderr
}

/// The whole output of a command in one text.
pub fn whole_output(stdout: &str, stderr: &str) -> (r: String)
    ensures
        r@ == whole(stdout@, stderr@),
{
    in_one(stdout, "\n", stderr)
}

/// What is shown of the output of a command. None where the counts of a test run
/// are out of the range of `usize`.
pub open spec fn condensed(condensing: Condensing, raw: Seq<char>, exit_code: int) -> Option<
    Seq<char>,
> {
    match condensing {
        Condensing::Tests => if reportable(test_scan(indented_lines(raw))) {
            Some(test_text(test_scan(indented_lines(raw))))
        } else {
            None
        },
        Condensing::Build => Some(
            reworded(build_text(build_scan(log_lines(raw))), "mvn"@, exit_code),
        ),
        Condensing::Nothing => Some(plain(raw)),
    }
}

/// Condenses the output of a command.
pub fn condense(condensing: Condensing, raw: &str, exit_code: i32) -> (r: Option<String>)
    ensures
        match r {
            Some(text) => condensed(condensing, raw@, exit_code as int) == Some(text@),
            None => condensed(condensing, raw@, exit_code as int) is None,
        },
{
    match condensing {
        Condensing::Tests => checked_filter_mvn_test(raw),
        Condensing::Build => Some(reword_if_failed(filter_mvn_build(raw), "mvn", exit_code)),
        Condensing::Nothing => Some(strip_ansi(raw)),
    }
}

/// What is printed: the condensed output, and on a new line a hint on where the
/// whole of it is, if there is one.
pub open spec fn printed(text: Seq<char>, hint: Option<Seq<char>>) -> Seq<char> {
    match hint {
        Some(hint) => text + "\n"@ + hint,
        None => text,
    }
}

/// Adds the hint, if there is one.
pub fn with_hint(text: &str, hint: Option<&str>) -> (r: String)
    ensures
        r@ == printed(
            text@,
            match hint {
                Some(hint) => Some(hint@),
                None => None,
            },
        ),
{
    match hint {
        Some(hint) => in_one(text, "\n", hint),
        None => text.to_owned(),
    }
}

} // verus!
