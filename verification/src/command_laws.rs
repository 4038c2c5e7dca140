//! What holds of every command.

use vstd::prelude::*;

use crate::ansi::plain;
use crate::build_filter::{build_scan, build_text};
use crate::command::{
    condensed, goal_invocation, no_subcommand_text, phase_invocation, phase_line, printed,
    whole, Condensing, InvocationModel,
};
use crate::log::{indented_lines, log_lines};
use crate::reword::{ok_text, reworded, silent_failure_text};
use crate::test_report::{reportable, test_text};
use crate::test_scan::test_scan;
use crate::text::{joined, signed_decimal};
use crate::text_laws::{law_plain_text_is_unchanged, without_escape};

verus! {

/// A build that failed is never called `ok`.
pub proof fn law_failed_build_is_never_ok(raw: Seq<char>, exit_code: int)
    requires
        exit_code != 0,
    ensures
        condensed(Condensing::Build, raw, exit_code) is Some,
        condensed(Condensing::Build, raw, exit_code)->0 != "mvn: ok"@,
{
    reveal_strlit("mvn");
    reveal_strlit(": ok");
    reveal_strlit("mvn: ok");
    reveal_strlit(" failed (exit ");
    assert(ok_text("mvn"@) =~= "mvn: ok"@);
    assert(silent_failure_text("mvn"@, exit_code).len() > 7);
}

/// The exit code is no licence to rewrite a report: it stays as it is where the
/// command succeeded, and where there is anything to report.
pub proof fn law_real_output_is_left_alone(filtered: Seq<char>, label: Seq<char>, exit_code: int)
    requires
        exit_code == 0 || filtered != ok_text(label),
    ensures
        reworded(filtered, label, exit_code) == filtered,
{
}

/// Any other goal keeps its whole output, but for colour codes, whatever the exit
/// code.
pub proof fn law_other_goals_pass_through(raw: Seq<char>, exit_code: int)
    ensures
        condensed(Condensing::Nothing, raw, exit_code) == Some(plain(raw)),
        without_escape(raw) ==> condensed(Condensing::Nothing, raw, exit_code) == Some(raw),
{
    if without_escape(raw) {
        law_plain_text_is_unchanged(raw);
    }
}

/// How talkative a command is has no part in what it does: two calls for one phase
/// with the same arguments run `mvn` with the phase and these arguments, in their
/// order, and make the same of the output and the exit code. They differ in what is
/// announced alone, which is the command line, and nothing where `verbose` is zero.
pub proof fn law_verbosity_only_announces(
    condensing: Condensing,
    phase: Seq<char>,
    args: Seq<Seq<char>>,
    verbose: nat,
    other: nat,
    raw: Seq<char>,
    exit_code: int,
)
    ensures
        ({
            let a = phase_invocation(condensing, phase, args, verbose);
            let b = phase_invocation(condensing, phase, args, other);
            &&& a == (InvocationModel { announcement: a.announcement, ..b })
            &&& a.arguments == seq![phase] + args
            &&& condensed(a.condensing, raw, exit_code) == condensed(b.condensing, raw, exit_code)
            &&& verbose == 0 ==> a.announcement is None
            &&& verbose > 0 ==> a.announcement == Some(
                "Running: mvn "@ + phase + " "@ + joined(args, " "@),
            )
        }),
{
    reveal_strlit("Running: ");
    reveal_strlit("mvn ");
    reveal_strlit("Running: mvn ");
    assert("Running: "@ + phase_line(phase, args) =~= "Running: mvn "@ + phase + " "@ + joined(
        args,
        " "@,
    ));
}

/// Nor has it for any other goal.
pub proof fn law_verbosity_only_announces_goals(
    args: Seq<Seq<char>>,
    verbose: nat,
    other: nat,
)
    requires
        args.len() > 0,
    ensures
        ({
            let a = goal_invocation(args, verbose);
            let b = goal_invocation(args, other);
            &&& a == (InvocationModel { announcement: a.announcement, ..b })
            &&& a.arguments == args
            &&& a.announcement is Some <==> verbose > 0
        }),
{
}

/// The call of Maven for a phase: what is run, and what is said, stored and told of
/// it. The command lines end in the arguments with a space before each, or in a
/// space where there are none.
pub proof fn law_phases_are_called_by_name(
    condensing: Condensing,
    phase: Seq<char>,
    args: Seq<Seq<char>>,
    verbose: nat,
)
    ensures
        ({
            let call = phase_invocation(condensing, phase, args, verbose);
            &&& call.condensing == condensing
            &&& call.arguments.len() == args.len() + 1
            &&& call.arguments[0] == phase
            &&& forall|i: int| 0 <= i < args.len() ==> #[trigger] args[i] == call.arguments[i + 1]
            &&& call.start_error == "Failed to run mvn "@ + phase + ". Is Maven installed?"@
            &&& call.exit_label == "mvn "@ + phase
            &&& call.output_name == "mvn_"@ + phase
            &&& call.plain_command == "mvn "@ + phase + " "@ + joined(args, " "@)
            &&& call.given_command == "rtk mvn "@ + phase + " "@ + joined(args, " "@)
        }),
{
    reveal_strlit("rtk ");
    reveal_strlit("mvn ");
    reveal_strlit("rtk mvn ");
    assert("rtk "@ + phase_line(phase, args) =~= "rtk mvn "@ + phase + " "@ + joined(args, " "@));
}

/// The call of Maven for any other goal, which is the first of the arguments and
/// names the call.
pub proof fn law_goals_are_called_by_name(args: Seq<Seq<char>>, verbose: nat)
    requires
        args.len() > 0,
    ensures
        ({
            let call = goal_invocation(args, verbose);
            &&& call.condensing == Condensing::Nothing
            &&& call.arguments == args
            &&& verbose > 0 ==> call.announcement == Some("Running: mvn "@ + args[0] + " ..."@)
            &&& verbose == 0 ==> call.announcement is None
            &&& call.start_error == "Failed to run mvn "@ + args[0]
            &&& call.exit_label == "mvn"@
            &&& call.output_name == "mvn_"@ + args[0]
            &&& call.plain_command == "mvn "@ + args[0]
            &&& call.given_command == "rtk mvn "@ + args[0]
        }),
{
}

/// A build is shown by its report. Where the report says nothing but `ok` and the
/// exit code is not zero, the exit code is told in its place.
pub proof fn law_silent_failures_are_told(raw: Seq<char>, exit_code: int)
    ensures
        ({
            let report = build_text(build_scan(log_lines(raw)));
            &&& exit_code == 0 || report != "mvn: ok"@ ==> condensed(
                Condensing::Build,
                raw,
                exit_code,
            ) == Some(report)
            &&& exit_code != 0 && report == "mvn: ok"@ ==> condensed(
                Condensing::Build,
                raw,
                exit_code,
            ) == Some(
                "mvn failed (exit "@ + signed_decimal(exit_code) + ", no diagnostic output)"@,
            )
        }),
{
    reveal_strlit("mvn");
    reveal_strlit(": ok");
    reveal_strlit("mvn: ok");
    reveal_strlit(" failed (exit ");
    reveal_strlit("mvn failed (exit ");
    assert(ok_text("mvn"@) =~= "mvn: ok"@);
    assert("mvn"@ + " failed (exit "@ =~= "mvn failed (exit "@);
}

/// The rewording goes by the label: a report of another label stays as it is.
pub proof fn law_rewording_goes_by_the_label(label: Seq<char>, text: Seq<char>, exit_code: int)
    ensures
        exit_code != 0 ==> reworded(label + ": ok"@, label, exit_code) == label + " failed (exit "@
            + signed_decimal(exit_code) + ", no diagnostic output)"@,
        exit_code == 0 || text != label + ": ok"@ ==> reworded(text, label, exit_code) == text,
{
}

/// A test run is shown by its report, whatever the exit code, where its numbers are
/// in range.
pub proof fn law_test_runs_are_shown_by_their_report(raw: Seq<char>, exit_code: int)
    ensures
        ({
            let m = test_scan(indented_lines(raw));
            &&& reportable(m) ==> condensed(Condensing::Tests, raw, exit_code) == Some(test_text(m))
            &&& !reportable(m) ==> condensed(Condensing::Tests, raw, exit_code) is None
        }),
{
}

/// What a command wrote is its standard output and, on a new line, its standard
/// error; what is printed is the text and, on a new line, the hint.
pub proof fn law_texts_go_on_a_new_line(a: Seq<char>, b: Seq<char>)
    ensures
        whole(a, b) == a + seq!['\n'] + b,
        printed(a, Some(b)) == a + seq!['\n'] + b,
        printed(a, None) == a,
{
    reveal_strlit("\n");
    assert("\n"@ =~= seq!['\n']);
}

/// Where there is no goal, that is what is said.
pub proof fn law_a_missing_goal_is_told()
    ensures
        no_subcommand_text() == "mvn: "@ + "no subcommand specified"@,
{
    reveal_strlit("mvn: ");
    reveal_strlit("no subcommand specified");
    reveal_strlit("mvn: no subcommand specified");
    assert("mvn: "@ + "no subcommand specified"@ =~= "mvn: no subcommand specified"@);
}

} // verus!
