//! The commands, and what is made of their output.

use rtk_mvn::{
    condense, reword_if_failed, run_build_phase, run_compile, run_other, run_package, run_test,
    whole_output, with_hint, CommandError, Condensing,
};

fn strings(list: &[&str]) -> Vec<String> {
    list.iter().map(|s| s.to_string()).collect()
}

#[test]
fn a_phase_is_called_with_its_arguments() {
    let call = run_test(&strings(&["-q", "-Dtest=A"]), 1);
    assert_eq!(call.condensing, Condensing::Tests);
    assert_eq!(call.arguments, strings(&["test", "-q", "-Dtest=A"]));
    assert_eq!(call.announcement, Some("Running: mvn test -q -Dtest=A".to_string()));
    assert_eq!(call.start_error, "Failed to run mvn test. Is Maven installed?");
    assert_eq!(call.exit_label, "mvn test");
    assert_eq!(call.output_name, "mvn_test");
    assert_eq!(call.plain_command, "mvn test -q -Dtest=A");
    assert_eq!(call.given_command, "rtk mvn test -q -Dtest=A");
}

#[test]
fn compile_and_package_are_builds() {
    let compile = run_compile(&strings(&["-o"]), 0);
    assert_eq!(compile.condensing, Condensing::Build);
    assert_eq!(compile.arguments, strings(&["compile", "-o"]));
    assert_eq!(compile.announcement, None);
    assert_eq!(compile.output_name, "mvn_compile");

    let package = run_package(&[], 2);
    assert_eq!(package.condensing, Condensing::Build);
    assert_eq!(package.arguments, strings(&["package"]));
    assert_eq!(package.announcement, Some("Running: mvn package ".to_string()));
    assert_eq!(package.start_error, "Failed to run mvn package. Is Maven installed?");
    assert_eq!(package.given_command, "rtk mvn package ");
}

#[test]
fn other_goals_are_named_by_their_first_argument() {
    let call = run_other(&strings(&["dependency:tree", "-X"]), 1).unwrap();
    assert_eq!(call.condensing, Condensing::Nothing);
    assert_eq!(call.arguments, strings(&["dependency:tree", "-X"]));
    assert_eq!(call.announcement, Some("Running: mvn dependency:tree ...".to_string()));
    assert_eq!(call.start_error, "Failed to run mvn dependency:tree");
    assert_eq!(call.exit_label, "mvn");
    assert_eq!(call.output_name, "mvn_dependency:tree");
    assert_eq!(call.plain_command, "mvn dependency:tree");
    assert_eq!(call.given_command, "rtk mvn dependency:tree");
}

#[test]
fn a_goal_is_needed() {
    let error = run_other(&[], 0).unwrap_err();
    assert_eq!(error, CommandError::NoSubcommand);
    assert_eq!(error.message(), "mvn: no subcommand specified");
}

#[test]
fn a_failed_build_is_never_ok() {
    assert_eq!(condense(Condensing::Build, "noise", 0), Some("mvn: ok".to_string()));
    assert_eq!(
        condense(Condensing::Build, "noise", 1),
        Some("mvn failed (exit 1, no diagnostic output)".to_string())
    );
    assert_eq!(
        condense(Condensing::Build, "[ERROR] x", 1),
        Some("[ERROR] x".to_string())
    );
}

#[test]
fn negative_exit_codes_keep_their_sign() {
    assert_eq!(
        reword_if_failed("x: ok".to_string(), "x", -1),
        "x failed (exit -1, no diagnostic output)"
    );
    assert_eq!(
        reword_if_failed("x: ok".to_string(), "x", i32::MIN),
        "x failed (exit -2147483648, no diagnostic output)"
    );
    assert_eq!(reword_if_failed("y: ok".to_string(), "x", 1), "y: ok");
}

#[test]
fn other_goals_pass_through() {
    assert_eq!(
        condense(Condensing::Nothing, "[INFO] +- \x1b[1mjunit\x1b[m:4.13\n", 1),
        Some("[INFO] +- junit:4.13\n".to_string())
    );
}

#[test]
fn test_runs_are_condensed_whatever_the_exit_code() {
    let raw = whole_output("Tests run: 2, Failures: 0, Errors: 0, Skipped: 0", "[INFO] Total time: 1 s");
    assert_eq!(raw, "Tests run: 2, Failures: 0, Errors: 0, Skipped: 0\n[INFO] Total time: 1 s");
    assert_eq!(
        condense(Condensing::Tests, &raw, 1),
        Some("mvn test: 2 passed (1 s)".to_string())
    );
    let line = format!("Tests run: {}, Failures: 0, Errors: 0, Skipped: 0\n", usize::MAX);
    assert_eq!(condense(Condensing::Tests, &whole_output(&line, &line), 0), None);
}

#[test]
fn a_hint_goes_on_its_own_line() {
    assert_eq!(with_hint("text", Some("see file")), "text\nsee file");
    assert_eq!(with_hint("text", None), "text");
}

#[test]
fn verbosity_only_announces() {
    let args = strings(&["-o", "-q"]);
    let quiet = run_build_phase("install", &args, 0);
    let loud = run_build_phase("install", &args, 3);
    assert_eq!(quiet.announcement, None);
    assert_eq!(loud.announcement, Some("Running: mvn install -o -q".to_string()));
    assert_eq!(quiet.arguments, strings(&["install", "-o", "-q"]));
    assert_eq!(loud.arguments, quiet.arguments);
    assert_eq!(loud.condensing, quiet.condensing);
    assert_eq!(loud.start_error, quiet.start_error);
    assert_eq!(loud.exit_label, quiet.exit_label);
    assert_eq!(loud.output_name, quiet.output_name);
    assert_eq!(loud.plain_command, quiet.plain_command);
    assert_eq!(loud.given_command, quiet.given_command);

    let goal = strings(&["clean", "-q"]);
    assert_eq!(run_other(&goal, 0).unwrap().announcement, None);
    assert_eq!(
        run_other(&goal, 1).unwrap().arguments,
        run_other(&goal, 0).unwrap().arguments
    );
}
