//! Reports on test runs.

use rtk_mvn::{
    checked_filter_mvn_test, counts_in_range, filter_mvn_test, upsert_failure, MavenTestFailure,
    TestRules, TestScan,
};

fn failure(name: &str, fqn: &str, message: &str, location: &str) -> MavenTestFailure {
    MavenTestFailure {
        test_name: name.to_string(),
        fqn: fqn.to_string(),
        message: message.to_string(),
        location: location.to_string(),
        stack_lines: Vec::new(),
    }
}

#[test]
fn totals_are_sums_over_modules() {
    let log = "\
[INFO] Tests run: 3, Failures: 0, Errors: 0, Skipped: 1
[WARNING] Tests run:4,Failures:\t0,  Errors: 0, Skipped: 2, and more
[INFO] Tests run: 100, Failures: 9, Errors: 9, Skipped: 9, Time elapsed: 1 s -- in com.x.A
";
    assert_eq!(filter_mvn_test(log), "mvn test: 4 passed, 3 skipped");
}

#[test]
fn a_module_without_tests_does_not_hide_the_classes() {
    let log = "\
[INFO] Tests run: 0, Failures: 0, Errors: 0, Skipped: 0
[INFO] Tests run: 5, Failures: 0, Errors: 0, Skipped: 0 -- in com.x.A
";
    assert_eq!(filter_mvn_test(log), "mvn test: 5 passed");
}

#[test]
fn errors_count_as_failed() {
    let log = "[ERROR] Tests run: 5, Failures: 1, Errors: 2, Skipped: 1";
    assert_eq!(
        filter_mvn_test(log),
        "FAILED: 3/5 tests\n======================================="
    );
}

#[test]
fn inconsistent_counts_do_not_go_below_zero() {
    let log = "[INFO] Tests run: 1, Failures: 0, Errors: 0, Skipped: 2";
    assert_eq!(filter_mvn_test(log), "mvn test: 0 passed, 2 skipped");
}

#[test]
fn counts_that_are_no_usize_are_zero() {
    let log = "[INFO] Tests run: 99999999999999999999, Failures: 0, Errors: 0, Skipped: 0";
    assert_eq!(filter_mvn_test(log), "mvn test: no tests found");
    let digits = "[INFO] Tests run: \u{663}, Failures: 0, Errors: 0, Skipped: 0";
    assert_eq!(filter_mvn_test(digits), "mvn test: no tests found");
    let zeros = "[INFO] Tests run: 007, Failures: 0, Errors: 0, Skipped: 0";
    assert_eq!(filter_mvn_test(zeros), "mvn test: 7 passed");
}

#[test]
fn largest_count_is_read_and_printed() {
    let log = format!("Tests run: {}, Failures: 0, Errors: 0, Skipped: 0", usize::MAX);
    assert!(counts_in_range(&log));
    assert_eq!(filter_mvn_test(&log), format!("mvn test: {} passed", usize::MAX));
}

#[test]
fn sums_out_of_range_are_refused() {
    let line = format!("Tests run: {}, Failures: 0, Errors: 0, Skipped: 0\n", usize::MAX);
    let twice = format!("{}{}", line, line);
    assert!(!counts_in_range(&twice));
    assert_eq!(checked_filter_mvn_test(&twice), None);
    // Failures and errors fit one by one, their sum does not.
    let failed = format!("Tests run: 1, Failures: {}, Errors: 1, Skipped: 0", usize::MAX);
    assert_eq!(checked_filter_mvn_test(&failed), None);
    let skipped = format!("Tests run: 1, Failures: 0, Errors: 1, Skipped: {}", usize::MAX);
    assert_eq!(checked_filter_mvn_test(&skipped), None);
    assert_eq!(
        checked_filter_mvn_test("Tests run: 1, Failures: 0, Errors: 0, Skipped: 0"),
        Some("mvn test: 1 passed".to_string())
    );
}

#[test]
fn a_run_without_tests_says_why() {
    assert_eq!(filter_mvn_test(""), "mvn test: no tests found");
    assert_eq!(
        filter_mvn_test("[INFO] BUILD SUCCESS\n[INFO] Total time: 2 s"),
        "mvn test: no tests found (2 s)"
    );
    assert_eq!(
        filter_mvn_test("[INFO] BUILD FAILURE\n[INFO] Total time: 2 s"),
        "mvn test: BUILD FAILURE (2 s)"
    );
}

#[test]
fn each_diagnostic_is_reported_once() {
    let log = "[ERROR] /a.java:[1,2] x\n[ERROR] C:\\b.java:[1,2] y\n[ERROR] /a.java:[1,2] x\n[INFO] Total time: 1 s";
    assert_eq!(
        filter_mvn_test(log),
        "mvn test: 2 build errors (1 s)\n=======================================\n  [ERROR] /a.java:[1,2] x\n  [ERROR] C:\\b.java:[1,2] y"
    );
}

#[test]
fn more_than_ten_diagnostics_are_counted() {
    let mut log = String::new();
    for i in 0..12 {
        log.push_str(&format!("[ERROR] /f{}.java\n", i));
    }
    let report = filter_mvn_test(&log);
    assert!(report.starts_with("mvn test: 12 build errors\n"));
    assert_eq!(report.lines().count(), 13);
    assert_eq!(report.lines().nth(11), Some("  [ERROR] /f9.java"));
    assert!(report.ends_with("\n  ... +2 more errors"));
}

#[test]
fn diagnostics_give_way_to_tests() {
    let log = "[ERROR] /a.java\nTests run: 1, Failures: 0, Errors: 0, Skipped: 0";
    assert_eq!(filter_mvn_test(log), "mvn test: 1 passed");
}

#[test]
fn a_report_without_a_list_gives_the_cause() {
    let log = "\
[ERROR] Tests run: 2, Failures: 2, Errors: 0, Skipped: 0
[ERROR] com.x.ATest.one -- Time elapsed: 0.1 s <<< FAILURE!
java.lang.AssertionError: first: cause
java.lang.IllegalStateException
[INFO] x
java.lang.AssertionError: not part of the report
[ERROR] com.x.ATest.two -- Time elapsed: 0.1 s <<< ERROR!
org.junit.ComparisonFailureError: second
";
    assert_eq!(
        filter_mvn_test(log),
        "FAILED: 2/2 tests\n=======================================\n  ATest.one FAILED\n    java.lang.IllegalStateException\n  ATest.two FAILED\n    second"
    );
}

#[test]
fn exceptions_of_other_packages_are_no_cause() {
    let log = "\
Tests run: 1, Failures: 1, Errors: 0, Skipped: 0
[ERROR] a.B.c -- Time elapsed: 1 s
com.x.OwnException: no
java.lang.Assertion
";
    assert_eq!(
        filter_mvn_test(log),
        "FAILED: 1/1 tests\n=======================================\n  B.c FAILED\n    java.lang.Assertion"
    );
}

#[test]
fn long_messages_and_locations_are_cut() {
    let method = format!("A.{}", "m".repeat(120));
    let log = format!(
        "Tests run: 1, Failures: 1, Errors: 0, Skipped: 0\n[ERROR] Failures:\n[ERROR]   {}:7 {}",
        method,
        "x".repeat(121)
    );
    let report = filter_mvn_test(&log);
    let lines: Vec<&str> = report.lines().collect();
    assert_eq!(lines[2], format!("  {} FAILED", method));
    assert_eq!(lines[3], format!("    {}...", "x".repeat(117)));
    assert_eq!(lines[4], format!("    at A.{}...", "m".repeat(95)));
}

#[test]
fn the_list_ends_and_its_lines_count_only_within() {
    let log = "\
Tests run: 3, Failures: 3, Errors: 0, Skipped: 0
[ERROR]   A.before:1 x
[ERROR] Failures:
[ERROR]   A.within:2 y
[ERROR]   no failure
[ERROR]   x.B.also:3 z
[INFO]
[ERROR]   A.behind:4 w
";
    assert_eq!(
        filter_mvn_test(log),
        "FAILED: 3/3 tests\n=======================================\n  A.within FAILED\n    y\n    at A.within:2\n  B.also FAILED\n    z\n    at x.B.also:3"
    );
}

#[test]
fn lines_of_a_test_run_can_be_read_one_by_one() {
    let rules = TestRules::new();
    let mut scan = TestScan::new();
    for line in [
        "[ERROR] com.x.A.b -- Time elapsed: 1 s",
        "  at com.x.A.b(A.java:1)",
        "at com.x.A.not(A.java:0)",
        "\tat org.junit.Assert.fail(Assert.java:2)",
        "\tat com.x.A.c(A.java:3)",
        "\tat com.x.A.d(A.java:4)",
        "\tat com.x.A.e(A.java:5)",
        "Tests run: 1, Failures: 1, Errors: 0, Skipped: 0",
    ] {
        scan = scan.step(&rules, line).unwrap();
    }
    assert!(scan.is_reportable());
    // Indented lines of a stack trace are kept up to three, those of JUnit are not,
    // and a line that is not indented is none.
    assert_eq!(
        scan.finish(),
        "FAILED: 1/1 tests\n=======================================\n  A.b FAILED\n    at com.x.A.b(A.java:1)\n    at com.x.A.c(A.java:3)\n    at com.x.A.d(A.java:4)"
    );
}

#[test]
fn the_stack_of_a_failure_is_reported() {
    let log = "\
[ERROR] com.x.A.b -- Time elapsed: 1 s
\tat com.x.A.b(A.java:1)
Tests run: 1, Failures: 1, Errors: 0, Skipped: 0
";
    assert_eq!(
        filter_mvn_test(log),
        "FAILED: 1/1 tests\n=======================================\n  A.b FAILED\n    at com.x.A.b(A.java:1)"
    );
}

#[test]
fn frames_of_the_framework_are_left_out() {
    let log = "[ERROR] com.x.ATest.a -- Time elapsed: 0.1 s <<< FAILURE!\njava.lang.AssertionError: boom\n\tat org.junit.Assert.fail(Assert.java:89)\n\tat com.x.ATest.a(ATest.java:7)\n\n[ERROR] Tests run: 1, Failures: 1, Errors: 0, Skipped: 0\n";
    assert_eq!(
        filter_mvn_test(log),
        "FAILED: 1/1 tests\n=======================================\n  ATest.a FAILED\n    boom\n    at com.x.ATest.a(ATest.java:7)"
    );
}

#[test]
fn three_frames_of_the_own_code_are_reported() {
    let log = format!(
        "\
[ERROR] com.x.A.b -- Time elapsed: 1 s
java.lang.IllegalStateException: late
\tat java.base/java.util.Objects.requireNonNull(Objects.java:1)
\x1b[31m\tat com.x.One.run(One.java:1)\x1b[m
  at com.x.Two.{}(Two.java:2)
\tat jdk.internal.reflect.Direct.invoke(Direct.java:1)
\tat com.x.Three.run(Three.java:3)  \r
\tat com.x.Four.run(Four.java:4)
\tat sun.reflect.Native.invoke(Native.java:1)

\tat com.x.Behind.run(Behind.java:5)
Tests run: 1, Failures: 0, Errors: 1, Skipped: 0
",
        "m".repeat(120)
    );
    assert_eq!(
        filter_mvn_test(&log),
        format!(
            "FAILED: 1/1 tests\n=======================================\n  A.b FAILED\n    late\n    at com.x.One.run(One.java:1)\n    at com.x.Two.{}...\n    at com.x.Three.run(Three.java:3)",
            "m".repeat(104)
        )
    );
}

#[test]
fn a_stack_ends_with_its_report() {
    let log = "\
[ERROR] com.x.A.b -- Time elapsed: 1 s
[INFO] done
\tat com.x.A.b(A.java:1)
Tests run: 1, Failures: 1, Errors: 0, Skipped: 0
";
    assert_eq!(
        filter_mvn_test(log),
        "FAILED: 1/1 tests\n=======================================\n  A.b FAILED"
    );
}

#[test]
fn the_last_block_keeps_its_message() {
    let log = "[ERROR] com.x.ATest.a -- Time elapsed: 0.1 s <<< FAILURE!\njava.lang.AssertionError: block a\n[ERROR] Failures:\n[ERROR]   ATest.a:1 sum a\n[ERROR] Tests run: 1, Failures: 1, Errors: 0, Skipped: 0\n";
    assert_eq!(
        filter_mvn_test(log),
        "FAILED: 1/1 tests\n=======================================\n  ATest.a FAILED\n    block a\n    at ATest.a:1"
    );
}

#[test]
fn every_block_keeps_its_message_and_takes_the_location_of_the_list() {
    let log = "\
[ERROR] com.x.ATest.a -- Time elapsed: 0.1 s <<< FAILURE!
java.lang.AssertionError: block a
\tat com.x.ATest.a(ATest.java:1)

[ERROR] com.x.ATest.silent -- Time elapsed: 0.1 s <<< FAILURE!

[ERROR] com.x.BTest.b -- Time elapsed: 0.1 s <<< FAILURE!
java.lang.AssertionError: block b
\tat com.x.BTest.b(BTest.java:2)

[ERROR] Failures:
[ERROR]   BTest.b:2 sum b
[ERROR]   ATest.a:1 sum a
[ERROR]   ATest.silent:3 sum silent
[ERROR]   CTest.c:4 sum c
[INFO]
[ERROR] Tests run: 4, Failures: 4, Errors: 0, Skipped: 0
";
    assert_eq!(
        filter_mvn_test(log),
        "\
FAILED: 4/4 tests
=======================================
  ATest.a FAILED
    block a
    at ATest.a:1
    at com.x.ATest.a(ATest.java:1)
  ATest.silent FAILED
    sum silent
    at ATest.silent:3
  BTest.b FAILED
    block b
    at BTest.b:2
    at com.x.BTest.b(BTest.java:2)
  CTest.c FAILED
    sum c
    at CTest.c:4"
    );
}

#[test]
fn a_list_of_other_tests_leaves_the_last_block_for_the_end() {
    let log = "\
[ERROR] com.x.BTest.b -- Time elapsed: 0.1 s <<< FAILURE!
java.lang.AssertionError: block b

[ERROR] Failures:
[ERROR]   CTest.c:4 sum c
[ERROR] Tests run: 2, Failures: 2, Errors: 0, Skipped: 0
";
    assert_eq!(
        filter_mvn_test(log),
        "FAILED: 2/2 tests\n=======================================\n  CTest.c FAILED\n    sum c\n    at CTest.c:4\n  BTest.b FAILED\n    block b"
    );
}

#[test]
fn a_report_that_is_open_goes_on_behind_the_list() {
    let log = "\
[ERROR] com.x.BTest.b -- Time elapsed: 0.1 s <<< FAILURE!
java.lang.AssertionError: block b
[ERROR] Failures:
[ERROR]   CTest.c:4 sum c
[ERROR]   BTest.b:2 sum b
\tat com.x.BTest.b(BTest.java:2)
[ERROR] Tests run: 2, Failures: 2, Errors: 0, Skipped: 0
";
    assert_eq!(
        filter_mvn_test(log),
        "FAILED: 2/2 tests\n=======================================\n  CTest.c FAILED\n    sum c\n    at CTest.c:4\n  BTest.b FAILED\n    block b\n    at BTest.b:2\n    at com.x.BTest.b(BTest.java:2)"
    );
}

#[test]
fn a_listed_failure_goes_to_the_first_of_two_packages() {
    let log = "\
[ERROR] com.a.XTest.t -- Time elapsed: 0.1 s <<< FAILURE!

[ERROR] com.b.XTest.t -- Time elapsed: 0.1 s <<< FAILURE!
java.lang.AssertionError: block of b

[ERROR] Failures:
[ERROR]   XTest.t:1 sum
[ERROR]   CTest.c:2 sum c
[ERROR] Tests run: 3, Failures: 3, Errors: 0, Skipped: 0
";
    assert_eq!(
        filter_mvn_test(log),
        "FAILED: 3/3 tests\n=======================================\n  XTest.t FAILED\n    sum\n    at XTest.t:1\n  CTest.c FAILED\n    sum c\n    at CTest.c:2\n  XTest.t FAILED\n    block of b"
    );
}

#[test]
fn settled_entries_stay_where_they_are() {
    // The second module reports the test of the first once more.
    let log = "\
[ERROR] Failures:
[ERROR]   ATest.a:1 first
[ERROR] Tests run: 1, Failures: 1, Errors: 0, Skipped: 0
[ERROR] com.x.BTest.b -- Time elapsed: 0.1 s <<< FAILURE!
java.lang.AssertionError: block b

[ERROR] com.x.ATest.a -- Time elapsed: 0.1 s <<< FAILURE!
java.lang.AssertionError: block a
\tat com.x.ATest.a(ATest.java:9)

[ERROR] Failures:
[ERROR]   ATest.a:9 second
[ERROR] Tests run: 2, Failures: 2, Errors: 0, Skipped: 0
";
    assert_eq!(
        filter_mvn_test(log),
        "FAILED: 3/3 tests\n=======================================\n  ATest.a FAILED\n    first\n    at ATest.a:1\n    at com.x.ATest.a(ATest.java:9)\n  BTest.b FAILED\n    block b"
    );
}

#[test]
fn a_line_of_counts_changes_its_sum_alone() {
    let rules = TestRules::new();
    let scan = TestScan::new()
        .step(&rules, "[ERROR] Failures:")
        .unwrap()
        .step(&rules, "[WARNING] Tests run: 1, Failures: 0, Errors: 0, Skipped: 1")
        .unwrap();
    assert_eq!((scan.module.run, scan.module.skipped, scan.class.run), (1, 1, 0));
    assert!(scan.in_list);
    let scan = scan
        .step(&rules, "  [ERROR] Tests run: 2, Failures: 0, Errors: 0, Skipped: 0 -- in com.x.A")
        .unwrap();
    assert_eq!((scan.module.run, scan.class.run), (1, 2));
    assert!(!scan.in_list);
    assert!(scan.failures.is_empty() && scan.current.is_none() && scan.diagnostics.is_empty());
}

#[test]
fn the_last_verdict_and_the_last_time_of_a_test_run_win() {
    let log = "\
[INFO] BUILD SUCCESS
[INFO] Total time: 1 s
Tests run: 1, Failures: 1, Errors: 0, Skipped: 0
[INFO] BUILD FAILURE
[INFO] Total time: 2 s
";
    assert_eq!(
        filter_mvn_test(log),
        "FAILED: 1/1 tests (2 s)\n=======================================\n\nBUILD FAILURE"
    );
}

#[test]
fn diagnostics_come_in_the_order_of_their_first_lines() {
    let log = "[ERROR] /b.java\n[ERROR] no path\n[ERROR] /a.java\n[ERROR] /b.java\n[ERROR] /c.java";
    assert_eq!(
        filter_mvn_test(log),
        "mvn test: 3 build errors\n=======================================\n  [ERROR] /b.java\n  [ERROR] /a.java\n  [ERROR] /c.java"
    );
}

#[test]
fn colours_do_not_change_the_totals() {
    let log = "\x1b[1m[INFO]\x1b[m \x1b[32mTests run: \x1b[1m2\x1b[m, Failures: 0, Errors: 0, Skipped: 0";
    assert_eq!(filter_mvn_test(log), "mvn test: 2 passed");
}

#[test]
fn a_new_test_adds_one_entry_and_a_known_one_none() {
    let mut failures = vec![failure("A.a", "x.A.a", "m", "")];
    upsert_failure(&mut failures, failure("A.b", "", "n", ""));
    assert_eq!(failures.len(), 2);
    upsert_failure(&mut failures, failure("A.a", "", "other", "A.a:1"));
    assert_eq!(failures.len(), 2);
    // Gaps are filled, and nothing that was known is overwritten.
    assert_eq!(failures[0].message, "m");
    assert_eq!(failures[0].location, "A.a:1");
    assert_eq!(failures[0].fqn, "x.A.a");
}

#[test]
fn a_repeated_report_changes_nothing() {
    let mut failures = vec![failure("A.a", "", "", "")];
    for _ in 0..3 {
        upsert_failure(&mut failures, failure("A.a", "x.A.a", "m", ""));
    }
    assert_eq!(failures.len(), 1);
    assert_eq!(failures[0].fqn, "x.A.a");
    assert_eq!(failures[0].message, "m");
}

#[test]
fn the_first_of_two_candidates_takes_the_report() {
    let mut failures = vec![
        failure("A.a", "x.A.a", "", ""),
        failure("A.a", "y.A.a", "", ""),
    ];
    upsert_failure(&mut failures, failure("A.a", "y.A.a", "for y", ""));
    upsert_failure(&mut failures, failure("A.a", "", "for the first", "A.a:3"));
    assert_eq!(failures.len(), 2);
    assert_eq!(failures[0].message, "for the first");
    assert_eq!(failures[1].message, "for y");
    assert_eq!(failures[1].location, "");
}

#[test]
fn two_reports_make_one_entry() {
    let mut failures = Vec::new();
    let mut block = failure("A.a", "x.A.a", "from the block", "");
    block.stack_lines = vec!["at x.A.a(A.java:3)".to_string()];
    upsert_failure(&mut failures, block);
    upsert_failure(&mut failures, failure("A.a", "", "from the list", "A.a:3"));
    assert_eq!(failures.len(), 1);
    assert_eq!(failures[0].message, "from the block");
    assert_eq!(failures[0].location, "A.a:3");
    assert_eq!(failures[0].stack_lines, vec!["at x.A.a(A.java:3)".to_string()]);
}
