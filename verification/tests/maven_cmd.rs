//! The filters on whole logs, and on the lines that decide.

use rtk_mvn::{
    compact_test_name, filter_mvn_build, filter_mvn_test, is_compile_error, is_noise_line,
    strip_ansi, upsert_failure, MavenTestFailure, MAX_BODY_LINES,
};

/// A build of three modules that succeeds.
const COMPILE_SUCCESS: &str = r#"[INFO] Scanning for projects...
[INFO] ------------------------------------------------------------------------
[INFO] Reactor Build Order:
[INFO]
[INFO] edeal-parent                                                       [pom]
[INFO] edeal-common                                                       [jar]
[INFO] edeal-webapp                                                       [war]
[INFO]
[INFO] ---------------------< com.edeal:edeal-parent >---------------------
[INFO] Building edeal-parent 2.4.0-SNAPSHOT                               [1/3]
[INFO]   from pom.xml
[INFO] --------------------------------[ pom ]---------------------------------
[INFO]
[INFO] ---------------------< com.edeal:edeal-common >---------------------
[INFO] Building edeal-common 2.4.0-SNAPSHOT                               [2/3]
[INFO]   from edeal-common/pom.xml
[INFO] --------------------------------[ jar ]---------------------------------
[INFO] Downloading from central: https://repo.maven.apache.org/maven2/org/apache/commons/commons-lang3/3.14.0/commons-lang3-3.14.0.pom
[INFO] Downloaded from central: https://repo.maven.apache.org/maven2/org/apache/commons/commons-lang3/3.14.0/commons-lang3-3.14.0.pom (31 kB at 412 kB/s)
Downloading from central: https://repo.maven.apache.org/maven2/com/google/guava/guava/33.0.0-jre/guava-33.0.0-jre.jar
Progress (1): 1.2/3.0 MB
Downloaded from central: https://repo.maven.apache.org/maven2/com/google/guava/guava/33.0.0-jre/guava-33.0.0-jre.jar (3.0 MB at 5.1 MB/s)
[INFO]
[INFO] --- maven-resources-plugin:3.3.1:resources (default-resources) @ edeal-common ---
[INFO] Using encoding: UTF-8
[INFO] Copying 4 resources from src/main/resources to target/classes
[INFO] skip non existing resourceDirectory /home/dev/edeal/edeal-common/src/main/filtered
[INFO]
[INFO] --- maven-compiler-plugin:3.11.0:compile (default-compile) @ edeal-common ---
[INFO] Nothing to compile - all classes are up to date.
[INFO]
[INFO] ---------------------< com.edeal:edeal-webapp >---------------------
[INFO] Building edeal-webapp 2.4.0-SNAPSHOT                               [3/3]
[INFO]   from edeal-webapp/pom.xml
[INFO] --------------------------------[ war ]---------------------------------
[INFO]
[INFO] --- maven-resources-plugin:3.3.1:resources (default-resources) @ edeal-webapp ---
[INFO] Using encoding: UTF-8
[INFO] Copying 12 resources from src/main/resources to target/classes
[INFO]
[INFO] --- maven-compiler-plugin:3.11.0:compile (default-compile) @ edeal-webapp ---
[INFO] Changes detected - recompiling the module! :source
[INFO] Compiling 214 source files with javac [debug release 17] to target/classes
[INFO] ------------------------------------------------------------------------
[INFO] Reactor Summary for edeal-parent 2.4.0-SNAPSHOT:
[INFO] edeal-parent ....................................... SUCCESS [  0.214 s]
[INFO] edeal-common ....................................... SUCCESS [  5.871 s]
[INFO] edeal-webapp ....................................... SUCCESS [ 11.902 s]
[INFO] ------------------------------------------------------------------------
[INFO] BUILD SUCCESS
[INFO] ------------------------------------------------------------------------
[INFO] Total time:  18.234 s
[INFO] Finished at: 2025-03-11T10:42:17+01:00
[INFO] ------------------------------------------------------------------------
"#;

/// A build that fails in the compiler.
const COMPILE_FAIL: &str = r#"[INFO] Scanning for projects...
[INFO]
[INFO] ---------------------< com.edeal:edeal-webapp >---------------------
[INFO] Building edeal-webapp 2.4.0-SNAPSHOT
[INFO]   from edeal-webapp/pom.xml
[INFO] --------------------------------[ war ]---------------------------------
[INFO]
[INFO] --- maven-resources-plugin:3.3.1:resources (default-resources) @ edeal-webapp ---
[INFO] Using encoding: UTF-8
[INFO] Copying 12 resources from src/main/resources to target/classes
[INFO]
[INFO] --- maven-compiler-plugin:3.11.0:compile (default-compile) @ edeal-webapp ---
[INFO] Changes detected - recompiling the module! :source
[INFO] Compiling 214 source files with javac [debug release 17] to target/classes
[INFO] -------------------------------------------------------------
[ERROR] COMPILATION ERROR :
[INFO] -------------------------------------------------------------
[ERROR] /home/dev/edeal/src/main/java/com/edeal/UserService.java:[42,17] cannot find symbol
  symbol:   class UserRepository
  location: class com.edeal.UserService
[ERROR] /home/dev/edeal/src/main/java/com/edeal/UserService.java:[57,9] incompatible types: String cannot be converted to int
[ERROR] /home/dev/edeal/src/main/java/com/edeal/rest/RestController.java:[8,20] package javax.ws.rs does not exist
[INFO] 3 errors
[INFO] -------------------------------------------------------------
[INFO] ------------------------------------------------------------------------
[INFO] BUILD FAILURE
[INFO] ------------------------------------------------------------------------
[INFO] Total time:  4.512 s
[INFO] Finished at: 2025-03-11T10:47:03+01:00
[INFO] ------------------------------------------------------------------------
[ERROR] Failed to execute goal org.apache.maven.plugins:maven-compiler-plugin:3.11.0:compile (default-compile) on project edeal-webapp: Compilation failure: Compilation failure:
[ERROR] /home/dev/edeal/src/main/java/com/edeal/UserService.java:[42,17] cannot find symbol
[ERROR]   symbol:   class UserRepository
[ERROR]   location: class com.edeal.UserService
[ERROR] /home/dev/edeal/src/main/java/com/edeal/UserService.java:[57,9] incompatible types: String cannot be converted to int
[ERROR] /home/dev/edeal/src/main/java/com/edeal/rest/RestController.java:[8,20] package javax.ws.rs does not exist
[ERROR] -> [Help 1]
"#;

/// A test run of two modules in which all tests pass.
const TEST_PASS: &str = r#"[INFO] Scanning for projects...
[INFO] ------------------------------------------------------------------------
[INFO] Reactor Build Order:
[INFO]
[INFO] edeal-common                                                       [jar]
[INFO] edeal-webapp                                                       [war]
[INFO]
[INFO] ---------------------< com.edeal:edeal-common >---------------------
[INFO] Building edeal-common 2.4.0-SNAPSHOT                               [1/2]
[INFO] --------------------------------[ jar ]---------------------------------
[INFO]
[INFO] --- maven-surefire-plugin:3.2.5:test (default-test) @ edeal-common ---
[INFO] Using auto detected provider org.apache.maven.surefire.junitplatform.JUnitPlatformProvider
[INFO]
[INFO] -------------------------------------------------------
[INFO]  T E S T S
[INFO] -------------------------------------------------------
[INFO] Running com.edeal.common.DateUtilsTest
[INFO] Tests run: 3, Failures: 0, Errors: 0, Skipped: 0, Time elapsed: 0.214 s -- in com.edeal.common.DateUtilsTest
[INFO] Running com.edeal.common.StringUtilsTest
[INFO] Tests run: 3, Failures: 0, Errors: 0, Skipped: 0, Time elapsed: 0.081 s -- in com.edeal.common.StringUtilsTest
[INFO]
[INFO] Results:
[INFO]
[INFO] Tests run: 6, Failures: 0, Errors: 0, Skipped: 0
[INFO]
[INFO] ---------------------< com.edeal:edeal-webapp >---------------------
[INFO] Building edeal-webapp 2.4.0-SNAPSHOT                               [2/2]
[INFO] --------------------------------[ war ]---------------------------------
[INFO]
[INFO] --- maven-surefire-plugin:3.2.5:test (default-test) @ edeal-webapp ---
[INFO] Using auto detected provider org.apache.maven.surefire.junitplatform.JUnitPlatformProvider
[INFO]
[INFO] -------------------------------------------------------
[INFO]  T E S T S
[INFO] -------------------------------------------------------
[INFO] Running com.edeal.frontline.UserServiceTest
[INFO] Tests run: 8, Failures: 0, Errors: 0, Skipped: 0, Time elapsed: 1.532 s -- in com.edeal.frontline.UserServiceTest
[INFO] Running com.edeal.frontline.RestControllerTest
[INFO] Tests run: 6, Failures: 0, Errors: 0, Skipped: 0, Time elapsed: 2.107 s -- in com.edeal.frontline.RestControllerTest
[INFO]
[INFO] Results:
[INFO]
[INFO] Tests run: 14, Failures: 0, Errors: 0, Skipped: 0
[INFO]
[INFO] ------------------------------------------------------------------------
[INFO] Reactor Summary for edeal-parent 2.4.0-SNAPSHOT:
[INFO]
[INFO] edeal-common ....................................... SUCCESS [  7.310 s]
[INFO] edeal-webapp ....................................... SUCCESS [ 14.820 s]
[INFO] ------------------------------------------------------------------------
[INFO] BUILD SUCCESS
[INFO] ------------------------------------------------------------------------
[INFO] Total time:  22.345 s
[INFO] Finished at: 2025-03-11T11:02:51+01:00
[INFO] ------------------------------------------------------------------------
"#;

/// A test run of two modules in which two tests fail.
const TEST_FAIL: &str = r#"[INFO] Scanning for projects...
[INFO] ------------------------------------------------------------------------
[INFO] Reactor Build Order:
[INFO]
[INFO] edeal-common                                                       [jar]
[INFO] edeal-webapp                                                       [war]
[INFO]
[INFO] ---------------------< com.edeal:edeal-common >---------------------
[INFO] Building edeal-common 2.4.0-SNAPSHOT                               [1/2]
[INFO] --------------------------------[ jar ]---------------------------------
[INFO]
[INFO] --- maven-surefire-plugin:3.2.5:test (default-test) @ edeal-common ---
[INFO] Using auto detected provider org.apache.maven.surefire.junitplatform.JUnitPlatformProvider
[INFO]
[INFO] -------------------------------------------------------
[INFO]  T E S T S
[INFO] -------------------------------------------------------
[INFO] Running com.edeal.common.DateUtilsTest
[INFO] Tests run: 3, Failures: 0, Errors: 0, Skipped: 0, Time elapsed: 0.214 s -- in com.edeal.common.DateUtilsTest
[INFO] Running com.edeal.common.StringUtilsTest
[INFO] Tests run: 3, Failures: 0, Errors: 0, Skipped: 0, Time elapsed: 0.081 s -- in com.edeal.common.StringUtilsTest
[INFO]
[INFO] Results:
[INFO]
[INFO] Tests run: 6, Failures: 0, Errors: 0, Skipped: 0
[INFO]
[INFO] ---------------------< com.edeal:edeal-webapp >---------------------
[INFO] Building edeal-webapp 2.4.0-SNAPSHOT                               [2/2]
[INFO] --------------------------------[ war ]---------------------------------
[INFO]
[INFO] --- maven-surefire-plugin:3.2.5:test (default-test) @ edeal-webapp ---
[INFO] Using auto detected provider org.apache.maven.surefire.junitplatform.JUnitPlatformProvider
[INFO]
[INFO] -------------------------------------------------------
[INFO]  T E S T S
[INFO] -------------------------------------------------------
[INFO] Running com.edeal.frontline.UserServiceTest
[ERROR] Tests run: 8, Failures: 1, Errors: 0, Skipped: 0, Time elapsed: 1.611 s <<< FAILURE! -- in com.edeal.frontline.UserServiceTest
[ERROR] com.edeal.frontline.UserServiceTest.testUpdateUserProfile -- Time elapsed: 0.045 s <<< FAILURE!
java.lang.AssertionError: Expected user name to be "John Updated" but was "John"
	at org.junit.Assert.fail(Assert.java:89)
	at com.edeal.frontline.UserServiceTest.testUpdateUserProfile(UserServiceTest.java:89)
	at java.base/java.lang.reflect.Method.invoke(Method.java:568)

[INFO] Running com.edeal.frontline.RestControllerTest
[ERROR] Tests run: 6, Failures: 1, Errors: 0, Skipped: 0, Time elapsed: 2.204 s <<< FAILURE! -- in com.edeal.frontline.RestControllerTest
[ERROR] com.edeal.frontline.RestControllerTest.testAuthRequired -- Time elapsed: 0.102 s <<< FAILURE!
java.lang.AssertionError: Status expected:<401> but was:<200>
	at org.junit.Assert.fail(Assert.java:89)
	at com.edeal.frontline.RestControllerTest.testAuthRequired(RestControllerTest.java:54)

[INFO]
[INFO] Results:
[INFO]
[ERROR] Failures:
[ERROR]   RestControllerTest.testAuthRequired:54 Status expected:<401> but was:<200>
[ERROR]   UserServiceTest.testUpdateUserProfile:89 Expected user name to be "John Updated" but was "John"
[INFO]
[ERROR] Tests run: 14, Failures: 2, Errors: 0, Skipped: 0
[INFO]
[INFO] ------------------------------------------------------------------------
[INFO] Reactor Summary for edeal-parent 2.4.0-SNAPSHOT:
[INFO]
[INFO] edeal-common ....................................... SUCCESS [  7.288 s]
[INFO] edeal-webapp ....................................... FAILURE [ 15.112 s]
[INFO] ------------------------------------------------------------------------
[INFO] BUILD FAILURE
[INFO] ------------------------------------------------------------------------
[INFO] Total time:  22.641 s
[INFO] Finished at: 2025-03-11T11:09:32+01:00
[INFO] ------------------------------------------------------------------------
[ERROR] Failed to execute goal org.apache.maven.plugins:maven-surefire-plugin:3.2.5:test (default-test) on project edeal-webapp: There are test failures.
[ERROR] -> [Help 1]
"#;

fn count_tokens(text: &str) -> usize {
    text.split_whitespace().count()
}

// Build filter tests.

#[test]
fn test_filter_mvn_build_success() {
    let input = COMPILE_SUCCESS;
    let output = filter_mvn_build(input);

    // Should strip noise
    assert!(!output.contains("Scanning for projects"));
    assert!(!output.contains("Downloading from central"));
    assert!(!output.contains("Downloaded from central"));
    assert!(!output.contains("maven-resources-plugin"));
    assert!(!output.contains("maven-compiler-plugin"));
    assert!(!output.contains("Nothing to compile"));

    // Should keep build result
    assert!(output.contains("BUILD SUCCESS"));
    assert!(output.contains("18.234"));
}

#[test]
fn test_filter_mvn_build_failure() {
    let input = COMPILE_FAIL;
    let output = filter_mvn_build(input);

    // Should keep errors
    assert!(output.contains("[ERROR]"));
    assert!(output.contains("cannot find symbol"));
    assert!(output.contains("BUILD FAILURE"));

    // Should strip noise
    assert!(!output.contains("Scanning for projects"));
    assert!(!output.contains("maven-resources-plugin"));
}

#[test]
fn test_build_filter_erases_dependency_tree_payload() {
    // Why other goals pass through: the build filter keeps known lines only, so
    // nothing of a dependency tree survives it.
    let tree = "\
[INFO] --- maven-dependency-plugin:3.6.0:tree (default-cli) @ app ---
[INFO] com.example:app:jar:1.0.0
[INFO] +- org.springframework:spring-core:jar:5.3.0:compile
[INFO] |  \\- org.springframework:spring-jcl:jar:5.3.0:compile
[INFO] \\- junit:junit:jar:4.13.2:test
[INFO] BUILD SUCCESS
[INFO] Total time:  1.234 s
";
    assert_eq!(filter_mvn_build(tree), "BUILD SUCCESS (1.234 s)");
    assert!(!filter_mvn_build(tree).contains("spring-core"));

    // Passthrough keeps it, which is what run_other does.
    assert!(strip_ansi(tree).contains("spring-core"));
}

#[test]
fn test_build_body_is_capped_and_verdict_survives() {
    // The body is capped, and the BUILD footer stands outside the cap.
    let mut input = String::new();
    for i in 0..200 {
        input.push_str(&format!(
            "[WARNING] /src/main/java/A{}.java: uses unchecked operations\n",
            i
        ));
    }
    input.push_str("[INFO] BUILD SUCCESS\n");
    input.push_str("[INFO] Total time:  4.123 s\n");

    let output = filter_mvn_build(&input);
    let lines: Vec<&str> = output.lines().collect();

    assert_eq!(lines.len(), MAX_BODY_LINES + 2, "body + marker + footer");
    assert_eq!(lines[MAX_BODY_LINES], "... +150 more lines");
    assert_eq!(lines[MAX_BODY_LINES + 1], "BUILD SUCCESS (4.123 s)");
}

#[test]
fn test_ansi_escapes_do_not_defeat_the_filters() {
    // Maven colourises with -Dstyle.color=always; the patterns are anchored on
    // "[INFO]", so an escape before it would keep every boilerplate line.
    let coloured = "\x1b[1m[INFO] Scanning for projects...\x1b[0m\n\
                    \x1b[34m[INFO] --- maven-compiler-plugin:3.11.0:compile ---\x1b[0m\n\
                    \x1b[32m[INFO] BUILD SUCCESS\x1b[0m\n\
                    \x1b[1m[INFO] Total time:  4.123 s\x1b[0m\n";
    let output = filter_mvn_build(coloured);

    assert!(!output.contains('\x1b'), "ANSI survived: {:?}", output);
    assert!(!output.contains("Scanning for projects"));
    assert!(!output.contains("maven-compiler-plugin"));
    assert_eq!(output, "BUILD SUCCESS (4.123 s)");
}

#[test]
fn test_filter_mvn_build_empty() {
    let output = filter_mvn_build("");
    assert_eq!(output, "mvn: ok");
}

#[test]
fn test_filter_mvn_build_savings() {
    let input = COMPILE_SUCCESS;
    let output = filter_mvn_build(input);

    let input_tokens = count_tokens(input);
    let output_tokens = count_tokens(&output);
    let savings = 100.0 - (output_tokens as f64 / input_tokens as f64 * 100.0);

    assert!(
        savings >= 60.0,
        "Maven build filter: expected >=60% savings, got {:.1}% ({} -> {} tokens)",
        savings,
        input_tokens,
        output_tokens
    );
}

// Test filter tests.

#[test]
fn test_filter_mvn_test_all_pass() {
    let input = TEST_PASS;
    let output = filter_mvn_test(input);

    // The fixture is a 2-module reactor: 6 tests in edeal-common, 14 in
    // edeal-webapp. The total is exact.
    assert_eq!(output, "mvn test: 20 passed (22.345 s)");
}

#[test]
fn test_filter_mvn_test_with_failures() {
    let input = TEST_FAIL;
    let output = filter_mvn_test(input);

    // 6 + 14 tests across the two modules, 2 failures in the second.
    assert!(
        output.starts_with("FAILED: 2/20 tests"),
        "expected the reactor total, got: {}",
        output
    );
    assert!(output.contains("UserServiceTest.testUpdateUserProfile"));
    assert!(output.contains("RestControllerTest.testAuthRequired"));
}

#[test]
fn test_per_class_lines_do_not_become_the_total() {
    // The per-class line ("-- in <Class>") is never taken as the module total.
    let input = "\
[INFO] Tests run: 3, Failures: 0, Errors: 0, Skipped: 0, Time elapsed: 0.2 s -- in com.x.ATest
[INFO] Tests run: 4, Failures: 0, Errors: 0, Skipped: 0, Time elapsed: 0.3 s -- in com.x.BTest
[INFO] Results:
[INFO] Tests run: 7, Failures: 0, Errors: 0, Skipped: 0
[INFO] BUILD SUCCESS
";
    assert_eq!(filter_mvn_test(input), "mvn test: 7 passed");
}

#[test]
fn test_per_class_fallback_when_no_module_summary() {
    // No "Results:" block at all — the per-class lines are all there is,
    // so they must be summed rather than reported as "no tests found".
    let input = "\
[INFO] Tests run: 3, Failures: 0, Errors: 0, Skipped: 0, Time elapsed: 0.2 s -- in com.x.ATest
[INFO] Tests run: 4, Failures: 1, Errors: 0, Skipped: 0, Time elapsed: 0.3 s -- in com.x.BTest
[INFO] BUILD FAILURE
";
    let output = filter_mvn_test(input);
    assert!(
        output.starts_with("FAILED: 1/7 tests"),
        "expected per-class fallback totals, got: {}",
        output
    );
}

#[test]
fn test_filter_mvn_test_savings_pass() {
    let input = TEST_PASS;
    let output = filter_mvn_test(input);

    let input_tokens = count_tokens(input);
    let output_tokens = count_tokens(&output);
    let savings = 100.0 - (output_tokens as f64 / input_tokens as f64 * 100.0);

    assert!(
        savings >= 85.0,
        "Maven test (pass) filter: expected >=85% savings, got {:.1}% ({} -> {} tokens)",
        savings,
        input_tokens,
        output_tokens
    );
}

#[test]
fn test_filter_mvn_test_savings_fail() {
    let input = TEST_FAIL;
    let output = filter_mvn_test(input);

    let input_tokens = count_tokens(input);
    let output_tokens = count_tokens(&output);
    let savings = 100.0 - (output_tokens as f64 / input_tokens as f64 * 100.0);

    assert!(
        savings >= 70.0,
        "Maven test (fail) filter: expected >=70% savings, got {:.1}% ({} -> {} tokens)",
        savings,
        input_tokens,
        output_tokens
    );
}

#[test]
fn test_filter_mvn_test_empty() {
    let output = filter_mvn_test("");
    assert!(output.contains("mvn test:"));
}

#[test]
fn test_filter_mvn_test_reports_compile_errors() {
    // Compilation fails, so no test runs. The diagnostics are the only
    // actionable content and must survive.
    let input = COMPILE_FAIL;
    let output = filter_mvn_test(input);

    assert!(
        output.starts_with("mvn test: 3 build errors"),
        "expected deduped compile-error summary, got: {}",
        output
    );
    assert!(output.contains("cannot find symbol"));
    assert!(output.contains("package javax.ws.rs does not exist"));
    assert!(
        !output.contains("BUILD FAILURE"),
        "the error list replaces the bare status line"
    );
}

#[test]
fn test_each_failure_listed_once() {
    // Surefire reports each failure twice: once in the per-test
    // "<<< FAILURE!" block, once in the "Failures:" summary. The two must
    // merge into one entry carrying both the message and the location.
    let input = TEST_FAIL;
    let output = filter_mvn_test(input);

    assert_eq!(
        output
            .matches("UserServiceTest.testUpdateUserProfile FAILED")
            .count(),
        1,
        "failure listed more than once:\n{}",
        output
    );
    assert_eq!(
        output.matches("FAILED\n").count(),
        2,
        "expected exactly 2 failure entries for 2 failures:\n{}",
        output
    );
    // The merged entry keeps the summary's location and the block's message.
    assert!(output.contains("Expected user name to be \"John Updated\" but was \"John\""));
    assert!(output.contains("at UserServiceTest.testUpdateUserProfile:89"));
}

#[test]
fn test_same_method_name_in_two_packages_stays_distinct() {
    // compact_test_name() drops the package, so both of these compact to
    // "FooTest.testX". They are different tests and must not merge.
    let mut failures = Vec::new();
    upsert_failure(
        &mut failures,
        MavenTestFailure {
            test_name: "FooTest.testX".to_string(),
            fqn: "com.a.FooTest.testX".to_string(),
            message: "a failed".to_string(),
            location: String::new(),
            stack_lines: Vec::new(),
        },
    );
    upsert_failure(
        &mut failures,
        MavenTestFailure {
            test_name: "FooTest.testX".to_string(),
            fqn: "com.b.FooTest.testX".to_string(),
            message: "b failed".to_string(),
            location: String::new(),
            stack_lines: Vec::new(),
        },
    );
    assert_eq!(failures.len(), 2);

    // Same test arriving from the two channels does merge: the summary
    // channel carries no fqn, so it attaches to the existing entry.
    upsert_failure(
        &mut failures,
        MavenTestFailure {
            test_name: "FooTest.testX".to_string(),
            fqn: String::new(),
            message: String::new(),
            location: "FooTest.testX:12".to_string(),
            stack_lines: Vec::new(),
        },
    );
    assert_eq!(failures.len(), 2);
    assert_eq!(failures[0].location, "FooTest.testX:12");
    assert_eq!(failures[0].message, "a failed");
}

#[test]
fn test_compile_error_re_matches_windows_paths() {
    assert!(is_compile_error(r"[ERROR] /src/main/java/A.java:[1,2] boom"));
    assert!(is_compile_error(r"[ERROR] C:\src\main\java\A.java:[1,2] boom"));
    assert!(!is_compile_error("[ERROR] Tests run: 4, Failures: 1"));
}

#[test]
fn test_snapshot_mvn_build_success() {
    let input = COMPILE_SUCCESS;
    assert_eq!(
        filter_mvn_build(input),
        r#"[INFO] Compiling 214 source files with javac [debug release 17] to target/classes
[INFO] edeal-parent ....................................... SUCCESS [  0.214 s]
[INFO] edeal-common ....................................... SUCCESS [  5.871 s]
[INFO] edeal-webapp ....................................... SUCCESS [ 11.902 s]
BUILD SUCCESS (18.234 s)"#
    );
}

#[test]
fn test_snapshot_mvn_build_fail() {
    let input = COMPILE_FAIL;
    assert_eq!(
        filter_mvn_build(input),
        r#"[INFO] Compiling 214 source files with javac [debug release 17] to target/classes
[ERROR] COMPILATION ERROR :
[ERROR] /home/dev/edeal/src/main/java/com/edeal/UserService.java:[42,17] cannot find symbol
  symbol:   class UserRepository
[ERROR] /home/dev/edeal/src/main/java/com/edeal/UserService.java:[57,9] incompatible types: String cannot be converted to int
[ERROR] /home/dev/edeal/src/main/java/com/edeal/rest/RestController.java:[8,20] package javax.ws.rs does not exist
[ERROR] Failed to execute goal org.apache.maven.plugins:maven-compiler-plugin:3.11.0:compile (default-compile) on project edeal-webapp: Compilation...
[ERROR] /home/dev/edeal/src/main/java/com/edeal/UserService.java:[42,17] cannot find symbol
[ERROR]   symbol:   class UserRepository
[ERROR]   location: class com.edeal.UserService
[ERROR] /home/dev/edeal/src/main/java/com/edeal/UserService.java:[57,9] incompatible types: String cannot be converted to int
[ERROR] /home/dev/edeal/src/main/java/com/edeal/rest/RestController.java:[8,20] package javax.ws.rs does not exist
[ERROR] -> [Help 1]
BUILD FAILURE (4.512 s)"#
    );
}

#[test]
fn test_snapshot_mvn_test_pass() {
    let input = TEST_PASS;
    assert_eq!(
        filter_mvn_test(input),
        r#"mvn test: 20 passed (22.345 s)"#
    );
}

#[test]
fn test_snapshot_mvn_test_fail() {
    let input = TEST_FAIL;
    assert_eq!(
        filter_mvn_test(input),
        r#"FAILED: 2/20 tests (22.641 s)
=======================================
  UserServiceTest.testUpdateUserProfile FAILED
    Expected user name to be "John Updated" but was "John"
    at UserServiceTest.testUpdateUserProfile:89
    at com.edeal.frontline.UserServiceTest.testUpdateUserProfile(UserServiceTest.java:89)
  RestControllerTest.testAuthRequired FAILED
    Status expected:<401> but was:<200>
    at RestControllerTest.testAuthRequired:54
    at com.edeal.frontline.RestControllerTest.testAuthRequired(RestControllerTest.java:54)

BUILD FAILURE"#
    );
}

#[test]
fn test_compact_test_name() {
    assert_eq!(
        compact_test_name("com.edeal.frontline.UserServiceTest.testFoo"),
        "UserServiceTest.testFoo"
    );
    assert_eq!(
        compact_test_name("SimpleTest.testBar"),
        "SimpleTest.testBar"
    );
}

#[test]
fn test_is_noise_line() {
    assert!(is_noise_line("[INFO] Scanning for projects..."));
    assert!(is_noise_line("[INFO] Downloading org.apache:foo:1.0"));
    assert!(is_noise_line("[INFO] Downloaded org.apache:foo:1.0"));
    assert!(is_noise_line(
        "[INFO] --- maven-compiler-plugin:3.11.0:compile ---"
    ));
    assert!(is_noise_line(
        "[INFO] Nothing to compile - all classes are up to date."
    ));
    assert!(is_noise_line("[INFO] "));
    assert!(is_noise_line("[INFO] ---"));
    assert!(is_noise_line("[INFO] Using encoding: UTF-8"));

    assert!(!is_noise_line("[ERROR] Compilation failed"));
    assert!(!is_noise_line("[INFO] BUILD SUCCESS"));
    assert!(!is_noise_line("[WARNING] Using deprecated API"));
}
