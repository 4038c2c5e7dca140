//! A build that printed nothing worth keeping.

use rtk_mvn::reword_if_failed;

#[test]
fn keeps_ok_on_success() {
    assert_eq!(
        reword_if_failed("Gradle build: ok".to_string(), "Gradle build", 0),
        "Gradle build: ok"
    );
}

#[test]
fn rewords_silent_failure() {
    assert_eq!(
        reword_if_failed("Gradle build: ok".to_string(), "Gradle build", 1),
        "Gradle build failed (exit 1, no diagnostic output)"
    );
    assert_eq!(
        reword_if_failed("mvn: ok".to_string(), "mvn", 137),
        "mvn failed (exit 137, no diagnostic output)"
    );
}

#[test]
fn leaves_real_output_alone() {
    // A failure that did produce diagnostics must pass through untouched -
    // the exit code is not a licence to rewrite the body.
    let body = "[ERROR] /src/A.java:[1,2] cannot find symbol\nBUILD FAILURE (2 s)";
    assert_eq!(reword_if_failed(body.to_string(), "mvn", 1), body);
}
