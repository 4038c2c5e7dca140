//! Reports on builds.

use rtk_mvn::{filter_mvn_build, BuildRules, BuildScan, MAX_BODY_LINES};

#[test]
fn verdict_is_the_last_line() {
    let log = "[INFO] BUILD FAILURE\n[ERROR] after the verdict\n[WARNING] too";
    assert_eq!(
        filter_mvn_build(log),
        "[ERROR] after the verdict\n[WARNING] too\nBUILD FAILURE"
    );
}

#[test]
fn last_verdict_and_last_time_win() {
    let log = "[INFO] BUILD SUCCESS\n[INFO] Total time: 1 s\n[INFO] BUILD FAILURE\n[INFO] Total time:\t 2 s";
    assert_eq!(filter_mvn_build(log), "BUILD FAILURE (2 s)");
}

#[test]
fn time_alone_is_not_shown() {
    assert_eq!(filter_mvn_build("[INFO] Total time:  2 s"), "mvn: ok");
    assert_eq!(filter_mvn_build("[INFO] BUILD SUCCESS\n[INFO] Total time:"), "BUILD SUCCESS");
}

#[test]
fn body_of_exactly_the_maximum_is_not_cut() {
    let mut log = String::new();
    for i in 0..MAX_BODY_LINES {
        log.push_str(&format!("[ERROR] e{}\n", i));
    }
    let all = filter_mvn_build(&log);
    assert_eq!(all.lines().count(), MAX_BODY_LINES);
    assert_eq!(all.lines().last(), Some("[ERROR] e49"));

    log.push_str("[ERROR] one more\n");
    let cut = filter_mvn_build(&log);
    assert_eq!(cut.lines().count(), MAX_BODY_LINES + 1);
    assert_eq!(cut.lines().nth(49), Some("[ERROR] e49"));
    assert_eq!(cut.lines().last(), Some("... +1 more lines"));
}

#[test]
fn errors_and_warnings_are_kept_in_order() {
    let log = "[WARNING] w\nx\n[ERROR]\n[INFO] Scanning for projects...\n\t[ERROR] e  \r\n[WARN] no";
    assert_eq!(filter_mvn_build(log), "[WARNING] w\n[ERROR]\n[ERROR] e");
}

#[test]
fn long_errors_are_cut() {
    let log = format!("[ERROR] {}", "x".repeat(150));
    let report = filter_mvn_build(&log);
    assert_eq!(report.chars().count(), 150);
    assert_eq!(report, format!("[ERROR] {}...", "x".repeat(139)));
    let fits = format!("[ERROR] {}", "x".repeat(142));
    assert_eq!(filter_mvn_build(&fits), fits);
}

#[test]
fn continuation_stands_directly_below_an_error() {
    let log = "symbol: a\n[ERROR] e\n  symbol: b\n  location: c\n[WARNING] w\n  reason: d\n[ERROR] f\n\n  found: g";
    assert_eq!(
        filter_mvn_build(log),
        "[ERROR] e\n  symbol: b\n[WARNING] w\n[ERROR] f\n  found: g"
    );
    for word in ["symbol:", "location:", "required:", "found:", "reason:"] {
        assert_eq!(
            filter_mvn_build(&format!("[ERROR] e\n{} x", word)),
            format!("[ERROR] e\n  {} x", word)
        );
    }
}

#[test]
fn only_known_lines_are_kept() {
    let log = "hello\n[INFO] Building core\n[INFO] core .... SUCCESS [ 1 s]\n[DEBUG] x\n[INFO] Compiling 3 source files\n[INFO] Compiling x source files";
    // The module line stands outside of a summary.
    assert_eq!(filter_mvn_build(log), "[INFO] Compiling 3 source files");
}

#[test]
fn modules_are_listed_within_the_summary() {
    let log = "\
[INFO] Reactor Summary for parent:
[INFO] core ............. SUCCESS [  1.2 s]
[INFO] web ............... FAILURE [  0.3 s]
[INFO] docs ............... SKIPPED
[INFO] core . SUCCESS [ 1 s]
[INFO] --- done
[INFO] late ............. SUCCESS [  1.2 s]
";
    assert_eq!(
        filter_mvn_build(log),
        "[INFO] core ............. SUCCESS [  1.2 s]\n[INFO] web ............... FAILURE [  0.3 s]"
    );
}

#[test]
fn an_empty_info_line_ends_the_summary() {
    let log = "[INFO] Reactor Summary\n[INFO] \n[INFO] core .. SUCCESS [1 s]\n[INFO] BUILD SUCCESS";
    assert_eq!(filter_mvn_build(log), "BUILD SUCCESS");
}

#[test]
fn noise_in_the_summary_is_kept_where_it_is_a_module() {
    let log = "[INFO] Reactor Summary\n[INFO] Changes detected .. SUCCESS [1 s]";
    assert_eq!(filter_mvn_build(log), "[INFO] Changes detected .. SUCCESS [1 s]");
}

#[test]
fn lines_can_be_read_one_by_one() {
    let rules = BuildRules::new();
    let mut scan = BuildScan::new();
    for line in ["[ERROR] a", "[INFO]", "[WARNING] b", "[INFO] BUILD FAILURE"] {
        scan.step(&rules, line);
    }
    assert_eq!(scan.finish(), "[ERROR] a\n[WARNING] b\nBUILD FAILURE");
}

#[test]
fn noise_leaves_verdict_and_time_alone() {
    let log = "[INFO] BUILD SUCCESS\n[INFO] Total time: 3 s\n[INFO]\n[INFO] Finished at: today\n[INFO] ----\n";
    assert_eq!(filter_mvn_build(log), "BUILD SUCCESS (3 s)");
}

#[test]
fn a_report_is_its_lines() {
    let mut log = String::from("[INFO] BUILD FAILURE\r\n[INFO] Total time: 3 s\r\n");
    for i in 0..MAX_BODY_LINES + 7 {
        log.push_str(&format!("[ERROR] e{}\r\n", i));
    }
    let report = filter_mvn_build(&log);
    let lines: Vec<&str> = report.lines().collect();
    assert_eq!(lines.len(), MAX_BODY_LINES + 2);
    for i in 0..MAX_BODY_LINES {
        assert_eq!(lines[i], format!("[ERROR] e{}", i));
    }
    assert_eq!(lines[MAX_BODY_LINES], "... +7 more lines");
    assert_eq!(lines[MAX_BODY_LINES + 1], "BUILD FAILURE (3 s)");
}

#[test]
fn a_line_is_kept_as_often_as_it_comes() {
    let log = "[ERROR] b\n[ERROR] a\n[ERROR] b\n";
    assert_eq!(filter_mvn_build(log), "[ERROR] b\n[ERROR] a\n[ERROR] b");
}
