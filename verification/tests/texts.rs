//! Colour codes, cuts, names and the forms of lines.

use rtk_mvn::{compact_test_name, is_compile_error, is_noise_line, strip_ansi, truncate};

#[test]
fn plain_text_keeps_every_character() {
    let text = "[INFO] Grüße, [0m and 1;31m\r\n\ttab";
    assert_eq!(strip_ansi(text), text);
    assert_eq!(strip_ansi(""), "");
}

#[test]
fn colour_codes_leave_no_trace() {
    assert_eq!(
        strip_ansi("\x1b[1;34m[INFO]\x1b[m BUILD \x1b[32mSUCCESS\x1b[0m\x1b[K"),
        "[INFO] BUILD SUCCESS"
    );
    // Text may follow the last code.
    assert_eq!(strip_ansi("a\x1b[1mb\x1b[mc\n"), "abc\n");
}

#[test]
fn what_is_no_colour_code_stays() {
    // No bracket, no letter at the end, a parameter of another kind.
    assert_eq!(strip_ansi("\x1b(0m"), "\x1b(0m");
    assert_eq!(strip_ansi("a\x1b[12;"), "a\x1b[12;");
    assert_eq!(strip_ansi("\x1b[?25h"), "\x1b[?25h");
    assert_eq!(strip_ansi("\x1b"), "\x1b");
    assert_eq!(strip_ansi("\x1b["), "\x1b[");
    // A code that was cut in two does not swallow the one behind it.
    assert_eq!(strip_ansi("\x1b[1\x1b[0mx"), "\x1b[1x");
}

#[test]
fn stripping_never_lengthens() {
    for text in ["", "\x1b[0m", "a\x1b[0mb", "\x1b\x1b[0m[1m"] {
        assert!(strip_ansi(text).len() <= text.len());
    }
    // The rest of one code may complete another: stripping twice can go further.
    assert_eq!(strip_ansi("\x1b\x1b[0m[1m"), "\x1b[1m");
}

#[test]
fn truncation_counts_characters() {
    assert_eq!(truncate("hello", 5), "hello");
    assert_eq!(truncate("hello world", 8), "hello...");
    assert_eq!(truncate("größere", 7), "größere");
    assert_eq!(truncate("größere", 6), "grö...");
    assert_eq!(truncate("hello", 3), "...");
    assert_eq!(truncate("hello", 2), "...");
    assert_eq!(truncate("", 0), "");
    let once = truncate("a rather long message", 10);
    assert_eq!(once.chars().count(), 10);
    assert_eq!(truncate(&once, 10), once);
}

#[test]
fn compact_names_have_at_most_one_dot() {
    assert_eq!(compact_test_name(""), "");
    assert_eq!(compact_test_name("main"), "main");
    assert_eq!(compact_test_name("A.b"), "A.b");
    assert_eq!(compact_test_name(".A.b"), "A.b");
    assert_eq!(compact_test_name("x.y.A.b"), "A.b");
    assert_eq!(compact_test_name("x..b"), ".b");
    assert_eq!(compact_test_name("x.y."), "y.");
    let once = compact_test_name("com.x.FooTest.testBar");
    assert_eq!(compact_test_name(&once), once);
}

#[test]
fn every_kind_of_noise_is_told() {
    for line in [
        "",
        " \t\u{2003}",
        "[INFO]",
        "[INFO] -----<",
        "[INFO] -----< com.edeal:core >-----",
        "[INFO] ======",
        "[INFO] Downloading\u{a0}x",
        "Downloading: x",
        "Downloaded: x",
        "Progress (2)",
        "[INFO] skip non existing resourceDirectory",
        "[INFO] Copying 1 resource",
        "[INFO] Copying 12 resources from a to b",
        "[INFO] Copying \u{663}\u{664} resources",
        "[INFO] Changes detected - recompiling",
        "[INFO] Finished at: now",
        "[INFO]   from core/pom.xml",
        "[INFO] Using auto detected provider x",
    ] {
        assert!(is_noise_line(line), "not taken for noise: {:?}", line);
    }
    for line in [
        "[INFO] ---x",
        "[INFO] ====",
        "[INFO] Downloading",
        "[INFO] Downloadingx",
        " Progress",
        "[INFO] Copying resources",
        "[INFO] Copying 3 files",
        "[INFO]   from pom.xml",
        "[INFO] from /pom.xml",
        "[INFO] from a b/pom.xml",
        "[INFO]\u{200b}",
        "[info]",
    ] {
        assert!(!is_noise_line(line), "taken for noise: {:?}", line);
    }
}

#[test]
fn compile_errors_name_an_absolute_path() {
    assert!(is_compile_error("[ERROR]\t/a"));
    assert!(is_compile_error("[ERROR]   z:/a"));
    assert!(!is_compile_error("[ERROR]/a"));
    assert!(!is_compile_error("[ERROR] a/b"));
    assert!(!is_compile_error("[ERROR] C:a"));
    assert!(!is_compile_error("[ERROR] ÄB:/a"));
    assert!(!is_compile_error(" [ERROR] /a"));
}
