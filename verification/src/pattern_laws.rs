//! The patterns, letter by letter.

use vstd::prelude::*;

use crate::pattern::{
    BUILD_STATUS, COMPILE_ERROR, COMPILING, EXCEPTION, FAILURE_DETAIL, FAILURE_SUMMARY, NOISE,
    REACTOR_LINE, REACTOR_SUMMARY, STACK_TRACE, TEST_RESULT, TOTAL_TIME,
};

verus! {

/// The patterns are these. What the forms of lines say of a match is said of these
/// very texts.
pub proof fn law_patterns_are_as_written()
    ensures
        NOISE@ == r"^(?:\[INFO\]\s*$|\[INFO\] Scanning for projects|\[INFO\] -+(?:<|$)|\[INFO\] ={5,}|\[INFO\] Downloading\s|\[INFO\] Downloaded\s|Downloading:|Downloaded:|Progress|\[INFO\] --- maven-|\[INFO\] Using encoding|\[INFO\] skip non existing|\[INFO\] Nothing to compile|\[INFO\] Copying \d+ resources?|\[INFO\] Changes detected|\[INFO\] Finished at:|\[INFO\]\s+from\s+\S+/pom\.xml|\[INFO\] Using auto detected provider|\s*$)"@,
        TEST_RESULT@ == r"Tests run:\s*(\d+),\s*Failures:\s*(\d+),\s*Errors:\s*(\d+),\s*Skipped:\s*(\d+)"@,
        FAILURE_SUMMARY@ == r"^\[ERROR\]\s+(\S+\.\S+):(\d+)\s+(.+)"@,
        FAILURE_DETAIL@ == r"^\[ERROR\]\s+(\S+)\s+--\s+Time elapsed"@,
        REACTOR_LINE@ == r"^\[INFO\]\s+\S.*\.\.\s+(SUCCESS|FAILURE)\s+\["@,
        STACK_TRACE@ == r"^\s+at\s+"@,
        EXCEPTION@ == r"^(java\.\S+Exception|java\.\S+Error|org\.junit\.\S+Error)"@,
        BUILD_STATUS@ == r"^\[INFO\] BUILD (SUCCESS|FAILURE)"@,
        TOTAL_TIME@ == r"^\[INFO\] Total time:\s+(.+)"@,
        COMPILE_ERROR@ == r"^\[ERROR\]\s+(?:/|[A-Za-z]:[\\/])"@,
        REACTOR_SUMMARY@ == r"^\[INFO\] Reactor Summary"@,
        COMPILING@ == r"^\[INFO\] Compiling \d+ source files"@,
{
}

} // verus!
