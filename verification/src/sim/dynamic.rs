//! Outcome of a test run. The mass-spring simulation that decides it runs on
//! floating-point numbers and lives in the application.

use vstd::prelude::*;

verus! {

#[derive(Clone, Copy, Debug, PartialEq, Eq, Structural)]
pub enum TestResult {
    Running,
    Won,
    Lost,
}

impl Default for TestResult {
    fn default() -> (r: Self)
        ensures
            r == TestResult::Running,
    {
        TestResult::Running
    }
}

} // verus!
