//! Statically checked equality assertions over optional values.  The
//! original helpers aborted the process when the two sides differed; here
//! the mismatch case is ruled out by contract, so a verified caller can
//! never reach it and an unverified caller documents the claim it makes.
use vstd::prelude::*;

verus! {

pub struct AssertHelper {}

/// The two optional vectors agree: both absent, or both present with equal
/// contents.
pub open spec fn option_vec_agrees(expected: Option<Vec<i32>>, actual: Option<Vec<i32>>) -> bool {
    match (expected, actual) {
        (Option::Some(e), Option::Some(a)) => e@ == a@,
        (Option::None, Option::None) => true,
        _ => false,
    }
}

impl AssertHelper {
    /// Asserts that two optional values agree; the disagreeing inputs are
    /// excluded by contract.
    pub fn option_equal_debug(expected: Option<i32>, actual: Option<i32>)
        requires
            expected == actual,
    {
        match (expected, actual) {
            (Option::Some(e), Option::Some(a)) => {
                assert(e == a);
            },
            (Option::None, Option::None) => {},
            _ => {
                assert(false);
            },
        }
    }

    /// Asserts that two optional vectors agree; the disagreeing inputs are
    /// excluded by contract.
    pub fn option_equal_vec(expected: Option<Vec<i32>>, actual: Option<Vec<i32>>)
        requires
            option_vec_agrees(expected, actual),
    {
        match (expected, actual) {
            (Option::Some(e), Option::Some(a)) => {
                Self::assert_vec_equal(e, a);
            },
            (Option::None, Option::None) => {},
            _ => {
                assert(false);
            },
        }
    }

    /// Asserts that two vectors hold the same elements in the same order;
    /// differing inputs are excluded by contract.
    pub fn assert_vec_equal(expected: Vec<i32>, actual: Vec<i32>)
        requires
            expected@ == actual@,
    {
        let n: usize = expected.len();
        let mut i: usize = 0;
        while i < n
            invariant
                n == expected.len(),
                expected@ == actual@,
            decreases n - i,
        {
            assert(expected[i as int] == actual[i as int]);
            i = i + 1;
        }
    }
}

} // verus!
