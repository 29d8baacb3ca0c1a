//! Debug-selector checks. The selector itself is an explicit value handed
//! in by the host (set once at startup from the environment), not ambient
//! state.

use vstd::prelude::*;

use crate::text::str_eq;

verus! {

/// No debug selector is set.
pub fn debug_is_none(debug: &Option<String>) -> (r: bool)
    ensures
        r == (debug is None),
{
    matches!(debug, None)
}

/// Some debug selector is set, whatever it is.
pub fn debug_is_some_any(debug: &Option<String>) -> (r: bool)
    ensures
        r == (debug is Some),
{
    matches!(debug, Some(_))
}

/// The debug selector is set to exactly `s`.
pub fn debug_is_some(debug: &Option<String>, s: &str) -> (r: bool)
    ensures
        r == (debug is Some && debug->0@ == s@),
{
    match debug {
        Some(d) => str_eq(d.as_str(), s),
        None => false,
    }
}

/// A debug selector is set and it is none of the listed ones.
pub fn debug_is_some_except(debug: &Option<String>, lst: &Vec<String>) -> (r: bool)
    ensures
        r == (debug is Some && forall|i: int|
            0 <= i < lst@.len() ==> (#[trigger] lst@[i])@ != debug->0@),
{
    match debug {
        Some(d) => {
            let n = lst.len();
            let mut i: usize = 0;
            while i < n
                invariant
                    i <= n,
                    n == lst@.len(),
                    debug is Some,
                    d@ == debug->0@,
                    forall|k: int| 0 <= k < i ==> (#[trigger] lst@[k])@ != d@,
                decreases n - i,
            {
                if str_eq(lst[i].as_str(), d.as_str()) {
                    return false;
                }
                i = i + 1;
            }
            true
        },
        None => false,
    }
}

} // verus!
