//! Small shared specification helpers.

use vstd::prelude::*;

verus! {

/// No element of the sequence occurs twice.
pub open spec fn unique_seq<T>(s: Seq<T>) -> bool {
    forall|i: int, j: int| 0 <= i < j < s.len() ==> s[i] != s[j]
}

} // verus!
