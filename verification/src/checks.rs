//! The decision kernel of a method-call check.
//!
//! A typical check fires on a method call when the method has a given name
//! and the receiver's type resolves to a given definition path.  Walking
//! the syntax tree and resolving the type belong to the host compiler; the
//! decision itself — name equal, path segments matching — is computed here
//! from plain values.

use vstd::prelude::*;

use crate::driver::views_of;
use crate::params::bytes_eq;

verus! {

/// Each expected segment matches the resolved path, compared pairwise up
/// to the shorter of the two: a path that ends early is not a mismatch.
pub open spec fn path_prefix_matches(expected: Seq<Seq<u8>>, path: Seq<Seq<u8>>) -> bool {
    forall|i: int|
        0 <= i < expected.len() && i < path.len() ==> expected[i] == path[i]
}

/// Decide whether a method call fires the check: the method name is the
/// expected one and the receiver's definition path matches the expected
/// segments pairwise.
pub fn method_call_matches(
    method_name: &Vec<u8>,
    expected_name: &Vec<u8>,
    path: &Vec<Vec<u8>>,
    expected_path: &Vec<Vec<u8>>,
) -> (r: bool)
    ensures
        r == (method_name@ == expected_name@ && path_prefix_matches(
            views_of(expected_path@),
            views_of(path@),
        )),
{
    if !bytes_eq(method_name, expected_name) {
        return false;
    }
    let ghost ev = views_of(expected_path@);
    let ghost pv = views_of(path@);
    let mut i: usize = 0;
    while i < expected_path.len() && i < path.len()
        invariant
            i <= ev.len(),
            ev == views_of(expected_path@),
            pv == views_of(path@),
            forall|k: int| 0 <= k < i && k < pv.len() ==> ev[k] == pv[k],
        decreases expected_path@.len() - i,
    {
        if !bytes_eq(&expected_path[i], &path[i]) {
            assert(ev[i as int] != pv[i as int]);
            return false;
        }
        i = i + 1;
    }
    true
}

} // verus!
