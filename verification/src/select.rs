//! The display selection rule.
//!
//! At startup the operator picks one of the available displays from a
//! 1-indexed menu; with exactly one display the choice is automatic.
//! The rule that turns a menu entry into a display index is here; the
//! menu itself, and the display handles, belong to the shell around the
//! library.

use vstd::prelude::*;

verus! {

/// Which display a menu entry denotes: entry `k` of a 1-indexed menu over
/// `count` displays names display `k - 1`; anything else is rejected and
/// the operator is asked again.
pub fn choose_display(count: usize, entry: usize) -> (r: Option<usize>)
    ensures
        (r is Some) <==> 1 <= entry <= count,
        r matches Some(i) ==> i == entry - 1,
{
    if 1 <= entry && entry <= count {
        Some(entry - 1)
    } else {
        None
    }
}

/// Whether selection is automatic: with exactly one display the menu is
/// skipped and display 0 is chosen.
pub fn auto_choice(count: usize) -> (r: Option<usize>)
    ensures
        (r is Some) <==> count == 1,
        r matches Some(i) ==> i == 0,
{
    if count == 1 {
        Some(0)
    } else {
        None
    }
}

} // verus!
