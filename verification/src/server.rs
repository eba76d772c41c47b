//! When a client that waits for its answer counts as gone.

use vstd::prelude::*;

verus! {

/// What a look at the connection of a client tells.
#[derive(Debug, Clone, Copy, PartialEq, Eq, Structural)]
pub enum Look {
    /// The client is gone.
    Gone,
    /// It takes another look, after this time in milliseconds.
    Again(u64),
}

/// How long to wait before another look.
pub const CONFIRM_MS: u64 = 50;

/// What a look tells. A connection that can be read has ended, or has failed, or holds data:
/// `peeked` is the number of bytes, if it could be told. A client that waits for its answer
/// should not send anything, so data that is still there at the second look counts as the end
/// too.
pub open spec fn look_tells(second: bool, readable: bool, peeked: Option<usize>) -> Look {
    match peeked {
        Some(n) if n > 0 && readable && !second => Look::Again(CONFIRM_MS),
        _ => Look::Gone,
    }
}

/// Decides what a look at a connection tells.
pub fn judge_look(second: bool, readable: bool, peeked: Option<usize>) -> (r: Look)
    ensures
        r == look_tells(second, readable, peeked),
{
    match peeked {
        Some(n) => if n > 0 && readable && !second {
            Look::Again(CONFIRM_MS)
        } else {
            Look::Gone
        },
        None => Look::Gone,
    }
}

/// A connection is looked at no more than twice.
pub proof fn law_second_look_decides(readable: bool, peeked: Option<usize>)
    ensures
        look_tells(true, readable, peeked) == Look::Gone,
{
}

/// A client that waits for its answer counts as gone at the first look if its connection has ended,
/// has failed or cannot be read; only data that can be read there leads to a second look, which is
/// made a moment later.
pub proof fn law_first_look(readable: bool, peeked: Option<usize>)
    ensures
        look_tells(false, readable, peeked) is Again <==> readable && peeked is Some && peeked->0
            > 0,
        look_tells(false, readable, peeked) matches Look::Again(ms) ==> ms == 50,
{
}

}
