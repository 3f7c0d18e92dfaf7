//! Ring topology helper: the servers form a fixed logical ring with
//! 1-indexed member identifiers, and election messages travel from each
//! member to its successor.

use vstd::prelude::*;

verus! {

/// Number of servers in the fixed ring.
pub const RING_SIZE: u16 = 3;

/// A valid member identifier for a ring of `n` members.
pub open spec fn valid_member(id: u16, n: u16) -> bool {
    1 <= id <= n
}

/// The member that follows `id` on a ring of `n` members.
pub open spec fn spec_successor(id: u16, n: u16) -> u16
    recommends
        valid_member(id, n),
{
    if id == n {
        1
    } else {
        (id + 1) as u16
    }
}

/// The member that precedes `id` on a ring of `n` members.
pub open spec fn spec_predecessor(id: u16, n: u16) -> u16
    recommends
        valid_member(id, n),
{
    if id == 1 {
        n
    } else {
        (id - 1) as u16
    }
}

/// The next member on the ring after `id`.
pub fn successor(id: u16, n: u16) -> (next: u16)
    requires
        valid_member(id, n),
    ensures
        next == spec_successor(id, n),
        valid_member(next, n),
{
    if id == n {
        1
    } else {
        id + 1
    }
}

/// The previous member on the ring before `id`.
pub fn predecessor(id: u16, n: u16) -> (prev: u16)
    requires
        valid_member(id, n),
    ensures
        prev == spec_predecessor(id, n),
        valid_member(prev, n),
{
    if id == 1 {
        n
    } else {
        id - 1
    }
}

/// Walking one step forward and one step back returns to the start,
/// and the other way round.
pub proof fn lemma_ring_inverse(id: u16, n: u16)
    requires
        valid_member(id, n),
    ensures
        spec_predecessor(spec_successor(id, n), n) == id,
        spec_successor(spec_predecessor(id, n), n) == id,
{
}

} // verus!
