//! Ring-based leader election among the three servers.
//!
//! One round is one election: the initiator sends its identifier and load to
//! its ring-successor, each successor forwards the pairwise minimum, and the
//! last member of the ring determines the three-way minimum and broadcasts
//! the winner to the other two members. The member with the lowest load wins;
//! on equal loads the smaller identifier wins.
//!
//! Loads are integer scalars in tenths of the simulated memory-usage unit,
//! so a load of `1.0` units is stored as `10`.

use vstd::prelude::*;
use crate::ring::{valid_member, spec_successor, successor, RING_SIZE};

verus! {

/// How much a member's load grows on learning that it won a round
/// (two whole units, in tenths).
pub const LEADER_LOAD_INCREMENT: u64 = 20;

/// One election message: the identifier and load of the best candidate
/// seen so far on the ring walk.
#[derive(Clone, Copy, PartialEq, Eq, Structural, Debug)]
pub struct LoadInfo {
    /// Ring member identifier, 1-indexed.
    pub id: u16,
    /// The member's load scalar, in tenths of a unit.
    pub load: u64,
}

/// True when candidate `a` beats candidate `b`: strictly lower load, or
/// equal load and strictly smaller identifier.
pub open spec fn spec_beats(a: LoadInfo, b: LoadInfo) -> bool {
    a.load < b.load || (a.load == b.load && a.id < b.id)
}

/// The better of two candidates; on a tie in both load and identifier the
/// first argument is kept.
pub open spec fn spec_better(a: LoadInfo, b: LoadInfo) -> LoadInfo {
    if spec_beats(b, a) {
        b
    } else {
        a
    }
}

/// The candidate entry a member contributes to a round, given the round's
/// per-member loads (`loads[k - 1]` is the load of member `k`).
pub open spec fn spec_candidate(loads: Seq<u64>, id: u16) -> LoadInfo
    recommends
        loads.len() == RING_SIZE,
        valid_member(id, RING_SIZE),
{
    LoadInfo { id, load: loads[id - 1] }
}

/// The winner of one election round: the three-way minimum over the ring
/// walk that starts at `initiator`.
pub open spec fn spec_round_winner(loads: Seq<u64>, initiator: u16) -> LoadInfo
    recommends
        loads.len() == RING_SIZE,
        valid_member(initiator, RING_SIZE),
{
    let first = spec_successor(initiator, RING_SIZE);
    let second = spec_successor(first, RING_SIZE);
    spec_better(
        spec_better(spec_candidate(loads, initiator), spec_candidate(loads, first)),
        spec_candidate(loads, second),
    )
}

/// The part a member plays in one round, determined by its distance from
/// the initiator along the ring.
#[derive(Clone, Copy, PartialEq, Eq, Structural, Debug)]
pub enum ElectionRole {
    /// Starts the walk by announcing its own candidate entry.
    Initiator,
    /// Receives the initiator's entry and forwards the pairwise minimum.
    FirstHop,
    /// Receives the forwarded entry, determines the three-way minimum and
    /// broadcasts the winner to the other two members.
    SecondHop,
}

/// The part `server_num` plays in a round initiated by `initiator`.
pub open spec fn spec_role_of(server_num: u16, initiator: u16) -> ElectionRole
    recommends
        valid_member(server_num, RING_SIZE),
        valid_member(initiator, RING_SIZE),
{
    if server_num == initiator {
        ElectionRole::Initiator
    } else if server_num == spec_successor(initiator, RING_SIZE) {
        ElectionRole::FirstHop
    } else {
        ElectionRole::SecondHop
    }
}

/// Determines the part `server_num` plays in a round initiated by
/// `initiator`.
pub fn role_of(server_num: u16, initiator: u16) -> (role: ElectionRole)
    requires
        valid_member(server_num, RING_SIZE),
        valid_member(initiator, RING_SIZE),
    ensures
        role == spec_role_of(server_num, initiator),
{
    if server_num == initiator {
        ElectionRole::Initiator
    } else if server_num == successor(initiator, RING_SIZE) {
        ElectionRole::FirstHop
    } else {
        ElectionRole::SecondHop
    }
}

/// The candidate entry this member sends into the round.
pub fn own_candidate(server_num: u16, load: u64) -> (info: LoadInfo)
    ensures
        info.id == server_num,
        info.load == load,
{
    LoadInfo { id: server_num, load }
}

/// One comparison hop of the ring walk: keeps the received candidate or
/// replaces it with this member's own entry, whichever is better.
pub fn forward_better(received: LoadInfo, own: LoadInfo) -> (kept: LoadInfo)
    ensures
        kept == spec_better(received, own),
        kept == received || kept == own,
{
    if own.load < received.load || (own.load == received.load && own.id < received.id) {
        own
    } else {
        received
    }
}

/// What a member does on receiving the winner broadcast: it adopts the
/// announced identifier as the round's leader.
pub fn adopt_winner(broadcast: LoadInfo) -> (leader: u16)
    ensures
        leader == broadcast.id,
{
    broadcast.id
}

/// A member that learned it won bumps its own load, so that leadership
/// rotates under otherwise equal conditions.
pub fn apply_leader_increment(load: u64) -> (bumped: u64)
    requires
        load + LEADER_LOAD_INCREMENT <= u64::MAX,
    ensures
        bumped == load + LEADER_LOAD_INCREMENT,
{
    load + LEADER_LOAD_INCREMENT
}

/// Runs a whole round over the three per-member loads, composing the hops
/// exactly as the three members do over the wire: announce, forward the
/// pairwise minimum, conclude, broadcast.
pub fn round_winner(loads: &Vec<u64>, initiator: u16) -> (winner: LoadInfo)
    requires
        loads.len() == RING_SIZE,
        valid_member(initiator, RING_SIZE),
    ensures
        winner == spec_round_winner(loads@, initiator),
        valid_member(winner.id, RING_SIZE),
        winner.load == loads@[winner.id - 1],
{
    let first = successor(initiator, RING_SIZE);
    let second = successor(first, RING_SIZE);
    let announced = own_candidate(initiator, loads[(initiator - 1) as usize]);
    let forwarded = forward_better(announced, own_candidate(first, loads[(first - 1) as usize]));
    let concluded = forward_better(forwarded, own_candidate(second, loads[(second - 1) as usize]));
    concluded
}

/// The leader in one member's local view: the conclusion the member reaches
/// itself when it plays the last hop of the walk, and the identifier adopted
/// from the winner broadcast otherwise.
pub open spec fn spec_local_view(loads: Seq<u64>, initiator: u16, node: u16) -> u16
    recommends
        loads.len() == RING_SIZE,
        valid_member(initiator, RING_SIZE),
        valid_member(node, RING_SIZE),
{
    match spec_role_of(node, initiator) {
        ElectionRole::SecondHop => {
            let first = spec_successor(initiator, RING_SIZE);
            spec_better(
                spec_better(spec_candidate(loads, initiator), spec_candidate(loads, first)),
                spec_candidate(loads, node),
            ).id
        },
        _ => spec_round_winner(loads, initiator).id,
    }
}

/// Exactly one of the three members is selected as leader on each round:
/// the winner is a valid member, it carries that member's load, it is the
/// three-way minimum under the load-then-identifier order, and every
/// member's local view selects the same identifier.
pub proof fn lemma_round_consistency(loads: Seq<u64>, initiator: u16, node: u16)
    requires
        loads.len() == RING_SIZE,
        valid_member(initiator, RING_SIZE),
        valid_member(node, RING_SIZE),
    ensures
        valid_member(spec_round_winner(loads, initiator).id, RING_SIZE),
        spec_round_winner(loads, initiator).load
            == loads[spec_round_winner(loads, initiator).id - 1],
        forall|k: u16|
            valid_member(k, RING_SIZE) ==> !spec_beats(
                spec_candidate(loads, k),
                spec_round_winner(loads, initiator),
            ),
        spec_local_view(loads, initiator, node) == spec_round_winner(loads, initiator).id,
{
}

/// The election outcome is a function of the loads and the initiator alone:
/// two rounds over equal inputs select the same leader.
pub proof fn lemma_round_deterministic(
    loads_a: Seq<u64>,
    loads_b: Seq<u64>,
    initiator_a: u16,
    initiator_b: u16,
)
    requires
        loads_a.len() == RING_SIZE,
        valid_member(initiator_a, RING_SIZE),
        loads_a =~= loads_b,
        initiator_a == initiator_b,
    ensures
        spec_round_winner(loads_a, initiator_a) == spec_round_winner(loads_b, initiator_b),
{
}


/// A member whose load has spiked cedes leadership: as long as any other
/// member's load is below the spike threshold, the spiked member cannot
/// win a round, whoever initiates it.
pub proof fn lemma_spiked_member_cedes(
    loads: Seq<u64>,
    initiator: u16,
    spiked: u16,
    healthy: u16,
)
    requires
        loads.len() == RING_SIZE,
        valid_member(initiator, RING_SIZE),
        valid_member(spiked, RING_SIZE),
        valid_member(healthy, RING_SIZE),
        loads[spiked - 1] >= crate::fault::SPIKE_THRESHOLD,
        loads[healthy - 1] < crate::fault::SPIKE_THRESHOLD,
    ensures
        spec_round_winner(loads, initiator).id != spiked,
{
    lemma_round_consistency(loads, initiator, initiator);
    let winner = spec_round_winner(loads, initiator);
    if winner.id == spiked {
        assert(!spec_beats(spec_candidate(loads, healthy), winner));
        assert(spec_candidate(loads, healthy).load < winner.load);
    }
}

/// The loads after one round: the winner's own load grows by the leader
/// increment, saturating at the top of the range; everyone else is
/// untouched.
pub open spec fn spec_bump_winner(loads: Seq<u64>, winner: u16) -> Seq<u64>
    recommends
        loads.len() == RING_SIZE,
        valid_member(winner, RING_SIZE),
{
    let bumped = if loads[winner - 1] + LEADER_LOAD_INCREMENT <= u64::MAX {
        (loads[winner - 1] + LEADER_LOAD_INCREMENT) as u64
    } else {
        u64::MAX
    };
    loads.update(winner - 1, bumped)
}

/// The leaders of `n` consecutive rounds, starting from the given loads
/// and initiator, with no simulated faults: each round's winner bumps its
/// load and initiates the next round.
pub open spec fn spec_leader_sequence(loads: Seq<u64>, initiator: u16, n: nat) -> Seq<u16>
    recommends
        loads.len() == RING_SIZE,
        valid_member(initiator, RING_SIZE),
    decreases n,
{
    if n == 0 {
        Seq::empty()
    } else {
        let winner = spec_round_winner(loads, initiator).id;
        seq![winner] + spec_leader_sequence(spec_bump_winner(loads, winner), winner, (n - 1) as nat)
    }
}

/// With fixed initial loads and no simulated faults, the whole leader
/// sequence over any number of rounds is a function of those loads and
/// the first initiator alone: two runs over equal inputs reproduce it
/// exactly.
pub proof fn lemma_leader_sequence_deterministic(
    loads_a: Seq<u64>,
    loads_b: Seq<u64>,
    initiator_a: u16,
    initiator_b: u16,
    n: nat,
)
    requires
        loads_a.len() == RING_SIZE,
        valid_member(initiator_a, RING_SIZE),
        loads_a =~= loads_b,
        initiator_a == initiator_b,
    ensures
        spec_leader_sequence(loads_a, initiator_a, n) == spec_leader_sequence(
            loads_b,
            initiator_b,
            n,
        ),
{
}

/// Runs `n` election rounds with no simulated faults, as the scenario
/// tests replay them: the winner of each round bumps its own load and
/// initiates the next.
pub fn leader_sequence(loads: &Vec<u64>, initiator: u16, n: usize) -> (leaders: Vec<u16>)
    requires
        loads.len() == RING_SIZE,
        valid_member(initiator, RING_SIZE),
    ensures
        leaders@ == spec_leader_sequence(loads@, initiator, n as nat),
{
    let mut current: Vec<u64> = loads.clone();
    proof {
        assert(current@ =~= loads@);
    }
    let mut starter = initiator;
    let mut leaders: Vec<u16> = Vec::new();
    let mut k: usize = 0;
    while k < n
        invariant
            0 <= k <= n,
            current@.len() == RING_SIZE,
            valid_member(starter, RING_SIZE),
            leaders@.len() == k,
            spec_leader_sequence(loads@, initiator, n as nat) =~= leaders@
                + spec_leader_sequence(current@, starter, (n - k) as nat),
        decreases n - k,
    {
        let winner = round_winner(&current, starter);
        let ghost loads_before = current@;
        let ghost leaders_before = leaders@;
        let idx = (winner.id - 1) as usize;
        let bumped = if current[idx] <= u64::MAX - LEADER_LOAD_INCREMENT {
            current[idx] + LEADER_LOAD_INCREMENT
        } else {
            u64::MAX
        };
        current[idx] = bumped;
        leaders.push(winner.id);
        starter = winner.id;
        proof {
            assert(current@ =~= spec_bump_winner(loads_before, winner.id));
            assert(spec_leader_sequence(loads_before, spec_round_winner(loads_before, starter).id, (
            n - k) as nat) == spec_leader_sequence(loads_before, winner.id, (n - k) as nat));
            assert(leaders@ =~= leaders_before + seq![winner.id]);
            assert(spec_leader_sequence(loads_before, winner.id, (n - k) as nat) == seq![winner.id]
                + spec_leader_sequence(current@, winner.id, (n - k - 1) as nat));
            assert(spec_leader_sequence(loads@, initiator, n as nat) =~= leaders@
                + spec_leader_sequence(current@, starter, (n - k - 1) as nat));
        }
        k += 1;
    }
    proof {
        assert(spec_leader_sequence(current@, starter, 0) == Seq::<u16>::empty());
        assert(leaders@ + Seq::<u16>::empty() =~= leaders@);
    }
    leaders
}


} // verus!
