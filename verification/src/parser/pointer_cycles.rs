//! Names that never end: a chain of labels and compression pointers that
//! comes back to a place where it has been is refused by the reader.

use vstd::prelude::*;
use super::parsing_error::{NameFault, ParseError};
use super::query_name_parser::{is_pointer, name_labels, pointer_target, MAX_JUMPS};
use super::wrapped_buffer::BUFFER_SIZE;

verus! {

/// Where the reading of a name goes on behind what stands at `pos`: at the
/// target of a pointer, or behind a label. There is no such place where the
/// name ends at `pos` or the reading leaves the buffer.
pub open spec fn next_position(bytes: Seq<u8>, pos: int) -> Option<int> {
    if pos < 0 || pos >= BUFFER_SIZE {
        None
    } else if is_pointer(bytes[pos]) {
        if pos + 1 >= BUFFER_SIZE {
            None
        } else {
            Some(pointer_target(bytes[pos], bytes[pos + 1]))
        }
    } else if bytes[pos] == 0 || pos + 1 + bytes[pos] > BUFFER_SIZE {
        None
    } else {
        Some(pos + 1 + bytes[pos])
    }
}

/// Where the reading of the name at `pos` stands after `steps` labels and
/// pointers, if it gets that far.
pub open spec fn position_after(bytes: Seq<u8>, pos: int, steps: nat) -> Option<int>
    decreases steps,
{
    if steps == 0 {
        Some(pos)
    } else {
        match next_position(bytes, pos) {
            None => None,
            Some(next) => position_after(bytes, next, (steps - 1) as nat),
        }
    }
}

/// Whether the name at `pos` contains a cycle: after some steps its reading
/// stands at a place to which further steps, one at least, lead back.
pub open spec fn has_cycle(bytes: Seq<u8>, pos: int) -> bool {
    exists|lead: nat, period: nat|
        period > 0 && #[trigger] leads_back(bytes, pos, lead, period)
}

/// Whether the reading of the name at `pos` stands, after `lead` steps, at
/// a place to which `period` further steps lead back.
pub open spec fn leads_back(bytes: Seq<u8>, pos: int, lead: nat, period: nat) -> bool {
    match position_after(bytes, pos, lead) {
        None => false,
        Some(place) => position_after(bytes, place, period) == Some(place),
    }
}

/// Whether the reading of the name at `pos` never comes to an end.
pub open spec fn endless(bytes: Seq<u8>, pos: int) -> bool {
    forall|steps: nat| (#[trigger] position_after(bytes, pos, steps)) is Some
}

/// Steps in a row: where the reading stands after `first + second` steps is
/// where it stands `second` steps behind the place reached by `first`.
pub proof fn lemma_steps_in_a_row(bytes: Seq<u8>, pos: int, first: nat, second: nat)
    ensures
        position_after(bytes, pos, first + second) == match position_after(bytes, pos, first) {
            None => None,
            Some(place) => position_after(bytes, place, second),
        },
    decreases first,
{
    if first > 0 {
        if let Some(next) = next_position(bytes, pos) {
            lemma_steps_in_a_row(bytes, next, (first - 1) as nat, second);
            assert((first + second - 1) as nat == (first - 1) as nat + second);
        }
    }
}

/// A place to which some steps lead back is reached again and again.
proof fn lemma_round_and_round(bytes: Seq<u8>, place: int, period: nat, rounds: nat)
    requires
        position_after(bytes, place, period) == Some(place),
    ensures
        position_after(bytes, place, rounds * period) == Some(place),
    decreases rounds,
{
    if rounds > 0 {
        lemma_round_and_round(bytes, place, period, (rounds - 1) as nat);
        lemma_steps_in_a_row(bytes, place, ((rounds - 1) * period) as nat, period);
        assert((rounds - 1) * period + period == rounds * period) by (nonlinear_arith);
    } else {
        assert(rounds * period == 0) by (nonlinear_arith)
            requires
                rounds == 0,
        ;
    }
}

/// The reading of a name that contains a cycle never comes to an end.
pub proof fn lemma_cycle_is_endless(bytes: Seq<u8>, pos: int)
    requires
        has_cycle(bytes, pos),
    ensures
        endless(bytes, pos),
{
    let (lead, period) = choose|lead: nat, period: nat|
        period > 0 && #[trigger] leads_back(bytes, pos, lead, period);
    let place = position_after(bytes, pos, lead)->Some_0;
    assert forall|steps: nat| (#[trigger] position_after(bytes, pos, steps)) is Some by {
        // Enough rounds to get past `steps`.
        let rounds = steps + 1;
        lemma_round_and_round(bytes, place, period, rounds);
        lemma_steps_in_a_row(bytes, pos, lead, rounds * period);
        let far = lead + rounds * period;
        assert(rounds * period >= rounds) by (nonlinear_arith)
            requires
                period >= 1,
        ;
        assert(position_after(bytes, pos, far) is Some);
        lemma_steps_in_a_row(bytes, pos, steps, (far - steps) as nat);
        assert(steps + (far - steps) as nat == far);
    }
}

/// An endless name goes on endlessly behind its first step.
proof fn lemma_endless_goes_on(bytes: Seq<u8>, pos: int)
    requires
        endless(bytes, pos),
    ensures
        next_position(bytes, pos) is Some,
        endless(bytes, next_position(bytes, pos)->Some_0),
{
    assert(position_after(bytes, pos, 1) is Some);
    let next = next_position(bytes, pos)->Some_0;
    assert forall|steps: nat| (#[trigger] position_after(bytes, next, steps)) is Some by {
        assert(position_after(bytes, pos, steps + 1) is Some);
    }
}

/// The reading of a name that never comes to an end is given up as soon as
/// more than five pointers were followed.
pub proof fn lemma_endless_is_refused(bytes: Seq<u8>, pos: int, jumps: int)
    requires
        endless(bytes, pos),
        0 <= jumps,
    ensures
        name_labels(bytes, pos, jumps) == Err::<Seq<Seq<u8>>, ParseError>(
            ParseError::MalformedName(NameFault::TooManyJumps),
        ),
    decreases MAX_JUMPS + 1 - jumps, BUFFER_SIZE - pos,
{
    if jumps <= MAX_JUMPS {
        lemma_endless_goes_on(bytes, pos);
        let next = next_position(bytes, pos)->Some_0;
        if is_pointer(bytes[pos]) {
            lemma_endless_is_refused(bytes, next, jumps + 1);
        } else {
            lemma_endless_is_refused(bytes, next, jumps);
        }
    }
}

/// A name that contains a pointer cycle is malformed: its reading is given
/// up once more than five pointers were followed.
pub proof fn lemma_cycle_is_refused(bytes: Seq<u8>, pos: int)
    requires
        has_cycle(bytes, pos),
    ensures
        name_labels(bytes, pos, 0) == Err::<Seq<Seq<u8>>, ParseError>(
            ParseError::MalformedName(NameFault::TooManyJumps),
        ),
{
    lemma_cycle_is_endless(bytes, pos);
    lemma_endless_is_refused(bytes, pos, 0);
}

} // verus!
