//! What one step of a player does, in terms of the arithmetic that is handed in.
use crate::laws::numbers::{magnitude, magnitudes_tell, over_a_hundredth};
use crate::shared::{Coord, Position};
use crate::world::{stepped, way, PlayerEntity};
use vstd::prelude::*;

verus! {

/// Whether `d` may be what is left of the way from `b` to `a`: nothing from a finite number
/// to itself, and otherwise what the subtraction gives.
pub open spec fn may_be_left<D: Fn(Coord, Coord) -> Coord>(
    difference: D,
    a: Coord,
    b: Coord,
    d: Coord,
) -> bool {
    if a.bits == b.bits && magnitude(a) < 0x7f80_0000 {
        d.bits == 0
    } else {
        call_ensures(difference, (a, b), d)
    }
}

proof fn lemma_left<D: Fn(Coord, Coord) -> Coord>(difference: D, a: Coord, b: Coord, d: Coord)
    ensures
        may_be_left(difference, a, b, d) == way(difference, a, b, d),
{
    magnitudes_tell(a);
}

/// Who is more than a hundredth from their destination, in either direction and however
/// far, walks: both coordinates advance by what is left of the way. Everybody else stays.
/// Nothing but the position changes.
pub proof fn whoever_is_not_there_walks<
    D: Fn(Coord, Coord) -> Coord,
    A: Fn(Coord, Coord) -> Coord,
>(difference: D, advance: A, before: PlayerEntity, after: PlayerEntity)
    requires
        stepped(difference, advance, before, after),
    ensures
        after.player_id == before.player_id,
        after.target == before.target,
        exists|dx: Coord, dy: Coord|
            {
                &&& #[trigger] may_be_left(difference, before.target.0.x, before.position.x, dx)
                &&& #[trigger] may_be_left(difference, before.target.0.y, before.position.y, dy)
                &&& over_a_hundredth(dx) || over_a_hundredth(dy) ==> call_ensures(
                    advance,
                    (before.position.x, dx),
                    after.position.x,
                ) && call_ensures(advance, (before.position.y, dy), after.position.y)
                &&& !over_a_hundredth(dx) && !over_a_hundredth(dy) ==> after.position
                    == before.position
            },
{
    let pos = before.position;
    let target = before.target.0;
    let (dx, dy) = choose|dx: Coord, dy: Coord| #[trigger]
        way(difference, target.x, pos.x, dx) && #[trigger] way(difference, target.y, pos.y, dy)
            && if dx.far() || dy.far() {
            call_ensures(advance, (pos.x, dx), after.position.x) && call_ensures(
                advance,
                (pos.y, dy),
                after.position.y,
            )
        } else {
            after.position == pos
        };
    lemma_left(difference, target.x, pos.x, dx);
    lemma_left(difference, target.y, pos.y, dy);
    magnitudes_tell(dx);
    magnitudes_tell(dy);
}

/// What is left of the way from `b` to `a`, where a subtraction is given as a function.
pub open spec fn left(minus: spec_fn(Coord, Coord) -> Coord, a: Coord, b: Coord) -> Coord {
    if a.bits == b.bits && magnitude(a) < 0x7f80_0000 {
        Coord { bits: 0 }
    } else {
        minus(a, b)
    }
}

/// With arithmetic that gives one result, a step has one result: who is more than a
/// hundredth from their destination comes to where they were, advanced by what is left of
/// the way in each direction, and everybody else stays.
pub proof fn a_step_goes_here<
    D: Fn(Coord, Coord) -> Coord,
    A: Fn(Coord, Coord) -> Coord,
>(
    difference: D,
    advance: A,
    minus: spec_fn(Coord, Coord) -> Coord,
    plus: spec_fn(Coord, Coord) -> Coord,
    before: PlayerEntity,
    after: PlayerEntity,
)
    requires
        forall|a: Coord, b: Coord, d: Coord| #[trigger]
            call_ensures(difference, (a, b), d) ==> d == minus(a, b),
        forall|a: Coord, d: Coord, r: Coord| #[trigger]
            call_ensures(advance, (a, d), r) ==> r == plus(a, d),
        stepped(difference, advance, before, after),
    ensures
        ({
            let dx = left(minus, before.target.0.x, before.position.x);
            let dy = left(minus, before.target.0.y, before.position.y);
            after.position == (if over_a_hundredth(dx) || over_a_hundredth(dy) {
                Position { x: plus(before.position.x, dx), y: plus(before.position.y, dy) }
            } else {
                before.position
            })
        }),
{
    whoever_is_not_there_walks(difference, advance, before, after);
    let (dx, dy) = choose|dx: Coord, dy: Coord|
        {
            &&& #[trigger] may_be_left(difference, before.target.0.x, before.position.x, dx)
            &&& #[trigger] may_be_left(difference, before.target.0.y, before.position.y, dy)
            &&& over_a_hundredth(dx) || over_a_hundredth(dy) ==> call_ensures(
                advance,
                (before.position.x, dx),
                after.position.x,
            ) && call_ensures(advance, (before.position.y, dy), after.position.y)
            &&& !over_a_hundredth(dx) && !over_a_hundredth(dy) ==> after.position
                == before.position
        };
    assert(dx == left(minus, before.target.0.x, before.position.x));
    assert(dy == left(minus, before.target.0.y, before.position.y));
}

} // verus!
