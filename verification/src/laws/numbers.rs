//! What coordinates, rows and names are, in plain arithmetic.
use crate::login::{decimal, player_of_row, row_of_player, username_of, DbPlayer};
use crate::shared::{Coord, PlayerId, Position, MAGNITUDE_BITS};
use vstd::prelude::*;

verus! {

// ---------------------------------------------------------------------------
// Coordinates
// ---------------------------------------------------------------------------

/// The bits of a coordinate below its sign, as a number. The greater it is, the greater
/// the coordinate's distance from zero; at `0x7f80_0000` it is infinite, and above that
/// there is no number.
pub open spec fn magnitude(c: Coord) -> int {
    (c.bits as int) % 0x8000_0000
}

/// Whether a coordinate is a number that is more than a hundredth from zero.
pub open spec fn over_a_hundredth(c: Coord) -> bool {
    0x3c23_d70a < magnitude(c) <= 0x7f80_0000
}

pub proof fn lemma_magnitude(c: Coord)
    ensures
        (c.bits & MAGNITUDE_BITS) == magnitude(c),
{
    let b = c.bits;
    assert(b & 0x7fff_ffff == b % 0x8000_0000) by (bit_vector);
}

/// What is far from zero, what is finite, what is no number and what is zero follows from
/// the magnitude alone.
pub proof fn magnitudes_tell(c: Coord)
    ensures
        c.far() <==> over_a_hundredth(c),
        c.finite() <==> magnitude(c) < 0x7f80_0000,
        c.nan() <==> magnitude(c) > 0x7f80_0000,
        c.zero() <==> magnitude(c) == 0,
{
    lemma_magnitude(c);
}

/// A change of sign keeps the magnitude, and is undone by another one.
pub proof fn a_change_of_sign(c: Coord)
    ensures
        magnitude(c.negated()) == magnitude(c),
        (c.negated().bits < 0x8000_0000) != (c.bits < 0x8000_0000),
        c.negated().negated() == c,
{
    let b = c.bits;
    assert((b ^ 0x8000_0000) % 0x8000_0000 == b % 0x8000_0000) by (bit_vector);
    assert(((b ^ 0x8000_0000) < 0x8000_0000) != (b < 0x8000_0000)) by (bit_vector);
    assert((b ^ 0x8000_0000) ^ 0x8000_0000 == b) by (bit_vector);
}

/// Two coordinates are the same number if they have the same bits and are a number, or if
/// both are zero.
pub proof fn numbers_are_the_same(a: Coord, b: Coord)
    ensures
        a.same_number(b) <==> (a.bits == b.bits && magnitude(a) <= 0x7f80_0000) || (magnitude(a)
            == 0 && magnitude(b) == 0),
{
    lemma_magnitude(a);
    lemma_magnitude(b);
}

/// Two positions are the same place if they are in both coordinates.
pub proof fn places_are_the_same(a: Position, b: Position)
    ensures
        a.same_place(b) <==> a.x.same_number(b.x) && a.y.same_number(b.y),
{
}

// ---------------------------------------------------------------------------
// Rows
// ---------------------------------------------------------------------------

/// A row's key and its player's number are the same bits, once with a sign and once
/// without.
pub proof fn rows_and_players_have_the_same_bits(id: i64, player_id: PlayerId)
    ensures
        player_of_row(id).0 == (id as int) % 0x1_0000_0000_0000_0000,
        (row_of_player(player_id) as int) % 0x1_0000_0000_0000_0000 == player_id.0,
        row_of_player(player_id) == id <==> player_of_row(id) == player_id,
{
}

/// A player was last seen where their row says.
pub proof fn a_row_says_where(row: DbPlayer)
    ensures
        row.last_position().x == row.last_position_x,
        row.last_position().y == row.last_position_y,
{
}

// ---------------------------------------------------------------------------
// Names
// ---------------------------------------------------------------------------

/// The number that decimal digits stand for.
pub open spec fn value_of(digits: Seq<char>) -> int
    decreases digits.len(),
{
    if digits.len() == 0 {
        0
    } else {
        10 * value_of(digits.drop_last()) + (digits.last() as int - '0' as int)
    }
}

/// Whether all characters are decimal digits, and the first is a zero only if it stands
/// alone.
pub open spec fn is_numeral(digits: Seq<char>) -> bool {
    &&& digits.len() > 0
    &&& forall|i: int| 0 <= i < digits.len() ==> '0' <= (#[trigger] digits[i]) <= '9'
    &&& digits.len() > 1 ==> digits[0] != '0'
}

proof fn lemma_decimal(n: nat)
    ensures
        is_numeral(decimal(n)),
        value_of(decimal(n)) == n,
        n > 0 ==> decimal(n)[0] != '0',
    decreases n,
{
    let digits = decimal(n);
    if n >= 10 {
        lemma_decimal(n / 10);
        let front = decimal(n / 10);
        assert(digits.drop_last() =~= front);
        assert(digits[0] == front[0]);
        assert forall|i: int| 0 <= i < digits.len() implies '0' <= (#[trigger] digits[i])
            <= '9' by {
            if i < front.len() {
                assert(digits[i] == front[i]);
            }
        }
    } else {
        reveal_with_fuel(value_of, 2);
    }
}

/// A client's name is the word for a player, and the client's number in decimal.
pub proof fn names_hold_the_number(client_id: nat)
    ensures
        username_of(client_id).take(7) == seq!['P', 'l', 'a', 'y', 'e', 'r', '_'],
        is_numeral(username_of(client_id).skip(7)),
        value_of(username_of(client_id).skip(7)) == client_id,
{
    reveal_strlit("Player_");
    lemma_decimal(client_id);
    assert(username_of(client_id).take(7) =~= seq!['P', 'l', 'a', 'y', 'e', 'r', '_']);
    assert(username_of(client_id).skip(7) =~= decimal(client_id));
}

} // verus!
