//! Who a new connection plays as: its name, and its row in the players table.
use crate::shared::{Coord, PlayerId, Position};
use vstd::prelude::*;
use vstd::string::StringExecFns;

verus! {

/// The longest name that the players table holds.
pub const USERNAME_MAX: u32 = 32;

/// A player's row in the players table.
#[derive(Debug, Clone, Copy)]
pub struct DbPlayer {
    pub id: i64,
    pub last_position_x: Coord,
    pub last_position_y: Coord,
}

/// A connection that waits for its player: the name to look up.
#[derive(Debug)]
pub struct LoginRequest {
    pub client_id: usize,
    pub username: String,
}

/// What a login does once the players table has been searched.
#[derive(Debug)]
pub enum LoginStep {
    /// The name has no row yet: insert one, with this password hash.
    CreatePlayer { username: String, password_hash: String },
    /// The player is known and stands here.
    LoggedIn(PlayerId, Position),
}

// ---------------------------------------------------------------------------
// Names
// ---------------------------------------------------------------------------

/// The character of a decimal digit.
pub open spec fn digit(d: nat) -> char {
    (48 + d) as char
}

/// A number in decimal, without leading zeros.
pub open spec fn decimal(n: nat) -> Seq<char>
    decreases n,
{
    if n < 10 {
        seq![digit(n)]
    } else {
        decimal(n / 10).push(digit(n % 10))
    }
}

/// The name under which the client with this number plays.
pub open spec fn username_of(client_id: nat) -> Seq<char> {
    "Player_"@ + decimal(client_id)
}

/// A decimal digit as text.
fn digit_text(d: u64) -> (r: &'static str)
    requires
        d < 10,
    ensures
        r@ == seq![digit(d as nat)],
{
    proof {
        reveal_strlit("0");
        reveal_strlit("1");
        reveal_strlit("2");
        reveal_strlit("3");
        reveal_strlit("4");
        reveal_strlit("5");
        reveal_strlit("6");
        reveal_strlit("7");
        reveal_strlit("8");
        reveal_strlit("9");
    }
    if d == 0 {
        "0"
    } else if d == 1 {
        "1"
    } else if d == 2 {
        "2"
    } else if d == 3 {
        "3"
    } else if d == 4 {
        "4"
    } else if d == 5 {
        "5"
    } else if d == 6 {
        "6"
    } else if d == 7 {
        "7"
    } else if d == 8 {
        "8"
    } else {
        "9"
    }
}

/// Writes a number in decimal at the end of `text`.
fn append_decimal(text: &mut String, n: u64)
    ensures
        final(text)@ == old(text)@ + decimal(n as nat),
    decreases n,
{
    if n >= 10 {
        append_decimal(text, n / 10);
    }
    text.append(digit_text(n % 10));
}

/// The name under which the client with this number plays.
pub fn username(client_id: usize) -> (r: String)
    ensures
        r@ == username_of(client_id as nat),
{
    let mut name = String::from_str("Player_");
    append_decimal(&mut name, client_id as u64);
    name
}

// ---------------------------------------------------------------------------
// Rows
// ---------------------------------------------------------------------------

/// The player that a row's key stands for: the same 64 bits, without a sign.
pub open spec fn player_of_row(id: i64) -> PlayerId {
    PlayerId(
        if id >= 0 {
            id as u64
        } else {
            (id + 0x1_0000_0000_0000_0000) as u64
        },
    )
}

/// The key of a player's row: the same 64 bits, with a sign.
pub open spec fn row_of_player(player_id: PlayerId) -> i64 {
    if player_id.0 <= i64::MAX {
        player_id.0 as i64
    } else {
        (player_id.0 - 0x1_0000_0000_0000_0000) as i64
    }
}

/// The player that a row's key stands for.
pub fn player_key(id: i64) -> (r: PlayerId)
    ensures
        r == player_of_row(id),
{
    assert(id >= 0 ==> id as u64 == id) by (bit_vector);
    assert(id < 0 ==> id as u64 == id + 0x1_0000_0000_0000_0000) by (bit_vector);
    PlayerId(
        #[verifier::truncate]
        (id as u64),
    )
}

impl DbPlayer {
    /// Where the player was last seen.
    pub open spec fn last_position(self) -> Position {
        Position { x: self.last_position_x, y: self.last_position_y }
    }

    /// The player of this row, and where they were last seen.
    pub fn start(&self) -> (r: (PlayerId, Position))
        ensures
            r == (player_of_row(self.id), self.last_position()),
    {
        (
            player_key(self.id),
            Position { x: self.last_position_x, y: self.last_position_y },
        )
    }
}

/// The key of a player's row.
pub fn row_key(player_id: PlayerId) -> (r: i64)
    ensures
        r == row_of_player(player_id),
{
    let id: u64 = player_id.0;
    assert(id <= 0x7fff_ffff_ffff_ffff ==> id as i64 == id) by (bit_vector);
    assert(id > 0x7fff_ffff_ffff_ffff ==> id as i64 == id - 0x1_0000_0000_0000_0000) by (bit_vector);
    #[verifier::truncate]
    (id as i64)
}

/// Goes on with a login after the search for its name: a row that was found logs its
/// player in where they were last seen, and a name without one gets a new row. So does
/// a name that could not be searched for.
pub fn after_lookup<E>(username: String, user_record: Result<Option<DbPlayer>, E>) -> (r:
    LoginStep)
    ensures
        match user_record {
            Ok(Some(player)) => r == LoginStep::LoggedIn(
                player_of_row(player.id),
                player.last_position(),
            ),
            _ => r matches LoginStep::CreatePlayer { username: name, password_hash } && name@
                == username@ && password_hash@ == "password"@,
        },
{
    match user_record {
        Ok(Some(player)) => {
            let (player_id, position) = player.start();
            LoginStep::LoggedIn(player_id, position)
        },
        _ => LoginStep::CreatePlayer { username, password_hash: String::from_str("password") },
    }
}

// ---------------------------------------------------------------------------
// What holds of every name and every row
// ---------------------------------------------------------------------------

proof fn lemma_decimal_tells_apart(a: nat, b: nat)
    requires
        decimal(a) == decimal(b),
    ensures
        a == b,
    decreases a,
{
    let s = decimal(a);
    let t = decimal(b);
    assert(s.last() == digit(a % 10));
    assert(t.last() == digit(b % 10));
    lemma_decimal_nonempty(a / 10);
    lemma_decimal_nonempty(b / 10);
    if a >= 10 {
        assert(s.drop_last() =~= decimal(a / 10));
        assert(t.drop_last() =~= decimal(b / 10));
        lemma_decimal_tells_apart(a / 10, b / 10);
    }
}

proof fn lemma_decimal_nonempty(n: nat)
    ensures
        decimal(n).len() >= 1,
{
}

/// Ten to the power of `k`.
spec fn ten_to(k: nat) -> nat
    decreases k,
{
    if k == 0 {
        1
    } else {
        10 * ten_to((k - 1) as nat)
    }
}

proof fn lemma_decimal_len(n: nat, k: nat)
    requires
        k >= 1,
        n < ten_to(k),
    ensures
        decimal(n).len() <= k,
    decreases k,
{
    if n >= 10 {
        assert(k > 1) by {
            reveal_with_fuel(ten_to, 2);
        }
        lemma_decimal_len(n / 10, (k - 1) as nat);
    }
}

/// Clients with different numbers play under different names.
pub proof fn usernames_tell_apart(a: nat, b: nat)
    requires
        username_of(a) == username_of(b),
    ensures
        a == b,
{
    let n = "Player_"@.len() as int;
    assert(decimal(a) =~= username_of(a).skip(n));
    assert(decimal(b) =~= username_of(b).skip(n));
    lemma_decimal_tells_apart(a, b);
}

/// Every client's name fits into the players table.
pub proof fn usernames_fit(client_id: usize)
    ensures
        username_of(client_id as nat).len() <= USERNAME_MAX,
{
    reveal_strlit("Player_");
    assert(ten_to(20) == 100_000_000_000_000_000_000nat) by {
        reveal_with_fuel(ten_to, 21);
    }
    lemma_decimal_len(client_id as nat, 20);
}

/// The row that a player is saved to is the row that they were loaded from.
pub proof fn row_of_loaded_player(id: i64)
    ensures
        row_of_player(player_of_row(id)) == id,
{
}

/// Different rows are different players.
pub proof fn rows_tell_apart(a: i64, b: i64)
    requires
        player_of_row(a) == player_of_row(b),
    ensures
        a == b,
{
    row_of_loaded_player(a);
    row_of_loaded_player(b);
}

/// The player loaded from a row is the player that was saved to it.
pub proof fn player_of_saved_row(player_id: PlayerId)
    ensures
        player_of_row(row_of_player(player_id)) == player_id,
{
}

} // verus!
