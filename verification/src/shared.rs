//! The data that the server and its clients have in common.
use vstd::prelude::*;

verus! {

/// The bits of an IEEE 754 single below its sign.
pub const MAGNITUDE_BITS: u32 = 0x7fff_ffff;

/// The sign bit of an IEEE 754 single.
pub const SIGN_BIT: u32 = 0x8000_0000;

/// The bit pattern of positive infinity. A greater magnitude is not a number.
pub const INFINITY_BITS: u32 = 0x7f80_0000;

/// The bit pattern of one hundredth, rounded to single precision.
pub const HUNDREDTH_BITS: u32 = 0x3c23_d70a;

/// A unique identifier for a player entity.
#[derive(Debug, Clone, Copy, PartialEq, Eq, Hash, Structural)]
pub struct PlayerId(pub u64);

/// A coordinate: a single precision number, carried as its IEEE 754 bit pattern.
///
/// The library stores, sends and compares coordinates. It does no arithmetic
/// on them beyond a change of sign.
#[derive(Debug, Clone, Copy)]
pub struct Coord {
    pub bits: u32,
}

impl Coord {
    /// Whether the pattern stands for no number at all.
    pub open spec fn nan(self) -> bool {
        (self.bits & MAGNITUDE_BITS) > INFINITY_BITS
    }

    /// Whether the pattern is one of the two zeros.
    pub open spec fn zero(self) -> bool {
        (self.bits & MAGNITUDE_BITS) == 0
    }

    /// Whether the pattern stands for a number that is not infinite.
    pub open spec fn finite(self) -> bool {
        (self.bits & MAGNITUDE_BITS) < INFINITY_BITS
    }

    /// Equality as numbers: nothing equals a value that is not a number, and the two
    /// zeros are equal.
    pub open spec fn same_number(self, other: Coord) -> bool {
        !self.nan() && !other.nan() && (self.bits == other.bits || self.zero() && other.zero())
    }

    /// The coordinate with its sign changed.
    pub open spec fn negated(self) -> Coord {
        Coord { bits: self.bits ^ SIGN_BIT }
    }

    /// Whether the coordinate is further than a hundredth from zero, on either side. What
    /// is not a number is not.
    pub open spec fn far(self) -> bool {
        HUNDREDTH_BITS < (self.bits & MAGNITUDE_BITS) <= INFINITY_BITS
    }

    /// Tells whether the coordinate is further than a hundredth from zero.
    pub fn is_far(self) -> (r: bool)
        ensures
            r == self.far(),
    {
        let magnitude: u32 = self.bits & MAGNITUDE_BITS;
        HUNDREDTH_BITS < magnitude && magnitude <= INFINITY_BITS
    }

    /// Tells whether the coordinate is a number that is not infinite.
    pub fn is_finite(self) -> (r: bool)
        ensures
            r == self.finite(),
    {
        let magnitude: u32 = self.bits & MAGNITUDE_BITS;
        magnitude < INFINITY_BITS
    }

    /// Changes the sign.
    pub fn negate(self) -> (r: Coord)
        ensures
            r == self.negated(),
    {
        Coord { bits: self.bits ^ SIGN_BIT }
    }
}

impl PartialEq for Coord {
    fn eq(&self, other: &Self) -> (r: bool) {
        let a: u32 = self.bits & MAGNITUDE_BITS;
        let b: u32 = other.bits & MAGNITUDE_BITS;
        a <= INFINITY_BITS && b <= INFINITY_BITS && (self.bits == other.bits || (a == 0 && b == 0))
    }
}

impl vstd::std_specs::cmp::PartialEqSpecImpl for Coord {
    open spec fn obeys_eq_spec() -> bool {
        true
    }

    open spec fn eq_spec(&self, other: &Self) -> bool {
        self.same_number(*other)
    }
}

/// The player's current position on the grid.
#[derive(Debug, Clone, Copy)]
pub struct Position {
    pub x: Coord,
    pub y: Coord,
}

impl Position {
    /// Equality of both coordinates as numbers.
    pub open spec fn same_place(self, other: Position) -> bool {
        self.x.same_number(other.x) && self.y.same_number(other.y)
    }
}

impl PartialEq for Position {
    fn eq(&self, other: &Self) -> (r: bool) {
        self.x == other.x && self.y == other.y
    }
}

impl vstd::std_specs::cmp::PartialEqSpecImpl for Position {
    open spec fn obeys_eq_spec() -> bool {
        true
    }

    open spec fn eq_spec(&self, other: &Self) -> bool {
        self.same_place(*other)
    }
}

/// The player's target destination. The server will move the player towards this.
#[derive(Debug, Clone, Copy)]
pub struct TargetDestination(pub Position);

impl PartialEq for TargetDestination {
    fn eq(&self, other: &Self) -> (r: bool) {
        self.0 == other.0
    }
}

impl vstd::std_specs::cmp::PartialEqSpecImpl for TargetDestination {
    open spec fn obeys_eq_spec() -> bool {
        true
    }

    open spec fn eq_spec(&self, other: &Self) -> bool {
        self.0.same_place(other.0)
    }
}

/// A simple marker to identify the player entity.
#[derive(Debug, Clone)]
pub struct Player;

/// A simple marker to identify entities controlled by other players.
#[derive(Debug, Clone)]
pub struct Enemy;

/// Game configuration that can be sent to the client on connection.
#[derive(Debug, Clone, Copy)]
pub struct GameConfig {
    pub map_width: u32,
    pub map_height: u32,
}

/// Messages sent from the client to the server.
#[derive(Debug)]
pub enum ClientToServerMsg {
    /// Sent when the player clicks on the map.
    ClickPosition { x: Coord, y: Coord },
    /// A keep-alive message.
    Ping,
}

/// Messages sent from the server to the client.
#[derive(Debug)]
pub enum ServerToClientMsg {
    /// Sent once on connection to give the client its ID and the game config.
    Welcome { player_id: PlayerId, config: GameConfig },
    /// A full snapshot of all player positions. Sent periodically.
    WorldStateSnapshot(Vec<(PlayerId, Position)>),
    /// Informs clients that a new player has joined.
    PlayerJoined(PlayerId, Position),
    /// Informs clients that a player has left.
    PlayerLeft(PlayerId),
    /// A keep-alive response.
    Pong,
}

/// What a message to the client says, with the snapshot as a sequence.
pub ghost enum ServerNews {
    Welcome { player_id: PlayerId, config: GameConfig },
    WorldStateSnapshot(Seq<(PlayerId, Position)>),
    PlayerJoined(PlayerId, Position),
    PlayerLeft(PlayerId),
    Pong,
}

impl View for ServerToClientMsg {
    type V = ServerNews;

    open spec fn view(&self) -> ServerNews {
        match *self {
            ServerToClientMsg::Welcome { player_id, config } => ServerNews::Welcome {
                player_id,
                config,
            },
            ServerToClientMsg::WorldStateSnapshot(players) => ServerNews::WorldStateSnapshot(
                players@,
            ),
            ServerToClientMsg::PlayerJoined(player_id, position) => ServerNews::PlayerJoined(
                player_id,
                position,
            ),
            ServerToClientMsg::PlayerLeft(player_id) => ServerNews::PlayerLeft(player_id),
            ServerToClientMsg::Pong => ServerNews::Pong,
        }
    }
}

} // verus!
