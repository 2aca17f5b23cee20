//! The game drawn on a canvas: a ball for every player.
use crate::client::{color_of, player_color, PlayerColor};
use crate::shared::{PlayerId, Position};
use std::collections::HashMap;
use vstd::prelude::*;

verus! {

/// The width of the canvas. The middle of the canvas is the origin of the world.
pub const CANVAS_WIDTH: u32 = 800;

/// The height of the canvas.
pub const CANVAS_HEIGHT: u32 = 600;

/// The radius of a player's ball.
pub const BALL_RADIUS: u32 = 5;

/// A player on the canvas: a ball around their position.
#[derive(Debug, Clone, Copy)]
pub struct Ball {
    pub player_id: PlayerId,
    pub position: Position,
    pub color: PlayerColor,
    pub radius: u32,
}

/// The ball of a player on the canvas of the local player.
pub open spec fn ball_of(local_player: Option<PlayerId>, player: (PlayerId, Position)) -> Ball {
    Ball {
        player_id: player.0,
        position: player.1,
        color: color_of(local_player, player.0),
        radius: BALL_RADIUS,
    }
}

/// What there is to draw: where the players are, by number, and which of them is the
/// local one.
#[derive(Debug)]
pub struct GameState {
    pub players: HashMap<u64, Position>,
    pub local_player_id: Option<PlayerId>,
}

impl PlayerColor {
    /// The colour's name in a style sheet.
    pub open spec fn name(self) -> Seq<char> {
        match self {
            PlayerColor::Blue => "blue"@,
            PlayerColor::Red => "red"@,
        }
    }

    /// The colour's name in a style sheet.
    pub fn css_name(self) -> (r: &'static str)
        ensures
            r@ == self.name(),
    {
        match self {
            PlayerColor::Blue => "blue",
            PlayerColor::Red => "red",
        }
    }
}

impl GameState {
    /// A game that nobody has joined.
    pub fn new() -> (r: GameState)
        ensures
            r.players@ == Map::<u64, Position>::empty(),
            r.local_player_id is None,
    {
        GameState { players: HashMap::new(), local_player_id: None }
    }

    /// The balls to draw: one for each player, where they are, in their colour. They
    /// come in no particular order.
    pub fn render_game(&self) -> (balls: Vec<Ball>)
        ensures
            balls@.len() == self.players@.dom().len(),
            forall|i: int|
                0 <= i < balls@.len() ==> {
                    &&& self.players@.contains_key((#[trigger] balls@[i]).player_id.0)
                    &&& balls@[i] == ball_of(
                        self.local_player_id,
                        (balls@[i].player_id, self.players@[balls@[i].player_id.0]),
                    )
                    &&& balls@[i].color is Blue <==> self.local_player_id == Some(
                        balls@[i].player_id,
                    )
                    &&& balls@[i].position == self.players@[balls@[i].player_id.0]
                    &&& balls@[i].radius == BALL_RADIUS
                },
            forall|id: u64| #[trigger]
                self.players@.contains_key(id) ==> exists|i: int|
                    0 <= i < balls@.len() && (#[trigger] balls@[i]).player_id == PlayerId(id),
            forall|i: int, j: int|
                0 <= i < j < balls@.len() ==> (#[trigger] balls@[i]).player_id != (
                #[trigger] balls@[j]).player_id,
    {
        let mut balls: Vec<Ball> = Vec::new();
        let players = self.players.iter();
        let ghost all = vstd::std_specs::iter::IteratorSpec::remaining(&players);
        for (id, position) in it: players
            invariant
                it.seq() == all,
                all.len() == self.players@.dom().len(),
                all.no_duplicates(),
                forall|i: int|
                    #![trigger all[i]]
                    0 <= i < all.len() ==> self.players@.contains_key(*all[i].0)
                        && self.players@[*all[i].0] == *all[i].1,
                balls@.len() == it.index(),
                forall|i: int|
                    0 <= i < balls@.len() ==> #[trigger] balls@[i] == ball_of(
                        self.local_player_id,
                        (PlayerId(*all[i].0), *all[i].1),
                    ),
        {
            let player_id = PlayerId(*id);
            balls.push(
                Ball {
                    player_id,
                    position: *position,
                    color: player_color(self.local_player_id, player_id),
                    radius: BALL_RADIUS,
                },
            );
        }
        assert forall|id: u64| #[trigger] self.players@.contains_key(id) implies exists|i: int|
            0 <= i < balls@.len() && (#[trigger] balls@[i]).player_id == PlayerId(id) by {
            assert(all.contains((&id, &self.players@[id])));
            let i = choose|i: int| 0 <= i < all.len() && all[i] == (&id, &self.players@[id]);
            assert(balls@[i].player_id == PlayerId(id));
        }
        balls
    }
}

} // verus!
