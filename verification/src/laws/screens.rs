//! What a client shows, in terms of what it showed and what it is told.
use crate::canvas::{ball_of, Ball};
use crate::client::{
    color_of, is_first_entry, listed, listed_position, recolored, sprite_of, without, BatchState,
    ClientWorld, PlayerColor, PlayerSprite,
};
use crate::laws::bytes::{a_click_as_bytes, number_at};
use crate::laws::lists::{lemma_places_where, places_where};
use crate::laws::numbers::{a_change_of_sign, magnitude};
use crate::laws::{
    lemma_arriving_are_shown, lemma_one_frame, lemma_remaining, lemma_standing_are_shown,
    shown_once, stands_among, whoever_left_is_not_shown,
};
use crate::shared::{ClientToServerMsg, GameConfig, PlayerId, Position, ServerNews};
use crate::wire::{client_msg_bytes, parse_server_msg};
use vstd::prelude::*;

verus! {

// ---------------------------------------------------------------------------
// Colours
// ---------------------------------------------------------------------------

/// The local player is blue, and everybody else is red.
pub proof fn only_the_local_player_is_blue(local_player: Option<PlayerId>, player_id: PlayerId)
    ensures
        local_player == Some(player_id) ==> color_of(local_player, player_id)
            == PlayerColor::Blue,
        local_player != Some(player_id) ==> color_of(local_player, player_id) == PlayerColor::Red,
{
}

/// A player's sprite is at their place, ten wide and high, and blue exactly if it is the
/// local player's.
pub proof fn a_sprite_is_its_players(
    local_player: Option<PlayerId>,
    player: (PlayerId, Position),
)
    ensures
        sprite_of(local_player, player) == (PlayerSprite {
            player_id: player.0,
            position: player.1,
            color: if local_player == Some(player.0) {
                PlayerColor::Blue
            } else {
                PlayerColor::Red
            },
            size: 10,
        }),
{
}

/// A player's ball is at their place, with a radius of five, and blue exactly if it is the
/// local player's.
pub proof fn a_ball_is_its_players(local_player: Option<PlayerId>, player: (PlayerId, Position))
    ensures
        ball_of(local_player, player) == (Ball {
            player_id: player.0,
            position: player.1,
            color: if local_player == Some(player.0) {
                PlayerColor::Blue
            } else {
                PlayerColor::Red
            },
            radius: 5,
        }),
{
}

/// The colours have these names.
pub proof fn colors_are_called(color: PlayerColor)
    ensures
        color.name() == (match color {
            PlayerColor::Blue => seq!['b', 'l', 'u', 'e'],
            PlayerColor::Red => seq!['r', 'e', 'd'],
        }),
{
    reveal_strlit("blue");
    reveal_strlit("red");
    match color {
        PlayerColor::Blue => {
            assert(color.name() =~= seq!['b', 'l', 'u', 'e']);
        },
        PlayerColor::Red => {
            assert(color.name() =~= seq!['r', 'e', 'd']);
        },
    }
}

/// What is sent for a click holds where the cursor was: to the right as it was, and down
/// turned to up.
pub proof fn a_click_is_sent_right_side_up(position: Position)
    ensures
        ({
            let b = client_msg_bytes(
                ClientToServerMsg::ClickPosition { x: position.x, y: position.y.negated() },
            );
            &&& number_at(b, 0, 4) == 0
            &&& number_at(b, 4, 4) == position.x.bits
            &&& number_at(b, 8, 4) % 0x8000_0000 == magnitude(position.y)
            &&& (number_at(b, 8, 4) < 0x8000_0000) != (position.y.bits < 0x8000_0000)
        }),
{
    a_click_as_bytes(position.x, position.y.negated());
    a_change_of_sign(position.y);
}

// ---------------------------------------------------------------------------
// Batches
// ---------------------------------------------------------------------------

/// A batch begins with what the client knows and shows: every sprite in its place, in the
/// colour that it has, and none vanished.
pub proof fn a_batch_begins_with_the_screen(world: ClientWorld)
    ensures
        ({
            let start = world.batch();
            &&& start.local_player == world.local_player
            &&& start.config == world.config
            &&& start.sprites == world.sprites@
            &&& start.gone == Seq::new(world.sprites@.len(), |i: int| false)
            &&& start.outcome() == world.sprites@.map_values(
                |sprite: PlayerSprite|
                    PlayerSprite {
                        color: if world.local_player == Some(sprite.player_id) {
                            PlayerColor::Blue
                        } else {
                            PlayerColor::Red
                        },
                        ..sprite
                    },
            )
        }),
{
    let start = world.batch();
    let n = start.sprites.len();
    lemma_kept(start, n);
    lemma_all_places(n, |i: int| !start.gone[i]);
    assert(start.remaining(n) =~= start.sprites);
    assert(start.outcome() =~= world.sprites@.map_values(
        |sprite: PlayerSprite|
            PlayerSprite {
                color: if world.local_player == Some(sprite.player_id) {
                    PlayerColor::Blue
                } else {
                    PlayerColor::Red
                },
                ..sprite
            },
    ));
}

proof fn lemma_all_places(n: nat, wanted: spec_fn(int) -> bool)
    requires
        forall|i: int| 0 <= i < n ==> #[trigger] wanted(i),
    ensures
        places_where(n, wanted).len() == n,
        forall|i: int| 0 <= i < n ==> #[trigger] places_where(n, wanted)[i] == i,
    decreases n,
{
    lemma_places_where(n, wanted);
    if n > 0 {
        lemma_all_places((n - 1) as nat, wanted);
        assert(wanted(n - 1));
    }
}

proof fn lemma_kept(batch: BatchState, n: nat)
    requires
        n <= batch.sprites.len(),
    ensures
        batch.remaining(n) == places_where(n, |i: int| !batch.gone[i]).map_values(
            |i: int| batch.sprites[i],
        ),
    decreases n,
{
    let wanted = |i: int| !batch.gone[i];
    lemma_places_where(n, wanted);
    if n > 0 {
        lemma_kept(batch, (n - 1) as nat);
    }
    assert(batch.remaining(n) =~= places_where(n, wanted).map_values(|i: int| batch.sprites[i]));
}

/// Frames that come in two parts do what they do together. A frame does what the message
/// in it does, and nothing if it holds none.
pub proof fn frames_add_up(batch: BatchState, a: Seq<Vec<u8>>, b: Seq<Vec<u8>>, frame: Vec<u8>)
    ensures
        batch.after_frames(a + b) == batch.after_frames(a).after_frames(b),
        batch.after_frames(Seq::empty()) == batch,
        batch.after_frames(seq![frame]) == (match parse_server_msg(frame@) {
            Some(news) => batch.after_news(news),
            None => batch,
        }),
    decreases b.len(),
{
    lemma_one_frame(batch, frame);
    if b.len() > 0 {
        assert((a + b).drop_last() =~= a + b.drop_last());
        assert((a + b).last() == b.last());
        frames_add_up(batch, a, b.drop_last(), frame);
    } else {
        assert(a + b =~= a);
    }
}

/// Which of the earlier sprites have vanished is told truly: those that have not are the
/// first on the screen, in their order, of the same players and of the same size.
pub proof fn the_vanished_are_told(batch: BatchState)
    ensures
        ({
            let kept = places_where(batch.sprites.len(), |i: int| !batch.gone[i]);
            let out = batch.outcome();
            &&& kept.len() + batch.arriving.len() == out.len()
            &&& forall|m: int|
                0 <= m < kept.len() ==> {
                    &&& (#[trigger] out[m]).player_id == batch.sprites[kept[m]].player_id
                    &&& out[m].position == batch.sprites[kept[m]].position
                    &&& out[m].size == batch.sprites[kept[m]].size
                }
        }),
{
    lemma_kept(batch, batch.sprites.len());
}

/// A sprite vanishes when its player leaves, the first one if there are several, and for
/// no other reason. Sprites never change their player.
pub proof fn sprites_vanish_when_their_player_leaves(batch: BatchState, news: ServerNews)
    ensures
        ({
            let end = batch.after_news(news);
            &&& end.gone.len() == batch.gone.len()
            &&& end.sprites.len() == batch.sprites.len()
            &&& forall|i: int|
                0 <= i < batch.sprites.len() ==> (#[trigger] end.sprites[i]).player_id
                    == batch.sprites[i].player_id
            &&& forall|i: int|
                0 <= i < batch.gone.len() && i < batch.sprites.len() ==> (#[trigger] end.gone[i]
                    <==> batch.gone[i] || (news == ServerNews::PlayerLeft(
                    batch.sprites[i].player_id,
                ) && forall|j: int|
                    0 <= j < i ==> batch.gone[j] || (#[trigger] batch.sprites[j]).player_id
                        != batch.sprites[i].player_id))
        }),
{
}

// ---------------------------------------------------------------------------
// Messages
// ---------------------------------------------------------------------------

/// Whether the player is on the screen.
pub open spec fn on_screen(out: Seq<PlayerSprite>, player_id: PlayerId) -> bool {
    exists|i: int| 0 <= i < out.len() && (#[trigger] out[i]).player_id == player_id
}

/// Whether the entry at `k` is the first of its player.
pub open spec fn first_entry(players: Seq<(PlayerId, Position)>, k: int) -> bool {
    &&& 0 <= k < players.len()
    &&& forall|j: int| 0 <= j < k ==> (#[trigger] players[j]).0 != players[k].0
}

proof fn lemma_shows(batch: BatchState, player_id: PlayerId)
    ensures
        batch.shows(player_id) == on_screen(batch.outcome(), player_id),
{
    let n = batch.sprites.len();
    let staying = batch.remaining(n);
    let out = batch.outcome();
    if exists|i: int| batch.stands(i) && (#[trigger] batch.sprites[i]).player_id == player_id {
        let i = choose|i: int|
            batch.stands(i) && (#[trigger] batch.sprites[i]).player_id == player_id;
        lemma_standing_are_shown(batch, i);
    }
    if listed(batch.arriving, player_id) {
        let a = choose|a: int|
            0 <= a < batch.arriving.len() && (#[trigger] batch.arriving[a]).0 == player_id;
        lemma_arriving_are_shown(batch, a);
    }
    if on_screen(out, player_id) {
        let k = choose|k: int| 0 <= k < out.len() && (#[trigger] out[k]).player_id == player_id;
        if k < staying.len() {
            lemma_remaining(batch, n);
            assert(stands_among(batch, n, staying[k]));
        } else {
            assert(batch.arriving[k - staying.len()].0 == player_id);
        }
    }
}

/// Where word of these players puts a sprite.
spec fn put(players: Seq<(PlayerId, Position)>, sprite: PlayerSprite) -> PlayerSprite {
    if listed(players, sprite.player_id) {
        PlayerSprite { position: listed_position(players, sprite.player_id), ..sprite }
    } else {
        sprite
    }
}

proof fn lemma_put(players: Seq<(PlayerId, Position)>, sprite: PlayerSprite, k: int)
    ensures
        first_entry(players, k) && players[k].0 == sprite.player_id ==> put(
            players,
            sprite,
        ).position == players[k].1,
        (forall|j: int|
            0 <= j < players.len() ==> (#[trigger] players[j]).0 != sprite.player_id) ==> put(
            players,
            sprite,
        ) == sprite,
{
    if first_entry(players, k) && players[k].0 == sprite.player_id {
        assert(is_first_entry(players, sprite.player_id, k));
        assert(listed(players, sprite.player_id));
        let j = choose|j: int| is_first_entry(players, sprite.player_id, j);
        assert(j == k);
    }
}

proof fn lemma_put_remaining(batch: BatchState, players: Seq<(PlayerId, Position)>, n: nat)
    requires
        n <= batch.sprites.len(),
    ensures
        batch.placing(players).remaining(n) == batch.remaining(n).map_values(
            |sprite: PlayerSprite| put(players, sprite),
        ),
    decreases n,
{
    if n > 0 {
        lemma_put_remaining(batch, players, (n - 1) as nat);
        assert(batch.placing(players).sprites[n - 1] == put(players, batch.sprites[n - 1]));
    }
    assert(batch.placing(players).remaining(n) =~= batch.remaining(n).map_values(
        |sprite: PlayerSprite| put(players, sprite),
    ));
}

/// Whether the entry at `k` adds a sprite: it is the first of its player, and they are
/// not on the screen.
pub open spec fn adds(
    out: Seq<PlayerSprite>,
    players: Seq<(PlayerId, Position)>,
    k: int,
) -> bool {
    first_entry(players, k) && !on_screen(out, players[k].0)
}

proof fn lemma_adds(batch: BatchState, players: Seq<(PlayerId, Position)>, n: nat)
    requires
        n <= players.len(),
    ensures
        batch.arrivals(players, n) == places_where(
            n,
            |k: int| adds(batch.outcome(), players, k),
        ).map_values(|k: int| players[k]),
    decreases n,
{
    let wanted = |k: int| adds(batch.outcome(), players, k);
    lemma_places_where(n, wanted);
    if n > 0 {
        lemma_adds(batch, players, (n - 1) as nat);
        lemma_shows(batch, players[n - 1].0);
        assert(batch.needs_sprite(players, n - 1) == wanted(n - 1));
    }
    assert(batch.arrivals(players, n) =~= places_where(n, wanted).map_values(
        |k: int| players[k],
    ));
}

/// Word of where players are moves their sprites there and leaves all others where they
/// are; nothing but the position changes, and nobody goes. Who is not on the screen yet is
/// added behind the others, once, in the order of the list.
pub proof fn a_snapshot_moves_and_adds(batch: BatchState, players: Seq<(PlayerId, Position)>)
    ensures
        ({
            let out = batch.outcome();
            let end = batch.after_news(ServerNews::WorldStateSnapshot(players)).outcome();
            let n = out.len();
            &&& end.len() >= n
            &&& forall|i: int|
                0 <= i < n ==> {
                    &&& (#[trigger] end[i]).player_id == out[i].player_id
                    &&& end[i].color == out[i].color
                    &&& end[i].size == out[i].size
                    &&& (forall|j: int|
                        0 <= j < players.len() ==> (#[trigger] players[j]).0 != out[i].player_id)
                        ==> end[i].position == out[i].position
                }
            &&& forall|i: int, k: int|
                #![trigger end[i], players[k]]
                0 <= i < n && first_entry(players, k) && players[k].0 == out[i].player_id
                    ==> end[i].position == players[k].1
            &&& end.skip(n as int) == places_where(
                players.len(),
                |k: int| adds(out, players, k),
            ).map_values(
                |k: int|
                    PlayerSprite {
                        player_id: players[k].0,
                        position: players[k].1,
                        color: if batch.local_player == Some(players[k].0) {
                            PlayerColor::Blue
                        } else {
                            PlayerColor::Red
                        },
                        size: 10,
                    },
            )
        }),
{
    let m = batch.sprites.len();
    let after = batch.placing(players);
    let out = batch.outcome();
    let end = after.outcome();
    let n = out.len() as int;
    let staying = batch.remaining(m);
    let new = batch.arrivals(players, players.len());
    lemma_put_remaining(batch, players, m);
    lemma_adds(batch, players, players.len());
    assert(end.len() == n + new.len());
    assert forall|i: int| 0 <= i < n implies #[trigger] end[i] == put(players, out[i]) by {
        if i < staying.len() {
            assert(after.remaining(m)[i] == put(players, staying[i]));
        } else {
            let a = i - staying.len();
            assert(out[i].player_id == batch.arriving[a].0);
            assert(after.arriving[a].0 == batch.arriving[a].0);
        }
    }
    assert forall|i: int| 0 <= i < n implies {
        &&& (#[trigger] end[i]).player_id == out[i].player_id
        &&& end[i].color == out[i].color
        &&& end[i].size == out[i].size
        &&& (forall|j: int|
            0 <= j < players.len() ==> (#[trigger] players[j]).0 != out[i].player_id)
            ==> end[i].position == out[i].position
    } by {
        lemma_put(players, out[i], 0);
    }
    assert forall|i: int, k: int|
        #![trigger end[i], players[k]]
        0 <= i < n && first_entry(players, k) && players[k].0
            == out[i].player_id implies end[i].position == players[k].1 by {
        lemma_put(players, out[i], k);
    }
    let wanted = |k: int| adds(out, players, k);
    assert forall|a: int| 0 <= a < new.len() implies #[trigger] end.skip(n)[a] == sprite_of(
        batch.local_player,
        new[a],
    ) by {
        assert(end.skip(n)[a] == end[n + a]);
        assert(after.arriving[batch.arriving.len() + a] == new[a]);
    }
    assert(end.skip(n) =~= places_where(players.len(), wanted).map_values(
        |k: int|
            PlayerSprite {
                player_id: players[k].0,
                position: players[k].1,
                color: if batch.local_player == Some(players[k].0) {
                    PlayerColor::Blue
                } else {
                    PlayerColor::Red
                },
                size: 10,
            },
    ));
}

/// Word that a player has joined is word of where this one player is.
pub proof fn a_join_is_a_snapshot_of_one(
    batch: BatchState,
    player_id: PlayerId,
    position: Position,
)
    ensures
        batch.after_news(ServerNews::PlayerJoined(player_id, position)) == batch.after_news(
            ServerNews::WorldStateSnapshot(seq![(player_id, position)]),
        ),
{
}

/// A welcome changes colours alone: the sprites of the player that it names are blue from
/// then on, and the others are red.
pub proof fn a_welcome_changes_colors(batch: BatchState, player_id: PlayerId, config: GameConfig)
    ensures
        batch.after_news(ServerNews::Welcome { player_id, config }).outcome()
            == batch.outcome().map_values(
            |sprite: PlayerSprite|
                PlayerSprite {
                    color: if sprite.player_id == player_id {
                        PlayerColor::Blue
                    } else {
                        PlayerColor::Red
                    },
                    ..sprite
                },
        ),
{
    let end = batch.after_news(ServerNews::Welcome { player_id, config });
    lemma_kept(batch, batch.sprites.len());
    lemma_kept(end, batch.sprites.len());
    assert(end.outcome() =~= batch.outcome().map_values(
        |sprite: PlayerSprite|
            PlayerSprite {
                color: if sprite.player_id == player_id {
                    PlayerColor::Blue
                } else {
                    PlayerColor::Red
                },
                ..sprite
            },
    ));
}

/// A pong changes nothing.
pub proof fn a_pong_changes_nothing(batch: BatchState)
    ensures
        batch.after_news(ServerNews::Pong) == batch,
{
}

proof fn lemma_map_filter<X, Y>(
    s: Seq<X>,
    f: spec_fn(X) -> Y,
    p: spec_fn(Y) -> bool,
    q: spec_fn(X) -> bool,
)
    requires
        forall|x: X| #[trigger] q(x) == p(f(x)),
    ensures
        s.map_values(f).filter(p) == s.filter(q).map_values(f),
    decreases s.len(),
{
    reveal(Seq::filter);
    if s.len() > 0 {
        lemma_map_filter(s.drop_last(), f, p, q);
        assert(s.map_values(f).drop_last() =~= s.drop_last().map_values(f));
        assert(s.map_values(f).last() == f(s.last()));
        assert(q(s.last()) == p(f(s.last())));
    }
    assert(s.map_values(f).filter(p) =~= s.filter(q).map_values(f));
}

proof fn lemma_all_pass<X>(s: Seq<X>, p: spec_fn(X) -> bool)
    requires
        forall|i: int| 0 <= i < s.len() ==> p(#[trigger] s[i]),
    ensures
        s.filter(p) == s,
    decreases s.len(),
{
    reveal(Seq::filter);
    if s.len() > 0 {
        let front = s.drop_last();
        assert forall|i: int| 0 <= i < front.len() implies p(#[trigger] front[i]) by {
            assert(front[i] == s[i]);
        }
        lemma_all_pass(front, p);
        assert(p(s[s.len() - 1]));
        assert(front.push(s.last()) =~= s);
    }
}

proof fn lemma_without_others(players: Seq<(PlayerId, Position)>, player_id: PlayerId)
    ensures
        without(players, player_id) == players.filter(
            |player: (PlayerId, Position)| player.0 != player_id,
        ),
    decreases players.len(),
{
    reveal(Seq::filter);
    if players.len() > 0 {
        lemma_without_others(players.drop_last(), player_id);
    }
    assert(without(players, player_id) =~= players.filter(
        |player: (PlayerId, Position)| player.0 != player_id,
    ));
}

proof fn lemma_others_remain(batch: BatchState, player_id: PlayerId, n: nat)
    requires
        n <= batch.sprites.len(),
        batch.gone.len() == batch.sprites.len(),
    ensures
        batch.removing(player_id).remaining(n).filter(
            |sprite: PlayerSprite| sprite.player_id != player_id,
        ) == batch.remaining(n).filter(|sprite: PlayerSprite| sprite.player_id != player_id),
    decreases n,
{
    reveal(Seq::filter);
    let end = batch.removing(player_id);
    let others = |sprite: PlayerSprite| sprite.player_id != player_id;
    if n > 0 {
        let m = (n - 1) as nat;
        lemma_others_remain(batch, player_id, m);
        assert(end.sprites[n - 1] == batch.sprites[n - 1]);
        assert(end.gone[n - 1] == (batch.gone[n - 1] || batch.is_first_standing(
            player_id,
            n - 1,
        )));
        if !batch.gone[n - 1] {
            assert(batch.remaining(n).drop_last() =~= batch.remaining(m));
        }
        if !end.gone[n - 1] {
            assert(end.remaining(n).drop_last() =~= end.remaining(m));
        }
    }
    assert(end.remaining(n).filter(others) =~= batch.remaining(n).filter(others));
}

/// When a player leaves, nobody else is touched: the sprites of all others are the same as
/// before, in the same order, whether they were there when the batch began or appear in
/// it.
pub proof fn a_departure_touches_nobody_else(batch: BatchState, player_id: PlayerId)
    requires
        batch.gone.len() == batch.sprites.len(),
    ensures
        batch.after_news(ServerNews::PlayerLeft(player_id)).outcome().filter(
            |sprite: PlayerSprite| sprite.player_id != player_id,
        ) == batch.outcome().filter(|sprite: PlayerSprite| sprite.player_id != player_id),
{
    let end = batch.removing(player_id);
    let local = batch.local_player;
    let others = |sprite: PlayerSprite| sprite.player_id != player_id;
    let other_players = |player: (PlayerId, Position)| player.0 != player_id;
    let color = |sprite: PlayerSprite| recolored(local, sprite);
    let appear = |player: (PlayerId, Position)| sprite_of(local, player);
    let n = batch.sprites.len();
    lemma_others_remain(batch, player_id, n);
    lemma_map_filter(batch.remaining(n), color, others, others);
    lemma_map_filter(end.remaining(n), color, others, others);
    lemma_without_others(batch.arriving, player_id);
    lemma_map_filter(batch.arriving, appear, others, other_players);
    lemma_map_filter(end.arriving, appear, others, other_players);
    assert forall|i: int| 0 <= i < end.arriving.len() implies other_players(
        #[trigger] end.arriving[i],
    ) by {
        batch.arriving.lemma_filter_pred(other_players, i);
    }
    lemma_all_pass(end.arriving, other_players);
    Seq::filter_distributes_over_add(
        batch.remaining(n).map_values(color),
        batch.arriving.map_values(appear),
        others,
    );
    Seq::filter_distributes_over_add(
        end.remaining(n).map_values(color),
        end.arriving.map_values(appear),
        others,
    );
    assert(batch.outcome() =~= batch.remaining(n).map_values(color) + batch.arriving.map_values(
        appear,
    ));
    assert(end.outcome() =~= end.remaining(n).map_values(color) + end.arriving.map_values(appear));
}

/// Whoever else is shown stays shown when a player leaves, in the same place.
pub proof fn the_others_stay_shown(
    batch: BatchState,
    player_id: PlayerId,
    other: PlayerId,
    position: Position,
)
    requires
        batch.gone.len() == batch.sprites.len(),
        other != player_id,
        exists|i: int|
            0 <= i < batch.outcome().len() && (#[trigger] batch.outcome()[i]).player_id == other
                && batch.outcome()[i].position == position,
    ensures
        ({
            let end = batch.after_news(ServerNews::PlayerLeft(player_id)).outcome();
            exists|i: int|
                0 <= i < end.len() && (#[trigger] end[i]).player_id == other && end[i].position
                    == position
        }),
{
    let out = batch.outcome();
    let end = batch.after_news(ServerNews::PlayerLeft(player_id)).outcome();
    let others = |sprite: PlayerSprite| sprite.player_id != player_id;
    a_departure_touches_nobody_else(batch, player_id);
    let i = choose|i: int|
        0 <= i < out.len() && (#[trigger] out[i]).player_id == other && out[i].position
            == position;
    out.lemma_filter_contains(others, i);
    end.lemma_filter_contains_rev(others, out[i]);
    let k = choose|k: int| 0 <= k < end.len() && end[k] == out[i];
    assert(end[k].player_id == other);
}

proof fn lemma_place(batch: BatchState, n: nat, i: int)
    requires
        i < n <= batch.sprites.len(),
        batch.stands(i),
    ensures
        batch.remaining(i as nat).len() < batch.remaining(n).len(),
        batch.remaining(n)[batch.remaining(i as nat).len() as int] == batch.sprites[i],
    decreases n,
{
    if i < n - 1 {
        lemma_place(batch, (n - 1) as nat, i);
    }
}

proof fn lemma_unique_is_shown_once(batch: BatchState)
    requires
        batch.gone.len() == batch.sprites.len(),
        forall|i: int, j: int|
            0 <= i < j < batch.outcome().len() ==> (#[trigger] batch.outcome()[i]).player_id != (
            #[trigger] batch.outcome()[j]).player_id,
    ensures
        shown_once(batch),
{
    let n = batch.sprites.len();
    let staying = batch.remaining(n);
    let out = batch.outcome();
    assert forall|i: int, j: int| i < j && batch.stands(i) && batch.stands(j) implies (
    #[trigger] batch.sprites[i]).player_id != (#[trigger] batch.sprites[j]).player_id by {
        lemma_place(batch, n, i);
        lemma_place(batch, n, j);
        lemma_place(batch, j as nat, i);
        let a = batch.remaining(i as nat).len() as int;
        let b = batch.remaining(j as nat).len() as int;
        assert(out[a].player_id == staying[a].player_id);
        assert(out[b].player_id == staying[b].player_id);
    }
    assert forall|i: int| batch.stands(i) implies !listed(
        batch.arriving,
        (#[trigger] batch.sprites[i]).player_id,
    ) by {
        lemma_place(batch, n, i);
        let a = batch.remaining(i as nat).len() as int;
        assert(out[a].player_id == batch.sprites[i].player_id);
        if listed(batch.arriving, batch.sprites[i].player_id) {
            let k = choose|k: int|
                0 <= k < batch.arriving.len() && (#[trigger] batch.arriving[k]).0
                    == batch.sprites[i].player_id;
            assert(out[staying.len() + k].player_id == batch.sprites[i].player_id);
        }
    }
    assert forall|j: int, k: int| 0 <= j < k < batch.arriving.len() implies (
    #[trigger] batch.arriving[j]).0 != (#[trigger] batch.arriving[k]).0 by {
        assert(out[staying.len() + j].player_id == batch.arriving[j].0);
        assert(out[staying.len() + k].player_id == batch.arriving[k].0);
    }
}

/// Where every player has one sprite, a player who leaves loses theirs, and that is all
/// that happens: the screen is what it was, without that player.
pub proof fn a_departure_takes_one_off(batch: BatchState, player_id: PlayerId)
    requires
        batch.gone.len() == batch.sprites.len(),
        forall|i: int, j: int|
            0 <= i < j < batch.outcome().len() ==> (#[trigger] batch.outcome()[i]).player_id != (
            #[trigger] batch.outcome()[j]).player_id,
    ensures
        batch.after_news(ServerNews::PlayerLeft(player_id)).outcome() == batch.outcome().filter(
            |sprite: PlayerSprite| sprite.player_id != player_id,
        ),
{
    let end = batch.after_news(ServerNews::PlayerLeft(player_id)).outcome();
    let others = |sprite: PlayerSprite| sprite.player_id != player_id;
    a_departure_touches_nobody_else(batch, player_id);
    lemma_unique_is_shown_once(batch);
    whoever_left_is_not_shown(batch, player_id);
    assert forall|i: int| 0 <= i < end.len() implies others(#[trigger] end[i]) by {
        if end[i].player_id == player_id {
            assert(crate::client::shown(end, player_id));
        }
    }
    lemma_all_pass(end, others);
}

proof fn lemma_first_standing(batch: BatchState, player_id: PlayerId, i: int)
    requires
        batch.stands(i),
        batch.sprites[i].player_id == player_id,
    ensures
        exists|s: int| #[trigger] batch.is_first_standing(player_id, s),
    decreases i,
{
    if !batch.is_first_standing(player_id, i) {
        let j = choose|j: int|
            0 <= j < i && batch.stands(j) && (#[trigger] batch.sprites[j]).player_id == player_id;
        lemma_first_standing(batch, player_id, j);
    } else {
        assert(batch.is_first_standing(player_id, i));
    }
}

proof fn lemma_one_less(batch: BatchState, player_id: PlayerId, s: int, n: nat)
    requires
        n <= batch.sprites.len(),
        batch.gone.len() == batch.sprites.len(),
        batch.is_first_standing(player_id, s),
    ensures
        n <= s ==> batch.removing(player_id).remaining(n) == batch.remaining(n),
        n > s ==> batch.remaining(s as nat).len() < batch.remaining(n).len(),
        n > s ==> batch.removing(player_id).remaining(n) == batch.remaining(n).remove(
            batch.remaining(s as nat).len() as int,
        ),
    decreases n,
{
    let end = batch.removing(player_id);
    if n > 0 {
        lemma_one_less(batch, player_id, s, (n - 1) as nat);
        assert(batch.is_first_standing(player_id, n - 1) == (n - 1 == s)) by {
            if batch.is_first_standing(player_id, n - 1) && n - 1 > s {
                assert(batch.sprites[s].player_id == player_id);
            }
            if batch.is_first_standing(player_id, n - 1) && n - 1 < s {
                assert(batch.sprites[n - 1].player_id == player_id);
            }
        }
        assert(end.gone[n - 1] == (batch.gone[n - 1] || n - 1 == s));
        assert(end.sprites[n - 1] == batch.sprites[n - 1]);
    }
    if n > s {
        assert(end.remaining(n) =~= batch.remaining(n).remove(
            batch.remaining(s as nat).len() as int,
        ));
    } else {
        assert(end.remaining(n) =~= batch.remaining(n));
    }
}

/// Where a player has several sprites from the beginning of a batch, one message that they
/// have left takes off the first of them, and nothing else.
pub proof fn a_departure_takes_the_first_off(batch: BatchState, player_id: PlayerId, i: int)
    requires
        batch.gone.len() == batch.sprites.len(),
        forall|a: int|
            0 <= a < batch.arriving.len() ==> (#[trigger] batch.arriving[a]).0 != player_id,
        0 <= i < batch.outcome().len(),
        batch.outcome()[i].player_id == player_id,
        forall|j: int| 0 <= j < i ==> (#[trigger] batch.outcome()[j]).player_id != player_id,
    ensures
        batch.after_news(ServerNews::PlayerLeft(player_id)).outcome() == batch.outcome().remove(i),
{
    let n = batch.sprites.len();
    let staying = batch.remaining(n);
    let out = batch.outcome();
    let end = batch.removing(player_id);
    if i >= staying.len() {
        assert(batch.arriving[i - staying.len()].0 == player_id);
    }
    assert(out[i].player_id == staying[i].player_id);
    lemma_remaining(batch, n);
    assert(stands_among(batch, n, staying[i]));
    let t = choose|t: int| t < n && batch.stands(t) && #[trigger] batch.sprites[t] == staying[i];
    lemma_first_standing(batch, player_id, t);
    let s = choose|s: int| #[trigger] batch.is_first_standing(player_id, s);
    let place = batch.remaining(s as nat).len() as int;
    lemma_place(batch, n, s);
    lemma_one_less(batch, player_id, s, n);
    assert(out[place].player_id == player_id);
    if i < place {
        lemma_prefix(batch, s as nat, n, i);
        lemma_remaining(batch, s as nat);
        assert(stands_among(batch, s as nat, batch.remaining(s as nat)[i]));
    }
    assert(i == place);
    let none_left = |player: (PlayerId, Position)| player.0 != player_id;
    lemma_without_others(batch.arriving, player_id);
    lemma_all_pass(batch.arriving, none_left);
    assert(end.outcome() =~= out.remove(i));
}

proof fn lemma_prefix(batch: BatchState, m: nat, n: nat, i: int)
    requires
        m <= n <= batch.sprites.len(),
        0 <= i < batch.remaining(m).len(),
    ensures
        i < batch.remaining(n).len(),
        batch.remaining(n)[i] == batch.remaining(m)[i],
    decreases n,
{
    if m < n {
        lemma_prefix(batch, m, (n - 1) as nat, i);
    }
}

} // verus!
