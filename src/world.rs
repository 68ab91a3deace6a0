//! The two-player movement game: each tick a player moves two units along
//! each axis it holds a direction on; a move that would leave the field is
//! not made.
use vstd::prelude::*;
use crate::game::Game;
use crate::input::{delta_of, movement_delta, PlayerInputFrame};
use crate::queue::neutral;
use crate::session::{ConnectionRef, PlayerHandle, PlayerKind};

verus! {

/// How far a player moves along an axis in one tick.
pub const STEP: i64 = 2;

/// The largest coordinate a player reaches, in either direction.
pub const FIELD_LIMIT: i64 = 1000000000;

/// A player's place on the field.
#[derive(Clone, Copy, Debug, PartialEq, Eq, Structural, Hash)]
pub struct Position {
    pub x: i64,
    pub y: i64,
}

/// The whole deterministic state of the game.
#[derive(Clone, Copy, Debug, PartialEq, Eq, Structural, Hash)]
pub struct GameState {
    pub first: Position,
    pub second: Position,
}

/// A player of the game, by the handle the session gave it.
#[derive(Clone, Copy, Debug, PartialEq, Eq, Structural, Hash)]
pub struct Player {
    pub handle: PlayerHandle,
}

/// The game's configuration: its input and its state.
pub struct BackrollConfig;

/// The coordinate after a move from `v` by `d`: the move is made when it
/// stays within the field, and otherwise the player stays at `v`.
pub open spec fn step_coord(v: i64, d: int) -> i64 {
    if -FIELD_LIMIT <= v + STEP * d <= FIELD_LIMIT {
        (v + STEP * d) as i64
    } else {
        v
    }
}

/// Where a player at `p` ends a tick with input `i`.
pub open spec fn moved(p: Position, i: PlayerInputFrame) -> Position {
    Position {
        x: step_coord(p.x, delta_of(i).0),
        y: step_coord(p.y, delta_of(i).1),
    }
}

/// The input of player `p` among `inputs`, neutral when it is missing.
pub open spec fn input_of(inputs: Seq<PlayerInputFrame>, p: int) -> PlayerInputFrame {
    if p < inputs.len() {
        inputs[p]
    } else {
        neutral()
    }
}

fn step_coord_exec(v: i64, d: i32) -> (r: i64)
    requires
        -1 <= d <= 1,
    ensures
        r == step_coord(v, d as int),
{
    let n: i128 = v as i128 + 2 * (d as i128);
    if -(FIELD_LIMIT as i128) <= n && n <= FIELD_LIMIT as i128 {
        n as i64
    } else {
        v
    }
}

/// Moves a player by one tick of input.
pub fn move_player(p: Position, input: PlayerInputFrame) -> (r: Position)
    ensures
        r == moved(p, input),
{
    let (dx, dy) = movement_delta(input);
    assert(-1 <= dx <= 1 && -1 <= dy <= 1);
    assert(STEP == 2);
    Position {
        x: step_coord_exec(p.x, dx),
        y: step_coord_exec(p.y, dy),
    }
}

impl Game for BackrollConfig {
    type State = GameState;

    open spec fn step(s: GameState, inputs: Seq<PlayerInputFrame>) -> GameState {
        GameState { first: moved(s.first, input_of(inputs, 0)), second: moved(s.second, input_of(inputs, 1)) }
    }

    fn advance(s: &GameState, inputs: &Vec<PlayerInputFrame>) -> (r: GameState) {
        let a = if inputs.len() > 0 {
            inputs[0]
        } else {
            PlayerInputFrame::empty()
        };
        let b = if inputs.len() > 1 {
            inputs[1]
        } else {
            PlayerInputFrame::empty()
        };
        GameState { first: move_player(s.first, a), second: move_player(s.second, b) }
    }
}

/// Both players at the origin.
pub fn initial_state() -> (r: GameState)
    ensures
        r == (GameState { first: Position { x: 0, y: 0 }, second: Position { x: 0, y: 0 } }),
{
    GameState { first: Position { x: 0, y: 0 }, second: Position { x: 0, y: 0 } }
}

/// The kinds of the two players as seen from the machine of player
/// `client`: that one is local, the other is reached through `peer`.
pub fn player_kinds(client: usize, peer: ConnectionRef) -> (r: (PlayerKind, PlayerKind))
    ensures
        r.0 == (if client == 0 { PlayerKind::Local } else { PlayerKind::Remote(peer) }),
        r.1 == (if client == 1 { PlayerKind::Local } else { PlayerKind::Remote(peer) }),
{
    let first = if client == 0 {
        PlayerKind::Local
    } else {
        PlayerKind::Remote(peer)
    };
    let second = if client == 1 {
        PlayerKind::Local
    } else {
        PlayerKind::Remote(peer)
    };
    (first, second)
}

} // verus!
