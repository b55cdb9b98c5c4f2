//! A game session: its board, its move count, its state and its clock.
use vstd::prelude::*;
use std::time::Instant;
use crate::board::{is_board, is_done, is_solved, is_state_same, shuffle_arr, solvable};

verus! {

/// Where a session stands.
#[derive(PartialEq, Eq, Structural, Debug, Clone, Copy)]
pub enum GameState {
    INIT,
    PLAYING,
    PAUSED,
    DONE,
}

/// A session of the puzzle.
pub struct GameData {
    pub game_state: GameState,
    /// Moves accepted so far.
    pub move_count: i32,
    /// Seconds banked from the playing intervals that have ended.
    pub base_time: u64,
    /// The board, cell by cell; 0 is the blank.
    pub arr_state: [u16; 16],
    /// When the current playing interval began.
    pub start_time: Instant,
}

/// The keys that move the blank: `w`, `a`, `s` and `d`.
pub open spec fn is_move_key(key: char) -> bool {
    key == 'w' || key == 'a' || key == 's' || key == 'd'
}

/// The state that follows `state` on `key`, for a session whose board is `board`.
pub open spec fn next_state(state: GameState, board: Seq<u16>, key: char) -> GameState {
    match state {
        GameState::INIT => if is_move_key(key) { GameState::PLAYING } else { GameState::INIT },
        GameState::PLAYING => if key == 'p' {
            GameState::PAUSED
        } else if is_solved(board) {
            GameState::DONE
        } else {
            GameState::PLAYING
        },
        GameState::PAUSED => GameState::PLAYING,
        GameState::DONE => if key == 'r' { GameState::INIT } else { GameState::DONE },
    }
}


/// A move is taken where it changes the board and the game is not over.
pub open spec fn move_accepted(state: GameState, board: Seq<u16>, next: Seq<u16>) -> bool {
    next != board && state != GameState::DONE
}

/// Leaving play, for a pause or for the end, banks the interval's seconds.
pub open spec fn banks_time(state: GameState, next: GameState) -> bool {
    state == GameState::PLAYING && (next == GameState::PAUSED || next == GameState::DONE)
}

/// Entering play, or a fresh start, sets the clock of the interval going.
pub open spec fn restarts_clock(state: GameState, next: GameState) -> bool {
    state != next && (next == GameState::PLAYING || next == GameState::INIT)
}

/// `base + secs`, held at `u64::MAX`.
pub open spec fn add_held(base: u64, secs: u64) -> u64 {
    if base + secs > u64::MAX {
        u64::MAX
    } else {
        (base + secs) as u64
    }
}

fn add_seconds(base: u64, secs: u64) -> (r: u64)
    ensures
        r == add_held(base, secs),
{
    if secs > u64::MAX - base {
        u64::MAX
    } else {
        base + secs
    }
}

impl GameData {
    /// A fresh session on a random solvable board, waiting for the first move.
    pub fn new(rng: &mut rand::rngs::ThreadRng) -> (r: Self)
        ensures
            r.game_state == GameState::INIT,
            r.move_count == 0,
            r.base_time == 0,
            is_board(r.arr_state@),
            solvable(r.arr_state@),
    {
        GameData {
            game_state: GameState::INIT,
            move_count: 0,
            base_time: 0,
            arr_state: shuffle_arr(rng),
            start_time: Instant::now(),
        }
    }
}

/// Takes the board `next_arr_state` that key `key` produced, then moves the
/// session to its next state and keeps its clock, where the current playing
/// interval has lasted `interval_secs` seconds and the clock reads `now`.
pub fn handle_move_operation_at(
    game_data: &mut GameData,
    next_arr_state: [u16; 16],
    key: char,
    interval_secs: u64,
    now: Instant,
)
    requires
        move_accepted(old(game_data).game_state, old(game_data).arr_state@, next_arr_state@)
            ==> old(game_data).move_count < i32::MAX,
    ensures
        ({
            let taken = move_accepted(
                old(game_data).game_state,
                old(game_data).arr_state@,
                next_arr_state@,
            );
            &&& final(game_data).arr_state == if taken {
                next_arr_state
            } else {
                old(game_data).arr_state
            }
            &&& final(game_data).move_count == if taken {
                old(game_data).move_count + 1
            } else {
                old(game_data).move_count as int
            }
        }),
        final(game_data).game_state == next_state(
            old(game_data).game_state,
            final(game_data).arr_state@,
            key,
        ),
        final(game_data).base_time == if banks_time(
            old(game_data).game_state,
            final(game_data).game_state,
        ) {
            add_held(old(game_data).base_time, interval_secs)
        } else {
            old(game_data).base_time
        },
        final(game_data).start_time == if restarts_clock(
            old(game_data).game_state,
            final(game_data).game_state,
        ) {
            now
        } else {
            old(game_data).start_time
        },
{
    if !is_state_same(game_data.arr_state, next_arr_state) && game_data.game_state
        != GameState::DONE {
        game_data.move_count = game_data.move_count + 1;
        game_data.arr_state = next_arr_state;
    }
    let next_game_state = handle_game_state(game_data, key);
    game_data.base_time = banked_time(game_data, &next_game_state, interval_secs);
    if game_data.game_state != next_game_state && (next_game_state == GameState::PLAYING
        || next_game_state == GameState::INIT) {
        game_data.start_time = now;
    }
    game_data.game_state = next_game_state;
}

/// Takes the board `next_arr_state` that key `key` produced, then moves the
/// session to its next state and keeps its clock, reading the clock for the
/// seconds to bank and for the start of a new interval.
pub fn handle_move_operation(game_data: &mut GameData, next_arr_state: [u16; 16], key: char)
    requires
        move_accepted(old(game_data).game_state, old(game_data).arr_state@, next_arr_state@)
            ==> old(game_data).move_count < i32::MAX,
    ensures
        ({
            let taken = move_accepted(
                old(game_data).game_state,
                old(game_data).arr_state@,
                next_arr_state@,
            );
            &&& final(game_data).arr_state == if taken {
                next_arr_state
            } else {
                old(game_data).arr_state
            }
            &&& final(game_data).move_count == if taken {
                old(game_data).move_count + 1
            } else {
                old(game_data).move_count as int
            }
        }),
        final(game_data).game_state == next_state(
            old(game_data).game_state,
            final(game_data).arr_state@,
            key,
        ),
        banks_time(old(game_data).game_state, final(game_data).game_state)
            ==> final(game_data).base_time >= old(game_data).base_time,
        !banks_time(old(game_data).game_state, final(game_data).game_state)
            ==> final(game_data).base_time == old(game_data).base_time,
        !restarts_clock(old(game_data).game_state, final(game_data).game_state)
            ==> final(game_data).start_time == old(game_data).start_time,
{
    let interval_secs: u64 = game_data.start_time.elapsed().as_secs();
    let now = Instant::now();
    handle_move_operation_at(game_data, next_arr_state, key, interval_secs, now);
}

/// The state that follows the session's state on key `key`.
pub fn handle_game_state(game_data: &GameData, key: char) -> (r: GameState)
    ensures
        r == next_state(game_data.game_state, game_data.arr_state@, key),
{
    match game_data.game_state {
        GameState::INIT => {
            if key == 'w' || key == 'a' || key == 's' || key == 'd' {
                GameState::PLAYING
            } else {
                GameState::INIT
            }
        },
        GameState::PLAYING => {
            let done = is_done(&game_data.arr_state);
            if key == 'p' {
                GameState::PAUSED
            } else if done {
                GameState::DONE
            } else {
                GameState::PLAYING
            }
        },
        GameState::PAUSED => GameState::PLAYING,
        GameState::DONE => {
            if key == 'r' {
                GameState::INIT
            } else {
                GameState::DONE
            }
        },
    }
}

/// The banked seconds once the session goes to `next_game_state`, where the
/// current playing interval has lasted `interval_secs` seconds.
pub fn banked_time(game_data: &GameData, next_game_state: &GameState, interval_secs: u64) -> (r:
    u64)
    ensures
        r == if banks_time(game_data.game_state, *next_game_state) {
            add_held(game_data.base_time, interval_secs)
        } else {
            game_data.base_time
        },
{
    if game_data.game_state == GameState::PLAYING && (*next_game_state == GameState::PAUSED
        || *next_game_state == GameState::DONE) {
        add_seconds(game_data.base_time, interval_secs)
    } else {
        game_data.base_time
    }
}

/// The banked seconds once the session goes to `next_game_state`: the
/// current playing interval is read from the clock and banked where play ends.
pub fn update_elapsed_time(game_data: &GameData, next_game_state: &GameState) -> (r: u64)
    ensures
        banks_time(game_data.game_state, *next_game_state) ==> r >= game_data.base_time,
        !banks_time(game_data.game_state, *next_game_state) ==> r == game_data.base_time,
{
    if game_data.game_state == GameState::PLAYING && (*next_game_state == GameState::PAUSED
        || *next_game_state == GameState::DONE) {
        let interval_secs = game_data.start_time.elapsed().as_secs();
        banked_time(game_data, next_game_state, interval_secs)
    } else {
        game_data.base_time
    }
}

/// The seconds to show for a session whose current playing interval has lasted
/// `interval_secs` seconds: none before the first move, the banked seconds and
/// the interval while playing, the banked seconds alone while paused or done.
pub fn elapsed_time_at(game_data: &GameData, interval_secs: u64) -> (r: u64)
    ensures
        r == match game_data.game_state {
            GameState::INIT => 0,
            GameState::PLAYING => add_held(game_data.base_time, interval_secs),
            _ => game_data.base_time,
        },
{
    match game_data.game_state {
        GameState::INIT => 0,
        GameState::PLAYING => add_seconds(game_data.base_time, interval_secs),
        _ => game_data.base_time,
    }
}

/// The seconds to show for a session, reading the clock while it plays.
pub fn elapsed_time(game_data: &GameData) -> (r: u64)
    ensures
        game_data.game_state == GameState::INIT ==> r == 0,
        game_data.game_state == GameState::PLAYING ==> r >= game_data.base_time,
        game_data.game_state == GameState::PAUSED || game_data.game_state == GameState::DONE
            ==> r == game_data.base_time,
{
    let interval_secs: u64 = if game_data.game_state == GameState::PLAYING {
        game_data.start_time.elapsed().as_secs()
    } else {
        0
    };
    elapsed_time_at(game_data, interval_secs)
}

} // verus!
