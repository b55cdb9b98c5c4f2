use std::time::{Duration, Instant};

use fifteen_puzzle::{
    GameData, GameState, Operation, banked_time, elapsed_time, elapsed_time_at,
    handle_game_state, handle_move_operation, handle_move_operation_at, is_solvable, move_tile, update_elapsed_time,
};

const SOLVED: [u16; 16] = [1, 2, 3, 4, 5, 6, 7, 8, 9, 10, 11, 12, 13, 14, 15, 0];
const ONE_AWAY: [u16; 16] = [1, 2, 3, 4, 5, 6, 7, 8, 9, 10, 11, 12, 13, 14, 0, 15];

fn session() -> GameData {
    GameData::new(&mut rand::thread_rng())
}

#[test]
fn new_session_waits_on_a_solvable_board() {
    let data = session();
    assert_eq!(data.game_state, GameState::INIT);
    assert_eq!(data.move_count, 0);
    assert_eq!(data.base_time, 0);
    assert!(is_solvable(&data.arr_state));
    assert_eq!(elapsed_time(&data), 0);
}

#[test]
fn session_plays_pauses_finishes_and_restarts() {
    let mut data = session();
    data.arr_state = ONE_AWAY;

    // A move against the wall still starts the game, but counts nothing.
    let next = move_tile(&data.arr_state, Operation::UP);
    handle_move_operation(&mut data, next, 'w');
    assert_eq!(data.game_state, GameState::PLAYING);
    assert_eq!(data.move_count, 0);
    assert_eq!(data.arr_state, ONE_AWAY);

    // Pausing banks the interval and freezes the shown time.
    let same = data.arr_state;
    handle_move_operation(&mut data, same, 'p');
    assert_eq!(data.game_state, GameState::PAUSED);
    let frozen = data.base_time;
    assert_eq!(elapsed_time(&data), frozen);

    // Any key resumes.
    let same = data.arr_state;
    handle_move_operation(&mut data, same, 'x');
    assert_eq!(data.game_state, GameState::PLAYING);
    assert_eq!(data.base_time, frozen);
    assert!(elapsed_time(&data) >= frozen);

    // The last move solves the puzzle.
    let next = move_tile(&data.arr_state, Operation::LEFT);
    assert_eq!(next, SOLVED);
    handle_move_operation(&mut data, next, 'a');
    assert_eq!(data.move_count, 1);
    assert_eq!(data.arr_state, SOLVED);
    assert_eq!(data.game_state, GameState::DONE);

    // Moves after the end are not taken.
    let next = move_tile(&data.arr_state, Operation::RIGHT);
    handle_move_operation(&mut data, next, 'd');
    assert_eq!(data.move_count, 1);
    assert_eq!(data.arr_state, SOLVED);
    assert_eq!(data.game_state, GameState::DONE);

    // Restarting gives a fresh session.
    let same = data.arr_state;
    handle_move_operation(&mut data, same, 'r');
    assert_eq!(data.game_state, GameState::INIT);
    let fresh = session();
    assert_eq!(fresh.game_state, GameState::INIT);
    assert_eq!(fresh.move_count, 0);
}

#[test]
fn first_move_counts_when_it_changes_the_board() {
    let mut data = session();
    data.arr_state = ONE_AWAY;
    let next = move_tile(&data.arr_state, Operation::RIGHT);
    handle_move_operation(&mut data, next, 'd');
    assert_eq!(data.game_state, GameState::PLAYING);
    assert_eq!(data.move_count, 1);
    assert_eq!(data.arr_state, [1, 2, 3, 4, 5, 6, 7, 8, 9, 10, 11, 12, 13, 0, 14, 15]);
}

#[test]
fn state_table() {
    let mut data = session();
    data.arr_state = ONE_AWAY;

    data.game_state = GameState::INIT;
    for key in ['w', 'a', 's', 'd'].iter() {
        assert_eq!(handle_game_state(&data, *key), GameState::PLAYING);
    }
    assert_eq!(handle_game_state(&data, 'p'), GameState::INIT);
    assert_eq!(handle_game_state(&data, 'r'), GameState::INIT);

    data.game_state = GameState::PLAYING;
    assert_eq!(handle_game_state(&data, 'p'), GameState::PAUSED);
    assert_eq!(handle_game_state(&data, 'w'), GameState::PLAYING);
    data.arr_state = SOLVED;
    assert_eq!(handle_game_state(&data, 'a'), GameState::DONE);
    assert_eq!(handle_game_state(&data, 'p'), GameState::PAUSED);

    data.game_state = GameState::PAUSED;
    assert_eq!(handle_game_state(&data, 'q'), GameState::PLAYING);
    assert_eq!(handle_game_state(&data, 'p'), GameState::PLAYING);

    data.game_state = GameState::DONE;
    assert_eq!(handle_game_state(&data, 'r'), GameState::INIT);
    assert_eq!(handle_game_state(&data, 'w'), GameState::DONE);
}

#[test]
fn time_is_banked_only_when_play_stops() {
    let mut data = session();
    data.base_time = 30;

    data.game_state = GameState::PLAYING;
    assert_eq!(banked_time(&data, &GameState::PAUSED, 12), 42);
    assert_eq!(banked_time(&data, &GameState::DONE, 5), 35);
    assert_eq!(banked_time(&data, &GameState::PLAYING, 12), 30);
    assert_eq!(update_elapsed_time(&data, &GameState::PLAYING), 30);
    assert!(update_elapsed_time(&data, &GameState::PAUSED) >= 30);

    data.game_state = GameState::PAUSED;
    assert_eq!(banked_time(&data, &GameState::PLAYING, 12), 30);
    assert_eq!(update_elapsed_time(&data, &GameState::PLAYING), 30);

    data.game_state = GameState::INIT;
    assert_eq!(banked_time(&data, &GameState::PLAYING, 12), 30);

    data.base_time = u64::MAX - 1;
    data.game_state = GameState::PLAYING;
    assert_eq!(banked_time(&data, &GameState::DONE, 5), u64::MAX);
}

#[test]
fn shown_time_depends_on_state() {
    let mut data = session();
    data.base_time = 30;
    data.game_state = GameState::INIT;
    assert_eq!(elapsed_time_at(&data, 7), 0);
    data.game_state = GameState::PLAYING;
    assert_eq!(elapsed_time_at(&data, 7), 37);
    data.game_state = GameState::PAUSED;
    assert_eq!(elapsed_time_at(&data, 7), 30);
    assert_eq!(elapsed_time(&data), 30);
    data.game_state = GameState::DONE;
    assert_eq!(elapsed_time_at(&data, 7), 30);
    assert_eq!(elapsed_time(&data), 30);
}

#[test]
fn clock_is_banked_and_restarted_exactly() {
    let mut data = session();
    data.arr_state = ONE_AWAY;
    let start = data.start_time;
    let later = start + Duration::from_secs(100);

    // The first move starts the interval at the reading given.
    let next = move_tile(&data.arr_state, Operation::RIGHT);
    handle_move_operation_at(&mut data, next, 'd', 0, later);
    assert_eq!(data.game_state, GameState::PLAYING);
    assert_eq!(data.move_count, 1);
    assert_eq!(data.base_time, 0);
    assert!(data.start_time == later);

    // A move during play keeps the interval going.
    let next = move_tile(&data.arr_state, Operation::LEFT);
    handle_move_operation_at(&mut data, next, 'a', 9, later + Duration::from_secs(9));
    assert_eq!(data.move_count, 2);
    assert_eq!(data.base_time, 0);
    assert!(data.start_time == later);

    // The move that solves the board banks the interval.
    assert_eq!(data.arr_state, ONE_AWAY);
    let next = move_tile(&data.arr_state, Operation::LEFT);
    handle_move_operation_at(&mut data, next, 'a', 25, later + Duration::from_secs(25));
    assert_eq!(data.game_state, GameState::DONE);
    assert_eq!(data.move_count, 3);
    assert_eq!(data.arr_state, SOLVED);
    assert_eq!(data.base_time, 25);
    assert!(data.start_time == later);
}

#[test]
fn resuming_restarts_the_interval() {
    let mut data = session();
    data.arr_state = ONE_AWAY;
    data.game_state = GameState::PLAYING;
    data.base_time = 10;
    let start = data.start_time;

    let same = data.arr_state;
    handle_move_operation_at(&mut data, same, 'p', 7, start + Duration::from_secs(7));
    assert_eq!(data.game_state, GameState::PAUSED);
    assert_eq!(data.base_time, 17);
    assert!(data.start_time == start);

    let resumed: Instant = start + Duration::from_secs(60);
    let same = data.arr_state;
    handle_move_operation_at(&mut data, same, 'x', 53, resumed);
    assert_eq!(data.game_state, GameState::PLAYING);
    assert_eq!(data.base_time, 17);
    assert_eq!(data.move_count, 0);
    assert!(data.start_time == resumed);
}
