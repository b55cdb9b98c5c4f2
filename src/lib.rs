//! Core of a sliding fifteen puzzle: solvable shuffles, moves of the blank,
//! and the state machine of a game session.
pub mod board;
pub mod external;
pub mod game;
pub mod parity;

pub use board::{
    Operation, count_inversion, is_done, is_solvable, is_state_same, move_tile, settle_draw,
    shuffle_arr,
};
pub use game::{
    GameData, GameState, banked_time, elapsed_time, elapsed_time_at, handle_game_state,
    handle_move_operation, handle_move_operation_at, update_elapsed_time,
};
