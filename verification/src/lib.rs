//! A stateless, message-embedded engine for turn-based board games.
//!
//! Each game (tic-tac-toe, ultimate tic-tac-toe, a sliding puzzle) is a
//! deterministic state machine whose whole state round-trips through a
//! compact, URL-safe text token embedded in the rendered message, so no
//! server-side session store is needed.

pub mod bytes;
pub mod codec;
pub mod cycle;
pub mod db;
pub mod effect;
pub mod json;
pub mod leaderboard;
pub mod textutil;
pub mod slidingpuzzle;
pub mod tictactoe;
pub mod ultimatetictactoe;
pub mod util;

use vstd::prelude::*;

verus! {

} // verus!
