//! Side effects that a state transition asks its caller to perform, and the
//! errors that reject an action.
//!
//! The engine itself is pure: a transition returns the new state together
//! with a list of effects.  Notifications are best-effort and fire-and-forget
//! — a failed send must never roll back the transition — and result records
//! are written only where a storage handle is available.

use vstd::prelude::*;

verus! {

use vstd::string::StringExecFns;

/// What a notification tells its recipient.
#[derive(Debug, Clone, Copy, PartialEq, Eq, Structural)]
pub enum Note {
    YourTurn,
    Won,
    Lost,
    Tied,
}

/// One requested side effect.
#[derive(Debug, Clone, Copy, PartialEq, Eq, Structural)]
pub enum Effect {
    /// Send a direct, best-effort notification to a player.
    Notify { player: u64, note: Note },
    /// Record a finished two-player game for the leaderboard, one row per
    /// participant: `won` says whether `player` beat `opponent`.
    RecordTicTacToe { player: u64, opponent: u64, won: bool },
    /// Record a finished sliding puzzle with its score and time.
    /// `difficulty` and `size` carry the configuration's stored codes.
    RecordPuzzle { player: u64, difficulty: u8, size: u8, moves: u64, elapsed: u64 },
}

/// Why an action was rejected.  The state is left unchanged; the text of
/// `message` is shown to the acting player as an ephemeral reply.
#[derive(Debug, Clone, Copy, PartialEq, Eq, Structural)]
pub enum GameError {
    /// Only the invited player may answer an invitation.
    NotInvitee,
    /// Only the configuring player may act on a solitaire setup screen.
    NotYourGame,
    /// It is another player's turn.
    NotYourTurn,
    /// The action does not belong to the current phase.
    InvalidAction,
    /// The coordinates point outside the board.
    OutOfBounds,
    /// The cell is already occupied.
    Occupied,
    /// The chosen sub-board is already decided.
    BoardDecided,
    /// Neither chosen tile is the blank.
    NotBlank,
    /// The chosen tiles are not 4-neighbors.
    NotAdjacent,
    /// Playing against oneself is not permitted.
    SelfPlay,
    /// The rotation has no player to act.
    NoPlayer,
}

impl GameError {
    /// The user-facing words for this rejection.
    pub open spec fn spec_message(&self) -> Seq<char> {
        match self {
            GameError::NotInvitee => "You are not the invitee"@,
            GameError::NotYourGame => "You are not the player"@,
            GameError::NotYourTurn => "It is not your turn"@,
            GameError::InvalidAction => "Invalid action"@,
            GameError::OutOfBounds => "Invalid move, out of bounds"@,
            GameError::Occupied => "Invalid move, space already occupied"@,
            GameError::BoardDecided => "Invalid move, board already won"@,
            GameError::NotBlank => "Invalid move, neither tile is the empty tile"@,
            GameError::NotAdjacent => "Invalid move, tiles are not adjacent"@,
            GameError::SelfPlay => "Playing with yourself is not permitted"@,
            GameError::NoPlayer => "Player not found"@,
        }
    }

    /// A short, human-readable rejection message.
    pub fn message(&self) -> (r: String)
        ensures
            r@ == self.spec_message(),
    {
        match self {
            GameError::NotInvitee => String::from_str("You are not the invitee"),
            GameError::NotYourGame => String::from_str("You are not the player"),
            GameError::NotYourTurn => String::from_str("It is not your turn"),
            GameError::InvalidAction => String::from_str("Invalid action"),
            GameError::OutOfBounds => String::from_str("Invalid move, out of bounds"),
            GameError::Occupied => String::from_str("Invalid move, space already occupied"),
            GameError::BoardDecided => String::from_str("Invalid move, board already won"),
            GameError::NotBlank => String::from_str("Invalid move, neither tile is the empty tile"),
            GameError::NotAdjacent => String::from_str("Invalid move, tiles are not adjacent"),
            GameError::SelfPlay => String::from_str("Playing with yourself is not permitted"),
            GameError::NoPlayer => String::from_str("Player not found"),
        }
    }
}

} // verus!
