//! Classic 3×3 tic-tac-toe: board, win detection, action codec, and the
//! invite → play → finish state machine.
//!
//! A game value is self-contained: it carries the shuffled turn cycle, the
//! phase, and the board, and round-trips through the state codec between
//! interactions.  Every transition is a pure function of (state, action,
//! actor, time); requested side effects come back as `Effect` values.

pub mod serial;

use vstd::prelude::*;

verus! {

use crate::cycle::CycleVec;
use crate::effect::Effect;
use crate::effect::GameError;
use crate::effect::Note;
use crate::textutil::dec_digits;
use crate::textutil::parse_usize_spec;
use crate::textutil::parse_usize_field;
use crate::textutil::split_colon;
use crate::textutil::split_colon_exec;
use crate::textutil::str_chars;
use crate::textutil::chars_eq;
use crate::textutil::push_u64;
use crate::bytes::wf_text;
use vstd::string::StringExecFns;


/// A cell: empty, or marked with a player's piece.
#[derive(Debug, Clone, Copy, PartialEq, Eq, Structural)]
pub enum Space {
    X,
    O,
    Empty,
}

/// A participant: platform identity plus the piece they play.
#[derive(Debug, Clone, Copy, PartialEq, Eq, Structural)]
pub struct Player {
    pub id: u64,
    pub piece: Space,
}

/// The 3×3 grid, row-major: `spaces[x][y]`.
#[derive(Debug, Clone, PartialEq, Eq)]
pub struct Board {
    pub spaces: Vec<Vec<Space>>,
}

impl Board {
    pub open spec fn wf(&self) -> bool {
        &&& self.spaces@.len() == 3
        &&& forall|i: int| 0 <= i < 3 ==> #[trigger] self.spaces@[i]@.len() == 3
    }

    pub open spec fn at(&self, x: int, y: int) -> Space {
        self.spaces@[x]@[y]
    }

    pub open spec fn is_blank(&self) -> bool {
        &&& self.wf()
        &&& forall|x: int, y: int|
            0 <= x < 3 && 0 <= y < 3 ==> #[trigger] self.at(x, y) == Space::Empty
    }

    pub open spec fn row_won(&self, p: Space, x: int) -> bool {
        self.at(x, 0) == p && self.at(x, 1) == p && self.at(x, 2) == p
    }

    pub open spec fn col_won(&self, p: Space, y: int) -> bool {
        self.at(0, y) == p && self.at(1, y) == p && self.at(2, y) == p
    }

    pub open spec fn main_diag_won(&self, p: Space) -> bool {
        self.at(0, 0) == p && self.at(1, 1) == p && self.at(2, 2) == p
    }

    pub open spec fn anti_diag_won(&self, p: Space) -> bool {
        self.at(0, 2) == p && self.at(1, 1) == p && self.at(2, 0) == p
    }

    /// Whether `p` holds any of the eight lines.
    pub open spec fn has_line(&self, p: Space) -> bool {
        ||| exists|x: int| 0 <= x < 3 && self.row_won(p, x)
        ||| exists|y: int| 0 <= y < 3 && self.col_won(p, y)
        ||| self.main_diag_won(p)
        ||| self.anti_diag_won(p)
    }

    pub open spec fn is_full(&self) -> bool {
        forall|x: int, y: int| 0 <= x < 3 && 0 <= y < 3 ==> #[trigger] self.at(x, y) != Space::Empty
    }

    /// The winning piece, if any, in the scan order the engine uses: rows
    /// top to bottom, then columns left to right, then the two diagonals,
    /// trying X before O on each line.
    pub open spec fn scan_winner(&self) -> Option<Space> {
        if self.row_won(Space::X, 0) {
            Some(Space::X)
        } else if self.row_won(Space::O, 0) {
            Some(Space::O)
        } else if self.row_won(Space::X, 1) {
            Some(Space::X)
        } else if self.row_won(Space::O, 1) {
            Some(Space::O)
        } else if self.row_won(Space::X, 2) {
            Some(Space::X)
        } else if self.row_won(Space::O, 2) {
            Some(Space::O)
        } else if self.col_won(Space::X, 0) {
            Some(Space::X)
        } else if self.col_won(Space::O, 0) {
            Some(Space::O)
        } else if self.col_won(Space::X, 1) {
            Some(Space::X)
        } else if self.col_won(Space::O, 1) {
            Some(Space::O)
        } else if self.col_won(Space::X, 2) {
            Some(Space::X)
        } else if self.col_won(Space::O, 2) {
            Some(Space::O)
        } else if self.main_diag_won(Space::X) {
            Some(Space::X)
        } else if self.main_diag_won(Space::O) {
            Some(Space::O)
        } else if self.anti_diag_won(Space::X) {
            Some(Space::X)
        } else if self.anti_diag_won(Space::O) {
            Some(Space::O)
        } else {
            None
        }
    }

    /// Read one cell.
    pub fn get(&self, x: usize, y: usize) -> (r: Space)
        requires
            self.wf(),
            x < 3,
            y < 3,
        ensures
            r == self.at(x as int, y as int),
    {
        self.spaces[x][y]
    }

    /// An all-empty board.
    pub fn blank() -> (r: Board)
        ensures
            r.is_blank(),
    {
        let mut spaces: Vec<Vec<Space>> = Vec::new();
        let mut x: usize = 0;
        while x < 3
            invariant
                x <= 3,
                spaces@.len() == x,
                forall|i: int| 0 <= i < x ==> #[trigger] spaces@[i]@.len() == 3,
                forall|i: int, j: int|
                    0 <= i < x && 0 <= j < 3 ==> #[trigger] spaces@[i]@[j] == Space::Empty,
            decreases 3 - x,
        {
            let mut row: Vec<Space> = Vec::new();
            row.push(Space::Empty);
            row.push(Space::Empty);
            row.push(Space::Empty);
            spaces.push(row);
            x = x + 1;
        }
        let b = Board { spaces };
        proof {
            assert forall|x0: int, y0: int| 0 <= x0 < 3 && 0 <= y0 < 3 implies #[trigger] b.at(
                x0,
                y0,
            ) == Space::Empty by {
                assert(b.spaces@[x0]@[y0] == Space::Empty);
            }
        }
        b
    }

    /// The winning piece in scan order.
    fn scan(&self) -> (r: Option<Space>)
        requires
            self.wf(),
        ensures
            r == self.scan_winner(),
    {
        let mut x: usize = 0;
        while x < 3
            invariant
                self.wf(),
                x <= 3,
                forall|i: int|
                    0 <= i < x ==> !self.row_won(Space::X, i) && !self.row_won(Space::O, i),
            decreases 3 - x,
        {
            if self.get(x, 0) == Space::X && self.get(x, 1) == Space::X && self.get(x, 2)
                == Space::X {
                return Some(Space::X);
            }
            if self.get(x, 0) == Space::O && self.get(x, 1) == Space::O && self.get(x, 2)
                == Space::O {
                return Some(Space::O);
            }
            x = x + 1;
        }
        let mut y: usize = 0;
        while y < 3
            invariant
                self.wf(),
                y <= 3,
                forall|i: int|
                    0 <= i < 3 ==> !self.row_won(Space::X, i) && !self.row_won(Space::O, i),
                forall|i: int|
                    0 <= i < y ==> !self.col_won(Space::X, i) && !self.col_won(Space::O, i),
            decreases 3 - y,
        {
            if self.get(0, y) == Space::X && self.get(1, y) == Space::X && self.get(2, y)
                == Space::X {
                return Some(Space::X);
            }
            if self.get(0, y) == Space::O && self.get(1, y) == Space::O && self.get(2, y)
                == Space::O {
                return Some(Space::O);
            }
            y = y + 1;
        }
        if self.get(0, 0) == Space::X && self.get(1, 1) == Space::X && self.get(2, 2) == Space::X {
            return Some(Space::X);
        }
        if self.get(0, 0) == Space::O && self.get(1, 1) == Space::O && self.get(2, 2) == Space::O {
            return Some(Space::O);
        }
        if self.get(0, 2) == Space::X && self.get(1, 1) == Space::X && self.get(2, 0) == Space::X {
            return Some(Space::X);
        }
        if self.get(0, 2) == Space::O && self.get(1, 1) == Space::O && self.get(2, 0) == Space::O {
            return Some(Space::O);
        }
        None
    }

    /// Whether every cell is marked.
    fn full(&self) -> (r: bool)
        requires
            self.wf(),
        ensures
            r == self.is_full(),
    {
        let mut x: usize = 0;
        while x < 3
            invariant
                self.wf(),
                x <= 3,
                forall|i: int, j: int|
                    0 <= i < x && 0 <= j < 3 ==> #[trigger] self.at(i, j) != Space::Empty,
            decreases 3 - x,
        {
            let mut y: usize = 0;
            while y < 3
                invariant
                    self.wf(),
                    x < 3,
                    y <= 3,
                    forall|i: int, j: int|
                        0 <= i < x && 0 <= j < 3 ==> #[trigger] self.at(i, j) != Space::Empty,
                    forall|j: int| 0 <= j < y ==> #[trigger] self.at(x as int, j) != Space::Empty,
                decreases 3 - y,
            {
                if self.get(x, y) == Space::Empty {
                    return false;
                }
                y = y + 1;
            }
            x = x + 1;
        }
        true
    }

    /// Decide the board: a win for the scan-order winner's player, a tie on
    /// a full board, or nothing while the game continues.  The winning mark
    /// is resolved to a player through the turn cycle's list; if no player
    /// holds that mark the check fails softly with `None`.
    pub fn check_winner(&self, players: &CycleVec<Player>) -> (r: Option<Outcome>)
        requires
            self.wf(),
        ensures
            r == winner_of(self, players.players()),
    {
        match self.scan() {
            Some(piece) => match find_player(players.all(), piece) {
                Some(pl) => Some(Outcome::Win(pl)),
                None => None,
            },
            None => {
                if self.full() {
                    Some(Outcome::Tie)
                } else {
                    None
                }
            },
        }
    }
}

/// The decision `check_winner` returns, as a function of board and players.
pub open spec fn winner_of(b: &Board, ps: Seq<Player>) -> Option<Outcome> {
    match b.scan_winner() {
        Some(piece) => match spec_find_player(ps, piece) {
            Some(pl) => Some(Outcome::Win(pl)),
            None => None,
        },
        None => if b.is_full() {
            Some(Outcome::Tie)
        } else {
            None
        },
    }
}

/// The first player in rotation order holding the given piece.
pub open spec fn spec_find_player(ps: Seq<Player>, piece: Space) -> Option<Player>
    decreases ps.len(),
{
    if ps.len() == 0 {
        None
    } else if ps[0].piece == piece {
        Some(ps[0])
    } else {
        spec_find_player(ps.drop_first(), piece)
    }
}

/// The first player whose identity differs from `id`.
pub open spec fn spec_find_opponent(ps: Seq<Player>, id: u64) -> Option<Player>
    decreases ps.len(),
{
    if ps.len() == 0 {
        None
    } else if ps[0].id != id {
        Some(ps[0])
    } else {
        spec_find_opponent(ps.drop_first(), id)
    }
}

fn find_player(ps: &Vec<Player>, piece: Space) -> (r: Option<Player>)
    ensures
        r == spec_find_player(ps@, piece),
{
    let mut i: usize = 0;
    proof {
        assert(ps@.skip(0) =~= ps@);
    }
    while i < ps.len()
        invariant
            i <= ps@.len(),
            spec_find_player(ps@, piece) == spec_find_player(ps@.skip(i as int), piece),
        decreases ps@.len() - i,
    {
        proof {
            assert(ps@.skip(i as int).drop_first() =~= ps@.skip(i as int + 1));
        }
        if ps[i].piece == piece {
            return Some(ps[i]);
        }
        i = i + 1;
    }
    None
}

fn find_opponent(ps: &Vec<Player>, id: u64) -> (r: Option<Player>)
    ensures
        r == spec_find_opponent(ps@, id),
{
    let mut i: usize = 0;
    proof {
        assert(ps@.skip(0) =~= ps@);
    }
    while i < ps.len()
        invariant
            i <= ps@.len(),
            spec_find_opponent(ps@, id) == spec_find_opponent(ps@.skip(i as int), id),
        decreases ps@.len() - i,
    {
        proof {
            assert(ps@.skip(i as int).drop_first() =~= ps@.skip(i as int + 1));
        }
        if ps[i].id != id {
            return Some(ps[i]);
        }
        i = i + 1;
    }
    None
}

/// How the game ended.
#[derive(Debug, Clone, Copy, PartialEq, Eq, Structural)]
pub enum Outcome {
    Win(Player),
    Tie,
}

impl Outcome {
    /// The winning player, or `None` for a tie.
    pub fn winner(&self) -> (r: Option<Player>)
        ensures
            r == (match self {
                Outcome::Win(p) => Some(*p),
                Outcome::Tie => None::<Player>,
            }),
    {
        match self {
            Outcome::Win(p) => Some(*p),
            Outcome::Tie => None,
        }
    }
}

/// The invitation handshake: who asked, who must answer.
#[derive(Debug, Clone, Copy, PartialEq, Eq, Structural)]
pub struct Awaiting {
    pub inviter: u64,
    pub invitee: u64,
}

/// Live play: the board being filled.
#[derive(Debug, Clone, PartialEq, Eq)]
pub struct InProgress {
    pub board: Board,
}

impl InProgress {
    /// Place `piece` at `(x, y)`.  Fails out of bounds or on an occupied
    /// cell, and then leaves the board untouched.
    pub fn make_move(&mut self, x: usize, y: usize, piece: Space) -> (r: Result<(), GameError>)
        requires
            old(self).board.wf(),
        ensures
            final(self).board.wf(),
            match r {
                Ok(()) => {
                    &&& x <= 2 && y <= 2
                    &&& old(self).board.at(x as int, y as int) == Space::Empty
                    &&& final(self).board.at(x as int, y as int) == piece
                    &&& forall|i: int, j: int|
                        0 <= i < 3 && 0 <= j < 3 && !(i == x && j == y)
                            ==> #[trigger] final(self).board.at(i, j) == old(self).board.at(i, j)
                },
                Err(e) => {
                    &&& *final(self) == *old(self)
                    &&& ((x > 2 || y > 2) ==> e == GameError::OutOfBounds)
                    &&& (!(x > 2 || y > 2) ==> e == GameError::Occupied && old(self).board.at(
                        x as int,
                        y as int,
                    ) != Space::Empty)
                },
            },
            r is Err <==> (x > 2 || y > 2 || old(self).board.at(x as int, y as int) != Space::Empty),
    {
        if x > 2 || y > 2 {
            return Err(GameError::OutOfBounds);
        }
        if self.board.get(x, y) != Space::Empty {
            return Err(GameError::Occupied);
        }
        self.board.spaces[x].set(y, piece);
        proof {
            assert(final(self).board.at(x as int, y as int) == piece);
        }
        Ok(())
    }
}

/// The finished screen: the outcome and the final board for display.
#[derive(Debug, Clone, PartialEq, Eq)]
pub struct WonGame {
    pub winner: Outcome,
    pub board: Board,
}

/// The game's phase.
#[derive(Debug, Clone, PartialEq, Eq)]
pub enum State {
    AwaitingApproval(Awaiting),
    InProgress(InProgress),
    Finished(WonGame),
    Cancelled(String),
}

/// A player's intent, carried in a control id.
#[derive(Debug, Clone, Copy, PartialEq, Eq, Structural)]
pub enum Action {
    Accept,
    Decline,
    Place(usize, usize),
}

/// The action a control id denotes: `<namespace>:<name>[:<arg>]*`.  The
/// namespace field is routing information and is not examined here.
/// Unknown names, wrong argument counts (extra trailing fields included)
/// and unparseable arguments all decode to `None`.
pub open spec fn spec_action_of(s: Seq<char>) -> Option<Action> {
    let fs = split_colon(s);
    if fs.len() < 2 {
        None
    } else if fs[1] == "Accept"@ {
        if fs.len() == 2 {
            Some(Action::Accept)
        } else {
            None
        }
    } else if fs[1] == "Decline"@ {
        if fs.len() == 2 {
            Some(Action::Decline)
        } else {
            None
        }
    } else if fs[1] == "Place"@ {
        if fs.len() == 4 {
            match (parse_usize_spec(fs[2]), parse_usize_spec(fs[3])) {
                (Some(x), Some(y)) => Some(Action::Place(x, y)),
                _ => None,
            }
        } else {
            None
        }
    } else {
        None
    }
}

impl Action {
    /// The action's name with its arguments, colon-separated.
    pub open spec fn spec_name(&self) -> Seq<char> {
        match self {
            Action::Accept => "Accept"@,
            Action::Decline => "Decline"@,
            Action::Place(x, y) => "Place:"@ + dec_digits(*x as nat) + ":"@ + dec_digits(*y as nat),
        }
    }

    /// The action's name with its arguments.
    pub fn name(&self) -> (r: String)
        ensures
            r@ == self.spec_name(),
    {
        match self {
            Action::Accept => String::from_str("Accept"),
            Action::Decline => String::from_str("Decline"),
            Action::Place(x, y) => {
                let mut s = String::from_str("Place:");
                push_u64(&mut s, *x as u64);
                s.append(":");
                push_u64(&mut s, *y as u64);
                proof {
                    assert(s@ =~= self.spec_name());
                }
                s
            },
        }
    }

    /// The control id for this action under the given command namespace.
    pub fn to_custom_id(&self, command: &str) -> (r: String)
        ensures
            r@ == command@ + ":"@ + self.spec_name(),
    {
        let mut s = String::from_str(command);
        s.append(":");
        let n = self.name();
        s.append(n.as_str());
        proof {
            assert(s@ =~= command@ + ":"@ + self.spec_name());
        }
        s
    }

    /// Decode a control id; forged or malformed ids yield `None`, never a
    /// panic.
    pub fn from_custom_id(custom_id: &str) -> (r: Option<Action>)
        ensures
            r == spec_action_of(custom_id@),
    {
        let chars = str_chars(custom_id);
        let fields = split_colon_exec(&chars);
        proof {
            assert(fields.deep_view().len() == fields@.len());
        }
        if fields.len() < 2 {
            return None;
        }
        let f1 = &fields[1];
        proof {
            assert(f1@ =~= fields.deep_view()[1]);
        }
        if chars_eq(f1, "Accept") {
            if fields.len() == 2 {
                Some(Action::Accept)
            } else {
                None
            }
        } else if chars_eq(f1, "Decline") {
            if fields.len() == 2 {
                Some(Action::Decline)
            } else {
                None
            }
        } else if chars_eq(f1, "Place") {
            if fields.len() == 4 {
                let f2 = &fields[2];
                let f3 = &fields[3];
                proof {
                    assert(f2@ =~= fields.deep_view()[2]);
                    assert(f3@ =~= fields.deep_view()[3]);
                }
                match (parse_usize_field(f2), parse_usize_field(f3)) {
                    (Some(x), Some(y)) => Some(Action::Place(x, y)),
                    _ => None,
                }
            } else {
                None
            }
        } else {
            None
        }
    }
}

/// A full game: the rotation, the phase, and when it last changed hands.
#[derive(Debug, Clone, PartialEq, Eq)]
pub struct Game {
    pub players: CycleVec<Player>,
    pub gamestate: State,
    pub last_time: u64,
}

/// The player whose turn it is.
pub open spec fn current_of(g: &Game) -> Option<Player> {
    if g.players.players().len() > 0 {
        Some(g.players.players()[g.players.cursor()])
    } else {
        None
    }
}

/// The `Notify` effects for the first `n` players when the game ends with
/// outcome `w`: the winner hears they won, the others that they lost, and
/// everyone ties together.
pub open spec fn notes_upto(ps: Seq<Player>, n: int, w: Outcome) -> Seq<Effect>
    decreases n,
{
    if n <= 0 {
        Seq::<Effect>::empty()
    } else {
        notes_upto(ps, n - 1, w) + seq![
            Effect::Notify { player: ps[n - 1].id, note: note_for(ps[n - 1], w) },
        ]
    }
}

pub open spec fn note_for(p: Player, w: Outcome) -> Note {
    match w {
        Outcome::Win(q) => if p == q {
            Note::Won
        } else {
            Note::Lost
        },
        Outcome::Tie => Note::Tied,
    }
}

/// The leaderboard rows for the first `n` players when `winner` won: one
/// row per player who has an opponent, saying whether they beat them.
/// Ties are not recorded.
pub open spec fn records_upto(ps: Seq<Player>, n: int, winner: Player) -> Seq<Effect>
    decreases n,
{
    if n <= 0 {
        Seq::<Effect>::empty()
    } else {
        records_upto(ps, n - 1, winner) + (match spec_find_opponent(ps, ps[n - 1].id) {
            Some(o) => seq![
                Effect::RecordTicTacToe {
                    player: ps[n - 1].id,
                    opponent: o.id,
                    won: ps[n - 1].id == winner.id,
                },
            ],
            None => Seq::<Effect>::empty(),
        })
    }
}

/// All end-of-game effects: notifications to every player, then — for a
/// win only — the leaderboard rows.
pub open spec fn finish_effects(ps: Seq<Player>, w: Outcome) -> Seq<Effect> {
    notes_upto(ps, ps.len() as int, w) + (match w {
        Outcome::Win(p) => records_upto(ps, ps.len() as int, p),
        Outcome::Tie => Seq::<Effect>::empty(),
    })
}

fn push_finish_effects(out: &mut Vec<Effect>, ps: &Vec<Player>, w: Outcome)
    ensures
        final(out)@ == old(out)@ + finish_effects(ps@, w),
{
    let ghost base = out@;
    let mut i: usize = 0;
    while i < ps.len()
        invariant
            i <= ps@.len(),
            out@ == base + notes_upto(ps@, i as int, w),
        decreases ps@.len() - i,
    {
        let p = ps[i];
        let note = match w {
            Outcome::Win(q) => if p == q {
                Note::Won
            } else {
                Note::Lost
            },
            Outcome::Tie => Note::Tied,
        };
        out.push(Effect::Notify { player: p.id, note });
        proof {
            assert(out@ =~= base + notes_upto(ps@, i as int + 1, w));
        }
        i = i + 1;
    }
    if let Outcome::Win(winner) = w {
        let ghost base2 = out@;
        let mut j: usize = 0;
        while j < ps.len()
            invariant
                j <= ps@.len(),
                out@ == base2 + records_upto(ps@, j as int, winner),
            decreases ps@.len() - j,
        {
            let p = ps[j];
            match find_opponent(ps, p.id) {
                Some(o) => {
                    out.push(
                        Effect::RecordTicTacToe {
                            player: p.id,
                            opponent: o.id,
                            won: p.id == winner.id,
                        },
                    );
                },
                None => {},
            }
            proof {
                assert(out@ =~= base2 + records_upto(ps@, j as int + 1, winner));
            }
            j = j + 1;
        }
        proof {
            assert(out@ =~= base + finish_effects(ps@, w));
        }
    } else {
        proof {
            assert(out@ =~= base + finish_effects(ps@, w));
        }
    }
}

impl Game {
    /// A state the engine maintains and the codec is specified on.
    pub open spec fn wf(&self) -> bool {
        &&& self.players.wf()
        &&& match self.gamestate {
            State::AwaitingApproval(_) => true,
            State::InProgress(ip) => ip.board.wf(),
            State::Finished(w) => w.board.wf(),
            State::Cancelled(reason) => wf_text(reason@) && reason@.len() <= u64::MAX,
        }
    }

    /// Open a fresh invitation: the inviter plays X, the invitee O, and a
    /// shuffled rotation decides who starts.  Self-play is rejected unless
    /// the configuration allows it.
    pub fn new(inviter: u64, invitee: u64, allow_self_play: bool, now: u64) -> (r: Result<
        Game,
        GameError,
    >)
        ensures
            match r {
                Ok(g) => {
                    &&& (inviter != invitee || allow_self_play)
                    &&& g.wf()
                    &&& g.players.players().to_multiset() =~= seq![
                        Player { id: inviter, piece: Space::X },
                        Player { id: invitee, piece: Space::O },
                    ].to_multiset()
                    &&& g.gamestate == State::AwaitingApproval(Awaiting { inviter, invitee })
                    &&& g.last_time == now
                },
                Err(e) => {
                    &&& e == GameError::SelfPlay
                    &&& inviter == invitee && !allow_self_play
                },
            },
    {
        if inviter == invitee && !allow_self_play {
            return Err(GameError::SelfPlay);
        }
        let mut ps: Vec<Player> = Vec::new();
        ps.push(Player { id: inviter, piece: Space::X });
        ps.push(Player { id: invitee, piece: Space::O });
        proof {
            assert(ps@ =~= seq![
                Player { id: inviter, piece: Space::X },
                Player { id: invitee, piece: Space::O },
            ]);
        }
        let players = CycleVec::new(ps);
        Ok(
            Game {
                players,
                gamestate: State::AwaitingApproval(Awaiting { inviter, invitee }),
                last_time: now,
            },
        )
    }

    /// Resolve one action by `actor` at time `now`.
    ///
    /// The contract walks the phases of the state machine: during the
    /// handshake only the invitee may accept or decline; during play only
    /// the current player may place, wins and ties finish the game with
    /// their notifications and leaderboard rows, and an ordinary move
    /// passes the turn (with an "it's your turn" nudge after a minute of
    /// quiet); terminal phases reject everything.  A rejected action
    /// leaves the game exactly as it was.
    pub fn do_action(&mut self, actor: u64, action: Action, now: u64) -> (r: Result<
        Vec<Effect>,
        GameError,
    >)
        requires
            old(self).wf(),
        ensures
            final(self).wf(),
            r is Err ==> *final(self) == *old(self),
            match old(self).gamestate {
                State::AwaitingApproval(a) => {
                    &&& (actor != a.invitee ==> r == Err::<Vec<Effect>, GameError>(
                        GameError::NotInvitee,
                    ))
                    &&& (actor == a.invitee ==> match action {
                        Action::Accept => {
                            match current_of(old(self)) {
                                None => r == Err::<Vec<Effect>, GameError>(GameError::NoPlayer),
                                Some(cur) => {
                                    &&& r is Ok
                                    &&& final(self).players.players() == old(
                                        self,
                                    ).players.players()
                                    &&& final(self).players.cursor() == old(self).players.cursor()
                                    &&& final(self).gamestate matches State::InProgress(ip)
                                        && ip.board.is_blank()
                                    &&& (cur.id != actor ==> final(self).last_time == now
                                        && r->Ok_0@ == (if now > old(self).last_time {
                                        seq![Effect::Notify { player: cur.id, note: Note::YourTurn }]
                                    } else {
                                        Seq::<Effect>::empty()
                                    }))
                                    &&& (cur.id == actor ==> final(self).last_time == old(
                                        self,
                                    ).last_time && r->Ok_0@ == Seq::<Effect>::empty())
                                },
                            }
                        },
                        Action::Decline => {
                            &&& r is Ok
                            &&& r->Ok_0@ == Seq::<Effect>::empty()
                            &&& final(self).players.players() == old(self).players.players()
                            &&& final(self).players.cursor() == old(self).players.cursor()
                            &&& final(self).last_time == old(self).last_time
                            &&& final(self).gamestate matches State::Cancelled(reason) && reason@
                                == "Declined"@
                        },
                        Action::Place(_, _) => r == Err::<Vec<Effect>, GameError>(
                            GameError::InvalidAction,
                        ),
                    })
                },
                State::InProgress(ip) => {
                    &&& (!actor_is_current(old(self), actor) ==> r == Err::<
                        Vec<Effect>,
                        GameError,
                    >(GameError::NotYourTurn))
                    &&& (actor_is_current(old(self), actor) ==> {
                        let cur = current_of(old(self))->Some_0;
                        match action {
                            Action::Place(x, y) => {
                                if x > 2 || y > 2 {
                                    r == Err::<Vec<Effect>, GameError>(GameError::OutOfBounds)
                                } else if ip.board.at(x as int, y as int) != Space::Empty {
                                    r == Err::<Vec<Effect>, GameError>(GameError::Occupied)
                                } else {
                                    match final(self).gamestate {
                                        State::Finished(wg) => {
                                            &&& placed_from(&ip.board, &wg.board, x as int, y as int, cur.piece)
                                            &&& winner_of(&wg.board, old(self).players.players())
                                                == Some(wg.winner)
                                            &&& r is Ok
                                            &&& r->Ok_0@ == finish_effects(
                                                old(self).players.players(),
                                                wg.winner,
                                            )
                                            &&& final(self).players.players() == old(
                                                self,
                                            ).players.players()
                                            &&& final(self).players.cursor() == old(
                                                self,
                                            ).players.cursor()
                                            &&& final(self).last_time == old(self).last_time
                                        },
                                        State::InProgress(ip2) => {
                                            &&& placed_from(&ip.board, &ip2.board, x as int, y as int, cur.piece)
                                            &&& winner_of(&ip2.board, old(self).players.players())
                                                is None
                                            &&& r is Ok
                                            &&& final(self).players.players() == old(
                                                self,
                                            ).players.players()
                                            &&& final(self).players.cursor()
                                                == crate::cycle::advance_index(
                                                old(self).players.cursor(),
                                                old(self).players.players().len() as int,
                                            )
                                            &&& final(self).last_time == now
                                            &&& ({
                                                let nxt = current_of(final(self))->Some_0;
                                                r->Ok_0@ == (if now > old(self).last_time + 60 {
                                                    seq![
                                                        Effect::Notify {
                                                            player: nxt.id,
                                                            note: Note::YourTurn,
                                                        },
                                                    ]
                                                } else {
                                                    Seq::<Effect>::empty()
                                                })
                                            })
                                        },
                                        _ => false,
                                    }
                                }
                            },
                            _ => r == Err::<Vec<Effect>, GameError>(GameError::InvalidAction),
                        }
                    })
                },
                State::Finished(_) => r == Err::<Vec<Effect>, GameError>(GameError::InvalidAction),
                State::Cancelled(_) => r == Err::<Vec<Effect>, GameError>(GameError::InvalidAction),
            },
    {
        match &self.gamestate {
            State::AwaitingApproval(a) => {
                if actor != a.invitee {
                    return Err(GameError::NotInvitee);
                }
                match action {
                    Action::Accept => {
                        let cur = match self.players.current() {
                            Some(c) => *c,
                            None => {
                                return Err(GameError::NoPlayer);
                            },
                        };
                        let mut effects: Vec<Effect> = Vec::new();
                        if cur.id != actor {
                            if now > self.last_time {
                                effects.push(
                                    Effect::Notify { player: cur.id, note: Note::YourTurn },
                                );
                            }
                            self.last_time = now;
                        }
                        self.gamestate = State::InProgress(InProgress { board: Board::blank() });
                        Ok(effects)
                    },
                    Action::Decline => {
                        self.gamestate = State::Cancelled(String::from_str("Declined"));
                        proof {
                            reveal_strlit("Declined");
                        }
                        Ok(Vec::new())
                    },
                    Action::Place(_, _) => Err(GameError::InvalidAction),
                }
            },
            State::InProgress(_) => {
                let cur = match self.players.current() {
                    Some(c) => *c,
                    None => {
                        return Err(GameError::NotYourTurn);
                    },
                };
                if cur.id != actor {
                    return Err(GameError::NotYourTurn);
                }
                match action {
                    Action::Place(x, y) => {
                        let ip = match &mut self.gamestate {
                            State::InProgress(ip) => ip,
                            _ => {
                                return Err(GameError::InvalidAction);
                            },
                        };
                        match ip.make_move(x, y, cur.piece) {
                            Ok(()) => {},
                            Err(e) => {
                                return Err(e);
                            },
                        }
                        let board_now = match &self.gamestate {
                            State::InProgress(ip) => ip.board.clone_board(),
                            _ => {
                                return Err(GameError::InvalidAction);
                            },
                        };
                        match board_now.check_winner(&self.players) {
                            Some(w) => {
                                let mut effects: Vec<Effect> = Vec::new();
                                push_finish_effects(&mut effects, self.players.all(), w);
                                self.gamestate = State::Finished(
                                    WonGame { winner: w, board: board_now },
                                );
                                Ok(effects)
                            },
                            None => {
                                self.players.next_player();
                                let mut effects: Vec<Effect> = Vec::new();
                                if now > self.last_time && now - self.last_time > 60 {
                                    let nxt = match self.players.current() {
                                        Some(c) => *c,
                                        None => {
                                            return Err(GameError::NoPlayer);
                                        },
                                    };
                                    effects.push(
                                        Effect::Notify { player: nxt.id, note: Note::YourTurn },
                                    );
                                }
                                self.last_time = now;
                                Ok(effects)
                            },
                        }
                    },
                    _ => Err(GameError::InvalidAction),
                }
            },
            State::Finished(_) => Err(GameError::InvalidAction),
            State::Cancelled(_) => Err(GameError::InvalidAction),
        }
    }
}

/// Whether the acting player is the one whose turn it is.
pub open spec fn actor_is_current(g: &Game, actor: u64) -> bool {
    match current_of(g) {
        Some(p) => p.id == actor,
        None => false,
    }
}

/// A helper naming the current player's piece; meaningful only when the
/// actor is current.
pub open spec fn current_piece_of(g: &Game, actor: u64) -> Space {
    match current_of(g) {
        Some(p) => p.piece,
        None => Space::Empty,
    }
}

/// Two boards hold the same marks.
pub open spec fn same_board(a: &Board, b: &Board) -> bool {
    &&& a.wf()
    &&& b.wf()
    &&& forall|i: int, j: int| 0 <= i < 3 && 0 <= j < 3 ==> #[trigger] a.at(i, j) == b.at(i, j)
}

/// `after` is `before` with `piece` placed at `(x, y)` and every other
/// cell unchanged.
pub open spec fn placed_from(before: &Board, after: &Board, x: int, y: int, piece: Space) -> bool {
    &&& after.wf()
    &&& after.at(x, y) == piece
    &&& forall|i: int, j: int|
        0 <= i < 3 && 0 <= j < 3 && !(i == x && j == y) ==> #[trigger] after.at(i, j) == before.at(
            i,
            j,
        )
}

impl Board {
    /// A copy of the board, cell for cell.
    pub fn clone_board(&self) -> (r: Board)
        requires
            self.wf(),
        ensures
            same_board(&r, self),
    {
        let mut spaces: Vec<Vec<Space>> = Vec::new();
        let mut x: usize = 0;
        while x < 3
            invariant
                self.wf(),
                x <= 3,
                spaces@.len() == x,
                forall|i: int| 0 <= i < x ==> #[trigger] spaces@[i]@ == self.spaces@[i]@,
            decreases 3 - x,
        {
            let mut row: Vec<Space> = Vec::new();
            row.push(self.get(x, 0));
            row.push(self.get(x, 1));
            row.push(self.get(x, 2));
            proof {
                assert(row@ =~= self.spaces@[x as int]@);
            }
            spaces.push(row);
            x = x + 1;
        }
        let r = Board { spaces };
        proof {
            assert forall|i: int, j: int| 0 <= i < 3 && 0 <= j < 3 implies #[trigger] r.at(i, j)
                == self.at(i, j) by {
                assert(r.spaces@[i]@ == self.spaces@[i]@);
            }
        }
        r
    }
}

} // verus!
