//! The sliding puzzle: an N×N grid of numbered tiles with one blank.
//!
//! A fresh board starts from a solved-looking configuration and is shuffled
//! by a difficulty-dependent number of random legal slides, which keeps it
//! solvable: every legal slide is reversible.  A player move swaps the blank
//! with one of its 4-neighbors; the board is solved when every non-blank
//! cell `i` holds the value `i + 1`.

pub mod serial;

use vstd::prelude::*;

verus! {

use crate::effect::Effect;
use crate::effect::GameError;
use crate::bytes::wf_text;
use vstd::string::StringExecFns;

/// A cell: the blank, or a numbered tile.
#[derive(Debug, Clone, Copy, PartialEq, Eq, Structural)]
pub enum Space {
    Empty,
    Value(u8),
}

/// The board's edge length.
#[derive(Debug, Clone, Copy, PartialEq, Eq, Structural)]
pub enum Size {
    Three,
    Four,
    Five,
}

impl Size {
    pub open spec fn spec_numeral(&self) -> int {
        match self {
            Size::Three => 3,
            Size::Four => 4,
            Size::Five => 5,
        }
    }

    /// The edge length as a number.
    pub fn numeral(&self) -> (r: usize)
        ensures
            r == self.spec_numeral(),
            3 <= r <= 5,
    {
        match self {
            Size::Three => 3,
            Size::Four => 4,
            Size::Five => 5,
        }
    }

    /// The stored code for this size (also its shuffle multiplier base).
    pub fn code(&self) -> (r: u8)
        ensures
            r == (match self {
                Size::Three => 0u8,
                Size::Four => 1u8,
                Size::Five => 2u8,
            }),
    {
        match self {
            Size::Three => 0,
            Size::Four => 1,
            Size::Five => 2,
        }
    }
}

/// How hard the shuffle is.
#[derive(Debug, Clone, Copy, PartialEq, Eq, Structural)]
pub enum Difficulty {
    Easy,
    Medium,
    Hard,
}

impl Difficulty {
    /// The stored code for this difficulty.
    pub fn code(&self) -> (r: u8)
        ensures
            r == (match self {
                Difficulty::Easy => 0u8,
                Difficulty::Medium => 1u8,
                Difficulty::Hard => 2u8,
            }),
    {
        match self {
            Difficulty::Easy => 0,
            Difficulty::Medium => 1,
            Difficulty::Hard => 2,
        }
    }

    /// How many random slides the shuffle makes per board cell.
    pub fn slides_per_cell(&self) -> (r: usize)
        ensures
            r == (match self {
                Difficulty::Easy => 10usize,
                Difficulty::Medium => 50usize,
                Difficulty::Hard => 100usize,
            }),
    {
        match self {
            Difficulty::Easy => 10,
            Difficulty::Medium => 50,
            Difficulty::Hard => 100,
        }
    }
}

/// A direction the blank can move in.
#[derive(Debug, Clone, Copy, PartialEq, Eq, Structural)]
pub enum Direction {
    Up,
    Down,
    Left,
    Right,
}

impl Direction {
    /// The next direction clockwise: up, right, down, left, and around.
    pub fn clockwise(&self) -> (r: Direction)
        ensures
            r == spec_clockwise(*self),
    {
        match self {
            Direction::Up => Direction::Right,
            Direction::Right => Direction::Down,
            Direction::Down => Direction::Left,
            Direction::Left => Direction::Up,
        }
    }
}

pub open spec fn spec_clockwise(d: Direction) -> Direction {
    match d {
        Direction::Up => Direction::Right,
        Direction::Right => Direction::Down,
        Direction::Down => Direction::Left,
        Direction::Left => Direction::Up,
    }
}

/// Relies on rand's `Rng::gen_range` with `thread_rng`: a number drawn
/// uniformly below the bound; nothing beyond the range can be promised of
/// any outcome.  An empty range would panic, so the bound must be positive.
#[verifier::external_body]
pub fn random_below(n: usize) -> (r: usize)
    requires
        n > 0,
    ensures
        r < n,
{
    rand::Rng::gen_range(&mut rand::thread_rng(), 0..n)
}

/// The flat N×N grid, row-major: index `x + y * n` is column `x`, row `y`.
#[derive(Debug, Clone, PartialEq, Eq)]
pub struct Board {
    pub spaces: Vec<Space>,
    pub size: Size,
}

impl Board {
    /// The grid has `n * n` cells and exactly one blank.
    pub open spec fn wf(&self) -> bool {
        &&& self.spaces@.len() == self.size.spec_numeral() * self.size.spec_numeral()
        &&& exists|i: int| 0 <= i < self.spaces@.len() && self.spaces@[i] == Space::Empty
        &&& forall|i: int, j: int|
            0 <= i < self.spaces@.len() && 0 <= j < self.spaces@.len() && #[trigger] self.spaces@[i]
                == Space::Empty && #[trigger] self.spaces@[j] == Space::Empty ==> i == j
    }

    /// Cell `i` is in place when it holds the value `i + 1`.
    pub open spec fn spec_solved(&self) -> bool {
        forall|i: int|
            0 <= i < self.spaces@.len() ==> (#[trigger] self.spaces@[i] == Space::Empty
                || self.spaces@[i] == Space::Value((i + 1) as u8))
    }

    /// Find the blank.
    pub fn find_blank(&self) -> (r: usize)
        requires
            self.wf(),
        ensures
            r < self.spaces@.len(),
            self.spaces@[r as int] == Space::Empty,
            r == blank_of_cells(self.spaces@),
    {
        let mut i: usize = 0;
        while i < self.spaces.len()
            invariant
                self.wf(),
                i <= self.spaces@.len(),
                forall|j: int| 0 <= j < i ==> self.spaces@[j] != Space::Empty,
            decreases self.spaces@.len() - i,
        {
            if self.spaces[i] == Space::Empty {
                proof {
                    let w = blank_of_cells(self.spaces@);
                    assert(self.spaces@[w] == Space::Empty);
                    assert(w == i);
                }
                return i;
            }
            i = i + 1;
        }
        proof {
            let w = choose|k: int|
                0 <= k < self.spaces@.len() && self.spaces@[k] == Space::Empty;
            assert(self.spaces@[w] != Space::Empty);
        }
        0
    }

    /// The solved check: every non-blank cell `i` holds `i + 1`, and
    /// nothing else counts.
    pub fn check_winner(&self) -> (r: bool)
        requires
            self.wf(),
        ensures
            r == self.spec_solved(),
    {
        let mut i: usize = 0;
        while i < self.spaces.len()
            invariant
                self.wf(),
                i <= self.spaces@.len(),
                forall|j: int|
                    0 <= j < i ==> (#[trigger] self.spaces@[j] == Space::Empty || self.spaces@[j]
                        == Space::Value((j + 1) as u8)),
            decreases self.spaces@.len() - i,
        {
            let s = self.spaces[i];
            let expected: u8 = if i < 255 {
                (i + 1) as u8
            } else {
                0
            };
            match s {
                Space::Empty => {},
                Space::Value(v) => {
                    if i >= 255 || v != expected {
                        proof {
                            let cell = self.spaces@[i as int];
                            assert(!(cell == Space::Empty || cell == Space::Value((i + 1) as u8)));
                        }
                        return false;
                    }
                },
            }
            i = i + 1;
        }
        true
    }

    /// Swap tiles `s` and `f`: legal exactly when both are on the board,
    /// one of them is the blank, and they are 4-neighbors (same row and
    /// adjacent columns, or same column and adjacent rows).  An illegal
    /// swap is rejected and the board is untouched.
    pub fn swap_checked(&mut self, s: usize, f: usize) -> (r: Result<(), GameError>)
        requires
            old(self).wf(),
        ensures
            final(self).wf(),
            final(self).size == old(self).size,
            match r {
                Ok(()) => {
                    &&& s < old(self).spaces@.len() && f < old(self).spaces@.len()
                    &&& (old(self).spaces@[s as int] == Space::Empty || old(self).spaces@[f as int]
                        == Space::Empty)
                    &&& adjacent(s as int, f as int, old(self).size.spec_numeral())
                    &&& final(self).spaces@ == old(self).spaces@.update(
                        s as int,
                        old(self).spaces@[f as int],
                    ).update(f as int, old(self).spaces@[s as int])
                },
                Err(e) => {
                    &&& *final(self) == *old(self)
                    &&& ((s >= old(self).spaces@.len() || f >= old(self).spaces@.len()) ==> e
                        == GameError::OutOfBounds)
                    &&& ((s < old(self).spaces@.len() && f < old(self).spaces@.len() && old(
                        self,
                    ).spaces@[s as int] != Space::Empty && old(self).spaces@[f as int]
                        != Space::Empty) ==> e == GameError::NotBlank)
                    &&& ((s < old(self).spaces@.len() && f < old(self).spaces@.len() && (old(
                        self,
                    ).spaces@[s as int] == Space::Empty || old(self).spaces@[f as int]
                        == Space::Empty) && !adjacent(s as int, f as int, old(self).size.spec_numeral()))
                        ==> e == GameError::NotAdjacent)
                },
            },
            r is Err <==> (s >= old(self).spaces@.len() || f >= old(self).spaces@.len() || (old(
                self,
            ).spaces@[s as int] != Space::Empty && old(self).spaces@[f as int] != Space::Empty)
                || !adjacent(s as int, f as int, old(self).size.spec_numeral())),
    {
        let n = self.size.numeral();
        proof {
            assert(self.spaces@.len() == n * n);
        }
        let total = self.spaces.len();
        if s >= total || f >= total {
            return Err(GameError::OutOfBounds);
        }
        if self.spaces[s] != Space::Empty && self.spaces[f] != Space::Empty {
            return Err(GameError::NotBlank);
        }
        let sx = s % n;
        let sy = s / n;
        let fx = f % n;
        let fy = f / n;
        let adj = (sy == fy && (sx + 1 == fx || fx + 1 == sx)) || (sx == fx && (sy + 1 == fy || fy
            + 1 == sy));
        proof {
            assert(adj == adjacent(s as int, f as int, n as int));
        }
        if !adj {
            return Err(GameError::NotAdjacent);
        }
        let vs = self.spaces[s];
        let vf = self.spaces[f];
        self.spaces.set(s, vf);
        self.spaces.set(f, vs);
        proof {
            lemma_swap_keeps_blank(old(self).spaces@, self.spaces@, s as int, f as int);
        }
        Ok(())
    }

    /// Slide the blank one step in the requested direction, rotating the
    /// direction clockwise until it stays on the board — near edges the
    /// shuffle is slightly biased, but it always terminates.  Returns the
    /// direction actually used: the blank swaps with the 4-neighbor tile
    /// one step that way, and nothing else moves.
    pub fn move_empty_tile_raw(&mut self, thismove: Direction) -> (used: Direction)
        requires
            old(self).wf(),
        ensures
            final(self).wf(),
            final(self).size == old(self).size,
            final(self).spaces@.to_multiset() == old(self).spaces@.to_multiset(),
            used == spec_slide_dir(old(self), thismove),
            ({
                let n = old(self).size.spec_numeral();
                let e = blank_of_cells(old(self).spaces@);
                let t = step_target(e, used, n);
                &&& 0 <= t < old(self).spaces@.len()
                &&& adjacent(e, t, n)
                &&& final(self).spaces@ == old(self).spaces@.update(
                    e,
                    old(self).spaces@[t],
                ).update(t, Space::Empty)
            }),
            slide_step(old(self).spaces@, final(self).spaces@, old(self).size.spec_numeral()),
    {
        let n = self.size.numeral();
        proof {
            assert(self.spaces@.len() == n * n);
            vstd::arithmetic::mul::lemma_mul_strictly_positive(n as int, n as int);
        }
        let empty_tile = self.find_blank();
        let x = empty_tile % n;
        let y = empty_tile / n;
        proof {
            lemma_div_mod_bounds(empty_tile as int, n as int);
            assert(empty_tile == blank_of_cells(self.spaces@));
        }
        // rotate clockwise until the move stays in bounds; among four
        // consecutive rotations every direction appears, and a grid at
        // least three wide never blocks both vertical directions at once
        let d0 = thismove;
        let d1 = d0.clockwise();
        let d2 = d1.clockwise();
        let d3 = d2.clockwise();
        let d = if dir_ok(d0, x, y, n) {
            d0
        } else if dir_ok(d1, x, y, n) {
            d1
        } else if dir_ok(d2, x, y, n) {
            d2
        } else {
            proof {
                lemma_rotation_covers(d0, x as int, y as int, n as int);
            }
            d3
        };
        proof {
            assert(d == rotate_until_ok(d0, x as int, y as int, n as int));
        }
        proof {
            assert(spec_dir_ok(d, x as int, y as int, n as int));
            lemma_index_math(x as int, y as int, n as int);
            lemma_target_in_bounds(x as int, y as int, n as int, d);
            assert(empty_tile == x + y * n) by {
                vstd::arithmetic::div_mod::lemma_fundamental_div_mod(empty_tile as int, n as int);
            }
        }
        let target: usize = match d {
            Direction::Up => x + (y - 1) * n,
            Direction::Down => x + (y + 1) * n,
            Direction::Left => x - 1 + y * n,
            Direction::Right => x + 1 + y * n,
        };
        proof {
            lemma_step_facts(empty_tile as int, x as int, y as int, target as int, n as int, d);
        }
        let ve = self.spaces[empty_tile];
        let vt = self.spaces[target];
        self.spaces.set(empty_tile, vt);
        self.spaces.set(target, ve);
        proof {
            lemma_swap_keeps_blank(old(self).spaces@, self.spaces@, empty_tile as int, target as int);
            lemma_swap_multiset(old(self).spaces@, self.spaces@, empty_tile as int, target as int);
            assert(self.spaces@ == old(self).spaces@.update(
                empty_tile as int,
                old(self).spaces@[target as int],
            ).update(target as int, Space::Empty));
            assert(slide_step(
                old(self).spaces@,
                self.spaces@,
                old(self).size.spec_numeral(),
            )) by {
                assert(adjacent(empty_tile as int, target as int, n as int));
            }
        }
        d
    }

    /// Build a board from the solved-looking start: every cell `i` holds
    /// `i + 1` except the chosen blank.  Cell counts fit in a tile byte for
    /// every supported size.
    pub fn seeded(size: Size, emptyspace: usize) -> (r: Board)
        requires
            emptyspace < size.spec_numeral() * size.spec_numeral(),
        ensures
            r.wf(),
            r.size == size,
            r.spec_solved(),
            distinct_cells(r.spaces@),
            r.spaces@[emptyspace as int] == Space::Empty,
    {
        let n = size.numeral();
        let total = n * n;
        let mut spaces: Vec<Space> = Vec::new();
        let mut i: usize = 0;
        while i < total
            invariant
                total == size.spec_numeral() * size.spec_numeral(),
                total <= 25,
                emptyspace < total,
                i <= total,
                spaces@.len() == i,
                forall|j: int|
                    0 <= j < i ==> #[trigger] spaces@[j] == (if j == emptyspace {
                        Space::Empty
                    } else {
                        Space::Value((j + 1) as u8)
                    }),
            decreases total - i,
        {
            if i == emptyspace {
                spaces.push(Space::Empty);
            } else {
                spaces.push(Space::Value((i + 1) as u8));
            }
            i = i + 1;
        }
        let b = Board { spaces, size };
        proof {
            assert(b.spaces@[emptyspace as int] == Space::Empty);
            assert forall|i0: int, j0: int|
                0 <= i0 < b.spaces@.len() && 0 <= j0 < b.spaces@.len() && #[trigger] b.spaces@[i0]
                    == Space::Empty && #[trigger] b.spaces@[j0] == Space::Empty implies i0 == j0 by {
                if i0 != emptyspace {
                    assert(b.spaces@[i0] == Space::Value((i0 + 1) as u8));
                }
                if j0 != emptyspace {
                    assert(b.spaces@[j0] == Space::Value((j0 + 1) as u8));
                }
            }
            assert forall|i0: int, j0: int| 0 <= i0 < j0 < b.spaces@.len() implies #[trigger] b
                .spaces@[i0] != #[trigger] b.spaces@[j0] by {
                if i0 != emptyspace && j0 != emptyspace {
                    assert(b.spaces@[i0] == Space::Value((i0 + 1) as u8));
                    assert(b.spaces@[j0] == Space::Value((j0 + 1) as u8));
                } else if i0 == emptyspace {
                    assert(b.spaces@[j0] == Space::Value((j0 + 1) as u8));
                } else {
                    assert(b.spaces@[i0] == Space::Value((i0 + 1) as u8));
                }
            }
        }
        b
    }

    /// A fresh board: seeded, then shuffled by the difficulty's number of
    /// random legal slides.  Whatever directions the shuffle draws, the
    /// result holds every numbered tile exactly once and is reachable from
    /// a solved configuration by legal slides — and each slide is
    /// reversible, so every generated board is solvable.
    pub fn new(size: Size, difficulty: Difficulty) -> (r: Board)
        ensures
            r.wf(),
            r.size == size,
            distinct_cells(r.spaces@),
            solvable(&r),
    {
        let n = size.numeral();
        proof {
            assert(n * n <= 25) by (nonlinear_arith)
                requires
                    n <= 5,
            ;
        }
        let total = n * n;
        let emptyspace = random_below(total - 1);
        let mut board = Board::seeded(size, emptyspace);
        let ghost seed = board.spaces@;
        proof {
            assert(solved_cells(seed));
            assert(reachable_n(seed, board.spaces@, size.spec_numeral(), 0));
            assert(solvable(&board));
        }
        let rounds = difficulty.slides_per_cell() * total;
        let mut k: usize = 0;
        while k < rounds
            invariant
                board.wf(),
                board.size == size,
                distinct_cells(board.spaces@),
                solvable(&board),
            decreases rounds - k,
        {
            let dir = match random_below(4) {
                0 => Direction::Up,
                1 => Direction::Down,
                2 => Direction::Left,
                _ => Direction::Right,
            };
            let ghost before = board.spaces@;
            board.move_empty_tile_raw(dir);
            proof {
                lemma_slide_distinct(before, board.spaces@, size.spec_numeral());
                let (s, kk) = choose|s: Seq<Space>, kk: nat|
                    s.len() == before.len() && solved_cells(s) && #[trigger] reachable_n(
                        s,
                        before,
                        size.spec_numeral(),
                        kk,
                    );
                lemma_reach_extend(s, before, board.spaces@, size.spec_numeral(), kk);
                assert(solvable(&board));
            }
            k = k + 1;
        }
        board
    }
}

/// The solitaire player.
#[derive(Debug, Clone, Copy, PartialEq, Eq, Structural)]
pub struct Player {
    pub id: u64,
}

/// The configuration screen: the player chooses size and difficulty.
#[derive(Debug, Clone, Copy, PartialEq, Eq, Structural)]
pub struct Awaiting {
    pub inviter: u64,
}

/// Live play: the board being solved.
#[derive(Debug, Clone, PartialEq, Eq)]
pub struct InProgress {
    pub board: Board,
}

/// The final score: how long it took and in how many moves.
#[derive(Debug, Clone, Copy, PartialEq, Eq, Structural)]
pub struct Outcome {
    pub elapsed: u64,
    pub moves: u64,
    pub player: Player,
}

/// The finished screen.
#[derive(Debug, Clone, PartialEq, Eq)]
pub struct WonGame {
    pub winner: Outcome,
    pub board: Board,
}

/// The game's phase.
#[derive(Debug, Clone, PartialEq, Eq)]
pub enum State {
    AwaitingApproval(Awaiting),
    InProgress(InProgress),
    Finished(WonGame),
}

/// A player's intent, carried in a control id.
#[derive(Debug, Clone, Copy, PartialEq, Eq, Structural)]
pub enum Action {
    SetDifficulty(Difficulty),
    SetSize(Size),
    Start,
    MoveTile(usize, usize),
    InvalidMove(usize),
}

impl Difficulty {
    /// The difficulty's name as it appears in control ids.
    pub open spec fn spec_name(&self) -> Seq<char> {
        match self {
            Difficulty::Easy => "Easy"@,
            Difficulty::Medium => "Medium"@,
            Difficulty::Hard => "Hard"@,
        }
    }

    /// The difficulty's name.
    pub fn name(&self) -> (r: &'static str)
        ensures
            r@ == self.spec_name(),
    {
        match self {
            Difficulty::Easy => "Easy",
            Difficulty::Medium => "Medium",
            Difficulty::Hard => "Hard",
        }
    }
}

impl Size {
    /// The size's name as it appears in control ids.
    pub open spec fn spec_name(&self) -> Seq<char> {
        match self {
            Size::Three => "3x3"@,
            Size::Four => "4x4"@,
            Size::Five => "5x5"@,
        }
    }

    /// The size's name.
    pub fn name(&self) -> (r: &'static str)
        ensures
            r@ == self.spec_name(),
    {
        match self {
            Size::Three => "3x3",
            Size::Four => "4x4",
            Size::Five => "5x5",
        }
    }
}

impl Direction {
    /// The direction's name.
    pub fn name(&self) -> (r: &'static str)
        ensures
            r@ == (match self {
                Direction::Up => "Up"@,
                Direction::Down => "Down"@,
                Direction::Left => "Left"@,
                Direction::Right => "Right"@,
            }),
    {
        match self {
            Direction::Up => "Up",
            Direction::Down => "Down",
            Direction::Left => "Left",
            Direction::Right => "Right",
        }
    }
}

/// The action a control id denotes: `<namespace>:<name>[:<arg>]*`, with the
/// namespace field ignored here.  Unknown names, wrong argument counts and
/// unparseable arguments decode to `None`, never a panic.  As in the rest
/// of the engine, extra trailing fields are rejected; the configuration
/// actions read exactly one argument.
pub open spec fn spec_action_of(s: Seq<char>) -> Option<Action> {
    let fs = crate::textutil::split_colon(s);
    if fs.len() < 2 {
        None
    } else if fs[1] == "SetDifficulty"@ {
        if fs.len() == 3 {
            if fs[2] == "Easy"@ {
                Some(Action::SetDifficulty(Difficulty::Easy))
            } else if fs[2] == "Medium"@ {
                Some(Action::SetDifficulty(Difficulty::Medium))
            } else if fs[2] == "Hard"@ {
                Some(Action::SetDifficulty(Difficulty::Hard))
            } else {
                None
            }
        } else {
            None
        }
    } else if fs[1] == "SetSize"@ {
        if fs.len() == 3 {
            if fs[2] == "3x3"@ {
                Some(Action::SetSize(Size::Three))
            } else if fs[2] == "4x4"@ {
                Some(Action::SetSize(Size::Four))
            } else if fs[2] == "5x5"@ {
                Some(Action::SetSize(Size::Five))
            } else {
                None
            }
        } else {
            None
        }
    } else if fs[1] == "Start"@ {
        if fs.len() == 2 {
            Some(Action::Start)
        } else {
            None
        }
    } else if fs[1] == "MoveTile"@ {
        if fs.len() == 4 {
            match (crate::textutil::parse_usize_spec(fs[2]), crate::textutil::parse_usize_spec(
                fs[3],
            )) {
                (Some(a), Some(b)) => Some(Action::MoveTile(a, b)),
                _ => None,
            }
        } else {
            None
        }
    } else if fs[1] == "InvalidMove"@ {
        if fs.len() == 3 {
            match crate::textutil::parse_usize_spec(fs[2]) {
                Some(a) => Some(Action::InvalidMove(a)),
                None => None,
            }
        } else {
            None
        }
    } else {
        None
    }
}

impl Action {
    /// Decode a control id; forged or malformed ids yield `None`.
    pub fn from_custom_id(custom_id: &str) -> (r: Option<Action>)
        ensures
            r == spec_action_of(custom_id@),
    {
        let chars = crate::textutil::str_chars(custom_id);
        let fields = crate::textutil::split_colon_exec(&chars);
        proof {
            assert(fields.deep_view().len() == fields@.len());
        }
        if fields.len() < 2 {
            return None;
        }
        let f1 = &fields[1];
        proof {
            assert(f1@ =~= fields.deep_view()[1]);
        }
        if crate::textutil::chars_eq(f1, "SetDifficulty") {
            if fields.len() != 3 {
                return None;
            }
            let f2 = &fields[2];
            proof {
                assert(f2@ =~= fields.deep_view()[2]);
            }
            if crate::textutil::chars_eq(f2, "Easy") {
                Some(Action::SetDifficulty(Difficulty::Easy))
            } else if crate::textutil::chars_eq(f2, "Medium") {
                Some(Action::SetDifficulty(Difficulty::Medium))
            } else if crate::textutil::chars_eq(f2, "Hard") {
                Some(Action::SetDifficulty(Difficulty::Hard))
            } else {
                None
            }
        } else if crate::textutil::chars_eq(f1, "SetSize") {
            if fields.len() != 3 {
                return None;
            }
            let f2 = &fields[2];
            proof {
                assert(f2@ =~= fields.deep_view()[2]);
            }
            if crate::textutil::chars_eq(f2, "3x3") {
                Some(Action::SetSize(Size::Three))
            } else if crate::textutil::chars_eq(f2, "4x4") {
                Some(Action::SetSize(Size::Four))
            } else if crate::textutil::chars_eq(f2, "5x5") {
                Some(Action::SetSize(Size::Five))
            } else {
                None
            }
        } else if crate::textutil::chars_eq(f1, "Start") {
            if fields.len() == 2 {
                Some(Action::Start)
            } else {
                None
            }
        } else if crate::textutil::chars_eq(f1, "MoveTile") {
            if fields.len() != 4 {
                return None;
            }
            let f2 = &fields[2];
            let f3 = &fields[3];
            proof {
                assert(f2@ =~= fields.deep_view()[2]);
                assert(f3@ =~= fields.deep_view()[3]);
            }
            match (crate::textutil::parse_usize_field(f2), crate::textutil::parse_usize_field(f3)) {
                (Some(a), Some(b)) => Some(Action::MoveTile(a, b)),
                _ => None,
            }
        } else if crate::textutil::chars_eq(f1, "InvalidMove") {
            if fields.len() != 3 {
                return None;
            }
            let f2 = &fields[2];
            proof {
                assert(f2@ =~= fields.deep_view()[2]);
            }
            match crate::textutil::parse_usize_field(f2) {
                Some(a) => Some(Action::InvalidMove(a)),
                None => None,
            }
        } else {
            None
        }
    }

    /// The action's name with its arguments, colon-separated.
    pub open spec fn spec_name(&self) -> Seq<char> {
        match self {
            Action::SetDifficulty(d) => "SetDifficulty:"@ + d.spec_name(),
            Action::SetSize(z) => "SetSize:"@ + z.spec_name(),
            Action::Start => "Start"@,
            Action::MoveTile(s, f) => "MoveTile:"@ + crate::textutil::dec_digits(*s as nat) + ":"@
                + crate::textutil::dec_digits(*f as nat),
            Action::InvalidMove(i) => "InvalidMove:"@ + crate::textutil::dec_digits(*i as nat),
        }
    }

    /// The control id for this action under the given command namespace.
    pub fn to_custom_id(&self, command: &str) -> (r: String)
        ensures
            r@ == command@ + ":"@ + self.spec_name(),
    {
        let mut s = String::from_str(command);
        s.append(":");
        match self {
            Action::SetDifficulty(d) => {
                s.append("SetDifficulty:");
                s.append(d.name());
            },
            Action::SetSize(z) => {
                s.append("SetSize:");
                s.append(z.name());
            },
            Action::Start => {
                s.append("Start");
            },
            Action::MoveTile(a, b) => {
                s.append("MoveTile:");
                crate::textutil::push_u64(&mut s, *a as u64);
                s.append(":");
                crate::textutil::push_u64(&mut s, *b as u64);
            },
            Action::InvalidMove(i) => {
                s.append("InvalidMove:");
                crate::textutil::push_u64(&mut s, *i as u64);
            },
        }
        proof {
            assert(s@ =~= command@ + ":"@ + self.spec_name());
        }
        s
    }
}

/// A full game: the player, the phase, the running clock and move count,
/// and the chosen configuration.
#[derive(Debug, Clone, PartialEq, Eq)]
pub struct Game {
    pub player: Player,
    pub gamestate: State,
    pub start_time: Option<u64>,
    pub moves: u64,
    pub difficulty: Difficulty,
    pub size: Size,
}

impl Game {
    /// A state the engine maintains and the codec is specified on.
    pub open spec fn wf(&self) -> bool {
        match self.gamestate {
            State::AwaitingApproval(_) => true,
            State::InProgress(ip) => ip.board.wf(),
            State::Finished(w) => w.board.wf(),
        }
    }

    /// Open a fresh configuration screen: a three-wide board on the
    /// easiest shuffle, to be adjusted before the start.
    pub fn new(player_id: u64) -> (g: Game)
        ensures
            g.wf(),
            g.player.id == player_id,
            g.gamestate == State::AwaitingApproval(Awaiting { inviter: player_id }),
            g.start_time is None,
            g.moves == 0,
            g.difficulty == Difficulty::Easy,
            g.size == Size::Three,
    {
        Game {
            player: Player { id: player_id },
            gamestate: State::AwaitingApproval(Awaiting { inviter: player_id }),
            start_time: None,
            moves: 0,
            difficulty: Difficulty::Easy,
            size: Size::Three,
        }
    }

    /// Resolve one action by `actor` at time `now`.
    ///
    /// On the configuration screen only the configuring player may act:
    /// size and difficulty changes update the settings, and `Start` builds
    /// a freshly shuffled board.  In play, a tile move swaps with the blank
    /// (starting the clock on the first move and counting every legal
    /// one); solving the puzzle finishes the game, records the score, and
    /// asks for a leaderboard row.  The finished screen rejects
    /// everything, and a rejected action leaves the game exactly as it
    /// was.
    pub fn do_action(&mut self, actor: u64, action: Action, now: u64) -> (r: Result<
        Vec<Effect>,
        GameError,
    >)
        requires
            old(self).wf(),
        ensures
            final(self).wf(),
            r is Err ==> *final(self) == *old(self),
            final(self).player == old(self).player,
            match old(self).gamestate {
                State::AwaitingApproval(a) => {
                    &&& (actor != a.inviter ==> r == Err::<Vec<Effect>, GameError>(
                        GameError::NotYourGame,
                    ))
                    &&& (actor == a.inviter ==> match action {
                        Action::SetDifficulty(dd) => {
                            &&& r is Ok
                            &&& r->Ok_0@ == Seq::<Effect>::empty()
                            &&& *final(self) == Game { difficulty: dd, ..*old(self) }
                        },
                        Action::SetSize(ss) => {
                            &&& r is Ok
                            &&& r->Ok_0@ == Seq::<Effect>::empty()
                            &&& *final(self) == Game { size: ss, ..*old(self) }
                        },
                        Action::Start => {
                            &&& r is Ok
                            &&& r->Ok_0@ == Seq::<Effect>::empty()
                            &&& final(self).gamestate matches State::InProgress(ip)
                                && ip.board.wf() && ip.board.size == old(self).size
                                && distinct_cells(ip.board.spaces@) && solvable(&ip.board)
                            &&& final(self).start_time == old(self).start_time
                            &&& final(self).moves == old(self).moves
                            &&& final(self).difficulty == old(self).difficulty
                            &&& final(self).size == old(self).size
                        },
                        _ => r == Err::<Vec<Effect>, GameError>(GameError::InvalidAction),
                    })
                },
                State::InProgress(ip) => {
                    &&& (actor != old(self).player.id ==> r == Err::<Vec<Effect>, GameError>(
                        GameError::NotYourGame,
                    ))
                    &&& (actor == old(self).player.id ==> match action {
                        Action::MoveTile(s, f) => {
                            &&& (r is Err <==> (old(self).moves == u64::MAX || move_reject(
                                &ip.board,
                                s as int,
                                f as int,
                            ) is Some))
                            &&& match r {
                                Err(e) => if old(self).moves == u64::MAX {
                                    e == GameError::InvalidAction
                                } else {
                                    Some(e) == move_reject(&ip.board, s as int, f as int)
                                },
                                Ok(es) => {
                                    let started = if old(self).start_time is Some {
                                        old(self).start_time->Some_0
                                    } else {
                                        now
                                    };
                                    &&& old(self).moves < u64::MAX
                                    &&& final(self).moves == old(self).moves + 1
                                    &&& match final(self).gamestate {
                                        State::InProgress(ip2) => {
                                            &&& !ip2.board.spec_solved()
                                            &&& ip2.board.spaces@ == ip.board.spaces@.update(
                                                s as int,
                                                ip.board.spaces@[f as int],
                                            ).update(f as int, ip.board.spaces@[s as int])
                                            &&& final(self).start_time == Some(started)
                                            &&& es@ == Seq::<Effect>::empty()
                                        },
                                        State::Finished(wg) => {
                                            &&& wg.board.spec_solved()
                                            &&& wg.board.spaces@ == ip.board.spaces@.update(
                                                s as int,
                                                ip.board.spaces@[f as int],
                                            ).update(f as int, ip.board.spaces@[s as int])
                                            &&& wg.winner.player == old(self).player
                                            &&& wg.winner.moves == old(self).moves + 1
                                            &&& wg.winner.elapsed == (if now >= started {
                                                now - started
                                            } else {
                                                0
                                            })
                                            &&& es@ == seq![
                                                Effect::RecordPuzzle {
                                                    player: old(self).player.id,
                                                    difficulty: (match old(self).difficulty {
                                                        Difficulty::Easy => 0u8,
                                                        Difficulty::Medium => 1u8,
                                                        Difficulty::Hard => 2u8,
                                                    }),
                                                    size: (match old(self).size {
                                                        Size::Three => 0u8,
                                                        Size::Four => 1u8,
                                                        Size::Five => 2u8,
                                                    }),
                                                    moves: wg.winner.moves,
                                                    elapsed: wg.winner.elapsed,
                                                },
                                            ]
                                        },
                                        _ => false,
                                    }
                                },
                            }
                        },
                        Action::InvalidMove(_) => {
                            &&& r is Ok
                            &&& r->Ok_0@ == Seq::<Effect>::empty()
                            &&& *final(self) == *old(self)
                        },
                        _ => r == Err::<Vec<Effect>, GameError>(GameError::InvalidAction),
                    })
                },
                State::Finished(_) => r == Err::<Vec<Effect>, GameError>(GameError::InvalidAction),
            },
    {
        match &self.gamestate {
            State::AwaitingApproval(a) => {
                if actor != a.inviter {
                    return Err(GameError::NotYourGame);
                }
                match action {
                    Action::SetDifficulty(dd) => {
                        self.difficulty = dd;
                        Ok(Vec::new())
                    },
                    Action::SetSize(ss) => {
                        self.size = ss;
                        Ok(Vec::new())
                    },
                    Action::Start => {
                        let board = Board::new(self.size, self.difficulty);
                        self.gamestate = State::InProgress(InProgress { board });
                        Ok(Vec::new())
                    },
                    _ => Err(GameError::InvalidAction),
                }
            },
            State::InProgress(_) => {
                if actor != self.player.id {
                    return Err(GameError::NotYourGame);
                }
                match action {
                    Action::MoveTile(s, f) => {
                        if self.moves == u64::MAX {
                            return Err(GameError::InvalidAction);
                        }
                        let ip = match &mut self.gamestate {
                            State::InProgress(ip) => ip,
                            _ => {
                                return Err(GameError::InvalidAction);
                            },
                        };
                        match ip.board.swap_checked(s, f) {
                            Ok(()) => {},
                            Err(e) => {
                                return Err(e);
                            },
                        }
                        let started = match self.start_time {
                            Some(t) => t,
                            None => now,
                        };
                        self.start_time = Some(started);
                        self.moves = self.moves + 1;
                        let solved = match &self.gamestate {
                            State::InProgress(ip2) => ip2.board.check_winner(),
                            _ => {
                                return Err(GameError::InvalidAction);
                            },
                        };
                        if solved {
                            let board_now = match &self.gamestate {
                                State::InProgress(ip2) => ip2.board.clone_flat(),
                                _ => {
                                    return Err(GameError::InvalidAction);
                                },
                            };
                            let elapsed = if now >= started {
                                now - started
                            } else {
                                0
                            };
                            let winner = Outcome { elapsed, moves: self.moves, player: self.player };
                            let mut effects: Vec<Effect> = Vec::new();
                            effects.push(
                                Effect::RecordPuzzle {
                                    player: self.player.id,
                                    difficulty: self.difficulty.code(),
                                    size: self.size.code(),
                                    moves: self.moves,
                                    elapsed,
                                },
                            );
                            proof {
                                assert(effects@ =~= seq![
                                    Effect::RecordPuzzle {
                                        player: old(self).player.id,
                                        difficulty: (match old(self).difficulty {
                                            Difficulty::Easy => 0u8,
                                            Difficulty::Medium => 1u8,
                                            Difficulty::Hard => 2u8,
                                        }),
                                        size: (match old(self).size {
                                            Size::Three => 0u8,
                                            Size::Four => 1u8,
                                            Size::Five => 2u8,
                                        }),
                                        moves: winner.moves,
                                        elapsed: winner.elapsed,
                                    },
                                ]);
                            }
                            self.gamestate = State::Finished(WonGame { winner, board: board_now });
                            Ok(effects)
                        } else {
                            Ok(Vec::new())
                        }
                    },
                    Action::InvalidMove(_) => Ok(Vec::new()),
                    _ => Err(GameError::InvalidAction),
                }
            },
            State::Finished(_) => Err(GameError::InvalidAction),
        }
    }
}

impl Board {
    /// A copy of the board, cell for cell.
    pub fn clone_flat(&self) -> (r: Board)
        requires
            self.wf(),
        ensures
            r.wf(),
            r.size == self.size,
            r.spaces@ == self.spaces@,
    {
        let mut spaces: Vec<Space> = Vec::new();
        let mut i: usize = 0;
        while i < self.spaces.len()
            invariant
                i <= self.spaces@.len(),
                spaces@ == self.spaces@.take(i as int),
            decreases self.spaces@.len() - i,
        {
            spaces.push(self.spaces[i]);
            proof {
                assert(spaces@ =~= self.spaces@.take(i as int + 1));
            }
            i = i + 1;
        }
        proof {
            assert(self.spaces@.take(self.spaces@.len() as int) =~= self.spaces@);
        }
        Board { spaces, size: self.size }
    }
}

/// Whether flat indices `s` and `f` are 4-neighbors on an `n`-wide grid.
pub open spec fn adjacent(s: int, f: int, n: int) -> bool {
    ||| (s / n == f / n && (s % n + 1 == f % n || f % n + 1 == s % n))
    ||| (s % n == f % n && (s / n + 1 == f / n || f / n + 1 == s / n))
}

/// Pairwise-distinct cells: with the single blank, every numbered tile
/// appears exactly once.
pub open spec fn distinct_cells(s: Seq<Space>) -> bool {
    forall|i: int, j: int| 0 <= i < j < s.len() ==> #[trigger] s[i] != #[trigger] s[j]
}

/// One legal slide: the blank swaps with a 4-neighbor tile.
pub open spec fn slide_step(a: Seq<Space>, b: Seq<Space>, n: int) -> bool {
    exists|e: int, t: int|
        0 <= e < a.len() && 0 <= t < a.len() && a[e] == Space::Empty && #[trigger] adjacent(e, t, n)
            && b == a.update(e, a[t]).update(t, Space::Empty)
}

/// `to` can be produced from `from` by exactly `k` legal slides.
pub open spec fn reachable_n(from: Seq<Space>, to: Seq<Space>, n: int, k: nat) -> bool
    decreases k,
{
    if k == 0 {
        to == from
    } else {
        exists|mid: Seq<Space>|
            reachable_n(from, mid, n, (k - 1) as nat) && #[trigger] slide_step(mid, to, n)
    }
}

/// Every non-blank cell `i` holds the value `i + 1`.
pub open spec fn solved_cells(s: Seq<Space>) -> bool {
    forall|i: int|
        0 <= i < s.len() ==> (#[trigger] s[i] == Space::Empty || s[i] == Space::Value(
            (i + 1) as u8,
        ))
}

/// The board was produced from a solved configuration by legal slides —
/// and each legal slide is reversible, so it can be solved by legal
/// slides again.
pub open spec fn solvable(b: &Board) -> bool {
    exists|s: Seq<Space>, k: nat|
        s.len() == b.spaces@.len() && solved_cells(s) && #[trigger] reachable_n(
            s,
            b.spaces@,
            b.size.spec_numeral(),
            k,
        )
}

/// One more legal slide extends a slide history.
pub proof fn lemma_reach_extend(s: Seq<Space>, a: Seq<Space>, b: Seq<Space>, n: int, k: nat)
    requires
        reachable_n(s, a, n, k),
        slide_step(a, b, n),
    ensures
        reachable_n(s, b, n, (k + 1) as nat),
{
}

/// A legal slide permutes two cells, so pairwise-distinct cells stay
/// pairwise distinct.
pub proof fn lemma_slide_distinct(a: Seq<Space>, b: Seq<Space>, n: int)
    requires
        distinct_cells(a),
        slide_step(a, b, n),
    ensures
        distinct_cells(b),
{
    let (e, t) = choose|e: int, t: int|
        0 <= e < a.len() && 0 <= t < a.len() && a[e] == Space::Empty && #[trigger] adjacent(e, t, n)
            && b == a.update(e, a[t]).update(t, Space::Empty);
    assert forall|i: int, j: int| 0 <= i < j < b.len() implies #[trigger] b[i] != #[trigger] b[j] by {
        let pi = if i == e {
            t
        } else if i == t {
            e
        } else {
            i
        };
        let pj = if j == e {
            t
        } else if j == t {
            e
        } else {
            j
        };
        assert(b[i] == a[pi]);
        assert(b[j] == a[pj]);
        if e != t {
            assert(pi != pj);
        } else {
            assert(!adjacent(e, t, n));
        }
    }
}

/// Where the blank lands after a slide in direction `d`.
pub open spec fn step_target(e: int, d: Direction, n: int) -> int {
    match d {
        Direction::Up => e - n,
        Direction::Down => e + n,
        Direction::Left => e - 1,
        Direction::Right => e + 1,
    }
}

/// The first in-bounds direction, rotating clockwise from `d`.
pub open spec fn rotate_until_ok(d: Direction, x: int, y: int, n: int) -> Direction {
    if spec_dir_ok(d, x, y, n) {
        d
    } else if spec_dir_ok(spec_clockwise(d), x, y, n) {
        spec_clockwise(d)
    } else if spec_dir_ok(spec_clockwise(spec_clockwise(d)), x, y, n) {
        spec_clockwise(spec_clockwise(d))
    } else {
        spec_clockwise(spec_clockwise(spec_clockwise(d)))
    }
}

/// The direction a requested slide actually uses.
pub open spec fn spec_slide_dir(b: &Board, d: Direction) -> Direction {
    let n = b.size.spec_numeral();
    let e = blank_of_cells(b.spaces@);
    rotate_until_ok(d, e % n, e / n, n)
}

/// The blank's position; the board invariant makes it unique.
pub open spec fn blank_of_cells(s: Seq<Space>) -> int {
    choose|i: int| 0 <= i < s.len() && s[i] == Space::Empty
}

/// The direction from cell `(x, y)` toward the blank, when the blank is a
/// 4-neighbor of it: the tile there can be slid.  Anything else — the
/// blank itself, a far cell, a diagonal, or an off-board coordinate —
/// yields `None`.
pub open spec fn spec_direction_towards(b: &Board, x: int, y: int) -> Option<Direction> {
    let n = b.size.spec_numeral();
    let e = blank_of_cells(b.spaces@);
    let ex = e % n;
    let ey = e / n;
    if x < 0 || x >= n || y < 0 || y >= n {
        None
    } else if x == ex {
        if y == ey - 1 {
            Some(Direction::Up)
        } else if y == ey + 1 {
            Some(Direction::Down)
        } else {
            None
        }
    } else if y == ey {
        if x == ex - 1 {
            Some(Direction::Left)
        } else if x == ex + 1 {
            Some(Direction::Right)
        } else {
            None
        }
    } else {
        None
    }
}

impl Board {
    /// Which way the tile at `(x, y)` would slide to reach the blank, if
    /// they are 4-neighbors; this is what decides whether a tile is
    /// clickable on the rendered board.
    pub fn direction_towards_empty_tile(&self, x: usize, y: usize) -> (r: Option<Direction>)
        requires
            self.wf(),
        ensures
            r == spec_direction_towards(self, x as int, y as int),
    {
        let n = self.size.numeral();
        if x >= n || y >= n {
            return None;
        }
        let e = self.find_blank();
        let ex = e % n;
        let ey = e / n;
        if x == ex {
            if ey >= 1 && y == ey - 1 {
                Some(Direction::Up)
            } else if y == ey + 1 {
                Some(Direction::Down)
            } else {
                None
            }
        } else if y == ey {
            if ex >= 1 && x == ex - 1 {
                Some(Direction::Left)
            } else if x == ex + 1 {
                Some(Direction::Right)
            } else {
                None
            }
        } else {
            None
        }
    }
}

/// Why a tile swap is rejected, checked in `swap_checked`'s order: out of
/// bounds, then neither index the blank, then not 4-neighbors.  `None`
/// means the swap is legal.
pub open spec fn move_reject(b: &Board, s: int, f: int) -> Option<GameError> {
    if s >= b.spaces@.len() || f >= b.spaces@.len() {
        Some(GameError::OutOfBounds)
    } else if b.spaces@[s] != Space::Empty && b.spaces@[f] != Space::Empty {
        Some(GameError::NotBlank)
    } else if !adjacent(s, f, b.size.spec_numeral()) {
        Some(GameError::NotAdjacent)
    } else {
        None
    }
}

/// Whether a slide of the blank at `(x, y)` stays on the board.
pub open spec fn spec_dir_ok(d: Direction, x: int, y: int, n: int) -> bool {
    match d {
        Direction::Left => x > 0,
        Direction::Right => x < n - 1,
        Direction::Up => y > 0,
        Direction::Down => y < n - 1,
    }
}

fn dir_ok(d: Direction, x: usize, y: usize, n: usize) -> (r: bool)
    requires
        n >= 1,
        x < n,
        y < n,
    ensures
        r == spec_dir_ok(d, x as int, y as int, n as int),
{
    match d {
        Direction::Left => x > 0,
        Direction::Right => x < n - 1,
        Direction::Up => y > 0,
        Direction::Down => y < n - 1,
    }
}

/// Three consecutive clockwise rotations reach every direction, so on a
/// grid at least three wide one of the four is always unblocked.
proof fn lemma_rotation_covers(d0: Direction, x: int, y: int, n: int)
    requires
        3 <= n,
        0 <= x < n,
        0 <= y < n,
        !spec_dir_ok(d0, x, y, n),
        !spec_dir_ok(spec_clockwise(d0), x, y, n),
        !spec_dir_ok(spec_clockwise(spec_clockwise(d0)), x, y, n),
    ensures
        spec_dir_ok(spec_clockwise(spec_clockwise(spec_clockwise(d0))), x, y, n),
{
}

proof fn lemma_div_mod_bounds(i: int, n: int)
    requires
        n > 0,
        0 <= i < n * n,
    ensures
        0 <= i % n < n,
        0 <= i / n < n,
{
    vstd::arithmetic::div_mod::lemma_mod_bound(i, n);
    vstd::arithmetic::div_mod::lemma_div_pos_is_pos(i, n);
    assert(i / n < n) by (nonlinear_arith)
        requires
            n > 0,
            0 <= i < n * n,
    ;
}

proof fn lemma_index_math(x: int, y: int, n: int)
    requires
        3 <= n,
        0 <= x < n,
        0 <= y < n,
    ensures
        y >= 1 ==> 0 <= x + (y - 1) * n < n * n,
        y < n - 1 ==> 0 <= x + (y + 1) * n < n * n,
        x < n - 1 ==> 0 <= x + 1 + y * n < n * n,
        x >= 1 ==> 0 <= x - 1 + y * n < n * n,
{
    assert(y >= 1 ==> 0 <= x + (y - 1) * n < n * n) by (nonlinear_arith)
        requires
            3 <= n && 0 <= x < n && 0 <= y < n,
    ;
    assert(y < n - 1 ==> 0 <= x + (y + 1) * n < n * n) by (nonlinear_arith)
        requires
            3 <= n && 0 <= x < n && 0 <= y < n,
    ;
    assert(x < n - 1 ==> 0 <= x + 1 + y * n < n * n) by (nonlinear_arith)
        requires
            3 <= n && 0 <= x < n && 0 <= y < n,
    ;
    assert(x >= 1 ==> 0 <= x - 1 + y * n < n * n) by (nonlinear_arith)
        requires
            3 <= n && 0 <= x < n && 0 <= y < n,
    ;
}

/// The computed target index is the one-step slide target, and it is a
/// 4-neighbor of the blank.
proof fn lemma_step_facts(e: int, x: int, y: int, t: int, n: int, d: Direction)
    requires
        3 <= n,
        0 <= x < n,
        0 <= y < n,
        e == x + y * n,
        spec_dir_ok(d, x, y, n),
        t == (match d {
            Direction::Up => x + (y - 1) * n,
            Direction::Down => x + (y + 1) * n,
            Direction::Left => x - 1 + y * n,
            Direction::Right => x + 1 + y * n,
        }),
    ensures
        t == step_target(e, d, n),
        adjacent(e, t, n),
        e % n == x && e / n == y,
    decreases 0int,
{
    vstd::arithmetic::div_mod::lemma_fundamental_div_mod_converse(e, n, y, x);
    match d {
        Direction::Up => {
            assert(t == e - n) by (nonlinear_arith)
                requires
                    e == x + y * n && t == x + (y - 1) * n,
            ;
            vstd::arithmetic::div_mod::lemma_fundamental_div_mod_converse(t, n, y - 1, x);
        },
        Direction::Down => {
            assert(t == e + n) by (nonlinear_arith)
                requires
                    e == x + y * n && t == x + (y + 1) * n,
            ;
            vstd::arithmetic::div_mod::lemma_fundamental_div_mod_converse(t, n, y + 1, x);
        },
        Direction::Left => {
            vstd::arithmetic::div_mod::lemma_fundamental_div_mod_converse(t, n, y, x - 1);
        },
        Direction::Right => {
            vstd::arithmetic::div_mod::lemma_fundamental_div_mod_converse(t, n, y, x + 1);
        },
    }
}

proof fn lemma_target_in_bounds(x: int, y: int, n: int, d: Direction)
    requires
        3 <= n,
        0 <= x < n,
        0 <= y < n,
        spec_dir_ok(d, x, y, n),
    ensures
        d == Direction::Up ==> 0 <= x + (y - 1) * n < n * n,
        d == Direction::Down ==> 0 <= x + (y + 1) * n < n * n,
        d == Direction::Left ==> 0 <= x - 1 + y * n < n * n,
        d == Direction::Right ==> 0 <= x + 1 + y * n < n * n,
        0 <= x + y * n < n * n,
{
    lemma_index_math(x, y, n);
    assert(0 <= x + y * n < n * n) by (nonlinear_arith)
        requires
            3 <= n && 0 <= x < n && 0 <= y < n,
    ;
}

/// Swapping a blank with a tile keeps exactly one blank on the board.
proof fn lemma_swap_keeps_blank(before: Seq<Space>, after: Seq<Space>, a: int, b: int)
    requires
        0 <= a < before.len(),
        0 <= b < before.len(),
        after == before.update(a, before[b]).update(b, before[a]),
        exists|i: int| 0 <= i < before.len() && before[i] == Space::Empty,
        forall|i: int, j: int|
            0 <= i < before.len() && 0 <= j < before.len() && #[trigger] before[i] == Space::Empty
                && #[trigger] before[j] == Space::Empty ==> i == j,
    ensures
        exists|i: int| 0 <= i < after.len() && after[i] == Space::Empty,
        forall|i: int, j: int|
            0 <= i < after.len() && 0 <= j < after.len() && #[trigger] after[i] == Space::Empty
                && #[trigger] after[j] == Space::Empty ==> i == j,
{
    let w = choose|i: int| 0 <= i < before.len() && before[i] == Space::Empty;
    let w2 = if w == a {
        b
    } else if w == b {
        a
    } else {
        w
    };
    assert(after[w2] == Space::Empty);
    assert forall|i: int, j: int|
        0 <= i < after.len() && 0 <= j < after.len() && #[trigger] after[i] == Space::Empty
            && #[trigger] after[j] == Space::Empty implies i == j by {
        let pi = if i == a {
            b
        } else if i == b {
            a
        } else {
            i
        };
        let pj = if j == a {
            b
        } else if j == b {
            a
        } else {
            j
        };
        assert(before[pi] == Space::Empty);
        assert(before[pj] == Space::Empty);
        assert(pi == pj);
    }
}

proof fn lemma_swap_multiset(before: Seq<Space>, after: Seq<Space>, a: int, b: int)
    requires
        0 <= a < before.len(),
        0 <= b < before.len(),
        after == before.update(a, before[b]).update(b, before[a]),
    ensures
        after.to_multiset() == before.to_multiset(),
{
    if a == b {
        assert(after =~= before);
    } else {
        crate::slidingpuzzle::lemma_update_twice_swap(before, a, b);
    }
}

/// Swapping two entries keeps the multiset of entries.
proof fn lemma_update_twice_swap(s: Seq<Space>, a: int, b: int)
    requires
        0 <= a < s.len(),
        0 <= b < s.len(),
        a != b,
    ensures
        s.update(a, s[b]).update(b, s[a]).to_multiset() == s.to_multiset(),
{
    broadcast use vstd::seq_lib::group_seq_properties;

    let s1 = s.update(a, s[b]);
    let s2 = s1.update(b, s[a]);
    s.to_multiset_ensures();
    s1.to_multiset_ensures();
    s2.to_multiset_ensures();
    assert(s1.to_multiset() =~= s.to_multiset().remove(s[a]).insert(s[b]));
    assert(s1[b] == s[b]);
    assert(s2.to_multiset() =~= s1.to_multiset().remove(s1[b]).insert(s[a]));
    assert(s2.to_multiset() =~= s.to_multiset());
}

} // verus!
