//! Ultimate tic-tac-toe: a 3×3 meta-board of classic boards.
//!
//! Each sub-board is played like the classic game; a decided sub-board is
//! tagged with its outcome and locked.  The move rule is two-phased: with
//! no sub-board selected a coordinate chooses one (the turn does not pass),
//! with one selected it places a mark inside it, and the landed-on cell
//! decides where the opponent must play next.  The meta win check compares
//! sub-board outcomes under a deliberate, lattice-like equality: a tied
//! sub-board completes a line for either player, but three ties alone win
//! for no one.

pub mod serial;

use vstd::prelude::*;

verus! {

use crate::cycle::CycleVec;
use crate::effect::Effect;
use crate::effect::GameError;
use crate::effect::Note;
use crate::tictactoe::Board;
use crate::tictactoe::Outcome;
use crate::tictactoe::Player;
use crate::tictactoe::Space;
use crate::tictactoe::Awaiting;
use crate::tictactoe::spec_find_player;
use crate::tictactoe::winner_of;
use crate::bytes::wf_text;
use vstd::string::StringExecFns;

/// A meta-board cell: the sub-board, tagged with its standing.  The board
/// is retained in every variant so a finished game can still display it.
#[derive(Debug, Clone, PartialEq, Eq)]
pub enum MetaSpace {
    X(Board),
    O(Board),
    Tie(Board),
    Empty(Board),
}

impl MetaSpace {
    /// The sub-board's wellformedness.
    pub open spec fn wf(&self) -> bool {
        self.board().wf()
    }

    /// The retained sub-board.
    pub open spec fn board(&self) -> Board {
        match self {
            MetaSpace::X(b) => *b,
            MetaSpace::O(b) => *b,
            MetaSpace::Tie(b) => *b,
            MetaSpace::Empty(b) => *b,
        }
    }

    /// Whether the sub-board is decided (won or tied).
    pub open spec fn decided(&self) -> bool {
        !(self matches MetaSpace::Empty(_))
    }

    /// The winner's mark when one player owns this cell; ties and
    /// undecided boards show no mark.
    pub open spec fn spec_ignore_board(&self) -> Space {
        match self {
            MetaSpace::X(_) => Space::X,
            MetaSpace::O(_) => Space::O,
            MetaSpace::Tie(_) => Space::Empty,
            MetaSpace::Empty(_) => Space::Empty,
        }
    }

    /// The winner's mark, ignoring the retained board.
    pub fn ignore_board(&self) -> (r: Space)
        ensures
            r == self.spec_ignore_board(),
    {
        match self {
            MetaSpace::X(_) => Space::X,
            MetaSpace::O(_) => Space::O,
            MetaSpace::Tie(_) => Space::Empty,
            MetaSpace::Empty(_) => Space::Empty,
        }
    }

    /// The retained board, ignoring the standing.
    pub fn ignore_space(&self) -> (r: Board)
        requires
            self.wf(),
        ensures
            crate::tictactoe::same_board(&r, &self.board()),
    {
        match self {
            MetaSpace::X(b) => b.clone_board(),
            MetaSpace::O(b) => b.clone_board(),
            MetaSpace::Tie(b) => b.clone_board(),
            MetaSpace::Empty(b) => b.clone_board(),
        }
    }

    /// The deliberately lattice-like equality over standings used by the
    /// meta win check: `Empty` equals only `Empty`; a `Tie` equals a win
    /// by either player (a tie can complete a line for both); two wins are
    /// equal only for the same player.  Not transitive by design — keep
    /// this as an explicit table, not a derived equality.
    pub open spec fn spec_lattice_eq(&self, other: &MetaSpace) -> bool {
        match (self, other) {
            (MetaSpace::Empty(_), MetaSpace::Empty(_)) => true,
            (MetaSpace::Empty(_), _) => false,
            (_, MetaSpace::Empty(_)) => false,
            (MetaSpace::Tie(_), _) => true,
            (_, MetaSpace::Tie(_)) => true,
            (MetaSpace::X(_), MetaSpace::X(_)) => true,
            (MetaSpace::O(_), MetaSpace::O(_)) => true,
            _ => false,
        }
    }

    /// The lattice-like standing equality; see `spec_lattice_eq`.
    pub fn lattice_eq(&self, other: &MetaSpace) -> (r: bool)
        ensures
            r == self.spec_lattice_eq(other),
    {
        match (self, other) {
            (MetaSpace::Empty(_), MetaSpace::Empty(_)) => true,
            (MetaSpace::Empty(_), _) => false,
            (_, MetaSpace::Empty(_)) => false,
            (MetaSpace::Tie(_), _) => true,
            (_, MetaSpace::Tie(_)) => true,
            (MetaSpace::X(_), MetaSpace::X(_)) => true,
            (MetaSpace::O(_), MetaSpace::O(_)) => true,
            _ => false,
        }
    }
}

/// The piece that a line of three standings awards, if any: all equal under
/// the lattice equality, with ties siding with whoever else is on the line,
/// and three ties awarding nothing.
pub open spec fn spec_all_equal(x: &MetaSpace, y: &MetaSpace, z: &MetaSpace) -> Option<Space> {
    match (x, y, z) {
        (MetaSpace::Empty(_), _, _) => None,
        (_, MetaSpace::Empty(_), _) => None,
        (_, _, MetaSpace::Empty(_)) => None,
        (MetaSpace::Tie(_), MetaSpace::Tie(_), MetaSpace::Tie(_)) => None,
        (MetaSpace::X(_), MetaSpace::X(_), MetaSpace::X(_)) => Some(Space::X),
        (MetaSpace::O(_), MetaSpace::O(_), MetaSpace::O(_)) => Some(Space::O),
        (MetaSpace::Tie(_), MetaSpace::X(_), MetaSpace::X(_)) => Some(Space::X),
        (MetaSpace::X(_), MetaSpace::Tie(_), MetaSpace::X(_)) => Some(Space::X),
        (MetaSpace::X(_), MetaSpace::X(_), MetaSpace::Tie(_)) => Some(Space::X),
        (MetaSpace::Tie(_), MetaSpace::O(_), MetaSpace::O(_)) => Some(Space::O),
        (MetaSpace::O(_), MetaSpace::Tie(_), MetaSpace::O(_)) => Some(Space::O),
        (MetaSpace::O(_), MetaSpace::O(_), MetaSpace::Tie(_)) => Some(Space::O),
        (MetaSpace::Tie(_), MetaSpace::Tie(_), MetaSpace::X(_)) => Some(Space::X),
        (MetaSpace::Tie(_), MetaSpace::X(_), MetaSpace::Tie(_)) => Some(Space::X),
        (MetaSpace::X(_), MetaSpace::Tie(_), MetaSpace::Tie(_)) => Some(Space::X),
        (MetaSpace::Tie(_), MetaSpace::Tie(_), MetaSpace::O(_)) => Some(Space::O),
        (MetaSpace::Tie(_), MetaSpace::O(_), MetaSpace::Tie(_)) => Some(Space::O),
        (MetaSpace::O(_), MetaSpace::Tie(_), MetaSpace::Tie(_)) => Some(Space::O),
        _ => None,
    }
}

/// The lattice line check; see `spec_all_equal`.
pub fn all_equal(x: &MetaSpace, y: &MetaSpace, z: &MetaSpace) -> (r: Option<Space>)
    ensures
        r == spec_all_equal(x, y, z),
{
    match (x, y, z) {
        (MetaSpace::Empty(_), _, _) => None,
        (_, MetaSpace::Empty(_), _) => None,
        (_, _, MetaSpace::Empty(_)) => None,
        (MetaSpace::Tie(_), MetaSpace::Tie(_), MetaSpace::Tie(_)) => None,
        (MetaSpace::X(_), MetaSpace::X(_), MetaSpace::X(_)) => Some(Space::X),
        (MetaSpace::O(_), MetaSpace::O(_), MetaSpace::O(_)) => Some(Space::O),
        (MetaSpace::Tie(_), MetaSpace::X(_), MetaSpace::X(_)) => Some(Space::X),
        (MetaSpace::X(_), MetaSpace::Tie(_), MetaSpace::X(_)) => Some(Space::X),
        (MetaSpace::X(_), MetaSpace::X(_), MetaSpace::Tie(_)) => Some(Space::X),
        (MetaSpace::Tie(_), MetaSpace::O(_), MetaSpace::O(_)) => Some(Space::O),
        (MetaSpace::O(_), MetaSpace::Tie(_), MetaSpace::O(_)) => Some(Space::O),
        (MetaSpace::O(_), MetaSpace::O(_), MetaSpace::Tie(_)) => Some(Space::O),
        (MetaSpace::Tie(_), MetaSpace::Tie(_), MetaSpace::X(_)) => Some(Space::X),
        (MetaSpace::Tie(_), MetaSpace::X(_), MetaSpace::Tie(_)) => Some(Space::X),
        (MetaSpace::X(_), MetaSpace::Tie(_), MetaSpace::Tie(_)) => Some(Space::X),
        (MetaSpace::Tie(_), MetaSpace::Tie(_), MetaSpace::O(_)) => Some(Space::O),
        (MetaSpace::Tie(_), MetaSpace::O(_), MetaSpace::Tie(_)) => Some(Space::O),
        (MetaSpace::O(_), MetaSpace::Tie(_), MetaSpace::Tie(_)) => Some(Space::O),
        _ => None,
    }
}

/// A tied sub-board sides with either player on a line, yet three tied
/// sub-boards on a line award no one the game.
pub proof fn lemma_tie_completes_either(bx: Board, bo: Board, bt1: Board, bt2: Board, bt3: Board)
    ensures
        spec_all_equal(&MetaSpace::Tie(bt1), &MetaSpace::X(bx), &MetaSpace::X(bo)) == Some(
            Space::X,
        ),
        spec_all_equal(&MetaSpace::Tie(bt1), &MetaSpace::O(bo), &MetaSpace::O(bx)) == Some(
            Space::O,
        ),
        spec_all_equal(&MetaSpace::Tie(bt1), &MetaSpace::Tie(bt2), &MetaSpace::X(bx)) == Some(
            Space::X,
        ),
        spec_all_equal(&MetaSpace::Tie(bt1), &MetaSpace::Tie(bt2), &MetaSpace::Tie(bt3)) is None,
{
}

/// The 3×3 grid of sub-boards, plus which one the next placement must
/// target (`None` leaves the choice free).
#[derive(Debug, Clone, PartialEq, Eq)]
pub struct MetaBoard {
    pub selected: Option<(usize, usize)>,
    pub spaces: Vec<Vec<MetaSpace>>,
}

impl MetaBoard {
    pub open spec fn wf(&self) -> bool {
        &&& self.spaces@.len() == 3
        &&& forall|i: int| 0 <= i < 3 ==> #[trigger] self.spaces@[i]@.len() == 3
        &&& forall|i: int, j: int| 0 <= i < 3 && 0 <= j < 3 ==> #[trigger] self.at(i, j).wf()
        &&& match self.selected {
            Some(s) => s.0 < 3 && s.1 < 3,
            None => true,
        }
    }

    pub open spec fn at(&self, x: int, y: int) -> MetaSpace {
        self.spaces@[x]@[y]
    }

    /// A fresh meta-board: nothing selected, nine blank sub-boards.
    pub open spec fn is_blank(&self) -> bool {
        &&& self.wf()
        &&& self.selected is None
        &&& forall|i: int, j: int|
            0 <= i < 3 && 0 <= j < 3 ==> ((#[trigger] self.at(i, j)) matches MetaSpace::Empty(b)
                && b.is_blank())
    }

    /// Build a fresh meta-board.
    pub fn new() -> (r: MetaBoard)
        ensures
            r.is_blank(),
    {
        let mut spaces: Vec<Vec<MetaSpace>> = Vec::new();
        let mut x: usize = 0;
        while x < 3
            invariant
                x <= 3,
                spaces@.len() == x,
                forall|i: int| 0 <= i < x ==> #[trigger] spaces@[i]@.len() == 3,
                forall|i: int, j: int|
                    0 <= i < x && 0 <= j < 3 ==> ((#[trigger] spaces@[i]@[j]) matches
                    MetaSpace::Empty(b) && b.is_blank()),
            decreases 3 - x,
        {
            let mut row: Vec<MetaSpace> = Vec::new();
            row.push(MetaSpace::Empty(Board::blank()));
            row.push(MetaSpace::Empty(Board::blank()));
            row.push(MetaSpace::Empty(Board::blank()));
            spaces.push(row);
            x = x + 1;
        }
        let mb = MetaBoard { selected: None, spaces };
        proof {
            assert forall|i: int, j: int| 0 <= i < 3 && 0 <= j < 3 implies (#[trigger] mb.at(i, j))
                matches MetaSpace::Empty(b) && b.is_blank() by {
                assert(mb.spaces@[i]@[j] matches MetaSpace::Empty(b) && b.is_blank());
            }
        }
        mb
    }

    /// Read one meta cell.
    pub fn get(&self, x: usize, y: usize) -> (r: &MetaSpace)
        requires
            self.wf(),
            x < 3,
            y < 3,
        ensures
            *r == self.at(x as int, y as int),
    {
        &self.spaces[x][y]
    }

    /// The standing awarded by one of the eight meta lines.
    pub open spec fn line(&self, k: int) -> Option<Space> {
        if k == 0 {
            spec_all_equal(&self.at(0, 0), &self.at(0, 1), &self.at(0, 2))
        } else if k == 1 {
            spec_all_equal(&self.at(1, 0), &self.at(1, 1), &self.at(1, 2))
        } else if k == 2 {
            spec_all_equal(&self.at(2, 0), &self.at(2, 1), &self.at(2, 2))
        } else if k == 3 {
            spec_all_equal(&self.at(0, 0), &self.at(1, 0), &self.at(2, 0))
        } else if k == 4 {
            spec_all_equal(&self.at(0, 1), &self.at(1, 1), &self.at(2, 1))
        } else if k == 5 {
            spec_all_equal(&self.at(0, 2), &self.at(1, 2), &self.at(2, 2))
        } else if k == 6 {
            spec_all_equal(&self.at(0, 0), &self.at(1, 1), &self.at(2, 2))
        } else {
            spec_all_equal(&self.at(2, 0), &self.at(1, 1), &self.at(0, 2))
        }
    }

    pub open spec fn wins(&self, p: Space) -> bool {
        exists|k: int| 0 <= k < 8 && self.line(k) == Some(p)
    }

    pub open spec fn all_decided(&self) -> bool {
        forall|i: int, j: int| 0 <= i < 3 && 0 <= j < 3 ==> (#[trigger] self.at(i, j)).decided()
    }

    /// Decide the whole game, exactly as the engine plays it: a line for
    /// exactly one player wins for that player; lines for both players at
    /// once (possible only through ties counting for both) resolve to a
    /// tie, as does a fully decided meta-board with no line.
    pub fn check_winner(&self, players: &CycleVec<Player>) -> (r: Option<Outcome>)
        requires
            self.wf(),
        ensures
            r == spec_meta_winner(self, players.players()),
    {
        let mut has_x = false;
        let mut has_o = false;
        let mut k: usize = 0;
        while k < 8
            invariant
                self.wf(),
                k <= 8,
                has_x == exists|i: int| 0 <= i < k && self.line(i) == Some(Space::X),
                has_o == exists|i: int| 0 <= i < k && self.line(i) == Some(Space::O),
            decreases 8 - k,
        {
            let w = if k == 0 {
                all_equal(self.get(0, 0), self.get(0, 1), self.get(0, 2))
            } else if k == 1 {
                all_equal(self.get(1, 0), self.get(1, 1), self.get(1, 2))
            } else if k == 2 {
                all_equal(self.get(2, 0), self.get(2, 1), self.get(2, 2))
            } else if k == 3 {
                all_equal(self.get(0, 0), self.get(1, 0), self.get(2, 0))
            } else if k == 4 {
                all_equal(self.get(0, 1), self.get(1, 1), self.get(2, 1))
            } else if k == 5 {
                all_equal(self.get(0, 2), self.get(1, 2), self.get(2, 2))
            } else if k == 6 {
                all_equal(self.get(0, 0), self.get(1, 1), self.get(2, 2))
            } else {
                all_equal(self.get(2, 0), self.get(1, 1), self.get(0, 2))
            };
            proof {
                assert(w == self.line(k as int));
            }
            match w {
                Some(Space::X) => {
                    has_x = true;
                    proof {
                        assert(self.line(k as int) == Some(Space::X));
                    }
                },
                Some(Space::O) => {
                    has_o = true;
                    proof {
                        assert(self.line(k as int) == Some(Space::O));
                    }
                },
                _ => {},
            }
            k = k + 1;
        }
        if has_x && has_o {
            Some(Outcome::Tie)
        } else if has_x {
            match find_player_vec(players.all(), Space::X) {
                Some(p) => Some(Outcome::Win(p)),
                None => None,
            }
        } else if has_o {
            match find_player_vec(players.all(), Space::O) {
                Some(p) => Some(Outcome::Win(p)),
                None => None,
            }
        } else {
            let mut full = true;
            let mut x: usize = 0;
            while x < 3
                invariant
                    self.wf(),
                    x <= 3,
                    full == (forall|i: int, j: int|
                        0 <= i < x && 0 <= j < 3 ==> (#[trigger] self.at(i, j)).decided()),
                decreases 3 - x,
            {
                let r0 = !matches!(self.get(x, 0), MetaSpace::Empty(_));
                let r1 = !matches!(self.get(x, 1), MetaSpace::Empty(_));
                let r2 = !matches!(self.get(x, 2), MetaSpace::Empty(_));
                proof {
                    assert(r0 == self.at(x as int, 0).decided());
                    assert(r1 == self.at(x as int, 1).decided());
                    assert(r2 == self.at(x as int, 2).decided());
                }
                let rowfull = r0 && r1 && r2;
                proof {
                    if full && rowfull {
                        assert forall|i: int, j: int| 0 <= i < x + 1 && 0 <= j < 3 implies (
                        #[trigger] self.at(i, j)).decided() by {
                            if i < x {
                            } else {
                                assert(j == 0 || j == 1 || j == 2);
                            }
                        }
                    }
                }
                full = full && rowfull;
                x = x + 1;
            }
            if full {
                Some(Outcome::Tie)
            } else {
                None
            }
        }
    }
}

fn find_player_vec(ps: &Vec<Player>, piece: Space) -> (r: Option<Player>)
    ensures
        r == spec_find_player(ps@, piece),
{
    let mut i: usize = 0;
    proof {
        assert(ps@.skip(0) =~= ps@);
    }
    while i < ps.len()
        invariant
            i <= ps@.len(),
            spec_find_player(ps@, piece) == spec_find_player(ps@.skip(i as int), piece),
        decreases ps@.len() - i,
    {
        proof {
            assert(ps@.skip(i as int).drop_first() =~= ps@.skip(i as int + 1));
        }
        if ps[i].piece == piece {
            return Some(ps[i]);
        }
        i = i + 1;
    }
    None
}

/// One inner cell of the meta-board.
pub open spec fn cell(mb: &MetaBoard, bx: int, by: int, x: int, y: int) -> Space {
    mb.at(bx, by).board().at(x, y)
}

/// `after` is `before` with `piece` placed at `(x, y)` inside sub-board
/// `(bx, by)`: the inner cell is set, every other meta cell is untouched,
/// and the played sub-board's standing now reflects its outcome while
/// retaining the board for display.
pub open spec fn sub_placed(
    before: &MetaBoard,
    after: &MetaBoard,
    bx: int,
    by: int,
    x: int,
    y: int,
    piece: Space,
    ps: Seq<Player>,
) -> bool {
    &&& after.wf()
    &&& crate::tictactoe::placed_from(
        &before.at(bx, by).board(),
        &after.at(bx, by).board(),
        x,
        y,
        piece,
    )
    &&& forall|i: int, j: int|
        0 <= i < 3 && 0 <= j < 3 && !(i == bx && j == by) ==> #[trigger] after.at(i, j) == before.at(
            i,
            j,
        )
    &&& match winner_of(&after.at(bx, by).board(), ps) {
        None => after.at(bx, by) matches MetaSpace::Empty(_),
        Some(Outcome::Tie) => after.at(bx, by) matches MetaSpace::Tie(_),
        Some(Outcome::Win(p)) => (p.piece == Space::X ==> after.at(bx, by) matches MetaSpace::X(_))
            && (p.piece == Space::O ==> after.at(bx, by) matches MetaSpace::O(_)),
    }
}

/// Live play: the meta-board being filled.
#[derive(Debug, Clone, PartialEq, Eq)]
pub struct InProgress {
    pub board: MetaBoard,
}

impl InProgress {
    /// Resolve one coordinate pair, as spec'd for the two-phase move rule.
    ///
    /// With no sub-board selected the coordinate chooses one — it must be
    /// undecided, no mark is placed, and `Ok(false)` says the turn does
    /// not pass.  With one selected, the coordinate places a mark in it;
    /// after placing, the sub-board's standing is refreshed, and the
    /// landed-on coordinate forces the opponent's next sub-board if that
    /// board is still undecided, otherwise the choice becomes free.
    /// Rejected moves leave everything unchanged.
    pub fn make_move(
        &mut self,
        x: usize,
        y: usize,
        piece: Space,
        players: &CycleVec<Player>,
    ) -> (r: Result<bool, GameError>)
        requires
            old(self).board.wf(),
        ensures
            final(self).board.wf(),
            r is Err ==> *final(self) == *old(self),
            match old(self).board.selected {
                None => match r {
                    Ok(advanced) => {
                        &&& !advanced
                        &&& x <= 2 && y <= 2
                        &&& !old(self).board.at(x as int, y as int).decided()
                        &&& final(self).board.selected == Some((x, y))
                        &&& forall|i: int, j: int|
                            0 <= i < 3 && 0 <= j < 3 ==> #[trigger] final(self).board.at(i, j)
                                == old(self).board.at(i, j)
                    },
                    Err(e) => {
                        &&& ((x > 2 || y > 2) ==> e == GameError::OutOfBounds)
                        &&& (!(x > 2 || y > 2) ==> e == GameError::BoardDecided && old(
                            self,
                        ).board.at(x as int, y as int).decided())
                    },
                },
                Some(sel) => {
                    let bx = sel.0 as int;
                    let by = sel.1 as int;
                    match r {
                        Ok(advanced) => {
                            &&& advanced
                            &&& x <= 2 && y <= 2
                            &&& !old(self).board.at(bx, by).decided()
                            &&& cell(&old(self).board, bx, by, x as int, y as int) == Space::Empty
                            &&& sub_placed(
                                &old(self).board,
                                &final(self).board,
                                bx,
                                by,
                                x as int,
                                y as int,
                                piece,
                                players.players(),
                            )
                            &&& final(self).board.selected == (if !final(self).board.at(
                                x as int,
                                y as int,
                            ).decided() {
                                Some((x, y))
                            } else {
                                None::<(usize, usize)>
                            })
                        },
                        Err(e) => {
                            &&& ((x > 2 || y > 2) ==> e == GameError::OutOfBounds)
                            &&& (!(x > 2 || y > 2) && old(self).board.at(bx, by).decided() ==> e
                                == GameError::BoardDecided)
                            &&& (!(x > 2 || y > 2) && !old(self).board.at(bx, by).decided() ==> e
                                == GameError::Occupied && cell(
                                &old(self).board,
                                bx,
                                by,
                                x as int,
                                y as int,
                            ) != Space::Empty)
                        },
                    }
                },
            },
    {
        if x > 2 || y > 2 {
            return Err(GameError::OutOfBounds);
        }
        match self.board.selected {
            None => {
                let decided = !matches!(self.board.get(x, y), MetaSpace::Empty(_));
                if decided {
                    return Err(GameError::BoardDecided);
                }
                self.board.selected = Some((x, y));
                proof {
                    assert(self.board.spaces@ == old(self).board.spaces@);
                    assert forall|i: int, j: int| 0 <= i < 3 && 0 <= j < 3 implies (
                    #[trigger] self.board.at(i, j)).wf() by {
                        assert(old(self).board.at(i, j).wf());
                    }
                    assert(self.board.wf());
                }
                Ok(false)
            },
            Some((bx, by)) => {
                let ghost before = self.board;
                let selected_decided = !matches!(self.board.get(bx, by), MetaSpace::Empty(_));
                if selected_decided {
                    return Err(GameError::BoardDecided);
                }
                let old_bd = self.board.get(bx, by).ignore_space();
                if old_bd.get(x, y) != Space::Empty {
                    proof {
                        assert(cell(&old(self).board, bx as int, by as int, x as int, y as int)
                            == old_bd.at(x as int, y as int));
                    }
                    return Err(GameError::Occupied);
                }
                let mut bd = old_bd;
                let ghost bd0 = bd;
                bd.spaces[x].set(y, piece);
                proof {
                    assert(bd.at(x as int, y as int) == piece);
                    assert(bd.wf());
                    assert forall|i: int, j: int|
                        0 <= i < 3 && 0 <= j < 3 && !(i == x && j == y) implies #[trigger] bd.at(
                        i,
                        j,
                    ) == before.at(bx as int, by as int).board().at(i, j) by {
                        if i == x {
                            assert(bd.spaces@[i]@ == bd0.spaces@[i]@.update(y as int, piece));
                        } else {
                            assert(bd.spaces@[i] == bd0.spaces@[i]);
                        }
                        assert(bd.at(i, j) == bd0.at(i, j));
                        assert(bd0.at(i, j) == before.at(bx as int, by as int).board().at(i, j));
                    }
                    assert(crate::tictactoe::placed_from(
                        &before.at(bx as int, by as int).board(),
                        &bd,
                        x as int,
                        y as int,
                        piece,
                    ));
                }
                // refresh the played sub-board's standing
                let newms = match bd.check_winner(players) {
                    None => MetaSpace::Empty(bd),
                    Some(Outcome::Tie) => MetaSpace::Tie(bd),
                    Some(Outcome::Win(p)) => {
                        if p.piece == Space::X {
                            MetaSpace::X(bd)
                        } else if p.piece == Space::O {
                            MetaSpace::O(bd)
                        } else {
                            proof {
                                lemma_found_player_piece(players.players(), Space::X);
                                lemma_found_player_piece(players.players(), Space::O);
                            }
                            MetaSpace::Empty(bd)
                        }
                    },
                };
                self.board.spaces[bx].set(by, newms);
                proof {
                    assert forall|i: int, j: int|
                        0 <= i < 3 && 0 <= j < 3 && !(i == bx && j == by) implies #[trigger] self
                        .board.at(i, j) == before.at(i, j) by {
                        if i != bx {
                            assert(self.board.spaces@[i] == before.spaces@[i]);
                        } else {
                            assert(self.board.spaces@[i]@ == before.spaces@[i]@.update(
                                by as int,
                                newms,
                            ));
                        }
                    }
                    assert(self.board.at(bx as int, by as int) == newms);
                    assert forall|i: int, j: int| 0 <= i < 3 && 0 <= j < 3 implies (
                    #[trigger] self.board.at(i, j)).wf() by {
                        if i == bx && j == by {
                        } else {
                            assert(self.board.at(i, j) == before.at(i, j));
                            assert(before.at(i, j).wf());
                        }
                    }
                    assert(self.board.wf());
                }
                // the landed-on sub-board decides where the opponent plays
                let landed_live = matches!(self.board.get(x, y), MetaSpace::Empty(_));
                if landed_live {
                    self.board.selected = Some((x, y));
                } else {
                    self.board.selected = None;
                }
                proof {
                    assert forall|i: int, j: int|
                        0 <= i < 3 && 0 <= j < 3 && !(i == bx && j == by) implies #[trigger] self
                        .board.at(i, j) == before.at(i, j) by {}
                    assert(self.board.wf());
                }
                Ok(true)
            },
        }
    }
}

/// The first player found for a piece carries that piece.
pub proof fn lemma_found_player_piece(ps: Seq<Player>, piece: Space)
    ensures
        spec_find_player(ps, piece) matches Some(p) ==> p.piece == piece,
    decreases ps.len(),
{
    if ps.len() > 0 && ps[0].piece != piece {
        lemma_found_player_piece(ps.drop_first(), piece);
    }
}

/// A board's outcome depends on its marks alone.
pub proof fn lemma_winner_same_board(a: &Board, b: &Board, ps: Seq<Player>)
    requires
        crate::tictactoe::same_board(a, b),
    ensures
        winner_of(a, ps) == winner_of(b, ps),
{
}

/// The finished screen: the outcome and the final meta-board for display.
#[derive(Debug, Clone, PartialEq, Eq)]
pub struct WonGame {
    pub winner: Outcome,
    pub board: MetaBoard,
}

/// The game's phase.
#[derive(Debug, Clone, PartialEq, Eq)]
pub enum State {
    AwaitingApproval(Awaiting),
    InProgress(InProgress),
    Finished(WonGame),
    Cancelled(String),
}

/// A full game: the rotation, the phase, and when it last changed hands.
#[derive(Debug, Clone, PartialEq, Eq)]
pub struct Game {
    pub players: CycleVec<Player>,
    pub gamestate: State,
    pub last_time: u64,
}

/// The `Notify` effects when the game ends: everyone hears the outcome.
pub open spec fn notes_upto(ps: Seq<Player>, n: int, w: Outcome) -> Seq<Effect> {
    crate::tictactoe::notes_upto(ps, n, w)
}

fn push_notes(out: &mut Vec<Effect>, ps: &Vec<Player>, w: Outcome)
    ensures
        final(out)@ == old(out)@ + notes_upto(ps@, ps@.len() as int, w),
{
    let ghost base = out@;
    let mut i: usize = 0;
    while i < ps.len()
        invariant
            i <= ps@.len(),
            out@ == base + notes_upto(ps@, i as int, w),
        decreases ps@.len() - i,
    {
        let p = ps[i];
        let note = match w {
            Outcome::Win(q) => if p == q {
                Note::Won
            } else {
                Note::Lost
            },
            Outcome::Tie => Note::Tied,
        };
        out.push(Effect::Notify { player: p.id, note });
        proof {
            assert(out@ =~= base + notes_upto(ps@, i as int + 1, w));
        }
        i = i + 1;
    }
}

impl Game {
    /// A state the engine maintains and the codec is specified on.
    pub open spec fn wf(&self) -> bool {
        &&& self.players.wf()
        &&& match self.gamestate {
            State::AwaitingApproval(_) => true,
            State::InProgress(ip) => ip.board.wf(),
            State::Finished(w) => w.board.wf(),
            State::Cancelled(reason) => wf_text(reason@) && reason@.len() <= u64::MAX,
        }
    }

    /// Open a fresh invitation: the inviter plays X, the invitee O, and a
    /// shuffled rotation decides who starts.  Self-play is rejected unless
    /// the configuration allows it.
    pub fn new(inviter: u64, invitee: u64, allow_self_play: bool, now: u64) -> (r: Result<
        Game,
        GameError,
    >)
        ensures
            match r {
                Ok(g) => {
                    &&& (inviter != invitee || allow_self_play)
                    &&& g.wf()
                    &&& g.players.players().to_multiset() =~= seq![
                        Player { id: inviter, piece: Space::X },
                        Player { id: invitee, piece: Space::O },
                    ].to_multiset()
                    &&& g.gamestate == State::AwaitingApproval(Awaiting { inviter, invitee })
                    &&& g.last_time == now
                },
                Err(e) => {
                    &&& e == GameError::SelfPlay
                    &&& inviter == invitee && !allow_self_play
                },
            },
    {
        if inviter == invitee && !allow_self_play {
            return Err(GameError::SelfPlay);
        }
        let mut ps: Vec<Player> = Vec::new();
        ps.push(Player { id: inviter, piece: Space::X });
        ps.push(Player { id: invitee, piece: Space::O });
        proof {
            assert(ps@ =~= seq![
                Player { id: inviter, piece: Space::X },
                Player { id: invitee, piece: Space::O },
            ]);
        }
        let players = CycleVec::new(ps);
        Ok(
            Game {
                players,
                gamestate: State::AwaitingApproval(Awaiting { inviter, invitee }),
                last_time: now,
            },
        )
    }

    /// Resolve one action by `actor` at time `now`.
    ///
    /// The handshake works as in the classic game.  During play only the
    /// current player may act; a board-selection move keeps the turn with
    /// the same player, a placement passes it (with an "it's your turn"
    /// nudge after a minute of quiet) unless it decides the game, which
    /// finishes with notifications to everyone.  Terminal phases reject
    /// everything, and a rejected action leaves the game exactly as it
    /// was.
    pub fn do_action(&mut self, actor: u64, action: crate::tictactoe::Action, now: u64) -> (r:
        Result<Vec<Effect>, GameError>)
        requires
            old(self).wf(),
        ensures
            final(self).wf(),
            r is Err ==> *final(self) == *old(self),
            match old(self).gamestate {
                State::AwaitingApproval(a) => {
                    &&& (actor != a.invitee ==> r == Err::<Vec<Effect>, GameError>(
                        GameError::NotInvitee,
                    ))
                    &&& (actor == a.invitee ==> match action {
                        crate::tictactoe::Action::Accept => {
                            match current_of(old(self)) {
                                None => r == Err::<Vec<Effect>, GameError>(GameError::NoPlayer),
                                Some(cur) => {
                                    &&& r is Ok
                                    &&& final(self).players.players() == old(
                                        self,
                                    ).players.players()
                                    &&& final(self).players.cursor() == old(self).players.cursor()
                                    &&& final(self).gamestate matches State::InProgress(ip)
                                        && ip.board.is_blank()
                                    &&& (cur.id != actor ==> final(self).last_time == now
                                        && r->Ok_0@ == (if now > old(self).last_time {
                                        seq![Effect::Notify { player: cur.id, note: Note::YourTurn }]
                                    } else {
                                        Seq::<Effect>::empty()
                                    }))
                                    &&& (cur.id == actor ==> final(self).last_time == old(
                                        self,
                                    ).last_time && r->Ok_0@ == Seq::<Effect>::empty())
                                },
                            }
                        },
                        crate::tictactoe::Action::Decline => {
                            &&& r is Ok
                            &&& r->Ok_0@ == Seq::<Effect>::empty()
                            &&& final(self).players.players() == old(self).players.players()
                            &&& final(self).players.cursor() == old(self).players.cursor()
                            &&& final(self).last_time == old(self).last_time
                            &&& final(self).gamestate matches State::Cancelled(reason) && reason@
                                == "Declined"@
                        },
                        crate::tictactoe::Action::Place(_, _) => r == Err::<Vec<Effect>, GameError>(
                            GameError::InvalidAction,
                        ),
                    })
                },
                State::InProgress(ip) => {
                    &&& (!actor_is_current(old(self), actor) ==> r == Err::<Vec<Effect>, GameError>(
                        GameError::NotYourTurn,
                    ))
                    &&& (actor_is_current(old(self), actor) ==> match action {
                        crate::tictactoe::Action::Place(x, y) => {
                            &&& (r is Err <==> place_reject(&ip.board, x as int, y as int) is Some)
                            &&& match r {
                                Err(e) => Some(e) == place_reject(&ip.board, x as int, y as int),
                                Ok(es) => match final(self).gamestate {
                                    State::InProgress(ip2) => {
                                        &&& spec_meta_winner(
                                            &ip2.board,
                                            old(self).players.players(),
                                        ) == None::<Outcome>
                                        &&& (old(self).players.players() == final(self).players.players())
                                        &&& (ip.board.selected is None ==> {
                                            // board selection: the turn stays
                                            &&& final(self).players.cursor() == old(
                                                self,
                                            ).players.cursor()
                                            &&& final(self).last_time == old(self).last_time
                                            &&& es@ == Seq::<Effect>::empty()
                                        })
                                        &&& (ip.board.selected is Some ==> {
                                            // a placement that did not decide: the turn passes
                                            &&& final(self).players.cursor()
                                                == crate::cycle::advance_index(
                                                old(self).players.cursor(),
                                                old(self).players.players().len() as int,
                                            )
                                            &&& final(self).last_time == now
                                            &&& ({
                                                let nxt = current_of(final(self))->Some_0;
                                                es@ == (if now > old(self).last_time + 60 {
                                                    seq![
                                                        Effect::Notify {
                                                            player: nxt.id,
                                                            note: Note::YourTurn,
                                                        },
                                                    ]
                                                } else {
                                                    Seq::<Effect>::empty()
                                                })
                                            })
                                        })
                                    },
                                    State::Finished(wg) => {
                                        &&& spec_meta_winner(&wg.board, old(self).players.players())
                                            == Some(wg.winner)
                                        &&& es@ == notes_upto(
                                            old(self).players.players(),
                                            old(self).players.players().len() as int,
                                            wg.winner,
                                        )
                                        &&& final(self).players.players() == old(
                                            self,
                                        ).players.players()
                                        &&& final(self).players.cursor() == old(
                                            self,
                                        ).players.cursor()
                                        &&& final(self).last_time == old(self).last_time
                                    },
                                    _ => false,
                                },
                            }
                        },
                        _ => r == Err::<Vec<Effect>, GameError>(GameError::InvalidAction),
                    })
                },
                State::Finished(_) => r == Err::<Vec<Effect>, GameError>(GameError::InvalidAction),
                State::Cancelled(_) => r == Err::<Vec<Effect>, GameError>(GameError::InvalidAction),
            },
    {
        match &self.gamestate {
            State::AwaitingApproval(a) => {
                if actor != a.invitee {
                    return Err(GameError::NotInvitee);
                }
                match action {
                    crate::tictactoe::Action::Accept => {
                        let cur = match self.players.current() {
                            Some(c) => *c,
                            None => {
                                return Err(GameError::NoPlayer);
                            },
                        };
                        let mut effects: Vec<Effect> = Vec::new();
                        if cur.id != actor {
                            if now > self.last_time {
                                effects.push(
                                    Effect::Notify { player: cur.id, note: Note::YourTurn },
                                );
                            }
                            self.last_time = now;
                        }
                        self.gamestate = State::InProgress(InProgress { board: MetaBoard::new() });
                        Ok(effects)
                    },
                    crate::tictactoe::Action::Decline => {
                        self.gamestate = State::Cancelled(String::from_str("Declined"));
                        proof {
                            reveal_strlit("Declined");
                        }
                        Ok(Vec::new())
                    },
                    crate::tictactoe::Action::Place(_, _) => Err(GameError::InvalidAction),
                }
            },
            State::InProgress(_) => {
                let cur = match self.players.current() {
                    Some(c) => *c,
                    None => {
                        return Err(GameError::NotYourTurn);
                    },
                };
                if cur.id != actor {
                    return Err(GameError::NotYourTurn);
                }
                match action {
                    crate::tictactoe::Action::Place(x, y) => {
                        let ip = match &mut self.gamestate {
                            State::InProgress(ip) => ip,
                            _ => {
                                return Err(GameError::InvalidAction);
                            },
                        };
                        let advanced = match ip.make_move(x, y, cur.piece, &self.players) {
                            Ok(b) => b,
                            Err(e) => {
                                return Err(e);
                            },
                        };
                        let board_now = match &self.gamestate {
                            State::InProgress(ip2) => ip2.board.clone_meta(),
                            _ => {
                                return Err(GameError::InvalidAction);
                            },
                        };
                        proof {
                            lemma_meta_winner_same(
                                &board_now,
                                &self.gamestate->InProgress_0.board,
                                self.players.players(),
                            );
                        }
                        let winner = board_now.check_winner(&self.players);
                        match winner {
                            Some(w) => {
                                let mut effects: Vec<Effect> = Vec::new();
                                push_notes(&mut effects, self.players.all(), w);
                                self.gamestate = State::Finished(
                                    WonGame { winner: w, board: board_now },
                                );
                                Ok(effects)
                            },
                            None => {
                                let mut effects: Vec<Effect> = Vec::new();
                                if advanced {
                                    self.players.next_player();
                                    if now > self.last_time && now - self.last_time > 60 {
                                        let nxt = match self.players.current() {
                                            Some(c) => *c,
                                            None => {
                                                return Err(GameError::NoPlayer);
                                            },
                                        };
                                        effects.push(
                                            Effect::Notify { player: nxt.id, note: Note::YourTurn },
                                        );
                                    }
                                    self.last_time = now;
                                }
                                Ok(effects)
                            },
                        }
                    },
                    _ => Err(GameError::InvalidAction),
                }
            },
            State::Finished(_) => Err(GameError::InvalidAction),
            State::Cancelled(_) => Err(GameError::InvalidAction),
        }
    }
}

/// The player whose turn it is.
pub open spec fn current_of(g: &Game) -> Option<Player> {
    if g.players.players().len() > 0 {
        Some(g.players.players()[g.players.cursor()])
    } else {
        None
    }
}

/// Why a placement is rejected, checked in `make_move`'s order: out of
/// bounds; then, with no sub-board selected, a decided choice; with one
/// selected, a decided sub-board or an occupied cell.  `None` means the
/// move is legal.
pub open spec fn place_reject(mb: &MetaBoard, x: int, y: int) -> Option<GameError> {
    if x > 2 || y > 2 {
        Some(GameError::OutOfBounds)
    } else {
        match mb.selected {
            None => if mb.at(x, y).decided() {
                Some(GameError::BoardDecided)
            } else {
                None
            },
            Some(sel) => if mb.at(sel.0 as int, sel.1 as int).decided() {
                Some(GameError::BoardDecided)
            } else if cell(mb, sel.0 as int, sel.1 as int, x, y) != Space::Empty {
                Some(GameError::Occupied)
            } else {
                None
            },
        }
    }
}

/// Whether the acting player is the one whose turn it is.
pub open spec fn actor_is_current(g: &Game, actor: u64) -> bool {
    match current_of(g) {
        Some(p) => p.id == actor,
        None => false,
    }
}

/// Two meta cells carry the same standing and the same marks.
pub open spec fn same_cell(a: &MetaSpace, b: &MetaSpace) -> bool {
    &&& variant_eq(a, b)
    &&& crate::tictactoe::same_board(&a.board(), &b.board())
}

/// Whether two meta cells carry the same standing.
pub open spec fn variant_eq(a: &MetaSpace, b: &MetaSpace) -> bool {
    match (a, b) {
        (MetaSpace::X(_), MetaSpace::X(_)) => true,
        (MetaSpace::O(_), MetaSpace::O(_)) => true,
        (MetaSpace::Tie(_), MetaSpace::Tie(_)) => true,
        (MetaSpace::Empty(_), MetaSpace::Empty(_)) => true,
        _ => false,
    }
}

/// The line table reads standings only: cells with equal standings award
/// the same piece.
pub proof fn lemma_all_equal_variants(
    x: &MetaSpace,
    y: &MetaSpace,
    z: &MetaSpace,
    x2: &MetaSpace,
    y2: &MetaSpace,
    z2: &MetaSpace,
)
    requires
        variant_eq(x, x2),
        variant_eq(y, y2),
        variant_eq(z, z2),
    ensures
        spec_all_equal(x, y, z) == spec_all_equal(x2, y2, z2),
{
}

/// Two meta-boards with the same cells decide the same way.
pub proof fn lemma_meta_winner_same(a: &MetaBoard, b: &MetaBoard, ps: Seq<Player>)
    requires
        a.wf(),
        b.wf(),
        forall|i: int, j: int| 0 <= i < 3 && 0 <= j < 3 ==> same_cell(&#[trigger] a.at(i, j), &b.at(i, j)),
    ensures
        spec_meta_winner(a, ps) == spec_meta_winner(b, ps),
{
    assert forall|k: int| 0 <= k < 8 implies a.line(k) == b.line(k) by {
        assert(same_cell(&a.at(0, 0), &b.at(0, 0)));
        assert(same_cell(&a.at(0, 1), &b.at(0, 1)));
        assert(same_cell(&a.at(0, 2), &b.at(0, 2)));
        assert(same_cell(&a.at(1, 0), &b.at(1, 0)));
        assert(same_cell(&a.at(1, 1), &b.at(1, 1)));
        assert(same_cell(&a.at(1, 2), &b.at(1, 2)));
        assert(same_cell(&a.at(2, 0), &b.at(2, 0)));
        assert(same_cell(&a.at(2, 1), &b.at(2, 1)));
        assert(same_cell(&a.at(2, 2), &b.at(2, 2)));
        if k == 0 {
            lemma_all_equal_variants(&a.at(0, 0), &a.at(0, 1), &a.at(0, 2), &b.at(0, 0), &b.at(0, 1), &b.at(0, 2));
        } else if k == 1 {
            lemma_all_equal_variants(&a.at(1, 0), &a.at(1, 1), &a.at(1, 2), &b.at(1, 0), &b.at(1, 1), &b.at(1, 2));
        } else if k == 2 {
            lemma_all_equal_variants(&a.at(2, 0), &a.at(2, 1), &a.at(2, 2), &b.at(2, 0), &b.at(2, 1), &b.at(2, 2));
        } else if k == 3 {
            lemma_all_equal_variants(&a.at(0, 0), &a.at(1, 0), &a.at(2, 0), &b.at(0, 0), &b.at(1, 0), &b.at(2, 0));
        } else if k == 4 {
            lemma_all_equal_variants(&a.at(0, 1), &a.at(1, 1), &a.at(2, 1), &b.at(0, 1), &b.at(1, 1), &b.at(2, 1));
        } else if k == 5 {
            lemma_all_equal_variants(&a.at(0, 2), &a.at(1, 2), &a.at(2, 2), &b.at(0, 2), &b.at(1, 2), &b.at(2, 2));
        } else if k == 6 {
            lemma_all_equal_variants(&a.at(0, 0), &a.at(1, 1), &a.at(2, 2), &b.at(0, 0), &b.at(1, 1), &b.at(2, 2));
        } else {
            lemma_all_equal_variants(&a.at(2, 0), &a.at(1, 1), &a.at(0, 2), &b.at(2, 0), &b.at(1, 1), &b.at(0, 2));
        }
    }
    assert(a.wins(Space::X) == b.wins(Space::X)) by {
        if a.wins(Space::X) {
            let k = choose|k: int| 0 <= k < 8 && a.line(k) == Some(Space::X);
            assert(b.line(k) == Some(Space::X));
        }
        if b.wins(Space::X) {
            let k = choose|k: int| 0 <= k < 8 && b.line(k) == Some(Space::X);
            assert(a.line(k) == Some(Space::X));
        }
    }
    assert(a.wins(Space::O) == b.wins(Space::O)) by {
        if a.wins(Space::O) {
            let k = choose|k: int| 0 <= k < 8 && a.line(k) == Some(Space::O);
            assert(b.line(k) == Some(Space::O));
        }
        if b.wins(Space::O) {
            let k = choose|k: int| 0 <= k < 8 && b.line(k) == Some(Space::O);
            assert(a.line(k) == Some(Space::O));
        }
    }
    assert(a.all_decided() == b.all_decided()) by {
        assert forall|i: int, j: int| 0 <= i < 3 && 0 <= j < 3 implies (#[trigger] a.at(i, j)).decided()
            == b.at(i, j).decided() by {
            assert(same_cell(&a.at(i, j), &b.at(i, j)));
        }
    }
}

impl MetaBoard {
    /// A copy of the meta-board, cell for cell.
    pub fn clone_meta(&self) -> (r: MetaBoard)
        requires
            self.wf(),
        ensures
            r.wf(),
            r.selected == self.selected,
            forall|i: int, j: int|
                0 <= i < 3 && 0 <= j < 3 ==> same_cell(&#[trigger] r.at(i, j), &self.at(i, j)),
    {
        let mut spaces: Vec<Vec<MetaSpace>> = Vec::new();
        let mut x: usize = 0;
        while x < 3
            invariant
                self.wf(),
                x <= 3,
                spaces@.len() == x,
                forall|i: int| 0 <= i < x ==> #[trigger] spaces@[i]@.len() == 3,
                forall|i: int, j: int|
                    0 <= i < x && 0 <= j < 3 ==> same_cell(&#[trigger] spaces@[i]@[j], &self.at(i, j)),
            decreases 3 - x,
        {
            let mut row: Vec<MetaSpace> = Vec::new();
            row.push(self.clone_cell(x, 0));
            row.push(self.clone_cell(x, 1));
            row.push(self.clone_cell(x, 2));
            spaces.push(row);
            x = x + 1;
        }
        let r = MetaBoard { selected: self.selected, spaces };
        proof {
            assert forall|i: int, j: int| 0 <= i < 3 && 0 <= j < 3 implies same_cell(
                &#[trigger] r.at(i, j),
                &self.at(i, j),
            ) by {
                assert(same_cell(&r.spaces@[i]@[j], &self.at(i, j)));
            }
        }
        r
    }

    fn clone_cell(&self, x: usize, y: usize) -> (r: MetaSpace)
        requires
            self.wf(),
            x < 3,
            y < 3,
        ensures
            same_cell(&r, &self.at(x as int, y as int)),
    {
        let ms = self.get(x, y);
        proof {
            assert(self.at(x as int, y as int).wf());
        }
        match ms {
            MetaSpace::X(b) => {
                proof {
                    assert(*b == ms.board());
                }
                MetaSpace::X(b.clone_board())
            },
            MetaSpace::O(b) => {
                proof {
                    assert(*b == ms.board());
                }
                MetaSpace::O(b.clone_board())
            },
            MetaSpace::Tie(b) => {
                proof {
                    assert(*b == ms.board());
                }
                MetaSpace::Tie(b.clone_board())
            },
            MetaSpace::Empty(b) => {
                proof {
                    assert(*b == ms.board());
                }
                MetaSpace::Empty(b.clone_board())
            },
        }
    }
}

/// What `check_winner` decides, as a function of the meta-board and the
/// player list.
pub open spec fn spec_meta_winner(mb: &MetaBoard, ps: Seq<Player>) -> Option<Outcome> {
    if mb.wins(Space::X) && mb.wins(Space::O) {
        Some(Outcome::Tie)
    } else if mb.wins(Space::X) {
        match spec_find_player(ps, Space::X) {
            Some(p) => Some(Outcome::Win(p)),
            None => None,
        }
    } else if mb.wins(Space::O) {
        match spec_find_player(ps, Space::O) {
            Some(p) => Some(Outcome::Win(p)),
            None => None,
        }
    } else if mb.all_decided() {
        Some(Outcome::Tie)
    } else {
        None
    }
}

} // verus!
