//! The payload formats for a sliding puzzle game: the current binary
//! record and the legacy JSON record the decoder keeps readable.

use vstd::prelude::*;

verus! {

use crate::bytes::dec_byte;
use crate::bytes::dec_list;
use crate::bytes::dec_u64;
use crate::bytes::enc_byte;
use crate::bytes::enc_list;
use crate::bytes::enc_u64;
use crate::bytes::lemma_dec_enc_byte;
use crate::bytes::lemma_dec_enc_list;
use crate::bytes::lemma_dec_enc_u64;
use crate::bytes::lemma_enc_list_snoc;
use crate::bytes::read_byte;
use crate::bytes::read_u64;
use crate::bytes::write_byte;
use crate::bytes::write_u64;
use crate::json::dec_lit;
use crate::json::dec_num;
use crate::json::is_digit;
use crate::json::json_num;
use crate::json::lemma_dec_enc_lit;
use crate::json::lemma_dec_enc_num;
use crate::json::lemma_lit_head1;
use crate::json::lemma_lit_head2;
use crate::json::lemma_lit_head3;
use crate::json::lemma_lit_not_prefix0;
use crate::json::lemma_lit_not_prefix1;
use crate::json::lemma_lit_not_prefix2;
use crate::json::lit;
use crate::json::expect;
use crate::json::read_num;
use crate::json::write_lit;
use crate::json::write_num;
use crate::slidingpuzzle::Awaiting;
use crate::slidingpuzzle::Board;
use crate::slidingpuzzle::Difficulty;
use crate::slidingpuzzle::Game;
use crate::slidingpuzzle::InProgress;
use crate::slidingpuzzle::Outcome;
use crate::slidingpuzzle::Player;
use crate::slidingpuzzle::Size;
use crate::slidingpuzzle::Space;
use crate::slidingpuzzle::State;
use crate::slidingpuzzle::WonGame;

// ---------------------------------------------------------------------------
// the model
// ---------------------------------------------------------------------------

/// The cells hold exactly one blank.
pub open spec fn one_blank(cells: Seq<Space>) -> bool {
    &&& exists|i: int| 0 <= i < cells.len() && cells[i] == Space::Empty
    &&& forall|i: int, j: int|
        0 <= i < cells.len() && 0 <= j < cells.len() && #[trigger] cells[i] == Space::Empty
            && #[trigger] cells[j] == Space::Empty ==> i == j
}

pub enum StateModel {
    Awaiting(u64),
    Playing(Seq<Space>, Size),
    Done(Outcome, Seq<Space>, Size),
}

pub struct GameModel {
    pub player: u64,
    pub state: StateModel,
    pub start_time: Option<u64>,
    pub moves: u64,
    pub difficulty: Difficulty,
    pub size: Size,
}

pub open spec fn state_model(s: &State) -> StateModel {
    match s {
        State::AwaitingApproval(a) => StateModel::Awaiting(a.inviter),
        State::InProgress(ip) => StateModel::Playing(ip.board.spaces@, ip.board.size),
        State::Finished(w) => StateModel::Done(w.winner, w.board.spaces@, w.board.size),
    }
}

pub open spec fn model(g: &Game) -> GameModel {
    GameModel {
        player: g.player.id,
        state: state_model(&g.gamestate),
        start_time: g.start_time,
        moves: g.moves,
        difficulty: g.difficulty,
        size: g.size,
    }
}

pub open spec fn wf_model(m: GameModel) -> bool {
    match m.state {
        StateModel::Awaiting(_) => true,
        StateModel::Playing(cells, z) => cells.len() == z.spec_numeral() * z.spec_numeral()
            && one_blank(cells),
        StateModel::Done(_, cells, z) => cells.len() == z.spec_numeral() * z.spec_numeral()
            && one_blank(cells),
    }
}

/// A well-formed game has a well-formed model.
pub proof fn lemma_model_wf(g: &Game)
    requires
        g.wf(),
    ensures
        wf_model(model(g)),
{
}

// ---------------------------------------------------------------------------
// the binary record
// ---------------------------------------------------------------------------

pub open spec fn enc_space(s: Space) -> Seq<u8> {
    match s {
        Space::Empty => enc_byte(0),
        Space::Value(v) => enc_byte(1) + enc_byte(v),
    }
}

pub open spec fn dec_space(b: Seq<u8>) -> Option<(Space, Seq<u8>)> {
    match dec_byte(b) {
        None => None,
        Some((t, r)) => if t == 0 {
            Some((Space::Empty, r))
        } else if t == 1 {
            match dec_byte(r) {
                None => None,
                Some((v, r2)) => Some((Space::Value(v), r2)),
            }
        } else {
            None
        },
    }
}

pub open spec fn space_e() -> spec_fn(Space) -> Seq<u8> {
    |s: Space| enc_space(s)
}

pub open spec fn space_d() -> spec_fn(Seq<u8>) -> Option<(Space, Seq<u8>)> {
    |b: Seq<u8>| dec_space(b)
}

pub open spec fn enc_size(z: Size) -> Seq<u8> {
    match z {
        Size::Three => enc_byte(0),
        Size::Four => enc_byte(1),
        Size::Five => enc_byte(2),
    }
}

pub open spec fn dec_size(b: Seq<u8>) -> Option<(Size, Seq<u8>)> {
    match dec_byte(b) {
        None => None,
        Some((t, r)) => if t == 0 {
            Some((Size::Three, r))
        } else if t == 1 {
            Some((Size::Four, r))
        } else if t == 2 {
            Some((Size::Five, r))
        } else {
            None
        },
    }
}

pub open spec fn enc_difficulty(d: Difficulty) -> Seq<u8> {
    match d {
        Difficulty::Easy => enc_byte(0),
        Difficulty::Medium => enc_byte(1),
        Difficulty::Hard => enc_byte(2),
    }
}

pub open spec fn dec_difficulty(b: Seq<u8>) -> Option<(Difficulty, Seq<u8>)> {
    match dec_byte(b) {
        None => None,
        Some((t, r)) => if t == 0 {
            Some((Difficulty::Easy, r))
        } else if t == 1 {
            Some((Difficulty::Medium, r))
        } else if t == 2 {
            Some((Difficulty::Hard, r))
        } else {
            None
        },
    }
}

pub open spec fn enc_board(cells: Seq<Space>, z: Size) -> Seq<u8> {
    enc_size(z) + enc_list(cells, space_e())
}

pub open spec fn dec_board(b: Seq<u8>) -> Option<((Seq<Space>, Size), Seq<u8>)> {
    match dec_size(b) {
        None => None,
        Some((z, r)) => match dec_list(
            r,
            (z.spec_numeral() * z.spec_numeral()) as nat,
            space_d(),
        ) {
            None => None,
            Some((cells, r2)) => if one_blank(cells) {
                Some(((cells, z), r2))
            } else {
                None
            },
        },
    }
}

pub open spec fn enc_opt(o: Option<u64>) -> Seq<u8> {
    match o {
        None => enc_byte(0),
        Some(v) => enc_byte(1) + enc_u64(v),
    }
}

pub open spec fn dec_opt(b: Seq<u8>) -> Option<(Option<u64>, Seq<u8>)> {
    match dec_byte(b) {
        None => None,
        Some((t, r)) => if t == 0 {
            Some((None, r))
        } else if t == 1 {
            match dec_u64(r) {
                None => None,
                Some((v, r2)) => Some((Some(v), r2)),
            }
        } else {
            None
        },
    }
}

pub open spec fn enc_outcome(o: Outcome) -> Seq<u8> {
    enc_u64(o.elapsed) + enc_u64(o.moves) + enc_u64(o.player.id)
}

pub open spec fn dec_outcome(b: Seq<u8>) -> Option<(Outcome, Seq<u8>)> {
    match dec_u64(b) {
        None => None,
        Some((elapsed, r)) => match dec_u64(r) {
            None => None,
            Some((moves, r1)) => match dec_u64(r1) {
                None => None,
                Some((pid, r2)) => Some(
                    (Outcome { elapsed, moves, player: Player { id: pid } }, r2),
                ),
            },
        },
    }
}

pub open spec fn enc_state(sm: StateModel) -> Seq<u8> {
    match sm {
        StateModel::Awaiting(inviter) => enc_byte(0) + enc_u64(inviter),
        StateModel::Playing(cells, z) => enc_byte(1) + enc_board(cells, z),
        StateModel::Done(o, cells, z) => enc_byte(2) + enc_outcome(o) + enc_board(cells, z),
    }
}

pub open spec fn dec_state(b: Seq<u8>) -> Option<(StateModel, Seq<u8>)> {
    match dec_byte(b) {
        None => None,
        Some((t, r)) => if t == 0 {
            match dec_u64(r) {
                None => None,
                Some((inviter, r1)) => Some((StateModel::Awaiting(inviter), r1)),
            }
        } else if t == 1 {
            match dec_board(r) {
                None => None,
                Some(((cells, z), r1)) => Some((StateModel::Playing(cells, z), r1)),
            }
        } else if t == 2 {
            match dec_outcome(r) {
                None => None,
                Some((o, r1)) => match dec_board(r1) {
                    None => None,
                    Some(((cells, z), r2)) => Some((StateModel::Done(o, cells, z), r2)),
                },
            }
        } else {
            None
        },
    }
}

pub open spec fn enc_model(m: GameModel) -> Seq<u8> {
    seq![1u8] + enc_u64(m.player) + enc_state(m.state) + enc_opt(m.start_time) + enc_u64(m.moves)
        + enc_difficulty(m.difficulty) + enc_size(m.size)
}

pub open spec fn dec_game(b: Seq<u8>) -> Option<GameModel> {
    if b.len() < 1 || b[0] != 1 {
        None
    } else {
        let r0 = b.skip(1);
        match dec_u64(r0) {
            None => None,
            Some((player, r1)) => match dec_state(r1) {
                None => None,
                Some((sm, r2)) => match dec_opt(r2) {
                    None => None,
                    Some((st, r3)) => match dec_u64(r3) {
                        None => None,
                        Some((moves, r4)) => match dec_difficulty(r4) {
                            None => None,
                            Some((dd, r5)) => match dec_size(r5) {
                                None => None,
                                Some((zz, r6)) => if r6.len() == 0 {
                                    Some(
                                        GameModel {
                                            player,
                                            state: sm,
                                            start_time: st,
                                            moves,
                                            difficulty: dd,
                                            size: zz,
                                        },
                                    )
                                } else {
                                    None
                                },
                            },
                        },
                    },
                },
            },
        }
    }
}

// round-trip lemmas

pub proof fn lemma_dec_enc_space(s: Space, rest: Seq<u8>)
    ensures
        dec_space(enc_space(s) + rest) == Some((s, rest)),
{
    match s {
        Space::Empty => lemma_dec_enc_byte(0, rest),
        Space::Value(v) => {
            let x = enc_byte(v) + rest;
            assert(enc_space(s) + rest =~= enc_byte(1) + x);
            lemma_dec_enc_byte(1, x);
            assert(dec_byte(enc_space(s) + rest) == Some((1u8, x)));
            lemma_dec_enc_byte(v, rest);
        },
    }
}

#[verifier::rlimit(100)]
#[verifier::spinoff_prover]
pub proof fn lemma_dec_enc_board(cells: Seq<Space>, z: Size, rest: Seq<u8>)
    requires
        cells.len() == z.spec_numeral() * z.spec_numeral(),
        one_blank(cells),
    ensures
        dec_board(enc_board(cells, z) + rest) == Some(((cells, z), rest)),
{
    let x = enc_list(cells, space_e()) + rest;
    assert(enc_board(cells, z) + rest =~= enc_size(z) + x);
    match z {
        Size::Three => lemma_dec_enc_byte(0, x),
        Size::Four => lemma_dec_enc_byte(1, x),
        Size::Five => lemma_dec_enc_byte(2, x),
    }
    assert(dec_size(enc_board(cells, z) + rest) == Some((z, x)));
    assert forall|v: Space, r2: Seq<u8>| cells.contains(v) implies #[trigger] space_d()(
        space_e()(v) + r2,
    ) == Some((v, r2)) by {
        lemma_dec_enc_space(v, r2);
    }
    lemma_dec_enc_list(cells, rest, space_e(), space_d());
}

pub proof fn lemma_dec_enc_outcome(o: Outcome, rest: Seq<u8>)
    ensures
        dec_outcome(enc_outcome(o) + rest) == Some((o, rest)),
{
    assert(enc_outcome(o) + rest =~= enc_u64(o.elapsed) + (enc_u64(o.moves) + (enc_u64(o.player.id)
        + rest)));
    lemma_dec_enc_u64(o.elapsed, enc_u64(o.moves) + (enc_u64(o.player.id) + rest));
    lemma_dec_enc_u64(o.moves, enc_u64(o.player.id) + rest);
    lemma_dec_enc_u64(o.player.id, rest);
}

#[verifier::rlimit(100)]
#[verifier::spinoff_prover]
pub proof fn lemma_dec_enc_state(sm: StateModel, rest: Seq<u8>)
    requires
        match sm {
            StateModel::Awaiting(_) => true,
            StateModel::Playing(cells, z) => cells.len() == z.spec_numeral() * z.spec_numeral()
                && one_blank(cells),
            StateModel::Done(_, cells, z) => cells.len() == z.spec_numeral() * z.spec_numeral()
                && one_blank(cells),
        },
    ensures
        dec_state(enc_state(sm) + rest) == Some((sm, rest)),
{
    match sm {
        StateModel::Awaiting(inviter) => {
            let x = enc_u64(inviter) + rest;
            assert(enc_state(sm) + rest =~= enc_byte(0) + x);
            lemma_dec_enc_byte(0, x);
            assert(dec_byte(enc_state(sm) + rest) == Some((0u8, x)));
            lemma_dec_enc_u64(inviter, rest);
        },
        StateModel::Playing(cells, z) => {
            let x = enc_board(cells, z) + rest;
            assert(enc_state(sm) + rest =~= enc_byte(1) + x);
            lemma_dec_enc_byte(1, x);
            assert(dec_byte(enc_state(sm) + rest) == Some((1u8, x)));
            lemma_dec_enc_board(cells, z, rest);
        },
        StateModel::Done(o, cells, z) => {
            let x = enc_outcome(o) + (enc_board(cells, z) + rest);
            assert(enc_state(sm) + rest =~= enc_byte(2) + x);
            lemma_dec_enc_byte(2, x);
            assert(dec_byte(enc_state(sm) + rest) == Some((2u8, x)));
            lemma_dec_enc_outcome(o, enc_board(cells, z) + rest);
            lemma_dec_enc_board(cells, z, rest);
        },
    }
}

/// Parsing a binary payload made from a well-formed model yields the model.
#[verifier::rlimit(100)]
#[verifier::spinoff_prover]
pub proof fn lemma_dec_enc_game(m: GameModel)
    requires
        wf_model(m),
    ensures
        dec_game(enc_model(m)) == Some(m),
{
    let b = enc_model(m);
    let t1 = enc_state(m.state) + (enc_opt(m.start_time) + (enc_u64(m.moves) + (enc_difficulty(
        m.difficulty,
    ) + enc_size(m.size))));
    assert(b[0] == 1);
    assert(b.skip(1) =~= enc_u64(m.player) + t1);
    lemma_dec_enc_u64(m.player, t1);
    let t2 = enc_opt(m.start_time) + (enc_u64(m.moves) + (enc_difficulty(m.difficulty) + enc_size(
        m.size,
    )));
    lemma_dec_enc_state(m.state, t2);
    let t3 = enc_u64(m.moves) + (enc_difficulty(m.difficulty) + enc_size(m.size));
    match m.start_time {
        None => {
            lemma_dec_enc_byte(0, t3);
            assert(enc_opt(m.start_time) + t3 =~= enc_byte(0) + t3);
            assert(dec_byte(enc_opt(m.start_time) + t3) == Some((0u8, t3)));
        },
        Some(v) => {
            let x = enc_u64(v) + t3;
            assert(enc_opt(m.start_time) + t3 =~= enc_byte(1) + x);
            lemma_dec_enc_byte(1, x);
            assert(dec_byte(enc_opt(m.start_time) + t3) == Some((1u8, x)));
            lemma_dec_enc_u64(v, t3);
        },
    }
    let t4 = enc_difficulty(m.difficulty) + enc_size(m.size);
    lemma_dec_enc_u64(m.moves, t4);
    match m.difficulty {
        Difficulty::Easy => lemma_dec_enc_byte(0, enc_size(m.size)),
        Difficulty::Medium => lemma_dec_enc_byte(1, enc_size(m.size)),
        Difficulty::Hard => lemma_dec_enc_byte(2, enc_size(m.size)),
    }
    assert(dec_difficulty(t4) == Some((m.difficulty, enc_size(m.size))));
    match m.size {
        Size::Three => lemma_dec_enc_byte(0, Seq::<u8>::empty()),
        Size::Four => lemma_dec_enc_byte(1, Seq::<u8>::empty()),
        Size::Five => lemma_dec_enc_byte(2, Seq::<u8>::empty()),
    }
    assert(enc_size(m.size) =~= enc_size(m.size) + Seq::<u8>::empty());
}

// soundness (what of_bytes' contract needs)

pub proof fn lemma_dec_space_sound(b: Seq<u8>)
    requires
        dec_space(b) is Some,
    ensures
        b =~= enc_space(dec_space(b)->Some_0.0) + dec_space(b)->Some_0.1,
        dec_space(b)->Some_0.1.len() < b.len(),
{
    crate::bytes::lemma_dec_byte_sound(b);
    let (t, r) = dec_byte(b)->Some_0;
    if t == 1 {
        crate::bytes::lemma_dec_byte_sound(r);
        let (v, r2) = dec_byte(r)->Some_0;
        assert(b =~= enc_byte(1) + (enc_byte(v) + r2));
        assert(enc_space(Space::Value(v)) + r2 =~= enc_byte(1) + (enc_byte(v) + r2));
    }
}

pub proof fn lemma_space_d_sound()
    ensures
        forall|bb: Seq<u8>| #[trigger] space_d()(bb) matches Some(vr) ==> bb =~= space_e()(vr.0)
            + vr.1 && vr.1.len() < bb.len(),
{
    assert forall|bb: Seq<u8>| #[trigger] space_d()(bb) is Some implies {
        let vr = space_d()(bb)->Some_0;
        bb =~= space_e()(vr.0) + vr.1 && vr.1.len() < bb.len()
    } by {
        lemma_dec_space_sound(bb);
    }
}

pub proof fn lemma_dec_board_sound(b: Seq<u8>)
    requires
        dec_board(b) is Some,
    ensures
        ({
            let ((cells, z), r) = dec_board(b)->Some_0;
            &&& b =~= enc_board(cells, z) + r
            &&& cells.len() == z.spec_numeral() * z.spec_numeral()
            &&& one_blank(cells)
        }),
{
    crate::bytes::lemma_dec_byte_sound(b);
    let (t, r) = dec_byte(b)->Some_0;
    let ((cells, z), r2) = dec_board(b)->Some_0;
    lemma_space_d_sound();
    crate::bytes::lemma_dec_list_sound(
        r,
        (z.spec_numeral() * z.spec_numeral()) as nat,
        space_e(),
        space_d(),
    );
    assert(b =~= enc_byte(t) + (enc_list(cells, space_e()) + r2));
    assert(enc_board(cells, z) + r2 =~= enc_byte(t) + (enc_list(cells, space_e()) + r2));
}

#[verifier::rlimit(100)]
#[verifier::spinoff_prover]
pub proof fn lemma_dec_state_sound(b: Seq<u8>)
    requires
        dec_state(b) is Some,
    ensures
        b =~= enc_state(dec_state(b)->Some_0.0) + dec_state(b)->Some_0.1,
        match dec_state(b)->Some_0.0 {
            StateModel::Awaiting(_) => true,
            StateModel::Playing(cells, z) => cells.len() == z.spec_numeral() * z.spec_numeral()
                && one_blank(cells),
            StateModel::Done(_, cells, z) => cells.len() == z.spec_numeral() * z.spec_numeral()
                && one_blank(cells),
        },
{
    crate::bytes::lemma_dec_byte_sound(b);
    let (t, r) = dec_byte(b)->Some_0;
    let (sm, rem) = dec_state(b)->Some_0;
    if t == 0 {
        crate::bytes::lemma_dec_u64_sound(r);
        let (inviter, r1) = dec_u64(r)->Some_0;
        assert(b =~= enc_byte(0) + (enc_u64(inviter) + r1));
        assert(enc_state(sm) + rem =~= enc_byte(0) + (enc_u64(inviter) + r1));
    } else if t == 1 {
        lemma_dec_board_sound(r);
        let ((cells, z), r1) = dec_board(r)->Some_0;
        assert(b =~= enc_byte(1) + (enc_board(cells, z) + r1));
        assert(enc_state(sm) + rem =~= enc_byte(1) + (enc_board(cells, z) + r1));
    } else {
        lemma_dec_outcome_sound(r);
        let (o, r1) = dec_outcome(r)->Some_0;
        lemma_dec_board_sound(r1);
        let ((cells, z), r2) = dec_board(r1)->Some_0;
        assert(b =~= enc_byte(2) + (enc_outcome(o) + (enc_board(cells, z) + r2)));
        assert(enc_state(sm) + rem =~= enc_byte(2) + (enc_outcome(o) + (enc_board(cells, z)
            + r2)));
    }
}

pub proof fn lemma_dec_outcome_sound(b: Seq<u8>)
    requires
        dec_outcome(b) is Some,
    ensures
        b =~= enc_outcome(dec_outcome(b)->Some_0.0) + dec_outcome(b)->Some_0.1,
{
    crate::bytes::lemma_dec_u64_sound(b);
    let (elapsed, r) = dec_u64(b)->Some_0;
    crate::bytes::lemma_dec_u64_sound(r);
    let (moves, r1) = dec_u64(r)->Some_0;
    crate::bytes::lemma_dec_u64_sound(r1);
    let (pid, r2) = dec_u64(r1)->Some_0;
    assert(b =~= enc_u64(elapsed) + (enc_u64(moves) + (enc_u64(pid) + r2)));
    assert(enc_outcome(dec_outcome(b)->Some_0.0) + r2 =~= enc_u64(elapsed) + (enc_u64(moves) + (
    enc_u64(pid) + r2)));
}

/// A successful payload parse yields a well-formed model whose encoding is
/// the payload itself.
#[verifier::rlimit(100)]
#[verifier::spinoff_prover]
pub proof fn lemma_dec_game_sound(b: Seq<u8>)
    requires
        dec_game(b) is Some,
    ensures
        wf_model(dec_game(b)->Some_0),
        b =~= enc_model(dec_game(b)->Some_0),
{
    let m = dec_game(b)->Some_0;
    let r0 = b.skip(1);
    crate::bytes::lemma_dec_u64_sound(r0);
    let (player, r1) = dec_u64(r0)->Some_0;
    lemma_dec_state_sound(r1);
    let (sm, r2) = dec_state(r1)->Some_0;
    crate::bytes::lemma_dec_byte_sound(r2);
    let (ot, r2b) = dec_byte(r2)->Some_0;
    let (st, r3) = dec_opt(r2)->Some_0;
    if ot == 1 {
        crate::bytes::lemma_dec_u64_sound(r2b);
        let (v, _r) = dec_u64(r2b)->Some_0;
        assert(r2 =~= enc_byte(1) + (enc_u64(v) + r3));
        assert(enc_opt(st) + r3 =~= enc_byte(1) + (enc_u64(v) + r3));
    } else {
        assert(r2 =~= enc_byte(0) + r3);
        assert(enc_opt(st) + r3 =~= enc_byte(0) + r3);
    }
    crate::bytes::lemma_dec_u64_sound(r3);
    let (moves, r4) = dec_u64(r3)->Some_0;
    crate::bytes::lemma_dec_byte_sound(r4);
    let (dt, r5) = dec_byte(r4)->Some_0;
    assert(enc_difficulty(m.difficulty) =~= enc_byte(dt));
    crate::bytes::lemma_dec_byte_sound(r5);
    let (zt, r6) = dec_byte(r5)->Some_0;
    assert(enc_size(m.size) =~= enc_byte(zt));
    assert(r6.len() == 0);
    assert(r5 =~= enc_byte(zt));
    assert(b =~= seq![b[0]] + r0);
    assert(b =~= seq![1u8] + (enc_u64(player) + (enc_state(sm) + (enc_opt(st) + (enc_u64(moves) + (
    enc_byte(dt) + enc_byte(zt)))))));
    assert(enc_model(m) =~= seq![1u8] + (enc_u64(m.player) + (enc_state(m.state) + (enc_opt(
        m.start_time,
    ) + (enc_u64(m.moves) + (enc_difficulty(m.difficulty) + enc_size(m.size)))))));
}

// ---------------------------------------------------------------------------
// the legacy JSON record
// ---------------------------------------------------------------------------

pub open spec fn j_space(s: Space) -> Seq<u8> {
    match s {
        Space::Empty => lit("\"Empty\""@),
        Space::Value(v) => lit("{\"Value\":"@) + json_num(v as nat) + seq![125u8],
    }
}

pub open spec fn j_size(z: Size) -> Seq<u8> {
    match z {
        Size::Three => lit("\"Three\""@),
        Size::Four => lit("\"Four\""@),
        Size::Five => lit("\"Five\""@),
    }
}

pub open spec fn j_difficulty(d: Difficulty) -> Seq<u8> {
    match d {
        Difficulty::Easy => lit("\"Easy\""@),
        Difficulty::Medium => lit("\"Medium\""@),
        Difficulty::Hard => lit("\"Hard\""@),
    }
}

pub open spec fn j_cells_tail(cells: Seq<Space>) -> Seq<u8>
    decreases cells.len(),
{
    if cells.len() == 0 {
        Seq::<u8>::empty()
    } else {
        seq![44u8] + j_space(cells[0]) + j_cells_tail(cells.drop_first())
    }
}

pub open spec fn j_cells(cells: Seq<Space>) -> Seq<u8> {
    if cells.len() == 0 {
        Seq::<u8>::empty()
    } else {
        j_space(cells[0]) + j_cells_tail(cells.drop_first())
    }
}

pub open spec fn j_board(cells: Seq<Space>, z: Size) -> Seq<u8> {
    lit("{\"spaces\":["@) + j_cells(cells) + lit("],\"size\":"@) + j_size(z) + seq![125u8]
}

pub open spec fn j_state(sm: StateModel) -> Seq<u8> {
    match sm {
        StateModel::Awaiting(inviter) => lit("{\"AwaitingApproval\":{\"inviter\":"@) + json_num(
            inviter as nat,
        ) + lit("}}"@),
        StateModel::Playing(cells, z) => lit("{\"InProgress\":{\"board\":"@) + j_board(cells, z)
            + lit("}}"@),
        StateModel::Done(o, cells, z) => lit("{\"Finished\":{\"winner\":"@) + j_outcome(o) + lit(
            ",\"board\":"@,
        ) + j_board(cells, z) + lit("}}"@),
    }
}

pub open spec fn j_outcome(o: Outcome) -> Seq<u8> {
    lit("{\"elapsed\":"@) + json_num(o.elapsed as nat) + lit(",\"moves\":"@) + json_num(
        o.moves as nat,
    ) + lit(",\"player\":{\"id\":"@) + json_num(o.player.id as nat) + lit("}}"@)
}

pub open spec fn j_start(o: Option<u64>) -> Seq<u8> {
    match o {
        None => lit("null"@),
        Some(v) => json_num(v as nat),
    }
}

/// Everything after the phase in a legacy payload.
pub open spec fn j_game_tail(m: GameModel) -> Seq<u8> {
    lit(",\"start_time\":"@) + (j_start(m.start_time) + (lit(",\"moves\":"@) + (json_num(
        m.moves as nat,
    ) + (lit(",\"difficulty\":"@) + (j_difficulty(m.difficulty) + (lit(",\"size\":"@) + (j_size(
        m.size,
    ) + seq![125u8])))))))
}

pub open spec fn j_game(m: GameModel) -> Seq<u8> {
    lit("{\"player\":{\"id\":"@) + (json_num(m.player as nat) + (lit("},\"gamestate\":"@) + (
    j_state(m.state) + j_game_tail(m))))
}

pub open spec fn d_j_space(b: Seq<u8>) -> Option<(Space, Seq<u8>)> {
    if dec_lit(b, lit("\"Empty\""@)) is Some {
        Some((Space::Empty, dec_lit(b, lit("\"Empty\""@))->Some_0))
    } else {
        match dec_lit(b, lit("{\"Value\":"@)) {
            None => None,
            Some(r1) => match dec_num(r1) {
                None => None,
                Some((v, r2)) => if r2.len() >= 1 && r2[0] == 125 && v <= u8::MAX {
                    Some((Space::Value(v as u8), r2.skip(1)))
                } else {
                    None
                },
            },
        }
    }
}

pub open spec fn d_j_size(b: Seq<u8>) -> Option<(Size, Seq<u8>)> {
    if dec_lit(b, lit("\"Three\""@)) is Some {
        Some((Size::Three, dec_lit(b, lit("\"Three\""@))->Some_0))
    } else if dec_lit(b, lit("\"Four\""@)) is Some {
        Some((Size::Four, dec_lit(b, lit("\"Four\""@))->Some_0))
    } else if dec_lit(b, lit("\"Five\""@)) is Some {
        Some((Size::Five, dec_lit(b, lit("\"Five\""@))->Some_0))
    } else {
        None
    }
}

pub open spec fn d_j_difficulty(b: Seq<u8>) -> Option<(Difficulty, Seq<u8>)> {
    if dec_lit(b, lit("\"Easy\""@)) is Some {
        Some((Difficulty::Easy, dec_lit(b, lit("\"Easy\""@))->Some_0))
    } else if dec_lit(b, lit("\"Medium\""@)) is Some {
        Some((Difficulty::Medium, dec_lit(b, lit("\"Medium\""@))->Some_0))
    } else if dec_lit(b, lit("\"Hard\""@)) is Some {
        Some((Difficulty::Hard, dec_lit(b, lit("\"Hard\""@))->Some_0))
    } else {
        None
    }
}

pub open spec fn d_j_cells_more(b: Seq<u8>) -> Option<(Seq<Space>, Seq<u8>)>
    decreases b.len(),
{
    if b.len() >= 1 && b[0] == 44 {
        match d_j_space(b.skip(1)) {
            None => None,
            Some((s, r)) => if r.len() < b.len() {
                match d_j_cells_more(r) {
                    None => None,
                    Some((ss, r2)) => Some((seq![s] + ss, r2)),
                }
            } else {
                None
            },
        }
    } else {
        Some((Seq::<Space>::empty(), b))
    }
}

pub open spec fn d_j_cells(b: Seq<u8>) -> Option<(Seq<Space>, Seq<u8>)> {
    if b.len() >= 1 && (b[0] == 34 || b[0] == 123) {
        match d_j_space(b) {
            None => None,
            Some((s, r)) => if r.len() < b.len() {
                match d_j_cells_more(r) {
                    None => None,
                    Some((ss, r2)) => Some((seq![s] + ss, r2)),
                }
            } else {
                None
            },
        }
    } else {
        Some((Seq::<Space>::empty(), b))
    }
}

pub open spec fn d_j_board(b: Seq<u8>) -> Option<((Seq<Space>, Size), Seq<u8>)> {
    match dec_lit(b, lit("{\"spaces\":["@)) {
        None => None,
        Some(r1) => match d_j_cells(r1) {
            None => None,
            Some((cells, r2)) => match dec_lit(r2, lit("],\"size\":"@)) {
                None => None,
                Some(r3) => match d_j_size(r3) {
                    None => None,
                    Some((z, r4)) => if r4.len() >= 1 && r4[0] == 125 && cells.len()
                        == z.spec_numeral() * z.spec_numeral() && one_blank(cells) {
                        Some(((cells, z), r4.skip(1)))
                    } else {
                        None
                    },
                },
            },
        },
    }
}

pub open spec fn d_j_outcome(b: Seq<u8>) -> Option<(Outcome, Seq<u8>)> {
    match dec_lit(b, lit("{\"elapsed\":"@)) {
        None => None,
        Some(r1) => match dec_num(r1) {
            None => None,
            Some((elapsed, r2)) => match dec_lit(r2, lit(",\"moves\":"@)) {
                None => None,
                Some(r3) => match dec_num(r3) {
                    None => None,
                    Some((moves, r4)) => match dec_lit(r4, lit(",\"player\":{\"id\":"@)) {
                        None => None,
                        Some(r5) => match dec_num(r5) {
                            None => None,
                            Some((pid, r6)) => match dec_lit(r6, lit("}}"@)) {
                                None => None,
                                Some(r7) => Some(
                                    (Outcome { elapsed, moves, player: Player { id: pid } }, r7),
                                ),
                            },
                        },
                    },
                },
            },
        },
    }
}

pub open spec fn d_j_state(b: Seq<u8>) -> Option<(StateModel, Seq<u8>)> {
    if dec_lit(b, lit("{\"AwaitingApproval\":{\"inviter\":"@)) is Some {
        let r1 = dec_lit(b, lit("{\"AwaitingApproval\":{\"inviter\":"@))->Some_0;
        match dec_num(r1) {
            None => None,
            Some((inviter, r2)) => match dec_lit(r2, lit("}}"@)) {
                None => None,
                Some(r3) => Some((StateModel::Awaiting(inviter), r3)),
            },
        }
    } else if dec_lit(b, lit("{\"InProgress\":{\"board\":"@)) is Some {
        let r1 = dec_lit(b, lit("{\"InProgress\":{\"board\":"@))->Some_0;
        match d_j_board(r1) {
            None => None,
            Some(((cells, z), r2)) => match dec_lit(r2, lit("}}"@)) {
                None => None,
                Some(r3) => Some((StateModel::Playing(cells, z), r3)),
            },
        }
    } else if dec_lit(b, lit("{\"Finished\":{\"winner\":"@)) is Some {
        let r1 = dec_lit(b, lit("{\"Finished\":{\"winner\":"@))->Some_0;
        match d_j_outcome(r1) {
            None => None,
            Some((o, r2)) => match dec_lit(r2, lit(",\"board\":"@)) {
                None => None,
                Some(r3) => match d_j_board(r3) {
                    None => None,
                    Some(((cells, z), r4)) => match dec_lit(r4, lit("}}"@)) {
                        None => None,
                        Some(r5) => Some((StateModel::Done(o, cells, z), r5)),
                    },
                },
            },
        }
    } else {
        None
    }
}

pub open spec fn d_j_start(b: Seq<u8>) -> Option<(Option<u64>, Seq<u8>)> {
    if dec_lit(b, lit("null"@)) is Some {
        Some((None, dec_lit(b, lit("null"@))->Some_0))
    } else {
        match dec_num(b) {
            None => None,
            Some((v, r)) => Some((Some(v), r)),
        }
    }
}

/// The back half of a legacy payload, after the phase.
pub open spec fn d_j_game_rest(player: u64, sm: StateModel, b: Seq<u8>) -> Option<GameModel> {
    match dec_lit(b, lit(",\"start_time\":"@)) {
        None => None,
        Some(r5) => match d_j_start(r5) {
            None => None,
            Some((st, r6)) => match dec_lit(r6, lit(",\"moves\":"@)) {
                None => None,
                Some(r7) => match dec_num(r7) {
                    None => None,
                    Some((moves, r8)) => match dec_lit(r8, lit(",\"difficulty\":"@)) {
                        None => None,
                        Some(r9) => match d_j_difficulty(r9) {
                            None => None,
                            Some((dd, r10)) => match dec_lit(r10, lit(",\"size\":"@)) {
                                None => None,
                                Some(r11) => match d_j_size(r11) {
                                    None => None,
                                    Some((zz, r12)) => if r12.len() == 1 && r12[0] == 125 {
                                        Some(
                                            GameModel {
                                                player,
                                                state: sm,
                                                start_time: st,
                                                moves,
                                                difficulty: dd,
                                                size: zz,
                                            },
                                        )
                                    } else {
                                        None
                                    },
                                },
                            },
                        },
                    },
                },
            },
        },
    }
}

pub open spec fn d_j_game(b: Seq<u8>) -> Option<GameModel> {
    match dec_lit(b, lit("{\"player\":{\"id\":"@)) {
        None => None,
        Some(r1) => match dec_num(r1) {
            None => None,
            Some((player, r2)) => match dec_lit(r2, lit("},\"gamestate\":"@)) {
                None => None,
                Some(r3) => match d_j_state(r3) {
                    None => None,
                    Some((sm, r4)) => d_j_game_rest(player, sm, r4),
                },
            },
        },
    }
}

// completeness lemmas

proof fn lemma_pz_lits()
    ensures
        lit("\"Empty\""@).len() >= 2 && lit("\"Empty\""@)[0] == 34 && lit("\"Empty\""@)[1] == 69,
        lit("{\"Value\":"@).len() >= 2 && lit("{\"Value\":"@)[0] == 123 && lit("{\"Value\":"@)[1]
            == 34,
        lit("\"Three\""@).len() >= 3 && lit("\"Three\""@)[0] == 34 && lit("\"Three\""@)[1] == 84
            && lit("\"Three\""@)[2] == 104,
        lit("\"Four\""@).len() >= 3 && lit("\"Four\""@)[0] == 34 && lit("\"Four\""@)[1] == 70 && lit(
            "\"Four\""@,
        )[2] == 111,
        lit("\"Five\""@).len() >= 3 && lit("\"Five\""@)[0] == 34 && lit("\"Five\""@)[1] == 70 && lit(
            "\"Five\""@,
        )[2] == 105,
        lit("\"Easy\""@).len() >= 2 && lit("\"Easy\""@)[0] == 34 && lit("\"Easy\""@)[1] == 69,
        lit("\"Medium\""@).len() >= 2 && lit("\"Medium\""@)[0] == 34 && lit("\"Medium\""@)[1] == 77,
        lit("\"Hard\""@).len() >= 2 && lit("\"Hard\""@)[0] == 34 && lit("\"Hard\""@)[1] == 72,
        lit("{\"spaces\":["@).len() >= 1 && lit("{\"spaces\":["@)[0] == 123,
        lit("],\"size\":"@).len() >= 1 && lit("],\"size\":"@)[0] == 93,
        lit("null"@).len() >= 1 && lit("null"@)[0] == 110,
        lit("{\"elapsed\":"@).len() >= 1 && lit("{\"elapsed\":"@)[0] == 123,
        lit(",\"moves\":"@).len() >= 1 && lit(",\"moves\":"@)[0] == 44,
        lit(",\"player\":{\"id\":"@).len() >= 1 && lit(",\"player\":{\"id\":"@)[0] == 44,
        lit("}}"@).len() >= 1 && lit("}}"@)[0] == 125,
        lit(",\"board\":"@).len() >= 1 && lit(",\"board\":"@)[0] == 44,
        lit("{\"player\":{\"id\":"@).len() >= 1 && lit("{\"player\":{\"id\":"@)[0] == 123,
        lit("},\"gamestate\":"@).len() >= 1 && lit("},\"gamestate\":"@)[0] == 125,
        lit(",\"start_time\":"@).len() >= 1 && lit(",\"start_time\":"@)[0] == 44,
        lit(",\"difficulty\":"@).len() >= 1 && lit(",\"difficulty\":"@)[0] == 44,
        lit(",\"size\":"@).len() >= 1 && lit(",\"size\":"@)[0] == 44,
{
    reveal_strlit("\"Empty\"");
    reveal_strlit("{\"Value\":");
    reveal_strlit("\"Three\"");
    reveal_strlit("\"Four\"");
    reveal_strlit("\"Five\"");
    reveal_strlit("\"Easy\"");
    reveal_strlit("\"Medium\"");
    reveal_strlit("\"Hard\"");
    reveal_strlit("{\"spaces\":[");
    reveal_strlit("],\"size\":");
    reveal_strlit("null");
    reveal_strlit("{\"elapsed\":");
    reveal_strlit(",\"moves\":");
    reveal_strlit(",\"player\":{\"id\":");
    reveal_strlit("}}");
    reveal_strlit(",\"board\":");
    reveal_strlit("{\"player\":{\"id\":");
    reveal_strlit("},\"gamestate\":");
    reveal_strlit(",\"start_time\":");
    reveal_strlit(",\"difficulty\":");
    reveal_strlit(",\"size\":");
    lemma_lit_head2("\"Empty\""@);
    lemma_lit_head2("{\"Value\":"@);
    lemma_lit_head3("\"Three\""@);
    lemma_lit_head3("\"Four\""@);
    lemma_lit_head3("\"Five\""@);
    lemma_lit_head2("\"Easy\""@);
    lemma_lit_head2("\"Medium\""@);
    lemma_lit_head2("\"Hard\""@);
    lemma_lit_head1("{\"spaces\":["@);
    lemma_lit_head1("],\"size\":"@);
    lemma_lit_head1("null"@);
    lemma_lit_head1("{\"elapsed\":"@);
    lemma_lit_head1(",\"moves\":"@);
    lemma_lit_head1(",\"player\":{\"id\":"@);
    lemma_lit_head1("}}"@);
    lemma_lit_head1(",\"board\":"@);
    lemma_lit_head1("{\"player\":{\"id\":"@);
    lemma_lit_head1("},\"gamestate\":"@);
    lemma_lit_head1(",\"start_time\":"@);
    lemma_lit_head1(",\"difficulty\":"@);
    lemma_lit_head1(",\"size\":"@);
}

#[verifier::rlimit(100)]
#[verifier::spinoff_prover]
proof fn lemma_d_j_space(s: Space, rest: Seq<u8>)
    ensures
        d_j_space(j_space(s) + rest) == Some((s, rest)),
        (j_space(s) + rest)[0] == 34 || (j_space(s) + rest)[0] == 123,
{
    lemma_pz_lits();
    reveal_strlit("\"Empty\"");
    let b = j_space(s) + rest;
    match s {
        Space::Empty => {
            lemma_dec_enc_lit(lit("\"Empty\""@), rest);
        },
        Space::Value(v) => {
            let t1 = json_num(v as nat) + (seq![125u8] + rest);
            assert(b =~= lit("{\"Value\":"@) + t1);
            assert(b[0] == 123);
            lemma_lit_not_prefix0("\"Empty\""@, b);
            lemma_dec_enc_lit(lit("{\"Value\":"@), t1);
            let t2 = seq![125u8] + rest;
            assert(t2[0] == 125 && !is_digit(t2[0]));
            lemma_dec_enc_num(v as u64, t2);
            assert(t2.skip(1) =~= rest);
        },
    }
}

#[verifier::rlimit(100)]
#[verifier::spinoff_prover]
proof fn lemma_d_j_size(z: Size, rest: Seq<u8>)
    ensures
        d_j_size(j_size(z) + rest) == Some((z, rest)),
{
    lemma_pz_lits();
    reveal_strlit("\"Three\"");
    reveal_strlit("\"Four\"");
    let b = j_size(z) + rest;
    match z {
        Size::Three => {
            lemma_dec_enc_lit(lit("\"Three\""@), rest);
        },
        Size::Four => {
            assert(b[1] == lit("\"Four\""@)[1]);
            lemma_lit_not_prefix1("\"Three\""@, b);
            lemma_dec_enc_lit(lit("\"Four\""@), rest);
        },
        Size::Five => {
            assert(b[1] == lit("\"Five\""@)[1] && b[2] == lit("\"Five\""@)[2]);
            lemma_lit_not_prefix1("\"Three\""@, b);
            lemma_lit_not_prefix2("\"Four\""@, b);
            lemma_dec_enc_lit(lit("\"Five\""@), rest);
        },
    }
}

#[verifier::rlimit(100)]
#[verifier::spinoff_prover]
proof fn lemma_d_j_difficulty(d: Difficulty, rest: Seq<u8>)
    ensures
        d_j_difficulty(j_difficulty(d) + rest) == Some((d, rest)),
{
    lemma_pz_lits();
    reveal_strlit("\"Easy\"");
    reveal_strlit("\"Medium\"");
    let b = j_difficulty(d) + rest;
    match d {
        Difficulty::Easy => {
            lemma_dec_enc_lit(lit("\"Easy\""@), rest);
        },
        Difficulty::Medium => {
            assert(b[1] == lit("\"Medium\""@)[1]);
            lemma_lit_not_prefix1("\"Easy\""@, b);
            lemma_dec_enc_lit(lit("\"Medium\""@), rest);
        },
        Difficulty::Hard => {
            assert(b[1] == lit("\"Hard\""@)[1]);
            lemma_lit_not_prefix1("\"Easy\""@, b);
            lemma_lit_not_prefix1("\"Medium\""@, b);
            lemma_dec_enc_lit(lit("\"Hard\""@), rest);
        },
    }
}

proof fn lemma_d_j_cells_more(cells: Seq<Space>, rest: Seq<u8>)
    requires
        rest.len() >= 1,
        rest[0] != 44,
    ensures
        d_j_cells_more(j_cells_tail(cells) + rest) == Some((cells, rest)),
    decreases cells.len(),
{
    let b = j_cells_tail(cells) + rest;
    if cells.len() == 0 {
        assert(b =~= rest);
    } else {
        lemma_d_j_space(cells[0], j_cells_tail(cells.drop_first()) + rest);
        assert(b =~= seq![44u8] + (j_space(cells[0]) + (j_cells_tail(cells.drop_first()) + rest)));
        assert(b[0] == 44);
        assert(b.skip(1) =~= j_space(cells[0]) + (j_cells_tail(cells.drop_first()) + rest));
        lemma_d_j_cells_more(cells.drop_first(), rest);
        assert(seq![cells[0]] + cells.drop_first() =~= cells);
    }
}

proof fn lemma_d_j_cells(cells: Seq<Space>, rest: Seq<u8>)
    requires
        rest.len() >= 1,
        rest[0] != 44,
        rest[0] != 34,
        rest[0] != 123,
    ensures
        d_j_cells(j_cells(cells) + rest) == Some((cells, rest)),
{
    let b = j_cells(cells) + rest;
    if cells.len() == 0 {
        assert(b =~= rest);
    } else {
        lemma_d_j_space(cells[0], j_cells_tail(cells.drop_first()) + rest);
        assert(b =~= j_space(cells[0]) + (j_cells_tail(cells.drop_first()) + rest));
        assert(b[0] == 34 || b[0] == 123);
        lemma_d_j_cells_more(cells.drop_first(), rest);
        assert(seq![cells[0]] + cells.drop_first() =~= cells);
    }
}

#[verifier::rlimit(100)]
#[verifier::spinoff_prover]
proof fn lemma_d_j_board(cells: Seq<Space>, z: Size, rest: Seq<u8>)
    requires
        cells.len() == z.spec_numeral() * z.spec_numeral(),
        one_blank(cells),
    ensures
        d_j_board(j_board(cells, z) + rest) == Some(((cells, z), rest)),
        (j_board(cells, z) + rest)[0] == 123,
{
    lemma_pz_lits();
    let b = j_board(cells, z) + rest;
    let t1 = j_cells(cells) + (lit("],\"size\":"@) + (j_size(z) + (seq![125u8] + rest)));
    assert(b =~= lit("{\"spaces\":["@) + t1);
    lemma_dec_enc_lit(lit("{\"spaces\":["@), t1);
    let t2 = lit("],\"size\":"@) + (j_size(z) + (seq![125u8] + rest));
    assert(t2[0] == 93 && t2[0] != 44 && t2[0] != 34 && t2[0] != 123);
    lemma_d_j_cells(cells, t2);
    let t3 = j_size(z) + (seq![125u8] + rest);
    lemma_dec_enc_lit(lit("],\"size\":"@), t3);
    lemma_d_j_size(z, seq![125u8] + rest);
    let t4 = seq![125u8] + rest;
    assert(t4[0] == 125);
    assert(t4.skip(1) =~= rest);
}

#[verifier::rlimit(100)]
#[verifier::spinoff_prover]
proof fn lemma_d_j_outcome(o: Outcome, rest: Seq<u8>)
    ensures
        d_j_outcome(j_outcome(o) + rest) == Some((o, rest)),
{
    lemma_pz_lits();
    let b = j_outcome(o) + rest;
    let t1 = json_num(o.elapsed as nat) + (lit(",\"moves\":"@) + (json_num(o.moves as nat) + (lit(
        ",\"player\":{\"id\":"@,
    ) + (json_num(o.player.id as nat) + (lit("}}"@) + rest)))));
    assert(b =~= lit("{\"elapsed\":"@) + t1);
    lemma_dec_enc_lit(lit("{\"elapsed\":"@), t1);
    let t2 = lit(",\"moves\":"@) + (json_num(o.moves as nat) + (lit(",\"player\":{\"id\":"@) + (
    json_num(o.player.id as nat) + (lit("}}"@) + rest))));
    assert(t2[0] == 44 && !is_digit(t2[0]));
    lemma_dec_enc_num(o.elapsed, t2);
    let t3 = json_num(o.moves as nat) + (lit(",\"player\":{\"id\":"@) + (json_num(
        o.player.id as nat,
    ) + (lit("}}"@) + rest)));
    lemma_dec_enc_lit(lit(",\"moves\":"@), t3);
    let t4 = lit(",\"player\":{\"id\":"@) + (json_num(o.player.id as nat) + (lit("}}"@) + rest));
    assert(t4[0] == 44 && !is_digit(t4[0]));
    lemma_dec_enc_num(o.moves, t4);
    let t5 = json_num(o.player.id as nat) + (lit("}}"@) + rest);
    lemma_dec_enc_lit(lit(",\"player\":{\"id\":"@), t5);
    let t6 = lit("}}"@) + rest;
    assert(t6[0] == 125 && !is_digit(t6[0]));
    lemma_dec_enc_num(o.player.id, t6);
    lemma_dec_enc_lit(lit("}}"@), rest);
}

proof fn lemma_d_j_state_awaiting(inviter: u64, rest: Seq<u8>)
    ensures
        d_j_state(j_state(StateModel::Awaiting(inviter)) + rest) == Some((
            StateModel::Awaiting(inviter),
            rest,
        )),
{
    crate::tictactoe::serial::lemma_state_lits();
    lemma_pz_lits();
    let sm = StateModel::Awaiting(inviter);
    let b = j_state(sm) + rest;
    let ka = lit("{\"AwaitingApproval\":{\"inviter\":"@);
    let t1 = json_num(inviter as nat) + (lit("}}"@) + rest);
    assert(b =~= ka + t1);
    lemma_dec_enc_lit(ka, t1);
    let t2 = lit("}}"@) + rest;
    assert(t2[0] == 125 && !is_digit(t2[0]));
    lemma_dec_enc_num(inviter, t2);
    lemma_dec_enc_lit(lit("}}"@), rest);
}

#[verifier::spinoff_prover]
proof fn lemma_d_j_state_playing(cells: Seq<Space>, z: Size, rest: Seq<u8>)
    requires
        cells.len() == z.spec_numeral() * z.spec_numeral(),
        one_blank(cells),
    ensures
        d_j_state(j_state(StateModel::Playing(cells, z)) + rest) == Some((
            StateModel::Playing(cells, z),
            rest,
        )),
{
    crate::tictactoe::serial::lemma_state_lits();
    let sm = StateModel::Playing(cells, z);
    let b = j_state(sm) + rest;
    let ki = lit("{\"InProgress\":{\"board\":"@);
    let t1 = j_board(cells, z) + (lit("}}"@) + rest);
    assert(b =~= ki + t1);
    assert(b[2] == ki[2]);
    reveal_strlit("{\"AwaitingApproval\":{\"inviter\":");
    reveal_strlit("{\"InProgress\":{\"board\":");
    lemma_lit_not_prefix2("{\"AwaitingApproval\":{\"inviter\":"@, b);
    lemma_dec_enc_lit(ki, t1);
    lemma_d_j_board(cells, z, lit("}}"@) + rest);
    lemma_dec_enc_lit(lit("}}"@), rest);
}

#[verifier::rlimit(100)]
#[verifier::spinoff_prover]
proof fn lemma_d_j_state_done(o: Outcome, cells: Seq<Space>, z: Size, rest: Seq<u8>)
    requires
        cells.len() == z.spec_numeral() * z.spec_numeral(),
        one_blank(cells),
    ensures
        d_j_state(j_state(StateModel::Done(o, cells, z)) + rest) == Some((
            StateModel::Done(o, cells, z),
            rest,
        )),
{
    crate::tictactoe::serial::lemma_state_lits();
    lemma_pz_lits();
    let sm = StateModel::Done(o, cells, z);
    let b = j_state(sm) + rest;
    let kf = lit("{\"Finished\":{\"winner\":"@);
    let t1 = j_outcome(o) + (lit(",\"board\":"@) + (j_board(cells, z) + (lit("}}"@) + rest)));
    assert(b =~= kf + t1);
    assert(b[2] == kf[2]);
    reveal_strlit("{\"AwaitingApproval\":{\"inviter\":");
    reveal_strlit("{\"InProgress\":{\"board\":");
    reveal_strlit("{\"Finished\":{\"winner\":");
    lemma_lit_not_prefix2("{\"AwaitingApproval\":{\"inviter\":"@, b);
    lemma_lit_not_prefix2("{\"InProgress\":{\"board\":"@, b);
    lemma_dec_enc_lit(kf, t1);
    lemma_d_j_outcome(o, lit(",\"board\":"@) + (j_board(cells, z) + (lit("}}"@) + rest)));
    lemma_dec_enc_lit(lit(",\"board\":"@), j_board(cells, z) + (lit("}}"@) + rest));
    lemma_d_j_board(cells, z, lit("}}"@) + rest);
    lemma_dec_enc_lit(lit("}}"@), rest);
}

proof fn lemma_d_j_state(sm: StateModel, rest: Seq<u8>)
    requires
        match sm {
            StateModel::Awaiting(_) => true,
            StateModel::Playing(cells, z) => cells.len() == z.spec_numeral() * z.spec_numeral()
                && one_blank(cells),
            StateModel::Done(_, cells, z) => cells.len() == z.spec_numeral() * z.spec_numeral()
                && one_blank(cells),
        },
    ensures
        d_j_state(j_state(sm) + rest) == Some((sm, rest)),
{
    match sm {
        StateModel::Awaiting(inviter) => lemma_d_j_state_awaiting(inviter, rest),
        StateModel::Playing(cells, z) => lemma_d_j_state_playing(cells, z, rest),
        StateModel::Done(o, cells, z) => lemma_d_j_state_done(o, cells, z, rest),
    }
}

#[verifier::rlimit(100)]
#[verifier::spinoff_prover]
proof fn lemma_d_j_game_rest(m: GameModel)
    requires
        wf_model(m),
    ensures
        d_j_game_rest(m.player, m.state, j_game_tail(m)) == Some(m),
{
    lemma_pz_lits();
    let l3 = lit(",\"start_time\":"@);
    let l4 = lit(",\"moves\":"@);
    let l5 = lit(",\"difficulty\":"@);
    let l6 = lit(",\"size\":"@);
    let tail = j_game_tail(m);
    let t5 = j_start(m.start_time) + (l4 + (json_num(m.moves as nat) + (l5 + (j_difficulty(
        m.difficulty,
    ) + (l6 + (j_size(m.size) + seq![125u8]))))));
    assert(tail =~= l3 + t5);
    lemma_dec_enc_lit(l3, t5);
    let t6 = l4 + (json_num(m.moves as nat) + (l5 + (j_difficulty(m.difficulty) + (l6 + (j_size(
        m.size,
    ) + seq![125u8])))));
    assert(t6[0] == 44 && !is_digit(t6[0]));
    match m.start_time {
        None => {
            reveal_strlit("null");
            lemma_dec_enc_lit(lit("null"@), t6);
        },
        Some(v) => {
            reveal_strlit("null");
            crate::json::lemma_json_num_shape(v as nat);
            assert(t5[0] == json_num(v as nat)[0]);
            assert(is_digit(t5[0]));
            assert(t5[0] != 110);
            lemma_lit_not_prefix0("null"@, t5);
            lemma_dec_enc_num(v, t6);
        },
    }
    let t7 = json_num(m.moves as nat) + (l5 + (j_difficulty(m.difficulty) + (l6 + (j_size(m.size)
        + seq![125u8]))));
    lemma_dec_enc_lit(l4, t7);
    let t8 = l5 + (j_difficulty(m.difficulty) + (l6 + (j_size(m.size) + seq![125u8])));
    assert(t8[0] == 44 && !is_digit(t8[0]));
    lemma_dec_enc_num(m.moves, t8);
    let t9 = j_difficulty(m.difficulty) + (l6 + (j_size(m.size) + seq![125u8]));
    lemma_dec_enc_lit(l5, t9);
    lemma_d_j_difficulty(m.difficulty, l6 + (j_size(m.size) + seq![125u8]));
    let t10 = j_size(m.size) + seq![125u8];
    lemma_dec_enc_lit(l6, t10);
    lemma_d_j_size(m.size, seq![125u8]);
    let t11 = seq![125u8];
    assert(t11.len() == 1 && t11[0] == 125);
}

/// Parsing a legacy payload made from a well-formed model yields the model.
#[verifier::rlimit(100)]
#[verifier::spinoff_prover]
pub proof fn lemma_d_j_game(m: GameModel)
    requires
        wf_model(m),
    ensures
        d_j_game(j_game(m)) == Some(m),
{
    reveal_strlit("},\"gamestate\":");
    lemma_lit_head1("},\"gamestate\":"@);
    let b = j_game(m);
    let l1 = lit("{\"player\":{\"id\":"@);
    let l2 = lit("},\"gamestate\":"@);
    let tail = j_game_tail(m);
    let t1 = json_num(m.player as nat) + (l2 + (j_state(m.state) + tail));
    assert(b =~= l1 + t1);
    lemma_dec_enc_lit(l1, t1);
    let t2 = l2 + (j_state(m.state) + tail);
    assert(t2[0] == 125 && !is_digit(t2[0]));
    lemma_dec_enc_num(m.player, t2);
    let t3 = j_state(m.state) + tail;
    lemma_dec_enc_lit(l2, t3);
    lemma_d_j_game_mid(m);
}

/// The phase and everything after it parse back from their encodings.
#[verifier::rlimit(100)]
#[verifier::spinoff_prover]
proof fn lemma_d_j_game_mid(m: GameModel)
    requires
        wf_model(m),
    ensures
        d_j_state(j_state(m.state) + j_game_tail(m)) == Some((m.state, j_game_tail(m))),
        d_j_game_rest(m.player, m.state, j_game_tail(m)) == Some(m),
{
    let tail = j_game_tail(m);
    lemma_d_j_state(m.state, tail);
    lemma_d_j_game_rest(m);
}

// ---------------------------------------------------------------------------
// exec encoding and parsing for the binary record
// ---------------------------------------------------------------------------

fn write_space(out: &mut Vec<u8>, s: Space)
    ensures
        final(out)@ == old(out)@ + enc_space(s),
{
    match s {
        Space::Empty => write_byte(out, 0),
        Space::Value(v) => {
            write_byte(out, 1);
            write_byte(out, v);
            proof {
                assert(out@ =~= old(out)@ + enc_space(s));
            }
        },
    }
}

fn write_board(out: &mut Vec<u8>, b: &Board)
    requires
        b.wf(),
    ensures
        final(out)@ == old(out)@ + enc_board(b.spaces@, b.size),
{
    let ghost base = out@;
    match b.size {
        Size::Three => write_byte(out, 0),
        Size::Four => write_byte(out, 1),
        Size::Five => write_byte(out, 2),
    }
    proof {
        assert(out@ =~= base + enc_size(b.size));
        assert(b.spaces@.take(0) =~= Seq::<Space>::empty());
    }
    let mut i: usize = 0;
    while i < b.spaces.len()
        invariant
            b.wf(),
            i <= b.spaces@.len(),
            out@ == base + enc_size(b.size) + enc_list(b.spaces@.take(i as int), space_e()),
        decreases b.spaces@.len() - i,
    {
        write_space(out, b.spaces[i]);
        proof {
            lemma_enc_list_snoc(b.spaces@.take(i as int), b.spaces@[i as int], space_e());
            assert(b.spaces@.take(i as int + 1) =~= b.spaces@.take(i as int).push(
                b.spaces@[i as int],
            ));
        }
        i = i + 1;
    }
    proof {
        assert(b.spaces@.take(b.spaces@.len() as int) =~= b.spaces@);
        assert(out@ =~= base + enc_board(b.spaces@, b.size));
    }
}

fn write_state(out: &mut Vec<u8>, s: &State)
    requires
        match s {
            State::AwaitingApproval(_) => true,
            State::InProgress(ip) => ip.board.wf(),
            State::Finished(w) => w.board.wf(),
        },
    ensures
        final(out)@ == old(out)@ + enc_state(state_model(s)),
{
    match s {
        State::AwaitingApproval(a) => {
            write_byte(out, 0);
            write_u64(out, a.inviter);
            proof {
                assert(out@ =~= old(out)@ + enc_state(state_model(s)));
            }
        },
        State::InProgress(ip) => {
            write_byte(out, 1);
            write_board(out, &ip.board);
            proof {
                assert(out@ =~= old(out)@ + enc_state(state_model(s)));
            }
        },
        State::Finished(w) => {
            write_byte(out, 2);
            write_u64(out, w.winner.elapsed);
            write_u64(out, w.winner.moves);
            write_u64(out, w.winner.player.id);
            write_board(out, &w.board);
            proof {
                assert(out@ =~= old(out)@ + enc_state(state_model(s)));
            }
        },
    }
}

/// Write the binary payload of a game.
pub fn game_to_bytes(g: &Game) -> (out: Vec<u8>)
    requires
        g.wf(),
    ensures
        out@ == enc_model(model(g)),
{
    let mut out: Vec<u8> = Vec::new();
    write_byte(&mut out, 1);
    write_u64(&mut out, g.player.id);
    write_state(&mut out, &g.gamestate);
    match g.start_time {
        None => write_byte(&mut out, 0),
        Some(t) => {
            write_byte(&mut out, 1);
            write_u64(&mut out, t);
        },
    }
    write_u64(&mut out, g.moves);
    write_byte(&mut out, g.difficulty.code());
    write_byte(&mut out, g.size.code());
    proof {
        assert(out@ =~= enc_model(model(g)));
    }
    out
}

fn read_space(b: &Vec<u8>, pos: usize) -> (r: Option<(Space, usize)>)
    requires
        pos <= b@.len(),
    ensures
        match r {
            Some(vp) => {
                &&& pos < vp.1 <= b@.len()
                &&& dec_space(b@.skip(pos as int)) == Some((vp.0, b@.skip(vp.1 as int)))
            },
            None => dec_space(b@.skip(pos as int)) is None,
        },
{
    match read_byte(b, pos) {
        None => None,
        Some((t, p1)) => {
            if t == 0 {
                Some((Space::Empty, p1))
            } else if t == 1 {
                match read_byte(b, p1) {
                    None => None,
                    Some((v, p2)) => Some((Space::Value(v), p2)),
                }
            } else {
                None
            }
        },
    }
}

fn read_board(b: &Vec<u8>, pos: usize) -> (r: Option<(Board, usize)>)
    requires
        pos <= b@.len(),
    ensures
        match r {
            Some(vp) => {
                &&& pos < vp.1 <= b@.len()
                &&& vp.0.wf()
                &&& dec_board(b@.skip(pos as int)) == Some(
                    ((vp.0.spaces@, vp.0.size), b@.skip(vp.1 as int)),
                )
            },
            None => dec_board(b@.skip(pos as int)) is None,
        },
{
    let (z, p1) = match read_byte(b, pos) {
        None => {
            return None;
        },
        Some((t, p)) => {
            if t == 0 {
                (Size::Three, p)
            } else if t == 1 {
                (Size::Four, p)
            } else if t == 2 {
                (Size::Five, p)
            } else {
                return None;
            }
        },
    };
    let n = z.numeral();
    let total = n * n;
    let mut cells: Vec<Space> = Vec::new();
    let mut p = p1;
    let mut i: usize = 0;
    proof {
        assert(cells@ =~= Seq::<Space>::empty());
        assert(dec_size(b@.skip(pos as int)) == Some((z, b@.skip(p1 as int))));
    }
    while i < total
        invariant
            i <= total,
            total == z.spec_numeral() * z.spec_numeral(),
            pos < p1 <= b@.len(),
            p1 <= p <= b@.len(),
            cells@.len() == i,
            dec_size(b@.skip(pos as int)) == Some((z, b@.skip(p1 as int))),
            dec_list(b@.skip(p1 as int), total as nat, space_d()) == (match dec_list(
                b@.skip(p as int),
                (total - i) as nat,
                space_d(),
            ) {
                Some((vs, rr)) => Some((cells@ + vs, rr)),
                None => None::<(Seq<Space>, Seq<u8>)>,
            }),
        decreases total - i,
    {
        match read_space(b, p) {
            None => {
                return None;
            },
            Some((sp, p2)) => {
                let ghost prev = cells@;
                cells.push(sp);
                proof {
                    assert(cells@ =~= prev.push(sp));
                    if dec_list(b@.skip(p2 as int), (total - i - 1) as nat, space_d()) is Some {
                        let (vs, rr) = dec_list(
                            b@.skip(p2 as int),
                            (total - i - 1) as nat,
                            space_d(),
                        )->Some_0;
                        assert(prev + (seq![sp] + vs) =~= (prev.push(sp)) + vs);
                    }
                }
                p = p2;
                i = i + 1;
            },
        }
    }
    proof {
        assert(cells@ + Seq::<Space>::empty() =~= cells@);
    }
    // exactly one blank
    let mut first: usize = 0;
    let mut found = false;
    let mut k: usize = 0;
    let ghost cl = cells@;
    while k < cells.len()
        invariant
            k <= cl.len(),
            cl == cells@,
            pos < p1 <= b@.len(),
            p1 <= p <= b@.len(),
            total == z.spec_numeral() * z.spec_numeral(),
            dec_size(b@.skip(pos as int)) == Some((z, b@.skip(p1 as int))),
            dec_list(b@.skip(p1 as int), total as nat, space_d()) == Some((cl, b@.skip(p as int))),
            !found ==> forall|j: int| 0 <= j < k ==> cl[j] != Space::Empty,
            found ==> first < k && cl[first as int] == Space::Empty && (forall|j: int|
                0 <= j < k && j != first ==> cl[j] != Space::Empty),
        decreases cl.len() - k,
    {
        if cells[k] == Space::Empty {
            if found {
                proof {
                    assert(cl[first as int] == Space::Empty && cl[k as int] == Space::Empty
                        && first != k);
                }
                return None;
            }
            first = k;
            found = true;
        }
        k = k + 1;
    }
    if !found {
        return None;
    }
    proof {
        assert(one_blank(cl));
    }
    let board = Board { spaces: cells, size: z };
    Some((board, p))
}

fn read_state(b: &Vec<u8>, pos: usize) -> (r: Option<(State, usize)>)
    requires
        pos <= b@.len(),
    ensures
        match r {
            Some(vp) => {
                &&& pos < vp.1 <= b@.len()
                &&& dec_state(b@.skip(pos as int)) == Some(
                    (state_model(&vp.0), b@.skip(vp.1 as int)),
                )
                &&& match vp.0 {
                    State::AwaitingApproval(_) => true,
                    State::InProgress(ip) => ip.board.wf(),
                    State::Finished(w) => w.board.wf(),
                }
            },
            None => dec_state(b@.skip(pos as int)) is None,
        },
{
    match read_byte(b, pos) {
        None => None,
        Some((t, p1)) => {
            if t == 0 {
                match read_u64(b, p1) {
                    None => None,
                    Some((inviter, p2)) => Some(
                        (State::AwaitingApproval(Awaiting { inviter }), p2),
                    ),
                }
            } else if t == 1 {
                match read_board(b, p1) {
                    None => None,
                    Some((board, p2)) => Some((State::InProgress(InProgress { board }), p2)),
                }
            } else if t == 2 {
                let (elapsed, pa) = match read_u64(b, p1) {
                    None => {
                        return None;
                    },
                    Some(v) => v,
                };
                let (moves, pb) = match read_u64(b, pa) {
                    None => {
                        return None;
                    },
                    Some(v) => v,
                };
                let (pid, pc) = match read_u64(b, pb) {
                    None => {
                        return None;
                    },
                    Some(v) => v,
                };
                match read_board(b, pc) {
                    None => None,
                    Some((board, p2)) => Some(
                        (
                            State::Finished(
                                WonGame {
                                    winner: Outcome { elapsed, moves, player: Player { id: pid } },
                                    board,
                                },
                            ),
                            p2,
                        ),
                    ),
                }
            } else {
                None
            }
        },
    }
}

/// Parse a whole binary payload into a game.
pub fn game_of_bytes(b: &Vec<u8>) -> (r: Option<Game>)
    ensures
        match r {
            Some(g) => {
                &&& g.wf()
                &&& dec_game(b@) == Some(model(&g))
            },
            None => dec_game(b@) is None,
        },
{
    let blen = b.len();
    if blen < 1 || b[0] != 1 {
        return None;
    }
    let (player, p1) = match read_u64(b, 1) {
        None => {
            return None;
        },
        Some(v) => v,
    };
    let (st, p2) = match read_state(b, p1) {
        None => {
            return None;
        },
        Some(v) => v,
    };
    let (start_time, p3) = match read_byte(b, p2) {
        None => {
            return None;
        },
        Some((t, pa)) => {
            if t == 0 {
                (None, pa)
            } else if t == 1 {
                match read_u64(b, pa) {
                    None => {
                        return None;
                    },
                    Some((v, pb)) => (Some(v), pb),
                }
            } else {
                return None;
            }
        },
    };
    proof {
        assert(dec_opt(b@.skip(p2 as int)) == Some((start_time, b@.skip(p3 as int))));
    }
    let (moves, p4) = match read_u64(b, p3) {
        None => {
            return None;
        },
        Some(v) => v,
    };
    let (dd, p5) = match read_byte(b, p4) {
        None => {
            return None;
        },
        Some((t, pa)) => {
            if t == 0 {
                (Difficulty::Easy, pa)
            } else if t == 1 {
                (Difficulty::Medium, pa)
            } else if t == 2 {
                (Difficulty::Hard, pa)
            } else {
                return None;
            }
        },
    };
    let (zz, p6) = match read_byte(b, p5) {
        None => {
            return None;
        },
        Some((t, pa)) => {
            if t == 0 {
                (Size::Three, pa)
            } else if t == 1 {
                (Size::Four, pa)
            } else if t == 2 {
                (Size::Five, pa)
            } else {
                return None;
            }
        },
    };
    if p6 != blen {
        proof {
            assert(b@.skip(p6 as int).len() != 0);
        }
        return None;
    }
    proof {
        assert(b@.skip(p6 as int).len() == 0);
    }
    let g = Game {
        player: Player { id: player },
        gamestate: st,
        start_time,
        moves,
        difficulty: dd,
        size: zz,
    };
    Some(g)
}

// ---------------------------------------------------------------------------
// exec encoding and parsing for the legacy record
// ---------------------------------------------------------------------------

proof fn lemma_j_cells_tail_snoc(s: Seq<Space>, x: Space)
    ensures
        j_cells_tail(s.push(x)) =~= j_cells_tail(s) + (seq![44u8] + j_space(x)),
    decreases s.len(),
{
    if s.len() == 0 {
        assert(s.push(x).drop_first() =~= Seq::<Space>::empty());
        assert(s.push(x)[0] == x);
        assert(j_cells_tail(Seq::<Space>::empty()) =~= Seq::<u8>::empty());
    } else {
        lemma_j_cells_tail_snoc(s.drop_first(), x);
        assert(s.push(x).drop_first() =~= s.drop_first().push(x));
        assert(s.push(x)[0] == s[0]);
        assert(seq![44u8] + j_space(s[0]) + (j_cells_tail(s.drop_first()) + (seq![44u8] + j_space(
            x,
        ))) =~= (seq![44u8] + j_space(s[0]) + j_cells_tail(s.drop_first())) + (seq![44u8] + j_space(
            x,
        )));
    }
}

fn jw_space(out: &mut Vec<u8>, s: Space)
    ensures
        final(out)@ == old(out)@ + j_space(s),
{
    match s {
        Space::Empty => write_lit(out, "\"Empty\""),
        Space::Value(v) => {
            write_lit(out, "{\"Value\":");
            write_num(out, v as u64);
            out.push(125);
            proof {
                assert(out@ =~= old(out)@ + j_space(s));
            }
        },
    }
}

fn jw_size(out: &mut Vec<u8>, z: Size)
    ensures
        final(out)@ == old(out)@ + j_size(z),
{
    match z {
        Size::Three => write_lit(out, "\"Three\""),
        Size::Four => write_lit(out, "\"Four\""),
        Size::Five => write_lit(out, "\"Five\""),
    }
}

fn jw_difficulty(out: &mut Vec<u8>, d: Difficulty)
    ensures
        final(out)@ == old(out)@ + j_difficulty(d),
{
    match d {
        Difficulty::Easy => write_lit(out, "\"Easy\""),
        Difficulty::Medium => write_lit(out, "\"Medium\""),
        Difficulty::Hard => write_lit(out, "\"Hard\""),
    }
}

#[verifier::rlimit(60)]
fn jw_board(out: &mut Vec<u8>, b: &Board)
    requires
        b.wf(),
    ensures
        final(out)@ == old(out)@ + j_board(b.spaces@, b.size),
{
    let ghost base = out@;
    write_lit(out, "{\"spaces\":[");
    let ghost base2 = out@;
    let cells = &b.spaces;
    proof {
        vstd::arithmetic::mul::lemma_mul_strictly_positive(
            b.size.spec_numeral(),
            b.size.spec_numeral(),
        );
    }
    jw_space(out, cells[0]);
    proof {
        assert(cells@.take(1).drop_first() =~= Seq::<Space>::empty());
        assert(out@ =~= base2 + j_space(cells@[0]) + j_cells_tail(cells@.take(1).drop_first()));
    }
    let mut i: usize = 1;
    while i < cells.len()
        invariant
            1 <= i <= cells@.len(),
            cells@ == b.spaces@,
            out@ == base2 + j_space(cells@[0]) + j_cells_tail(cells@.take(i as int).drop_first()),
        decreases cells@.len() - i,
    {
        out.push(44);
        jw_space(out, cells[i]);
        proof {
            lemma_j_cells_tail_snoc(cells@.take(i as int).drop_first(), cells@[i as int]);
            assert(cells@.take(i as int + 1).drop_first() =~= cells@.take(
                i as int,
            ).drop_first().push(cells@[i as int]));
            assert(out@ =~= base2 + j_space(cells@[0]) + j_cells_tail(
                cells@.take(i as int + 1).drop_first(),
            ));
        }
        i = i + 1;
    }
    proof {
        assert(cells@.take(cells@.len() as int) =~= cells@);
        assert(out@ =~= base2 + j_cells(cells@));
    }
    write_lit(out, "],\"size\":");
    jw_size(out, b.size);
    out.push(125);
    proof {
        assert(out@ =~= base + j_board(b.spaces@, b.size));
    }
}

fn jw_outcome(out: &mut Vec<u8>, o: &Outcome)
    ensures
        final(out)@ == old(out)@ + j_outcome(*o),
{
    write_lit(out, "{\"elapsed\":");
    write_num(out, o.elapsed);
    write_lit(out, ",\"moves\":");
    write_num(out, o.moves);
    write_lit(out, ",\"player\":{\"id\":");
    write_num(out, o.player.id);
    write_lit(out, "}}");
    proof {
        assert(out@ =~= old(out)@ + j_outcome(*o));
    }
}

fn jw_state(out: &mut Vec<u8>, s: &State)
    requires
        match s {
            State::AwaitingApproval(_) => true,
            State::InProgress(ip) => ip.board.wf(),
            State::Finished(w) => w.board.wf(),
        },
    ensures
        final(out)@ == old(out)@ + j_state(state_model(s)),
{
    match s {
        State::AwaitingApproval(a) => {
            write_lit(out, "{\"AwaitingApproval\":{\"inviter\":");
            write_num(out, a.inviter);
            write_lit(out, "}}");
            proof {
                assert(out@ =~= old(out)@ + j_state(state_model(s)));
            }
        },
        State::InProgress(ip) => {
            write_lit(out, "{\"InProgress\":{\"board\":");
            jw_board(out, &ip.board);
            write_lit(out, "}}");
            proof {
                assert(out@ =~= old(out)@ + j_state(state_model(s)));
            }
        },
        State::Finished(w) => {
            write_lit(out, "{\"Finished\":{\"winner\":");
            jw_outcome(out, &w.winner);
            write_lit(out, ",\"board\":");
            jw_board(out, &w.board);
            write_lit(out, "}}");
            proof {
                assert(out@ =~= old(out)@ + j_state(state_model(s)));
            }
        },
    }
}

#[verifier::rlimit(100)]
#[verifier::spinoff_prover]
fn jw_tail(out: &mut Vec<u8>, g: &Game)
    ensures
        final(out)@ == old(out)@ + j_game_tail(model(g)),
{
    let ghost m = model(g);
    write_lit(out, ",\"start_time\":");
    match g.start_time {
        None => write_lit(out, "null"),
        Some(t) => write_num(out, t),
    }
    proof {
        assert(out@ =~= old(out)@ + (lit(",\"start_time\":"@) + j_start(m.start_time)));
    }
    let ghost a1 = out@;
    write_lit(out, ",\"moves\":");
    write_num(out, g.moves);
    proof {
        assert(out@ =~= a1 + (lit(",\"moves\":"@) + json_num(m.moves as nat)));
    }
    let ghost a2 = out@;
    write_lit(out, ",\"difficulty\":");
    jw_difficulty(out, g.difficulty);
    proof {
        assert(out@ =~= a2 + (lit(",\"difficulty\":"@) + j_difficulty(m.difficulty)));
    }
    let ghost a3 = out@;
    write_lit(out, ",\"size\":");
    jw_size(out, g.size);
    out.push(125);
    proof {
        assert(out@ =~= a3 + (lit(",\"size\":"@) + (j_size(m.size) + seq![125u8])));
        assert(out@ =~= old(out)@ + j_game_tail(m));
    }
}

/// Write the legacy JSON payload of a game.
pub fn game_to_json(g: &Game) -> (out: Vec<u8>)
    requires
        g.wf(),
    ensures
        out@ == j_game(model(g)),
{
    let ghost m = model(g);
    let mut out: Vec<u8> = Vec::new();
    write_lit(&mut out, "{\"player\":{\"id\":");
    write_num(&mut out, g.player.id);
    write_lit(&mut out, "},\"gamestate\":");
    jw_state(&mut out, &g.gamestate);
    jw_tail(&mut out, g);
    proof {
        assert(out@ =~= j_game(m));
    }
    out
}

fn jr_space(b: &Vec<u8>, pos: usize) -> (r: Option<(Space, usize)>)
    requires
        pos <= b@.len(),
    ensures
        match r {
            Some(vp) => {
                &&& pos < vp.1 <= b@.len()
                &&& d_j_space(b@.skip(pos as int)) == Some((vp.0, b@.skip(vp.1 as int)))
            },
            None => d_j_space(b@.skip(pos as int)) is None,
        },
{
    if let Some(p) = expect(b, pos, "\"Empty\"") {
        proof {
            reveal_strlit("\"Empty\"");
            lemma_lit_head1("\"Empty\""@);
        }
        return Some((Space::Empty, p));
    }
    let p1 = match expect(b, pos, "{\"Value\":") {
        Some(p) => p,
        None => {
            return None;
        },
    };
    let (v, p2) = match read_num(b, p1) {
        Some(v) => v,
        None => {
            return None;
        },
    };
    if v > 255 {
        return None;
    }
    if p2 < b.len() && b[p2] == 125 {
        proof {
            assert(b@.skip(p2 as int)[0] == 125);
            assert(b@.skip(p2 as int).skip(1) =~= b@.skip(p2 as int + 1));
        }
        Some((Space::Value(v as u8), p2 + 1))
    } else {
        proof {
            if p2 < b@.len() {
                assert(b@.skip(p2 as int)[0] == b@[p2 as int]);
            }
        }
        None
    }
}

fn jr_size(b: &Vec<u8>, pos: usize) -> (r: Option<(Size, usize)>)
    requires
        pos <= b@.len(),
    ensures
        match r {
            Some(vp) => {
                &&& pos < vp.1 <= b@.len()
                &&& d_j_size(b@.skip(pos as int)) == Some((vp.0, b@.skip(vp.1 as int)))
            },
            None => d_j_size(b@.skip(pos as int)) is None,
        },
{
    proof {
        lemma_pz_lits();
    }
    if let Some(p) = expect(b, pos, "\"Three\"") {
        return Some((Size::Three, p));
    }
    if let Some(p) = expect(b, pos, "\"Four\"") {
        return Some((Size::Four, p));
    }
    if let Some(p) = expect(b, pos, "\"Five\"") {
        return Some((Size::Five, p));
    }
    None
}

fn jr_difficulty(b: &Vec<u8>, pos: usize) -> (r: Option<(Difficulty, usize)>)
    requires
        pos <= b@.len(),
    ensures
        match r {
            Some(vp) => {
                &&& pos < vp.1 <= b@.len()
                &&& d_j_difficulty(b@.skip(pos as int)) == Some((vp.0, b@.skip(vp.1 as int)))
            },
            None => d_j_difficulty(b@.skip(pos as int)) is None,
        },
{
    proof {
        lemma_pz_lits();
    }
    if let Some(p) = expect(b, pos, "\"Easy\"") {
        return Some((Difficulty::Easy, p));
    }
    if let Some(p) = expect(b, pos, "\"Medium\"") {
        return Some((Difficulty::Medium, p));
    }
    if let Some(p) = expect(b, pos, "\"Hard\"") {
        return Some((Difficulty::Hard, p));
    }
    None
}

#[verifier::rlimit(100)]
#[verifier::spinoff_prover]
fn jr_board(b: &Vec<u8>, pos: usize) -> (r: Option<(Board, usize)>)
    requires
        pos <= b@.len(),
    ensures
        match r {
            Some(vp) => {
                &&& pos < vp.1 <= b@.len()
                &&& vp.0.wf()
                &&& d_j_board(b@.skip(pos as int)) == Some(
                    ((vp.0.spaces@, vp.0.size), b@.skip(vp.1 as int)),
                )
            },
            None => d_j_board(b@.skip(pos as int)) is None,
        },
{
    let blen = b.len();
    let p0 = match expect(b, pos, "{\"spaces\":[") {
        Some(p) => p,
        None => {
            return None;
        },
    };
    // the cells, comma separated
    let mut cells: Vec<Space> = Vec::new();
    let mut p = p0;
    if p < blen && (b[p] == 34 || b[p] == 123) {
        proof {
            assert(b@.skip(p as int)[0] == b@[p as int]);
        }
        let (s0, pa) = match jr_space(b, p) {
            Some(v) => v,
            None => {
                return None;
            },
        };
        cells.push(s0);
        p = pa;
        proof {
            assert(cells@ =~= seq![s0]);
        }
        while p < blen && b[p] == 44
            invariant
                b@.len() <= usize::MAX,
                blen == b@.len(),
                pos <= b@.len(),
                p0 < p <= b@.len(),
                cells@.len() >= 1,
                dec_lit(b@.skip(pos as int), lit("{\"spaces\":["@)) == Some(b@.skip(p0 as int)),
                d_j_cells(b@.skip(p0 as int)) == (match d_j_cells_more(b@.skip(p as int)) {
                    Some((ss, rr)) => Some((cells@ + ss, rr)),
                    None => None::<(Seq<Space>, Seq<u8>)>,
                }),
            decreases b@.len() - p,
        {
            proof {
                assert(b@.skip(p as int)[0] == 44);
                assert(b@.skip(p as int).skip(1) =~= b@.skip(p as int + 1));
            }
            let (sp, pb) = match jr_space(b, p + 1) {
                Some(v) => v,
                None => {
                    return None;
                },
            };
            let ghost prev = cells@;
            cells.push(sp);
            proof {
                assert(cells@ =~= prev.push(sp));
                if d_j_cells_more(b@.skip(pb as int)) is Some {
                    let (ss, rr) = d_j_cells_more(b@.skip(pb as int))->Some_0;
                    assert(prev + (seq![sp] + ss) =~= prev.push(sp) + ss);
                }
            }
            p = pb;
        }
        proof {
            if p < b@.len() {
                assert(b@.skip(p as int)[0] == b@[p as int]);
            }
            assert(cells@ + Seq::<Space>::empty() =~= cells@);
            assert(d_j_cells(b@.skip(p0 as int)) == Some((cells@, b@.skip(p as int))));
        }
    } else {
        proof {
            if p < b@.len() {
                assert(b@.skip(p as int)[0] == b@[p as int]);
            }
            assert(cells@ =~= Seq::<Space>::empty());
            assert(d_j_cells(b@.skip(p0 as int)) == Some((cells@, b@.skip(p as int))));
        }
    }
    proof {
        assert(d_j_cells(b@.skip(p0 as int)) == Some((cells@, b@.skip(p as int))));
    }
    let p1 = match expect(b, p, "],\"size\":") {
        Some(v) => v,
        None => {
            return None;
        },
    };
    let (z, p2) = match jr_size(b, p1) {
        Some(v) => v,
        None => {
            return None;
        },
    };
    if !(p2 < blen && b[p2] == 125) {
        proof {
            if p2 < b@.len() {
                assert(b@.skip(p2 as int)[0] == b@[p2 as int]);
            }
        }
        return None;
    }
    proof {
        assert(b@.skip(p2 as int)[0] == 125);
        assert(b@.skip(p2 as int).skip(1) =~= b@.skip(p2 as int + 1));
    }
    let n = z.numeral();
    proof {
        assert(n * n <= 25) by (nonlinear_arith)
            requires
                n <= 5,
        ;
    }
    if cells.len() != n * n {
        return None;
    }
    // exactly one blank
    let mut first: usize = 0;
    let mut found = false;
    let mut k: usize = 0;
    let ghost cl = cells@;
    while k < cells.len()
        invariant
            k <= cl.len(),
            cl == cells@,
            pos <= b@.len(),
            p2 < b@.len(),
            dec_lit(b@.skip(pos as int), lit("{\"spaces\":["@)) == Some(b@.skip(p0 as int)),
            d_j_cells(b@.skip(p0 as int)) == Some((cl, b@.skip(p as int))),
            dec_lit(b@.skip(p as int), lit("],\"size\":"@)) == Some(b@.skip(p1 as int)),
            d_j_size(b@.skip(p1 as int)) == Some((z, b@.skip(p2 as int))),
            b@.skip(p2 as int)[0] == 125,
            cl.len() == z.spec_numeral() * z.spec_numeral(),
            !found ==> forall|j: int| 0 <= j < k ==> cl[j] != Space::Empty,
            found ==> first < k && cl[first as int] == Space::Empty && (forall|j: int|
                0 <= j < k && j != first ==> cl[j] != Space::Empty),
        decreases cl.len() - k,
    {
        if cells[k] == Space::Empty {
            if found {
                proof {
                    assert(cl[first as int] == Space::Empty && cl[k as int] == Space::Empty
                        && first != k);
                }
                return None;
            }
            first = k;
            found = true;
        }
        k = k + 1;
    }
    if !found {
        return None;
    }
    proof {
        assert(one_blank(cl));
        assert(b@.skip(p2 as int).skip(1) =~= b@.skip(p2 as int + 1));
    }
    let board = Board { spaces: cells, size: z };
    Some((board, p2 + 1))
}

fn jr_outcome(b: &Vec<u8>, pos: usize) -> (r: Option<(Outcome, usize)>)
    requires
        pos <= b@.len(),
    ensures
        match r {
            Some(vp) => {
                &&& pos < vp.1 <= b@.len()
                &&& d_j_outcome(b@.skip(pos as int)) == Some((vp.0, b@.skip(vp.1 as int)))
            },
            None => d_j_outcome(b@.skip(pos as int)) is None,
        },
{
    let p1 = match expect(b, pos, "{\"elapsed\":") {
        Some(p) => p,
        None => {
            return None;
        },
    };
    let (elapsed, p2) = match read_num(b, p1) {
        Some(v) => v,
        None => {
            return None;
        },
    };
    let p3 = match expect(b, p2, ",\"moves\":") {
        Some(p) => p,
        None => {
            return None;
        },
    };
    let (moves, p4) = match read_num(b, p3) {
        Some(v) => v,
        None => {
            return None;
        },
    };
    let p5 = match expect(b, p4, ",\"player\":{\"id\":") {
        Some(p) => p,
        None => {
            return None;
        },
    };
    let (pid, p6) = match read_num(b, p5) {
        Some(v) => v,
        None => {
            return None;
        },
    };
    let p7 = match expect(b, p6, "}}") {
        Some(p) => p,
        None => {
            return None;
        },
    };
    proof {
        lemma_pz_lits();
    }
    Some((Outcome { elapsed, moves, player: Player { id: pid } }, p7))
}

fn jr_state(b: &Vec<u8>, pos: usize) -> (r: Option<(State, usize)>)
    requires
        pos <= b@.len(),
    ensures
        match r {
            Some(vp) => {
                &&& pos < vp.1 <= b@.len()
                &&& d_j_state(b@.skip(pos as int)) == Some(
                    (state_model(&vp.0), b@.skip(vp.1 as int)),
                )
                &&& match vp.0 {
                    State::AwaitingApproval(_) => true,
                    State::InProgress(ip) => ip.board.wf(),
                    State::Finished(w) => w.board.wf(),
                }
            },
            None => d_j_state(b@.skip(pos as int)) is None,
        },
{
    if let Some(p1) = expect(b, pos, "{\"AwaitingApproval\":{\"inviter\":") {
        let (inviter, p2) = match read_num(b, p1) {
            Some(v) => v,
            None => {
                return None;
            },
        };
        let p3 = match expect(b, p2, "}}") {
            Some(p) => p,
            None => {
                return None;
            },
        };
        proof {
            reveal_strlit("{\"AwaitingApproval\":{\"inviter\":");
            lemma_lit_head1("{\"AwaitingApproval\":{\"inviter\":"@);
        }
        return Some((State::AwaitingApproval(Awaiting { inviter }), p3));
    }
    if let Some(p1) = expect(b, pos, "{\"InProgress\":{\"board\":") {
        let (board, p2) = match jr_board(b, p1) {
            Some(v) => v,
            None => {
                return None;
            },
        };
        let p3 = match expect(b, p2, "}}") {
            Some(p) => p,
            None => {
                return None;
            },
        };
        return Some((State::InProgress(InProgress { board }), p3));
    }
    if let Some(p1) = expect(b, pos, "{\"Finished\":{\"winner\":") {
        let (o, p2) = match jr_outcome(b, p1) {
            Some(v) => v,
            None => {
                return None;
            },
        };
        let p3 = match expect(b, p2, ",\"board\":") {
            Some(p) => p,
            None => {
                return None;
            },
        };
        let (board, p4) = match jr_board(b, p3) {
            Some(v) => v,
            None => {
                return None;
            },
        };
        let p5 = match expect(b, p4, "}}") {
            Some(p) => p,
            None => {
                return None;
            },
        };
        return Some((State::Finished(WonGame { winner: o, board }), p5));
    }
    None
}

/// Parse a whole legacy JSON payload into a game.
#[verifier::rlimit(100)]
#[verifier::spinoff_prover]
pub fn game_of_json(b: &Vec<u8>) -> (r: Option<Game>)
    ensures
        match r {
            Some(g) => {
                &&& g.wf()
                &&& d_j_game(b@) == Some(model(&g))
            },
            None => d_j_game(b@) is None,
        },
{
    let blen = b.len();
    proof {
        assert(b@.skip(0) =~= b@);
    }
    let p0 = match expect(b, 0, "{\"player\":{\"id\":") {
        Some(p) => p,
        None => {
            return None;
        },
    };
    let (player, p1) = match read_num(b, p0) {
        Some(v) => v,
        None => {
            return None;
        },
    };
    let p2 = match expect(b, p1, "},\"gamestate\":") {
        Some(p) => p,
        None => {
            return None;
        },
    };
    let (st, p3) = match jr_state(b, p2) {
        Some(v) => v,
        None => {
            return None;
        },
    };
    let p4 = match expect(b, p3, ",\"start_time\":") {
        Some(p) => p,
        None => {
            return None;
        },
    };
    let (start_time, p5) = if let Some(p) = expect(b, p4, "null") {
        (None, p)
    } else {
        match read_num(b, p4) {
            Some((v, p)) => (Some(v), p),
            None => {
                return None;
            },
        }
    };
    proof {
        assert(d_j_start(b@.skip(p4 as int)) == Some((start_time, b@.skip(p5 as int))));
    }
    let p6 = match expect(b, p5, ",\"moves\":") {
        Some(p) => p,
        None => {
            return None;
        },
    };
    let (moves, p7) = match read_num(b, p6) {
        Some(v) => v,
        None => {
            return None;
        },
    };
    let p8 = match expect(b, p7, ",\"difficulty\":") {
        Some(p) => p,
        None => {
            return None;
        },
    };
    let (dd, p9) = match jr_difficulty(b, p8) {
        Some(v) => v,
        None => {
            return None;
        },
    };
    let p10 = match expect(b, p9, ",\"size\":") {
        Some(p) => p,
        None => {
            return None;
        },
    };
    let (zz, p11) = match jr_size(b, p10) {
        Some(v) => v,
        None => {
            return None;
        },
    };
    if !(blen > 0 && p11 == blen - 1 && b[p11] == 125) {
        proof {
            if p11 < b@.len() {
                assert(b@.skip(p11 as int)[0] == b@[p11 as int]);
            }
            assert(b@.skip(p11 as int).len() == b@.len() - p11);
        }
        return None;
    }
    proof {
        assert(b@.skip(p11 as int).len() == 1);
        assert(b@.skip(p11 as int)[0] == 125);
    }
    let g = Game {
        player: Player { id: player },
        gamestate: st,
        start_time,
        moves,
        difficulty: dd,
        size: zz,
    };
    Some(g)
}

// ---------------------------------------------------------------------------
// the codec contract
// ---------------------------------------------------------------------------

impl crate::codec::TokenCodec for Game {
    open spec fn wf(&self) -> bool {
        Game::wf(self)
    }

    open spec fn same(&self, other: &Self) -> bool {
        model(self) == model(other)
    }

    open spec fn enc(&self) -> Seq<u8> {
        enc_model(model(self))
    }

    open spec fn enc_legacy(&self) -> Seq<u8> {
        j_game(model(self))
    }

    proof fn lemma_format_heads(&self) {
        assert(enc_model(model(self))[0] == 1);
        reveal_strlit("{\"player\":{\"id\":");
        lemma_lit_head1("{\"player\":{\"id\":"@);
        let m = model(self);
        assert(j_game(m)[0] == lit("{\"player\":{\"id\":"@)[0]);
    }

    fn to_bytes(&self) -> (out: Vec<u8>) {
        game_to_bytes(self)
    }

    fn to_bytes_legacy(&self) -> (out: Vec<u8>) {
        game_to_json(self)
    }

    fn of_bytes(b: &Vec<u8>) -> (r: Option<Self>) {
        let r = game_of_bytes(b);
        proof {
            match &r {
                Some(g) => {
                    lemma_dec_game_sound(b@);
                    assert forall|v: Game|
                        v.wf() && b@ == #[trigger] enc_model(model(&v)) implies model(&g) == model(
                        &v,
                    ) by {
                        lemma_model_wf(&v);
                        lemma_dec_enc_game(model(&v));
                    }
                },
                None => {
                    assert forall|v: Game|
                        v.wf() && b@ == #[trigger] enc_model(model(&v)) implies false by {
                        lemma_model_wf(&v);
                        lemma_dec_enc_game(model(&v));
                    }
                },
            }
        }
        r
    }

    fn of_legacy(b: &Vec<u8>) -> (r: Option<Self>) {
        let r = game_of_json(b);
        let out = match r {
            Some(g) => {
                // pin the payload: only the exact legacy encoding of the
                // parsed value is accepted
                let again = game_to_json(&g);
                if crate::bytes::vec_bytes_eq(&again, b) {
                    Some(g)
                } else {
                    None
                }
            },
            None => None,
        };
        proof {
            match &out {
                Some(g) => {
                    assert forall|v: Game|
                        v.wf() && b@ == #[trigger] j_game(model(&v)) implies model(&g) == model(
                        &v,
                    ) by {
                        lemma_model_wf(&v);
                        lemma_d_j_game(model(&v));
                    }
                },
                None => {
                    assert forall|v: Game|
                        v.wf() && b@ == #[trigger] j_game(model(&v)) implies false by {
                        lemma_model_wf(&v);
                        lemma_d_j_game(model(&v));
                    }
                },
            }
        }
        out
    }
}

} // verus!
