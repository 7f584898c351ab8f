//! The payload formats for a tic-tac-toe game: the current binary record
//! and the legacy JSON record that the decoder keeps readable.
//!
//! Values are compared through their *model* — the sequences and scalars a
//! game carries — which is exactly what survives a round trip through the
//! codec.

use vstd::prelude::*;

verus! {

use crate::bytes::dec_byte;
use crate::bytes::dec_list;
use crate::bytes::dec_text;
use crate::bytes::dec_u64;
use crate::bytes::enc_byte;
use crate::bytes::enc_list;
use crate::bytes::enc_text;
use crate::bytes::enc_u64;
use crate::bytes::lemma_dec_enc_byte;
use crate::bytes::lemma_dec_enc_list;
use crate::bytes::lemma_dec_enc_text;
use crate::bytes::lemma_dec_enc_u64;
use crate::bytes::lemma_enc_list_snoc;
use crate::bytes::read_byte;
use crate::bytes::read_text;
use crate::bytes::read_u64;
use crate::bytes::wf_text;
use crate::bytes::write_byte;
use crate::bytes::write_text;
use crate::bytes::write_u64;
use crate::json::dec_lit;
use crate::json::dec_num;
use crate::json::dec_str;
use crate::json::is_digit;
use crate::json::json_num;
use crate::json::json_str;
use crate::json::lemma_dec_enc_lit;
use crate::json::lemma_dec_enc_num;
use crate::json::lemma_dec_enc_str;
use crate::json::lemma_lit_head1;
use crate::json::lemma_lit_head2;
use crate::json::lemma_lit_head3;
use crate::json::lemma_lit_not_prefix0;
use crate::json::lemma_lit_not_prefix1;
use crate::json::lemma_lit_not_prefix2;
use crate::json::lemma_json_num_shape;
use crate::json::lit;
use crate::json::expect;
use crate::json::read_num;
use crate::json::read_str;
use crate::json::write_lit;
use crate::json::write_num;
use crate::json::write_str;
use crate::cycle::CycleVec;
use crate::tictactoe::Awaiting;
use crate::tictactoe::Board;
use crate::tictactoe::Game;
use crate::tictactoe::InProgress;
use crate::tictactoe::Outcome;
use crate::tictactoe::Player;
use crate::tictactoe::Space;
use crate::tictactoe::State;
use crate::tictactoe::WonGame;

// ---------------------------------------------------------------------------
// the model: what a game value carries
// ---------------------------------------------------------------------------

/// The phase, reduced to sequences and scalars.  Boards are row-major runs
/// of nine cells.
pub enum StateModel {
    Awaiting(Awaiting),
    Playing(Seq<Space>),
    Done(Outcome, Seq<Space>),
    Cancelled(Seq<char>),
}

/// Everything a game value carries.
pub struct GameModel {
    pub players: Seq<Player>,
    pub cursor: int,
    pub state: StateModel,
    pub last_time: u64,
}

pub open spec fn board_model(b: &Board) -> Seq<Space> {
    seq![
        b.at(0, 0),
        b.at(0, 1),
        b.at(0, 2),
        b.at(1, 0),
        b.at(1, 1),
        b.at(1, 2),
        b.at(2, 0),
        b.at(2, 1),
        b.at(2, 2),
    ]
}

pub open spec fn state_model(s: &State) -> StateModel {
    match s {
        State::AwaitingApproval(a) => StateModel::Awaiting(*a),
        State::InProgress(ip) => StateModel::Playing(board_model(&ip.board)),
        State::Finished(w) => StateModel::Done(w.winner, board_model(&w.board)),
        State::Cancelled(reason) => StateModel::Cancelled(reason@),
    }
}

pub open spec fn model(g: &Game) -> GameModel {
    GameModel {
        players: g.players.players(),
        cursor: g.players.cursor(),
        state: state_model(&g.gamestate),
        last_time: g.last_time,
    }
}

/// The models the two payload formats are specified on.
pub open spec fn wf_model(m: GameModel) -> bool {
    &&& m.players.len() <= u64::MAX
    &&& (if m.players.len() == 0 {
        m.cursor == 0
    } else {
        0 <= m.cursor < m.players.len()
    })
    &&& match m.state {
        StateModel::Awaiting(_) => true,
        StateModel::Playing(bm) => bm.len() == 9,
        StateModel::Done(_, bm) => bm.len() == 9,
        StateModel::Cancelled(t) => wf_text(t) && t.len() <= u64::MAX,
    }
}

/// A well-formed game has a well-formed model.
pub proof fn lemma_model_wf(g: &Game)
    requires
        g.wf(),
    ensures
        wf_model(model(g)),
{
    vstd::std_specs::vec::axiom_spec_len(&g.players.vec);
}

// ---------------------------------------------------------------------------
// the binary record
// ---------------------------------------------------------------------------

pub open spec fn enc_space(s: Space) -> Seq<u8> {
    match s {
        Space::X => enc_byte(0),
        Space::O => enc_byte(1),
        Space::Empty => enc_byte(2),
    }
}

pub open spec fn dec_space(b: Seq<u8>) -> Option<(Space, Seq<u8>)> {
    match dec_byte(b) {
        None => None,
        Some((t, r)) => if t == 0 {
            Some((Space::X, r))
        } else if t == 1 {
            Some((Space::O, r))
        } else if t == 2 {
            Some((Space::Empty, r))
        } else {
            None
        },
    }
}

pub open spec fn enc_player(p: Player) -> Seq<u8> {
    enc_u64(p.id) + enc_space(p.piece)
}

pub open spec fn dec_player(b: Seq<u8>) -> Option<(Player, Seq<u8>)> {
    match dec_u64(b) {
        None => None,
        Some((id, r)) => match dec_space(r) {
            None => None,
            Some((piece, r2)) => Some((Player { id, piece }, r2)),
        },
    }
}

/// The element encoder and parser for player runs, fixed once so that all
/// sites speak of the same functions.
pub open spec fn player_e() -> spec_fn(Player) -> Seq<u8> {
    |p: Player| enc_player(p)
}

pub open spec fn player_d() -> spec_fn(Seq<u8>) -> Option<(Player, Seq<u8>)> {
    |b: Seq<u8>| dec_player(b)
}

pub open spec fn space_e() -> spec_fn(Space) -> Seq<u8> {
    |s: Space| enc_space(s)
}

pub open spec fn space_d() -> spec_fn(Seq<u8>) -> Option<(Space, Seq<u8>)> {
    |b: Seq<u8>| dec_space(b)
}

pub open spec fn enc_board_model(bm: Seq<Space>) -> Seq<u8> {
    enc_list(bm, space_e())
}

pub open spec fn dec_board(b: Seq<u8>) -> Option<(Seq<Space>, Seq<u8>)> {
    dec_list(b, 9, space_d())
}

pub open spec fn enc_outcome(o: Outcome) -> Seq<u8> {
    match o {
        Outcome::Win(p) => enc_byte(0) + enc_player(p),
        Outcome::Tie => enc_byte(1),
    }
}

pub open spec fn dec_outcome(b: Seq<u8>) -> Option<(Outcome, Seq<u8>)> {
    match dec_byte(b) {
        None => None,
        Some((t, r)) => if t == 0 {
            match dec_player(r) {
                None => None,
                Some((p, r2)) => Some((Outcome::Win(p), r2)),
            }
        } else if t == 1 {
            Some((Outcome::Tie, r))
        } else {
            None
        },
    }
}

pub open spec fn enc_state(sm: StateModel) -> Seq<u8> {
    match sm {
        StateModel::Awaiting(a) => enc_byte(0) + enc_u64(a.inviter) + enc_u64(a.invitee),
        StateModel::Playing(bm) => enc_byte(1) + enc_board_model(bm),
        StateModel::Done(o, bm) => enc_byte(2) + enc_outcome(o) + enc_board_model(bm),
        StateModel::Cancelled(t) => enc_byte(3) + enc_text(t),
    }
}

pub open spec fn dec_state(b: Seq<u8>) -> Option<(StateModel, Seq<u8>)> {
    match dec_byte(b) {
        None => None,
        Some((t, r)) => if t == 0 {
            match dec_u64(r) {
                None => None,
                Some((inviter, r1)) => match dec_u64(r1) {
                    None => None,
                    Some((invitee, r2)) => Some(
                        (StateModel::Awaiting(Awaiting { inviter, invitee }), r2),
                    ),
                },
            }
        } else if t == 1 {
            match dec_board(r) {
                None => None,
                Some((bm, r1)) => Some((StateModel::Playing(bm), r1)),
            }
        } else if t == 2 {
            match dec_outcome(r) {
                None => None,
                Some((o, r1)) => match dec_board(r1) {
                    None => None,
                    Some((bm, r2)) => Some((StateModel::Done(o, bm), r2)),
                },
            }
        } else if t == 3 {
            match dec_text(r) {
                None => None,
                Some((txt, r1)) => Some((StateModel::Cancelled(txt), r1)),
            }
        } else {
            None
        },
    }
}

/// The binary payload of a game model: a version byte, the rotation, the
/// phase, and the idle timestamp.
pub open spec fn enc_model(m: GameModel) -> Seq<u8> {
    seq![1u8] + enc_u64(m.players.len() as u64) + enc_list(m.players, player_e()) + enc_u64(
        m.cursor as u64,
    ) + enc_state(m.state) + enc_u64(m.last_time)
}

/// Parse a whole binary payload; every byte must be consumed.
pub open spec fn dec_game(b: Seq<u8>) -> Option<GameModel> {
    if b.len() < 1 || b[0] != 1 {
        None
    } else {
        let r0 = b.skip(1);
        match dec_u64(r0) {
            None => None,
            Some((n, r1)) => match dec_list(r1, n as nat, player_d()) {
                None => None,
                Some((ps, r2)) => match dec_u64(r2) {
                    None => None,
                    Some((idx, r3)) => if (n == 0 && idx == 0) || (n > 0 && idx < n) {
                        match dec_state(r3) {
                            None => None,
                            Some((sm, r4)) => match dec_u64(r4) {
                                None => None,
                                Some((lt, r5)) => if r5.len() == 0 {
                                    Some(
                                        GameModel {
                                            players: ps,
                                            cursor: idx as int,
                                            state: sm,
                                            last_time: lt,
                                        },
                                    )
                                } else {
                                    None
                                },
                            },
                        }
                    } else {
                        None
                    },
                },
            },
        }
    }
}

// ---------------------------------------------------------------------------
// round-trip lemmas for the binary record
// ---------------------------------------------------------------------------

pub proof fn lemma_dec_enc_space(s: Space, rest: Seq<u8>)
    ensures
        dec_space(enc_space(s) + rest) == Some((s, rest)),
{
    match s {
        Space::X => lemma_dec_enc_byte(0, rest),
        Space::O => lemma_dec_enc_byte(1, rest),
        Space::Empty => lemma_dec_enc_byte(2, rest),
    }
}

pub proof fn lemma_dec_enc_player(p: Player, rest: Seq<u8>)
    ensures
        dec_player(enc_player(p) + rest) == Some((p, rest)),
{
    lemma_dec_enc_u64(p.id, enc_space(p.piece) + rest);
    assert(enc_player(p) + rest =~= enc_u64(p.id) + (enc_space(p.piece) + rest));
    lemma_dec_enc_space(p.piece, rest);
}

pub proof fn lemma_dec_enc_board(bm: Seq<Space>, rest: Seq<u8>)
    requires
        bm.len() == 9,
    ensures
        dec_board(enc_board_model(bm) + rest) == Some((bm, rest)),
{
    assert forall|v: Space, r2: Seq<u8>| bm.contains(v) implies #[trigger] space_d()(
        space_e()(v) + r2,
    ) == Some((v, r2)) by {
        lemma_dec_enc_space(v, r2);
    }
    lemma_dec_enc_list(bm, rest, space_e(), space_d());
}

pub proof fn lemma_dec_enc_outcome(o: Outcome, rest: Seq<u8>)
    ensures
        dec_outcome(enc_outcome(o) + rest) == Some((o, rest)),
{
    match o {
        Outcome::Win(p) => {
            let b = enc_outcome(o) + rest;
            let x = enc_player(p) + rest;
            assert(b =~= enc_byte(0) + x);
            lemma_dec_enc_byte(0, x);
            assert(dec_byte(b) == Some((0u8, x)));
            lemma_dec_enc_player(p, rest);
        },
        Outcome::Tie => {
            lemma_dec_enc_byte(1, rest);
        },
    }
}

#[verifier::rlimit(100)]
#[verifier::spinoff_prover]
pub proof fn lemma_dec_enc_state(sm: StateModel, rest: Seq<u8>)
    requires
        match sm {
            StateModel::Awaiting(_) => true,
            StateModel::Playing(bm) => bm.len() == 9,
            StateModel::Done(_, bm) => bm.len() == 9,
            StateModel::Cancelled(t) => wf_text(t) && t.len() <= u64::MAX,
        },
    ensures
        dec_state(enc_state(sm) + rest) == Some((sm, rest)),
{
    match sm {
        StateModel::Awaiting(a) => {
            let b = enc_state(sm) + rest;
            let x = enc_u64(a.inviter) + (enc_u64(a.invitee) + rest);
            assert(b =~= enc_byte(0) + x);
            lemma_dec_enc_byte(0, x);
            assert(dec_byte(b) == Some((0u8, x)));
            lemma_dec_enc_u64(a.inviter, enc_u64(a.invitee) + rest);
            lemma_dec_enc_u64(a.invitee, rest);
        },
        StateModel::Playing(bm) => {
            let b = enc_state(sm) + rest;
            let x = enc_board_model(bm) + rest;
            assert(b =~= enc_byte(1) + x);
            lemma_dec_enc_byte(1, x);
            assert(dec_byte(b) == Some((1u8, x)));
            lemma_dec_enc_board(bm, rest);
        },
        StateModel::Done(o, bm) => {
            let b = enc_state(sm) + rest;
            let x = enc_outcome(o) + (enc_board_model(bm) + rest);
            assert(b =~= enc_byte(2) + x);
            lemma_dec_enc_byte(2, x);
            assert(dec_byte(b) == Some((2u8, x)));
            lemma_dec_enc_outcome(o, enc_board_model(bm) + rest);
            lemma_dec_enc_board(bm, rest);
        },
        StateModel::Cancelled(t) => {
            let b = enc_state(sm) + rest;
            let x = enc_text(t) + rest;
            assert(b =~= enc_byte(3) + x);
            lemma_dec_enc_byte(3, x);
            assert(dec_byte(b) == Some((3u8, x)));
            lemma_dec_enc_text(t, rest);
        },
    }
}

/// Parsing a binary payload made from a well-formed model yields the model.
pub proof fn lemma_dec_enc_game(m: GameModel)
    requires
        wf_model(m),
    ensures
        dec_game(enc_model(m)) == Some(m),
{
    let b = enc_model(m);
    let n = m.players.len() as u64;
    let tail1 = enc_list(m.players, player_e()) + (enc_u64(m.cursor as u64) + (enc_state(m.state)
        + enc_u64(m.last_time)));
    assert(b[0] == 1);
    assert(b.skip(1) =~= enc_u64(n) + tail1);
    lemma_dec_enc_u64(n, tail1);
    assert forall|v: Player, r2: Seq<u8>| m.players.contains(v) implies #[trigger] player_d()(
        player_e()(v) + r2,
    ) == Some((v, r2)) by {
        lemma_dec_enc_player(v, r2);
    }
    let tail2 = enc_u64(m.cursor as u64) + (enc_state(m.state) + enc_u64(m.last_time));
    lemma_dec_enc_list(m.players, tail2, player_e(), player_d());
    lemma_dec_enc_u64(m.cursor as u64, enc_state(m.state) + enc_u64(m.last_time));
    lemma_dec_enc_state(m.state, enc_u64(m.last_time));
    lemma_dec_enc_u64(m.last_time, Seq::<u8>::empty());
    assert(enc_u64(m.last_time) + Seq::<u8>::empty() =~= enc_u64(m.last_time));
}

// ---------------------------------------------------------------------------
// soundness: a successful parse pins the payload down
// ---------------------------------------------------------------------------

pub proof fn lemma_dec_space_sound(b: Seq<u8>)
    requires
        dec_space(b) is Some,
    ensures
        b =~= enc_space(dec_space(b)->Some_0.0) + dec_space(b)->Some_0.1,
        dec_space(b)->Some_0.1.len() < b.len(),
{
    crate::bytes::lemma_dec_byte_sound(b);
}

pub proof fn lemma_dec_player_sound(b: Seq<u8>)
    requires
        dec_player(b) is Some,
    ensures
        b =~= enc_player(dec_player(b)->Some_0.0) + dec_player(b)->Some_0.1,
        dec_player(b)->Some_0.1.len() < b.len(),
{
    crate::bytes::lemma_dec_u64_sound(b);
    let r = dec_u64(b)->Some_0.1;
    lemma_dec_space_sound(r);
    let (p, r2) = dec_player(b)->Some_0;
    assert(b =~= enc_u64(p.id) + (enc_space(p.piece) + r2));
    assert(enc_player(p) + r2 =~= enc_u64(p.id) + (enc_space(p.piece) + r2));
}

pub proof fn lemma_space_d_sound()
    ensures
        forall|bb: Seq<u8>| #[trigger] space_d()(bb) matches Some(vr) ==> bb =~= space_e()(vr.0)
            + vr.1 && vr.1.len() < bb.len(),
{
    assert forall|bb: Seq<u8>| #[trigger] space_d()(bb) is Some implies {
        let vr = space_d()(bb)->Some_0;
        bb =~= space_e()(vr.0) + vr.1 && vr.1.len() < bb.len()
    } by {
        lemma_dec_space_sound(bb);
    }
}

pub proof fn lemma_player_d_sound()
    ensures
        forall|bb: Seq<u8>| #[trigger] player_d()(bb) matches Some(vr) ==> bb =~= player_e()(vr.0)
            + vr.1 && vr.1.len() < bb.len(),
{
    assert forall|bb: Seq<u8>| #[trigger] player_d()(bb) is Some implies {
        let vr = player_d()(bb)->Some_0;
        bb =~= player_e()(vr.0) + vr.1 && vr.1.len() < bb.len()
    } by {
        lemma_dec_player_sound(bb);
    }
}

pub proof fn lemma_dec_board_sound(b: Seq<u8>)
    requires
        dec_board(b) is Some,
    ensures
        b =~= enc_board_model(dec_board(b)->Some_0.0) + dec_board(b)->Some_0.1,
        dec_board(b)->Some_0.0.len() == 9,
        dec_board(b)->Some_0.1.len() <= b.len(),
{
    lemma_space_d_sound();
    crate::bytes::lemma_dec_list_sound(b, 9, space_e(), space_d());
}

pub proof fn lemma_dec_outcome_sound(b: Seq<u8>)
    requires
        dec_outcome(b) is Some,
    ensures
        b =~= enc_outcome(dec_outcome(b)->Some_0.0) + dec_outcome(b)->Some_0.1,
{
    crate::bytes::lemma_dec_byte_sound(b);
    let (t, r) = dec_byte(b)->Some_0;
    if t == 0 {
        lemma_dec_player_sound(r);
        let (p, r2) = dec_player(r)->Some_0;
        assert(b =~= enc_byte(0) + (enc_player(p) + r2));
        assert(enc_outcome(Outcome::Win(p)) + r2 =~= enc_byte(0) + (enc_player(p) + r2));
    }
}

#[verifier::rlimit(100)]
#[verifier::spinoff_prover]
pub proof fn lemma_dec_state_sound(b: Seq<u8>)
    requires
        dec_state(b) is Some,
    ensures
        b =~= enc_state(dec_state(b)->Some_0.0) + dec_state(b)->Some_0.1,
        match dec_state(b)->Some_0.0 {
            StateModel::Awaiting(_) => true,
            StateModel::Playing(bm) => bm.len() == 9,
            StateModel::Done(_, bm) => bm.len() == 9,
            StateModel::Cancelled(t) => wf_text(t) && t.len() <= u64::MAX,
        },
{
    crate::bytes::lemma_dec_byte_sound(b);
    let (t, r) = dec_byte(b)->Some_0;
    let (sm, rem) = dec_state(b)->Some_0;
    if t == 0 {
        crate::bytes::lemma_dec_u64_sound(r);
        let (inviter, r1) = dec_u64(r)->Some_0;
        crate::bytes::lemma_dec_u64_sound(r1);
        let (invitee, r2) = dec_u64(r1)->Some_0;
        assert(b =~= enc_byte(0) + (enc_u64(inviter) + (enc_u64(invitee) + r2)));
        assert(enc_state(sm) + rem =~= enc_byte(0) + (enc_u64(inviter) + (enc_u64(invitee) + r2)));
    } else if t == 1 {
        lemma_dec_board_sound(r);
        let (bm, r1) = dec_board(r)->Some_0;
        assert(b =~= enc_byte(1) + (enc_board_model(bm) + r1));
        assert(enc_state(sm) + rem =~= enc_byte(1) + (enc_board_model(bm) + r1));
    } else if t == 2 {
        lemma_dec_outcome_sound(r);
        let (o, r1) = dec_outcome(r)->Some_0;
        lemma_dec_board_sound(r1);
        let (bm, r2) = dec_board(r1)->Some_0;
        assert(b =~= enc_byte(2) + (enc_outcome(o) + (enc_board_model(bm) + r2)));
        assert(enc_state(sm) + rem =~= enc_byte(2) + (enc_outcome(o) + (enc_board_model(bm) + r2)));
    } else {
        crate::bytes::lemma_dec_text_sound(r);
        let (txt, r1) = dec_text(r)->Some_0;
        assert(b =~= enc_byte(3) + (enc_text(txt) + r1));
        assert(enc_state(sm) + rem =~= enc_byte(3) + (enc_text(txt) + r1));
        assert(txt.len() <= u64::MAX);
    }
}

pub proof fn lemma_auto_u64()
    ensures
        forall|x: u64| #![trigger enc_u64(x)] enc_u64(x).len() == 8,
{
    vstd::bytes::lemma_auto_spec_u64_to_from_le_bytes();
}

/// A successful payload parse yields a well-formed model whose encoding is
/// the payload itself.
#[verifier::rlimit(60)]
pub proof fn lemma_dec_game_sound(b: Seq<u8>)
    requires
        dec_game(b) is Some,
    ensures
        wf_model(dec_game(b)->Some_0),
        b =~= enc_model(dec_game(b)->Some_0),
{
    let m = dec_game(b)->Some_0;
    let r0 = b.skip(1);
    crate::bytes::lemma_dec_u64_sound(r0);
    let (n, r1) = dec_u64(r0)->Some_0;
    lemma_player_d_sound();
    crate::bytes::lemma_dec_list_sound(r1, n as nat, player_e(), player_d());
    let (ps, r2) = dec_list(r1, n as nat, player_d())->Some_0;
    crate::bytes::lemma_dec_u64_sound(r2);
    let (idx, r3) = dec_u64(r2)->Some_0;
    lemma_dec_state_sound(r3);
    let (sm, r4) = dec_state(r3)->Some_0;
    crate::bytes::lemma_dec_u64_sound(r4);
    let (lt, r5) = dec_u64(r4)->Some_0;
    assert(r5.len() == 0);
    assert(r4 =~= enc_u64(lt));
    assert(b =~= seq![b[0]] + r0);
    assert(b =~= seq![1u8] + (enc_u64(n) + (enc_list(ps, player_e()) + (enc_u64(idx) + (enc_state(
        sm,
    ) + enc_u64(lt))))));
    assert(ps.len() == n as nat);
    assert(enc_model(m) =~= seq![1u8] + (enc_u64(m.players.len() as u64) + (enc_list(
        m.players,
        player_e(),
    ) + (enc_u64(m.cursor as u64) + (enc_state(m.state) + enc_u64(m.last_time))))));
}

// ---------------------------------------------------------------------------
// the legacy JSON record
// ---------------------------------------------------------------------------

pub open spec fn j_space(s: Space) -> Seq<u8> {
    match s {
        Space::X => lit("\"X\""@),
        Space::O => lit("\"O\""@),
        Space::Empty => lit("\"Empty\""@),
    }
}

pub open spec fn j_player(p: Player) -> Seq<u8> {
    lit("{\"id\":"@) + json_num(p.id as nat) + lit(",\"piece\":"@) + j_space(p.piece) + seq![125u8]
}

pub open spec fn j_items_tail(ps: Seq<Player>) -> Seq<u8>
    decreases ps.len(),
{
    if ps.len() == 0 {
        Seq::<u8>::empty()
    } else {
        seq![44u8] + j_player(ps[0]) + j_items_tail(ps.drop_first())
    }
}

pub open spec fn j_items(ps: Seq<Player>) -> Seq<u8> {
    if ps.len() == 0 {
        Seq::<u8>::empty()
    } else {
        j_player(ps[0]) + j_items_tail(ps.drop_first())
    }
}

pub open spec fn j_cells_tail(bm: Seq<Space>) -> Seq<u8>
    decreases bm.len(),
{
    if bm.len() == 0 {
        Seq::<u8>::empty()
    } else {
        seq![44u8] + j_space(bm[0]) + j_cells_tail(bm.drop_first())
    }
}

pub open spec fn j_board(bm: Seq<Space>) -> Seq<u8> {
    if bm.len() == 0 {
        seq![91u8, 93u8]
    } else {
        seq![91u8] + j_space(bm[0]) + j_cells_tail(bm.drop_first()) + seq![93u8]
    }
}

pub open spec fn j_outcome(o: Outcome) -> Seq<u8> {
    match o {
        Outcome::Win(p) => lit("{\"Win\":"@) + j_player(p) + seq![125u8],
        Outcome::Tie => lit("\"Tie\""@),
    }
}

pub open spec fn j_state(sm: StateModel) -> Seq<u8> {
    match sm {
        StateModel::Awaiting(a) => lit("{\"AwaitingApproval\":{\"inviter\":"@) + json_num(
            a.inviter as nat,
        ) + lit(",\"invitee\":"@) + json_num(a.invitee as nat) + lit("}}"@),
        StateModel::Playing(bm) => lit("{\"InProgress\":{\"board\":"@) + j_board(bm) + lit("}}"@),
        StateModel::Done(o, bm) => lit("{\"Finished\":{\"winner\":"@) + j_outcome(o) + lit(
            ",\"board\":"@,
        ) + j_board(bm) + lit("}}"@),
        StateModel::Cancelled(t) => lit("{\"Cancelled\":"@) + json_str(t) + seq![125u8],
    }
}

/// The legacy JSON payload of a game model.
pub open spec fn j_game(m: GameModel) -> Seq<u8> {
    lit("{\"players\":["@) + j_items(m.players) + lit("],\"index\":"@) + json_num(m.cursor as nat)
        + lit(",\"gamestate\":"@) + j_state(m.state) + lit(",\"last_time\":"@) + json_num(
        m.last_time as nat,
    ) + seq![125u8]
}

// spec parsers for the legacy record

pub open spec fn d_j_space(b: Seq<u8>) -> Option<(Space, Seq<u8>)> {
    if dec_lit(b, lit("\"X\""@)) is Some {
        Some((Space::X, dec_lit(b, lit("\"X\""@))->Some_0))
    } else if dec_lit(b, lit("\"O\""@)) is Some {
        Some((Space::O, dec_lit(b, lit("\"O\""@))->Some_0))
    } else if dec_lit(b, lit("\"Empty\""@)) is Some {
        Some((Space::Empty, dec_lit(b, lit("\"Empty\""@))->Some_0))
    } else {
        None
    }
}

pub open spec fn d_j_player(b: Seq<u8>) -> Option<(Player, Seq<u8>)> {
    match dec_lit(b, lit("{\"id\":"@)) {
        None => None,
        Some(r1) => match dec_num(r1) {
            None => None,
            Some((id, r2)) => match dec_lit(r2, lit(",\"piece\":"@)) {
                None => None,
                Some(r3) => match d_j_space(r3) {
                    None => None,
                    Some((piece, r4)) => if r4.len() >= 1 && r4[0] == 125 {
                        Some((Player { id, piece }, r4.skip(1)))
                    } else {
                        None
                    },
                },
            },
        },
    }
}

pub open spec fn d_j_players_more(b: Seq<u8>) -> Option<(Seq<Player>, Seq<u8>)>
    decreases b.len(),
{
    if b.len() >= 1 && b[0] == 44 {
        match d_j_player(b.skip(1)) {
            None => None,
            Some((p, r)) => if r.len() < b.len() {
                match d_j_players_more(r) {
                    None => None,
                    Some((ps, r2)) => Some((seq![p] + ps, r2)),
                }
            } else {
                None
            },
        }
    } else {
        Some((Seq::<Player>::empty(), b))
    }
}

pub open spec fn d_j_players(b: Seq<u8>) -> Option<(Seq<Player>, Seq<u8>)> {
    if b.len() >= 1 && b[0] == 123 {
        match d_j_player(b) {
            None => None,
            Some((p, r)) => if r.len() < b.len() {
                match d_j_players_more(r) {
                    None => None,
                    Some((ps, r2)) => Some((seq![p] + ps, r2)),
                }
            } else {
                None
            },
        }
    } else {
        Some((Seq::<Player>::empty(), b))
    }
}

pub open spec fn d_j_cells_more(b: Seq<u8>) -> Option<(Seq<Space>, Seq<u8>)>
    decreases b.len(),
{
    if b.len() >= 1 && b[0] == 44 {
        match d_j_space(b.skip(1)) {
            None => None,
            Some((s, r)) => if r.len() < b.len() {
                match d_j_cells_more(r) {
                    None => None,
                    Some((ss, r2)) => Some((seq![s] + ss, r2)),
                }
            } else {
                None
            },
        }
    } else if b.len() >= 1 && b[0] == 93 {
        Some((Seq::<Space>::empty(), b.skip(1)))
    } else {
        None
    }
}

pub open spec fn d_j_board(b: Seq<u8>) -> Option<(Seq<Space>, Seq<u8>)> {
    if b.len() >= 1 && b[0] == 91 {
        let r0 = b.skip(1);
        if r0.len() >= 1 && r0[0] == 93 {
            Some((Seq::<Space>::empty(), r0.skip(1)))
        } else {
            match d_j_space(r0) {
                None => None,
                Some((s, r)) => if r.len() < b.len() {
                    match d_j_cells_more(r) {
                        None => None,
                        Some((ss, r2)) => Some((seq![s] + ss, r2)),
                    }
                } else {
                    None
                },
            }
        }
    } else {
        None
    }
}

pub open spec fn d_j_outcome(b: Seq<u8>) -> Option<(Outcome, Seq<u8>)> {
    if dec_lit(b, lit("\"Tie\""@)) is Some {
        Some((Outcome::Tie, dec_lit(b, lit("\"Tie\""@))->Some_0))
    } else {
        match dec_lit(b, lit("{\"Win\":"@)) {
            None => None,
            Some(r1) => match d_j_player(r1) {
                None => None,
                Some((p, r2)) => if r2.len() >= 1 && r2[0] == 125 {
                    Some((Outcome::Win(p), r2.skip(1)))
                } else {
                    None
                },
            },
        }
    }
}

pub open spec fn d_j_state(b: Seq<u8>) -> Option<(StateModel, Seq<u8>)> {
    if dec_lit(b, lit("{\"AwaitingApproval\":{\"inviter\":"@)) is Some {
        let r1 = dec_lit(b, lit("{\"AwaitingApproval\":{\"inviter\":"@))->Some_0;
        match dec_num(r1) {
            None => None,
            Some((inviter, r2)) => match dec_lit(r2, lit(",\"invitee\":"@)) {
                None => None,
                Some(r3) => match dec_num(r3) {
                    None => None,
                    Some((invitee, r4)) => match dec_lit(r4, lit("}}"@)) {
                        None => None,
                        Some(r5) => Some(
                            (StateModel::Awaiting(Awaiting { inviter, invitee }), r5),
                        ),
                    },
                },
            },
        }
    } else if dec_lit(b, lit("{\"InProgress\":{\"board\":"@)) is Some {
        let r1 = dec_lit(b, lit("{\"InProgress\":{\"board\":"@))->Some_0;
        match d_j_board(r1) {
            None => None,
            Some((bm, r2)) => if bm.len() == 9 {
                match dec_lit(r2, lit("}}"@)) {
                    None => None,
                    Some(r3) => Some((StateModel::Playing(bm), r3)),
                }
            } else {
                None
            },
        }
    } else if dec_lit(b, lit("{\"Finished\":{\"winner\":"@)) is Some {
        let r1 = dec_lit(b, lit("{\"Finished\":{\"winner\":"@))->Some_0;
        match d_j_outcome(r1) {
            None => None,
            Some((o, r2)) => match dec_lit(r2, lit(",\"board\":"@)) {
                None => None,
                Some(r3) => match d_j_board(r3) {
                    None => None,
                    Some((bm, r4)) => if bm.len() == 9 {
                        match dec_lit(r4, lit("}}"@)) {
                            None => None,
                            Some(r5) => Some((StateModel::Done(o, bm), r5)),
                        }
                    } else {
                        None
                    },
                },
            },
        }
    } else if dec_lit(b, lit("{\"Cancelled\":"@)) is Some {
        let r1 = dec_lit(b, lit("{\"Cancelled\":"@))->Some_0;
        match dec_str(r1) {
            None => None,
            Some((t, r2)) => if r2.len() >= 1 && r2[0] == 125 && t.len() <= u64::MAX {
                Some((StateModel::Cancelled(t), r2.skip(1)))
            } else {
                None
            },
        }
    } else {
        None
    }
}

/// The back half of a legacy payload, after the player list.
pub open spec fn d_j_game_rest(ps: Seq<Player>, b: Seq<u8>) -> Option<GameModel> {
    match dec_lit(b, lit("],\"index\":"@)) {
        None => None,
        Some(r3) => match dec_num(r3) {
            None => None,
            Some((idx, r4)) => if ((ps.len() == 0 && idx == 0) || (ps.len() > 0 && idx
                < ps.len())) && ps.len() <= u64::MAX {
                match dec_lit(r4, lit(",\"gamestate\":"@)) {
                    None => None,
                    Some(r5) => match d_j_state(r5) {
                        None => None,
                        Some((sm, r6)) => match dec_lit(r6, lit(",\"last_time\":"@)) {
                            None => None,
                            Some(r7) => match dec_num(r7) {
                                None => None,
                                Some((lt, r8)) => if r8.len() == 1 && r8[0] == 125 {
                                    Some(
                                        GameModel {
                                            players: ps,
                                            cursor: idx as int,
                                            state: sm,
                                            last_time: lt,
                                        },
                                    )
                                } else {
                                    None
                                },
                            },
                        },
                    },
                }
            } else {
                None
            },
        },
    }
}

/// Parse a whole legacy JSON payload; every byte must be consumed.
pub open spec fn d_j_game(b: Seq<u8>) -> Option<GameModel> {
    match dec_lit(b, lit("{\"players\":["@)) {
        None => None,
        Some(r1) => match d_j_players(r1) {
            None => None,
            Some((ps, r2)) => d_j_game_rest(ps, r2),
        },
    }
}

// ---------------------------------------------------------------------------
// round-trip lemmas for the legacy record
// ---------------------------------------------------------------------------

pub proof fn lemma_space_lits()
    ensures
        lit("\"X\""@).len() >= 2,
        lit("\"X\""@)[0] == 34 && lit("\"X\""@)[1] == 88,
        lit("\"O\""@).len() >= 2,
        lit("\"O\""@)[0] == 34 && lit("\"O\""@)[1] == 79,
        lit("\"Empty\""@).len() >= 2,
        lit("\"Empty\""@)[0] == 34 && lit("\"Empty\""@)[1] == 69,
        lit("\"Tie\""@).len() >= 2,
        lit("\"Tie\""@)[0] == 34 && lit("\"Tie\""@)[1] == 84,
        lit("{\"Win\":"@).len() >= 1,
        lit("{\"Win\":"@)[0] == 123,
        lit("{\"id\":"@).len() >= 1,
        lit("{\"id\":"@)[0] == 123,
        lit(",\"piece\":"@).len() >= 1,
        lit(",\"piece\":"@)[0] == 44,
{
    reveal_strlit("\"X\"");
    reveal_strlit("\"O\"");
    reveal_strlit("\"Empty\"");
    reveal_strlit("\"Tie\"");
    reveal_strlit("{\"Win\":");
    reveal_strlit("{\"id\":");
    reveal_strlit(",\"piece\":");
    lemma_lit_head2("\"X\""@);
    lemma_lit_head2("\"O\""@);
    lemma_lit_head2("\"Empty\""@);
    lemma_lit_head2("\"Tie\""@);
    lemma_lit_head1("{\"Win\":"@);
    lemma_lit_head1("{\"id\":"@);
    lemma_lit_head1(",\"piece\":"@);
}

pub proof fn lemma_state_lits()
    ensures
        lit("{\"AwaitingApproval\":{\"inviter\":"@).len() >= 3,
        lit("{\"AwaitingApproval\":{\"inviter\":"@)[2] == 65,
        lit("{\"AwaitingApproval\":{\"inviter\":"@)[0] == 123,
        lit("{\"AwaitingApproval\":{\"inviter\":"@)[1] == 34,
        lit("{\"InProgress\":{\"board\":"@).len() >= 3,
        lit("{\"InProgress\":{\"board\":"@)[2] == 73,
        lit("{\"InProgress\":{\"board\":"@)[0] == 123,
        lit("{\"InProgress\":{\"board\":"@)[1] == 34,
        lit("{\"Finished\":{\"winner\":"@).len() >= 3,
        lit("{\"Finished\":{\"winner\":"@)[2] == 70,
        lit("{\"Finished\":{\"winner\":"@)[0] == 123,
        lit("{\"Finished\":{\"winner\":"@)[1] == 34,
        lit("{\"Cancelled\":"@).len() >= 3,
        lit("{\"Cancelled\":"@)[2] == 67,
        lit("{\"Cancelled\":"@)[0] == 123,
        lit("{\"Cancelled\":"@)[1] == 34,
        lit(",\"invitee\":"@).len() >= 1 && lit(",\"invitee\":"@)[0] == 44,
        lit("}}"@).len() >= 1 && lit("}}"@)[0] == 125,
        lit(",\"board\":"@).len() >= 1 && lit(",\"board\":"@)[0] == 44,
{
    reveal_strlit("{\"AwaitingApproval\":{\"inviter\":");
    reveal_strlit("{\"InProgress\":{\"board\":");
    reveal_strlit("{\"Finished\":{\"winner\":");
    reveal_strlit("{\"Cancelled\":");
    reveal_strlit(",\"invitee\":");
    reveal_strlit("}}");
    reveal_strlit(",\"board\":");
    lemma_lit_head3("{\"AwaitingApproval\":{\"inviter\":"@);
    lemma_lit_head3("{\"InProgress\":{\"board\":"@);
    lemma_lit_head3("{\"Finished\":{\"winner\":"@);
    lemma_lit_head3("{\"Cancelled\":"@);
    lemma_lit_head1(",\"invitee\":"@);
    lemma_lit_head1("}}"@);
    lemma_lit_head1(",\"board\":"@);
}

pub proof fn lemma_game_lits()
    ensures
        lit("{\"players\":["@).len() >= 1 && lit("{\"players\":["@)[0] == 123,
        lit("],\"index\":"@).len() >= 1 && lit("],\"index\":"@)[0] == 93,
        lit(",\"gamestate\":"@).len() >= 1 && lit(",\"gamestate\":"@)[0] == 44,
        lit(",\"last_time\":"@).len() >= 1 && lit(",\"last_time\":"@)[0] == 44,
{
    reveal_strlit("{\"players\":[");
    reveal_strlit("],\"index\":");
    reveal_strlit(",\"gamestate\":");
    reveal_strlit(",\"last_time\":");
    lemma_lit_head1("{\"players\":["@);
    lemma_lit_head1("],\"index\":"@);
    lemma_lit_head1(",\"gamestate\":"@);
    lemma_lit_head1(",\"last_time\":"@);
}

pub proof fn lemma_d_j_space(s: Space, rest: Seq<u8>)
    ensures
        d_j_space(j_space(s) + rest) == Some((s, rest)),
        j_space(s).len() >= 2,
        (j_space(s) + rest)[0] == 34,
    decreases 0int,
{
    lemma_space_lits();
    let b = j_space(s) + rest;
    reveal_strlit("\"X\"");
    reveal_strlit("\"O\"");
    reveal_strlit("\"Empty\"");
    match s {
        Space::X => {
            lemma_dec_enc_lit(lit("\"X\""@), rest);
        },
        Space::O => {
            assert(b[1] == lit("\"O\""@)[1]);
            lemma_lit_not_prefix1("\"X\""@, b);
            lemma_dec_enc_lit(lit("\"O\""@), rest);
        },
        Space::Empty => {
            assert(b[1] == lit("\"Empty\""@)[1]);
            lemma_lit_not_prefix1("\"X\""@, b);
            lemma_lit_not_prefix1("\"O\""@, b);
            lemma_dec_enc_lit(lit("\"Empty\""@), rest);
        },
    }
}

pub proof fn lemma_d_j_player(p: Player, rest: Seq<u8>)
    ensures
        d_j_player(j_player(p) + rest) == Some((p, rest)),
        j_player(p).len() >= 1,
        (j_player(p) + rest)[0] == 123,
{
    lemma_space_lits();
    let b = j_player(p) + rest;
    let t1 = json_num(p.id as nat) + (lit(",\"piece\":"@) + (j_space(p.piece) + (seq![125u8]
        + rest)));
    assert(b =~= lit("{\"id\":"@) + t1);
    lemma_dec_enc_lit(lit("{\"id\":"@), t1);
    let t2 = lit(",\"piece\":"@) + (j_space(p.piece) + (seq![125u8] + rest));
    assert(t2[0] == 44);
    assert(!is_digit(t2[0]));
    lemma_dec_enc_num(p.id, t2);
    let t3 = j_space(p.piece) + (seq![125u8] + rest);
    lemma_dec_enc_lit(lit(",\"piece\":"@), t3);
    lemma_d_j_space(p.piece, seq![125u8] + rest);
    let t4 = seq![125u8] + rest;
    assert(t4[0] == 125);
    assert(t4.skip(1) =~= rest);
}

pub proof fn lemma_d_j_players_more(ps: Seq<Player>, rest: Seq<u8>)
    requires
        rest.len() >= 1,
        rest[0] != 44,
    ensures
        d_j_players_more(j_items_tail(ps) + rest) == Some((ps, rest)),
    decreases ps.len(),
{
    let b = j_items_tail(ps) + rest;
    if ps.len() == 0 {
        assert(b =~= rest);
    } else {
        lemma_d_j_player(ps[0], j_items_tail(ps.drop_first()) + rest);
        assert(b =~= seq![44u8] + (j_player(ps[0]) + (j_items_tail(ps.drop_first()) + rest)));
        assert(b[0] == 44);
        assert(b.skip(1) =~= j_player(ps[0]) + (j_items_tail(ps.drop_first()) + rest));
        lemma_d_j_players_more(ps.drop_first(), rest);
        assert(seq![ps[0]] + ps.drop_first() =~= ps);
    }
}

pub proof fn lemma_d_j_players(ps: Seq<Player>, rest: Seq<u8>)
    requires
        rest.len() >= 1,
        rest[0] != 44,
        rest[0] != 123,
    ensures
        d_j_players(j_items(ps) + rest) == Some((ps, rest)),
{
    let b = j_items(ps) + rest;
    if ps.len() == 0 {
        assert(b =~= rest);
    } else {
        lemma_d_j_player(ps[0], j_items_tail(ps.drop_first()) + rest);
        assert(b =~= j_player(ps[0]) + (j_items_tail(ps.drop_first()) + rest));
        assert(b[0] == 123);
        lemma_d_j_players_more(ps.drop_first(), rest);
        assert(seq![ps[0]] + ps.drop_first() =~= ps);
    }
}

#[verifier::rlimit(100)]
#[verifier::spinoff_prover]
pub proof fn lemma_d_j_cells_more(bm: Seq<Space>, rest: Seq<u8>)
    ensures
        d_j_cells_more(j_cells_tail(bm) + (seq![93u8] + rest)) == Some((bm, rest)),
    decreases bm.len(),
{
    let b = j_cells_tail(bm) + (seq![93u8] + rest);
    if bm.len() == 0 {
        assert(b =~= seq![93u8] + rest);
        assert(b[0] == 93 && b[0] != 44);
        assert(b.skip(1) =~= rest);
    } else {
        lemma_d_j_space(bm[0], j_cells_tail(bm.drop_first()) + (seq![93u8] + rest));
        assert(b =~= seq![44u8] + (j_space(bm[0]) + (j_cells_tail(bm.drop_first()) + (seq![93u8]
            + rest))));
        assert(b[0] == 44);
        assert(b.skip(1) =~= j_space(bm[0]) + (j_cells_tail(bm.drop_first()) + (seq![93u8]
            + rest)));
        lemma_d_j_cells_more(bm.drop_first(), rest);
        assert(seq![bm[0]] + bm.drop_first() =~= bm);
    }
}

#[verifier::rlimit(100)]
#[verifier::spinoff_prover]
pub proof fn lemma_d_j_board(bm: Seq<Space>, rest: Seq<u8>)
    ensures
        d_j_board(j_board(bm) + rest) == Some((bm, rest)),
        (j_board(bm) + rest)[0] == 91,
{
    let b = j_board(bm) + rest;
    if bm.len() == 0 {
        assert(b[0] == 91);
        assert(b.skip(1) =~= seq![93u8] + rest);
        assert(b.skip(1).skip(1) =~= rest);
    } else {
        assert(b =~= seq![91u8] + (j_space(bm[0]) + (j_cells_tail(bm.drop_first()) + (seq![93u8]
            + rest))));
        assert(b[0] == 91);
        let r0 = j_space(bm[0]) + (j_cells_tail(bm.drop_first()) + (seq![93u8] + rest));
        assert(b.skip(1) =~= r0);
        lemma_d_j_space(bm[0], j_cells_tail(bm.drop_first()) + (seq![93u8] + rest));
        assert(r0[0] == 34 && r0[0] != 93);
        lemma_d_j_cells_more(bm.drop_first(), rest);
        assert(seq![bm[0]] + bm.drop_first() =~= bm);
    }
}

#[verifier::rlimit(80)]
pub proof fn lemma_d_j_outcome(o: Outcome, rest: Seq<u8>)
    ensures
        d_j_outcome(j_outcome(o) + rest) == Some((o, rest)),
        (j_outcome(o) + rest)[0] == 123 || (j_outcome(o) + rest)[0] == 34,
{
    lemma_space_lits();
    reveal_strlit("\"Tie\"");
    let b = j_outcome(o) + rest;
    match o {
        Outcome::Tie => {
            lemma_dec_enc_lit(lit("\"Tie\""@), rest);
        },
        Outcome::Win(p) => {
            assert(b =~= lit("{\"Win\":"@) + (j_player(p) + (seq![125u8] + rest)));
            assert(b[0] == 123);
            lemma_lit_not_prefix0("\"Tie\""@, b);
            lemma_dec_enc_lit(lit("{\"Win\":"@), j_player(p) + (seq![125u8] + rest));
            lemma_d_j_player(p, seq![125u8] + rest);
            let t = seq![125u8] + rest;
            assert(t[0] == 125);
            assert(t.skip(1) =~= rest);
        },
    }
}

pub proof fn lemma_d_j_state_awaiting(a: Awaiting, rest: Seq<u8>)
    ensures
        d_j_state(j_state(StateModel::Awaiting(a)) + rest) == Some((
            StateModel::Awaiting(a),
            rest,
        )),
{
    lemma_state_lits();
    let sm = StateModel::Awaiting(a);
    let b = j_state(sm) + rest;
    let ka = lit("{\"AwaitingApproval\":{\"inviter\":"@);
    let t1 = json_num(a.inviter as nat) + (lit(",\"invitee\":"@) + (json_num(a.invitee as nat)
        + lit("}}"@)));
    assert(b =~= ka + (t1 + rest));
    lemma_dec_enc_lit(ka, t1 + rest);
    let t2 = lit(",\"invitee\":"@) + (json_num(a.invitee as nat) + (lit("}}"@) + rest));
    assert(t1 + rest =~= json_num(a.inviter as nat) + t2);
    assert(t2[0] == 44 && !is_digit(t2[0]));
    lemma_dec_enc_num(a.inviter, t2);
    let t3 = json_num(a.invitee as nat) + (lit("}}"@) + rest);
    lemma_dec_enc_lit(lit(",\"invitee\":"@), t3);
    let t4 = lit("}}"@) + rest;
    assert(t4[0] == 125 && !is_digit(t4[0]));
    lemma_dec_enc_num(a.invitee, t4);
    lemma_dec_enc_lit(lit("}}"@), rest);
}

#[verifier::spinoff_prover]
proof fn lemma_d_j_state_playing(bm: Seq<Space>, rest: Seq<u8>)
    requires
        bm.len() == 9,
    ensures
        d_j_state(j_state(StateModel::Playing(bm)) + rest) == Some((
            StateModel::Playing(bm),
            rest,
        )),
{
    lemma_state_lits();
    let sm = StateModel::Playing(bm);
    let b = j_state(sm) + rest;
    let ki = lit("{\"InProgress\":{\"board\":"@);
    let t1 = j_board(bm) + (lit("}}"@) + rest);
    assert(b =~= ki + t1);
    assert(b[2] == ki[2]);
    reveal_strlit("{\"AwaitingApproval\":{\"inviter\":");
    reveal_strlit("{\"InProgress\":{\"board\":");
    lemma_lit_not_prefix2("{\"AwaitingApproval\":{\"inviter\":"@, b);
    lemma_dec_enc_lit(ki, t1);
    lemma_d_j_board(bm, lit("}}"@) + rest);
    lemma_dec_enc_lit(lit("}}"@), rest);
}

#[verifier::spinoff_prover]
proof fn lemma_d_j_state_done(o: Outcome, bm: Seq<Space>, rest: Seq<u8>)
    requires
        bm.len() == 9,
    ensures
        d_j_state(j_state(StateModel::Done(o, bm)) + rest) == Some((
            StateModel::Done(o, bm),
            rest,
        )),
{
    lemma_state_lits();
    let sm = StateModel::Done(o, bm);
    let b = j_state(sm) + rest;
    let kf = lit("{\"Finished\":{\"winner\":"@);
    let t1 = j_outcome(o) + (lit(",\"board\":"@) + (j_board(bm) + (lit("}}"@) + rest)));
    assert(b =~= kf + t1);
    assert(b[2] == kf[2]);
    reveal_strlit("{\"AwaitingApproval\":{\"inviter\":");
    reveal_strlit("{\"InProgress\":{\"board\":");
    reveal_strlit("{\"Finished\":{\"winner\":");
    lemma_lit_not_prefix2("{\"AwaitingApproval\":{\"inviter\":"@, b);
    lemma_lit_not_prefix2("{\"InProgress\":{\"board\":"@, b);
    lemma_dec_enc_lit(kf, t1);
    lemma_d_j_outcome(o, lit(",\"board\":"@) + (j_board(bm) + (lit("}}"@) + rest)));
    lemma_dec_enc_lit(lit(",\"board\":"@), j_board(bm) + (lit("}}"@) + rest));
    lemma_d_j_board(bm, lit("}}"@) + rest);
    lemma_dec_enc_lit(lit("}}"@), rest);
}

#[verifier::spinoff_prover]
pub proof fn lemma_d_j_state_cancelled(t: Seq<char>, rest: Seq<u8>)
    requires
        wf_text(t),
        t.len() <= u64::MAX,
    ensures
        d_j_state(j_state(StateModel::Cancelled(t)) + rest) == Some((
            StateModel::Cancelled(t),
            rest,
        )),
{
    lemma_state_lits();
    let sm = StateModel::Cancelled(t);
    let b = j_state(sm) + rest;
    let kc = lit("{\"Cancelled\":"@);
    let t1 = json_str(t) + (seq![125u8] + rest);
    assert(b =~= kc + t1);
    assert(b[2] == kc[2]);
    reveal_strlit("{\"AwaitingApproval\":{\"inviter\":");
    reveal_strlit("{\"InProgress\":{\"board\":");
    reveal_strlit("{\"Finished\":{\"winner\":");
    lemma_lit_not_prefix2("{\"AwaitingApproval\":{\"inviter\":"@, b);
    lemma_lit_not_prefix2("{\"InProgress\":{\"board\":"@, b);
    lemma_lit_not_prefix2("{\"Finished\":{\"winner\":"@, b);
    lemma_dec_enc_lit(kc, t1);
    lemma_dec_enc_str(t, seq![125u8] + rest);
    let t2 = seq![125u8] + rest;
    assert(t2[0] == 125);
    assert(t2.skip(1) =~= rest);
}

proof fn lemma_d_j_state(sm: StateModel, rest: Seq<u8>)
    requires
        match sm {
            StateModel::Awaiting(_) => true,
            StateModel::Playing(bm) => bm.len() == 9,
            StateModel::Done(_, bm) => bm.len() == 9,
            StateModel::Cancelled(t) => wf_text(t) && t.len() <= u64::MAX,
        },
    ensures
        d_j_state(j_state(sm) + rest) == Some((sm, rest)),
{
    match sm {
        StateModel::Awaiting(a) => lemma_d_j_state_awaiting(a, rest),
        StateModel::Playing(bm) => lemma_d_j_state_playing(bm, rest),
        StateModel::Done(o, bm) => lemma_d_j_state_done(o, bm, rest),
        StateModel::Cancelled(t) => lemma_d_j_state_cancelled(t, rest),
    }
}

/// Parsing a legacy payload made from a well-formed model yields the model.
#[verifier::rlimit(100)]
#[verifier::spinoff_prover]
pub proof fn lemma_d_j_game(m: GameModel)
    requires
        wf_model(m),
    ensures
        d_j_game(j_game(m)) == Some(m),
{
    lemma_game_lits();
    let b = j_game(m);
    let l1 = lit("{\"players\":["@);
    let l2 = lit("],\"index\":"@);
    let l3 = lit(",\"gamestate\":"@);
    let l4 = lit(",\"last_time\":"@);
    let t1 = j_items(m.players) + (l2 + (json_num(m.cursor as nat) + (l3 + (j_state(m.state) + (l4
        + (json_num(m.last_time as nat) + seq![125u8]))))));
    assert(b =~= l1 + t1);
    lemma_dec_enc_lit(l1, t1);
    let t2 = l2 + (json_num(m.cursor as nat) + (l3 + (j_state(m.state) + (l4 + (json_num(
        m.last_time as nat,
    ) + seq![125u8])))));
    assert(t1 =~= j_items(m.players) + t2);
    assert(t2[0] == 93 && t2[0] != 44 && t2[0] != 123);
    lemma_d_j_players(m.players, t2);
    let t3 = json_num(m.cursor as nat) + (l3 + (j_state(m.state) + (l4 + (json_num(
        m.last_time as nat,
    ) + seq![125u8]))));
    lemma_dec_enc_lit(l2, t3);
    let t4 = l3 + (j_state(m.state) + (l4 + (json_num(m.last_time as nat) + seq![125u8])));
    assert(t4[0] == 44 && !is_digit(t4[0]));
    assert(m.cursor as nat <= u64::MAX);
    lemma_dec_enc_num((m.cursor as nat) as u64, t4);
    let t5 = j_state(m.state) + (l4 + (json_num(m.last_time as nat) + seq![125u8]));
    lemma_dec_enc_lit(l3, t5);
    lemma_d_j_state(m.state, l4 + (json_num(m.last_time as nat) + seq![125u8]));
    let t6 = json_num(m.last_time as nat) + seq![125u8];
    lemma_dec_enc_lit(l4, t6);
    let t7 = seq![125u8];
    assert(t7[0] == 125 && !is_digit(t7[0]));
    lemma_dec_enc_num(m.last_time, t7);
}

// ---------------------------------------------------------------------------
// exec encoding
// ---------------------------------------------------------------------------

pub fn write_space(out: &mut Vec<u8>, s: Space)
    ensures
        final(out)@ == old(out)@ + enc_space(s),
{
    match s {
        Space::X => write_byte(out, 0),
        Space::O => write_byte(out, 1),
        Space::Empty => write_byte(out, 2),
    }
}

pub fn write_player(out: &mut Vec<u8>, p: &Player)
    ensures
        final(out)@ == old(out)@ + enc_player(*p),
{
    write_u64(out, p.id);
    write_space(out, p.piece);
    proof {
        assert(out@ =~= old(out)@ + enc_player(*p));
    }
}

pub fn write_board(out: &mut Vec<u8>, b: &Board)
    requires
        b.wf(),
    ensures
        final(out)@ == old(out)@ + enc_board_model(board_model(b)),
{
    let ghost bm = board_model(b);
    let ghost base = out@;
    let mut x: usize = 0;
    while x < 3
        invariant
            b.wf(),
            bm == board_model(b),
            x <= 3,
            out@ == base + enc_list(bm.take(3 * x), space_e()),
        decreases 3 - x,
    {
        let ghost k = 3 * x as int;
        write_space(out, b.get(x, 0));
        write_space(out, b.get(x, 1));
        write_space(out, b.get(x, 2));
        proof {
            lemma_enc_list_snoc(bm.take(k), bm[k], space_e());
            lemma_enc_list_snoc(bm.take(k + 1), bm[k + 1], space_e());
            lemma_enc_list_snoc(bm.take(k + 2), bm[k + 2], space_e());
            assert(bm.take(k + 1) =~= bm.take(k).push(bm[k]));
            assert(bm.take(k + 2) =~= bm.take(k + 1).push(bm[k + 1]));
            assert(bm.take(k + 3) =~= bm.take(k + 2).push(bm[k + 2]));
            assert(bm[k] == b.at(x as int, 0) && bm[k + 1] == b.at(x as int, 1) && bm[k + 2] == b.at(
                x as int,
                2,
            ));
            assert(out@ =~= base + enc_list(bm.take(k + 3), space_e()));
        }
        x = x + 1;
    }
    proof {
        assert(bm.take(9) =~= bm);
    }
}

pub fn write_outcome(out: &mut Vec<u8>, o: &Outcome)
    ensures
        final(out)@ == old(out)@ + enc_outcome(*o),
{
    match o {
        Outcome::Win(p) => {
            write_byte(out, 0);
            write_player(out, p);
            proof {
                assert(out@ =~= old(out)@ + enc_outcome(*o));
            }
        },
        Outcome::Tie => {
            write_byte(out, 1);
        },
    }
}

fn write_state(out: &mut Vec<u8>, s: &State)
    requires
        match s {
            State::AwaitingApproval(_) => true,
            State::InProgress(ip) => ip.board.wf(),
            State::Finished(w) => w.board.wf(),
            State::Cancelled(reason) => wf_text(reason@) && reason@.len() <= u64::MAX,
        },
    ensures
        final(out)@ == old(out)@ + enc_state(state_model(s)),
{
    match s {
        State::AwaitingApproval(a) => {
            write_byte(out, 0);
            write_u64(out, a.inviter);
            write_u64(out, a.invitee);
            proof {
                assert(out@ =~= old(out)@ + enc_state(state_model(s)));
            }
        },
        State::InProgress(ip) => {
            write_byte(out, 1);
            write_board(out, &ip.board);
            proof {
                assert(out@ =~= old(out)@ + enc_state(state_model(s)));
            }
        },
        State::Finished(w) => {
            write_byte(out, 2);
            write_outcome(out, &w.winner);
            write_board(out, &w.board);
            proof {
                assert(out@ =~= old(out)@ + enc_state(state_model(s)));
            }
        },
        State::Cancelled(reason) => {
            write_byte(out, 3);
            write_text(out, reason.as_str());
            proof {
                assert(out@ =~= old(out)@ + enc_state(state_model(s)));
            }
        },
    }
}

/// Write the binary payload of a game.
pub fn game_to_bytes(g: &Game) -> (out: Vec<u8>)
    requires
        g.wf(),
    ensures
        out@ == enc_model(model(g)),
{
    let mut out: Vec<u8> = Vec::new();
    write_byte(&mut out, 1);
    let n: u64 = g.players.count() as u64;
    write_u64(&mut out, n);
    let ps = g.players.all();
    let ghost m = model(g);
    let mut i: usize = 0;
    while i < ps.len()
        invariant
            i <= ps@.len(),
            ps@ == m.players,
            out@ == seq![1u8] + enc_u64(m.players.len() as u64) + enc_list(
                m.players.take(i as int),
                player_e(),
            ),
        decreases ps@.len() - i,
    {
        let p = ps[i];
        write_player(&mut out, &p);
        proof {
            lemma_enc_list_snoc(m.players.take(i as int), m.players[i as int], player_e());
            assert(m.players.take(i as int + 1) =~= m.players.take(i as int).push(
                m.players[i as int],
            ));
        }
        i = i + 1;
    }
    proof {
        assert(m.players.take(ps@.len() as int) =~= m.players);
    }
    let idx: u64 = g.players.cursor_index() as u64;
    write_u64(&mut out, idx);
    write_state(&mut out, &g.gamestate);
    write_u64(&mut out, g.last_time);
    proof {
        assert(out@ =~= enc_model(m));
    }
    out
}

// ---------------------------------------------------------------------------
// exec parsing
// ---------------------------------------------------------------------------

pub fn read_space(b: &Vec<u8>, pos: usize) -> (r: Option<(Space, usize)>)
    requires
        pos <= b@.len(),
    ensures
        match r {
            Some(vp) => {
                &&& pos < vp.1 <= b@.len()
                &&& dec_space(b@.skip(pos as int)) == Some((vp.0, b@.skip(vp.1 as int)))
            },
            None => dec_space(b@.skip(pos as int)) is None,
        },
{
    match read_byte(b, pos) {
        None => None,
        Some((t, p)) => {
            if t == 0 {
                Some((Space::X, p))
            } else if t == 1 {
                Some((Space::O, p))
            } else if t == 2 {
                Some((Space::Empty, p))
            } else {
                None
            }
        },
    }
}

pub fn read_player(b: &Vec<u8>, pos: usize) -> (r: Option<(Player, usize)>)
    requires
        pos <= b@.len(),
    ensures
        match r {
            Some(vp) => {
                &&& pos < vp.1 <= b@.len()
                &&& dec_player(b@.skip(pos as int)) == Some((vp.0, b@.skip(vp.1 as int)))
            },
            None => dec_player(b@.skip(pos as int)) is None,
        },
{
    match read_u64(b, pos) {
        None => None,
        Some((id, p1)) => match read_space(b, p1) {
            None => None,
            Some((piece, p2)) => Some((Player { id, piece }, p2)),
        },
    }
}

pub fn read_board(b: &Vec<u8>, pos: usize) -> (r: Option<(Board, usize)>)
    requires
        pos <= b@.len(),
    ensures
        match r {
            Some(vp) => {
                &&& pos <= vp.1 <= b@.len()
                &&& vp.0.wf()
                &&& dec_board(b@.skip(pos as int)) == Some(
                    (board_model(&vp.0), b@.skip(vp.1 as int)),
                )
            },
            None => dec_board(b@.skip(pos as int)) is None,
        },
{
    let mut cells: Vec<Space> = Vec::new();
    let mut p = pos;
    let mut i: usize = 0;
    proof {
        assert(cells@ =~= Seq::<Space>::empty());
    }
    while i < 9
        invariant
            i <= 9,
            pos <= p <= b@.len(),
            cells@.len() == i,
            dec_list(b@.skip(pos as int), 9, space_d()) == (match dec_list(
                b@.skip(p as int),
                (9 - i) as nat,
                space_d(),
            ) {
                Some((vs, rr)) => Some((cells@ + vs, rr)),
                None => None::<(Seq<Space>, Seq<u8>)>,
            }),
        decreases 9 - i,
    {
        match read_space(b, p) {
            None => {
                return None;
            },
            Some((sp, p2)) => {
                let ghost prev = cells@;
                cells.push(sp);
                proof {
                    assert(cells@ =~= prev.push(sp));
                    if dec_list(b@.skip(p2 as int), (8 - i) as nat, space_d()) is Some {
                        let (vs, rr) = dec_list(
                            b@.skip(p2 as int),
                            (8 - i) as nat,
                            space_d(),
                        )->Some_0;
                        assert(prev + (seq![sp] + vs) =~= (prev.push(sp)) + vs);
                    }
                }
                p = p2;
                i = i + 1;
            },
        }
    }
    let board = Board {
        spaces: {
            let mut spaces: Vec<Vec<Space>> = Vec::new();
            let mut r0: Vec<Space> = Vec::new();
            r0.push(cells[0]);
            r0.push(cells[1]);
            r0.push(cells[2]);
            let mut r1: Vec<Space> = Vec::new();
            r1.push(cells[3]);
            r1.push(cells[4]);
            r1.push(cells[5]);
            let mut r2: Vec<Space> = Vec::new();
            r2.push(cells[6]);
            r2.push(cells[7]);
            r2.push(cells[8]);
            spaces.push(r0);
            spaces.push(r1);
            spaces.push(r2);
            spaces
        },
    };
    proof {
        assert(board.wf());
        assert(board_model(&board) =~= cells@);
        assert(cells@ + Seq::<Space>::empty() =~= cells@);
    }
    Some((board, p))
}

pub fn read_outcome(b: &Vec<u8>, pos: usize) -> (r: Option<(Outcome, usize)>)
    requires
        pos <= b@.len(),
    ensures
        match r {
            Some(vp) => {
                &&& pos < vp.1 <= b@.len()
                &&& dec_outcome(b@.skip(pos as int)) == Some((vp.0, b@.skip(vp.1 as int)))
            },
            None => dec_outcome(b@.skip(pos as int)) is None,
        },
{
    match read_byte(b, pos) {
        None => None,
        Some((t, p1)) => {
            if t == 0 {
                match read_player(b, p1) {
                    None => None,
                    Some((pl, p2)) => Some((Outcome::Win(pl), p2)),
                }
            } else if t == 1 {
                Some((Outcome::Tie, p1))
            } else {
                None
            }
        },
    }
}

fn read_state(b: &Vec<u8>, pos: usize) -> (r: Option<(State, usize)>)
    requires
        pos <= b@.len(),
    ensures
        match r {
            Some(vp) => {
                &&& pos < vp.1 <= b@.len()
                &&& dec_state(b@.skip(pos as int)) == Some(
                    (state_model(&vp.0), b@.skip(vp.1 as int)),
                )
                &&& match vp.0 {
                    State::AwaitingApproval(_) => true,
                    State::InProgress(ip) => ip.board.wf(),
                    State::Finished(w) => w.board.wf(),
                    State::Cancelled(reason) => wf_text(reason@) && reason@.len() <= u64::MAX,
                }
            },
            None => dec_state(b@.skip(pos as int)) is None,
        },
{
    match read_byte(b, pos) {
        None => None,
        Some((t, p1)) => {
            if t == 0 {
                match read_u64(b, p1) {
                    None => None,
                    Some((inviter, p2)) => match read_u64(b, p2) {
                        None => None,
                        Some((invitee, p3)) => Some(
                            (State::AwaitingApproval(Awaiting { inviter, invitee }), p3),
                        ),
                    },
                }
            } else if t == 1 {
                match read_board(b, p1) {
                    None => None,
                    Some((board, p2)) => Some((State::InProgress(InProgress { board }), p2)),
                }
            } else if t == 2 {
                match read_outcome(b, p1) {
                    None => None,
                    Some((o, p2)) => match read_board(b, p2) {
                        None => None,
                        Some((board, p3)) => Some(
                            (State::Finished(WonGame { winner: o, board }), p3),
                        ),
                    },
                }
            } else if t == 3 {
                match read_text(b, p1) {
                    None => None,
                    Some((reason, p2)) => {
                        proof {
                            crate::bytes::lemma_dec_text_sound(b@.skip(p1 as int));
                            lemma_auto_u64();
                        }
                        Some((State::Cancelled(reason), p2))
                    },
                }
            } else {
                None
            }
        },
    }
}

/// Parse a whole binary payload into a game.
pub fn game_of_bytes(b: &Vec<u8>) -> (r: Option<Game>)
    ensures
        match r {
            Some(g) => {
                &&& g.wf()
                &&& dec_game(b@) == Some(model(&g))
            },
            None => dec_game(b@) is None,
        },
{
    let blen = b.len();
    if blen < 1 || b[0] != 1 {
        return None;
    }
    proof {
        assert(b@.skip(0).skip(1) =~= b@.skip(1));
    }
    let (n, p1) = match read_u64(b, 1) {
        None => {
            return None;
        },
        Some(v) => v,
    };
    // the player run
    let mut players: Vec<Player> = Vec::new();
    let mut p = p1;
    let mut i: u64 = 0;
    proof {
        assert(players@ =~= Seq::<Player>::empty());
    }
    while i < n
        invariant
            i <= n,
            1 <= p <= b@.len(),
            p1 <= b@.len(),
            players@.len() == i,
            b@.len() >= 1 && b@[0] == 1,
            dec_u64(b@.skip(1)) == Some((n, b@.skip(p1 as int))),
            dec_list(b@.skip(p1 as int), n as nat, player_d()) == (match dec_list(
                b@.skip(p as int),
                (n - i) as nat,
                player_d(),
            ) {
                Some((vs, rr)) => Some((players@ + vs, rr)),
                None => None::<(Seq<Player>, Seq<u8>)>,
            }),
        decreases n - i,
    {
        match read_player(b, p) {
            None => {
                return None;
            },
            Some((pl, p2)) => {
                let ghost prev = players@;
                players.push(pl);
                proof {
                    assert(players@ =~= prev.push(pl));
                    if dec_list(b@.skip(p2 as int), (n - i - 1) as nat, player_d()) is Some {
                        let (vs, rr) = dec_list(
                            b@.skip(p2 as int),
                            (n - i - 1) as nat,
                            player_d(),
                        )->Some_0;
                        assert(prev + (seq![pl] + vs) =~= (prev.push(pl)) + vs);
                    }
                }
                p = p2;
                i = i + 1;
            },
        }
    }
    proof {
        assert(players@ + Seq::<Player>::empty() =~= players@);
    }
    let (idx, p3) = match read_u64(b, p) {
        None => {
            return None;
        },
        Some(v) => v,
    };
    let ok_idx = if players.len() == 0 {
        idx == 0
    } else {
        idx < players.len() as u64
    };
    if !ok_idx {
        return None;
    }
    let (st, p4) = match read_state(b, p3) {
        None => {
            return None;
        },
        Some(v) => v,
    };
    let (lt, p5) = match read_u64(b, p4) {
        None => {
            return None;
        },
        Some(v) => v,
    };
    if p5 != blen {
        proof {
            assert(b@.skip(p5 as int).len() != 0);
        }
        return None;
    }
    proof {
        assert(b@.skip(p5 as int).len() == 0);
    }
    let idx_us: usize = idx as usize;
    let cyc = CycleVec::from_parts(players, idx_us);
    let g = Game { players: cyc, gamestate: st, last_time: lt };
    proof {
        assert(model(&g).players =~= g.players.players());
    }
    Some(g)
}

// ---------------------------------------------------------------------------
// exec encoding and parsing for the legacy record
// ---------------------------------------------------------------------------

pub proof fn lemma_j_cells_tail_snoc(s: Seq<Space>, x: Space)
    ensures
        j_cells_tail(s.push(x)) =~= j_cells_tail(s) + (seq![44u8] + j_space(x)),
    decreases s.len(),
{
    if s.len() == 0 {
        assert(s.push(x).drop_first() =~= Seq::<Space>::empty());
        assert(s.push(x)[0] == x);
        assert(j_cells_tail(Seq::<Space>::empty()) =~= Seq::<u8>::empty());
    } else {
        lemma_j_cells_tail_snoc(s.drop_first(), x);
        assert(s.push(x).drop_first() =~= s.drop_first().push(x));
        assert(s.push(x)[0] == s[0]);
        assert(seq![44u8] + j_space(s[0]) + (j_cells_tail(s.drop_first()) + (seq![44u8] + j_space(
            x,
        ))) =~= (seq![44u8] + j_space(s[0]) + j_cells_tail(s.drop_first())) + (seq![44u8] + j_space(
            x,
        )));
    }
}

pub proof fn lemma_j_items_tail_snoc(s: Seq<Player>, x: Player)
    ensures
        j_items_tail(s.push(x)) =~= j_items_tail(s) + (seq![44u8] + j_player(x)),
    decreases s.len(),
{
    if s.len() == 0 {
        assert(s.push(x).drop_first() =~= Seq::<Player>::empty());
        assert(s.push(x)[0] == x);
        assert(j_items_tail(Seq::<Player>::empty()) =~= Seq::<u8>::empty());
    } else {
        lemma_j_items_tail_snoc(s.drop_first(), x);
        assert(s.push(x).drop_first() =~= s.drop_first().push(x));
        assert(s.push(x)[0] == s[0]);
        assert(seq![44u8] + j_player(s[0]) + (j_items_tail(s.drop_first()) + (seq![44u8] + j_player(
            x,
        ))) =~= (seq![44u8] + j_player(s[0]) + j_items_tail(s.drop_first())) + (seq![44u8]
            + j_player(x)));
    }
}

pub fn jw_space(out: &mut Vec<u8>, s: Space)
    ensures
        final(out)@ == old(out)@ + j_space(s),
{
    match s {
        Space::X => write_lit(out, "\"X\""),
        Space::O => write_lit(out, "\"O\""),
        Space::Empty => write_lit(out, "\"Empty\""),
    }
}

pub fn jw_player(out: &mut Vec<u8>, p: &Player)
    ensures
        final(out)@ == old(out)@ + j_player(*p),
{
    write_lit(out, "{\"id\":");
    write_num(out, p.id);
    write_lit(out, ",\"piece\":");
    jw_space(out, p.piece);
    out.push(125);
    proof {
        assert(out@ =~= old(out)@ + j_player(*p));
    }
}

pub fn jw_board(out: &mut Vec<u8>, b: &Board)
    requires
        b.wf(),
    ensures
        final(out)@ == old(out)@ + j_board(board_model(b)),
{
    let ghost bm = board_model(b);
    let ghost base = out@;
    let mut cells: Vec<Space> = Vec::new();
    cells.push(b.get(0, 0));
    cells.push(b.get(0, 1));
    cells.push(b.get(0, 2));
    cells.push(b.get(1, 0));
    cells.push(b.get(1, 1));
    cells.push(b.get(1, 2));
    cells.push(b.get(2, 0));
    cells.push(b.get(2, 1));
    cells.push(b.get(2, 2));
    proof {
        assert(cells@ =~= bm);
    }
    out.push(91);
    jw_space(out, cells[0]);
    proof {
        assert(bm.take(1).drop_first() =~= Seq::<Space>::empty());
        assert(out@ =~= base + seq![91u8] + j_space(bm[0]) + j_cells_tail(bm.take(1).drop_first()));
    }
    let mut i: usize = 1;
    while i < 9
        invariant
            1 <= i <= 9,
            cells@ == bm,
            bm.len() == 9,
            out@ == base + seq![91u8] + j_space(bm[0]) + j_cells_tail(bm.take(i as int).drop_first()),
        decreases 9 - i,
    {
        out.push(44);
        jw_space(out, cells[i]);
        proof {
            lemma_j_cells_tail_snoc(bm.take(i as int).drop_first(), bm[i as int]);
            assert(bm.take(i as int + 1).drop_first() =~= bm.take(i as int).drop_first().push(
                bm[i as int],
            ));
            assert(out@ =~= base + seq![91u8] + j_space(bm[0]) + j_cells_tail(
                bm.take(i as int + 1).drop_first(),
            ));
        }
        i = i + 1;
    }
    out.push(93);
    proof {
        assert(bm.take(9) =~= bm);
        assert(out@ =~= base + j_board(bm));
    }
}

pub fn jw_outcome(out: &mut Vec<u8>, o: &Outcome)
    ensures
        final(out)@ == old(out)@ + j_outcome(*o),
{
    match o {
        Outcome::Win(p) => {
            write_lit(out, "{\"Win\":");
            jw_player(out, p);
            out.push(125);
            proof {
                assert(out@ =~= old(out)@ + j_outcome(*o));
            }
        },
        Outcome::Tie => {
            write_lit(out, "\"Tie\"");
        },
    }
}

fn jw_state(out: &mut Vec<u8>, s: &State)
    requires
        match s {
            State::AwaitingApproval(_) => true,
            State::InProgress(ip) => ip.board.wf(),
            State::Finished(w) => w.board.wf(),
            State::Cancelled(reason) => wf_text(reason@),
        },
    ensures
        final(out)@ == old(out)@ + j_state(state_model(s)),
{
    match s {
        State::AwaitingApproval(a) => {
            write_lit(out, "{\"AwaitingApproval\":{\"inviter\":");
            write_num(out, a.inviter);
            write_lit(out, ",\"invitee\":");
            write_num(out, a.invitee);
            write_lit(out, "}}");
            proof {
                assert(out@ =~= old(out)@ + j_state(state_model(s)));
            }
        },
        State::InProgress(ip) => {
            write_lit(out, "{\"InProgress\":{\"board\":");
            jw_board(out, &ip.board);
            write_lit(out, "}}");
            proof {
                assert(out@ =~= old(out)@ + j_state(state_model(s)));
            }
        },
        State::Finished(w) => {
            write_lit(out, "{\"Finished\":{\"winner\":");
            jw_outcome(out, &w.winner);
            write_lit(out, ",\"board\":");
            jw_board(out, &w.board);
            write_lit(out, "}}");
            proof {
                assert(out@ =~= old(out)@ + j_state(state_model(s)));
            }
        },
        State::Cancelled(reason) => {
            write_lit(out, "{\"Cancelled\":");
            crate::json::write_str(out, reason.as_str());
            out.push(125);
            proof {
                assert(out@ =~= old(out)@ + j_state(state_model(s)));
            }
        },
    }
}

/// Write the legacy JSON payload of a game.
pub fn game_to_json(g: &Game) -> (out: Vec<u8>)
    requires
        g.wf(),
    ensures
        out@ == j_game(model(g)),
{
    let ghost m = model(g);
    let mut out: Vec<u8> = Vec::new();
    write_lit(&mut out, "{\"players\":[");
    let ps = g.players.all();
    if ps.len() > 0 {
        let p0 = ps[0];
        jw_player(&mut out, &p0);
        proof {
            assert(m.players.take(1).drop_first() =~= Seq::<Player>::empty());
            assert(out@ =~= lit("{\"players\":["@) + j_player(m.players[0]) + j_items_tail(
                m.players.take(1).drop_first(),
            ));
        }
        let mut i: usize = 1;
        while i < ps.len()
            invariant
                1 <= i <= ps@.len(),
                ps@ == m.players,
                out@ == lit("{\"players\":["@) + j_player(m.players[0]) + j_items_tail(
                    m.players.take(i as int).drop_first(),
                ),
            decreases ps@.len() - i,
        {
            out.push(44);
            let pi = ps[i];
            jw_player(&mut out, &pi);
            proof {
                lemma_j_items_tail_snoc(m.players.take(i as int).drop_first(), m.players[i as int]);
                assert(m.players.take(i as int + 1).drop_first() =~= m.players.take(
                    i as int,
                ).drop_first().push(m.players[i as int]));
                assert(out@ =~= lit("{\"players\":["@) + j_player(m.players[0]) + j_items_tail(
                    m.players.take(i as int + 1).drop_first(),
                ));
            }
            i = i + 1;
        }
        proof {
            assert(m.players.take(ps@.len() as int) =~= m.players);
            assert(out@ =~= lit("{\"players\":["@) + j_items(m.players));
        }
    } else {
        proof {
            assert(out@ =~= lit("{\"players\":["@) + j_items(m.players));
        }
    }
    write_lit(&mut out, "],\"index\":");
    write_num(&mut out, g.players.cursor_index() as u64);
    write_lit(&mut out, ",\"gamestate\":");
    jw_state(&mut out, &g.gamestate);
    write_lit(&mut out, ",\"last_time\":");
    write_num(&mut out, g.last_time);
    out.push(125);
    proof {
        assert(out@ =~= j_game(m));
    }
    out
}

pub fn jr_space(b: &Vec<u8>, pos: usize) -> (r: Option<(Space, usize)>)
    requires
        pos <= b@.len(),
    ensures
        match r {
            Some(vp) => {
                &&& pos <= vp.1 <= b@.len()
                &&& d_j_space(b@.skip(pos as int)) == Some((vp.0, b@.skip(vp.1 as int)))
            },
            None => d_j_space(b@.skip(pos as int)) is None,
        },
{
    match expect(b, pos, "\"X\"") {
        Some(p) => Some((Space::X, p)),
        None => match expect(b, pos, "\"O\"") {
            Some(p) => Some((Space::O, p)),
            None => match expect(b, pos, "\"Empty\"") {
                Some(p) => Some((Space::Empty, p)),
                None => None,
            },
        },
    }
}

pub fn jr_player(b: &Vec<u8>, pos: usize) -> (r: Option<(Player, usize)>)
    requires
        pos <= b@.len(),
    ensures
        match r {
            Some(vp) => {
                &&& pos < vp.1 <= b@.len()
                &&& d_j_player(b@.skip(pos as int)) == Some((vp.0, b@.skip(vp.1 as int)))
            },
            None => d_j_player(b@.skip(pos as int)) is None,
        },
{
    let p1 = match expect(b, pos, "{\"id\":") {
        Some(p) => p,
        None => {
            return None;
        },
    };
    let (id, p2) = match read_num(b, p1) {
        Some(v) => v,
        None => {
            return None;
        },
    };
    let p3 = match expect(b, p2, ",\"piece\":") {
        Some(p) => p,
        None => {
            return None;
        },
    };
    let (piece, p4) = match jr_space(b, p3) {
        Some(v) => v,
        None => {
            return None;
        },
    };
    if p4 < b.len() && b[p4] == 125 {
        proof {
            assert(b@.skip(p4 as int)[0] == 125);
            assert(b@.skip(p4 as int).skip(1) =~= b@.skip(p4 as int + 1));
            reveal_strlit("{\"id\":");
            crate::json::lemma_lit_head1("{\"id\":"@);
        }
        Some((Player { id, piece }, p4 + 1))
    } else {
        proof {
            if p4 < b@.len() {
                assert(b@.skip(p4 as int)[0] == b@[p4 as int]);
            }
        }
        None
    }
}

pub fn jr_cells(b: &Vec<u8>, pos: usize) -> (r: Option<(Vec<Space>, usize)>)
    requires
        pos <= b@.len(),
    ensures
        match r {
            Some(vp) => {
                &&& pos < vp.1 <= b@.len()
                &&& d_j_board(b@.skip(pos as int)) == Some((vp.0@, b@.skip(vp.1 as int)))
            },
            None => d_j_board(b@.skip(pos as int)) is None,
        },
{
    let blen = b.len();
    if pos >= blen || b[pos] != 91 {
        proof {
            if pos < b@.len() {
                assert(b@.skip(pos as int)[0] == b@[pos as int]);
            }
        }
        return None;
    }
    proof {
        assert(b@.skip(pos as int)[0] == 91);
        assert(b@.skip(pos as int).skip(1) =~= b@.skip(pos as int + 1));
    }
    let mut cells: Vec<Space> = Vec::new();
    if pos + 1 < blen && b[pos + 1] == 93 {
        proof {
            assert(b@.skip(pos as int + 1)[0] == 93);
            assert(b@.skip(pos as int + 1).skip(1) =~= b@.skip(pos as int + 2));
            assert(cells@ =~= Seq::<Space>::empty());
        }
        return Some((cells, pos + 2));
    }
    proof {
        if pos + 1 < b@.len() {
            assert(b@.skip(pos as int + 1)[0] == b@[pos as int + 1]);
        }
    }
    let (s0, first_p) = match jr_space(b, pos + 1) {
        Some(v) => v,
        None => {
            return None;
        },
    };
    let mut p = first_p;
    cells.push(s0);
    let ghost tail0 = b@.skip(pos as int);
    proof {
        assert(cells@ =~= seq![s0]);
    }
    loop
        invariant
            b@.len() <= usize::MAX,
            blen == b@.len(),
            pos < p <= b@.len(),
            tail0 == b@.skip(pos as int),
            cells@.len() >= 1,
            d_j_board(tail0) == (match d_j_cells_more(b@.skip(p as int)) {
                Some((ss, rr)) => Some((cells@ + ss, rr)),
                None => None::<(Seq<Space>, Seq<u8>)>,
            }),
        decreases b@.len() - p,
    {
        if p < blen && b[p] == 44 {
            proof {
                assert(b@.skip(p as int)[0] == 44);
                assert(b@.skip(p as int).skip(1) =~= b@.skip(p as int + 1));
            }
            let (sp, p2) = match jr_space(b, p + 1) {
                Some(v) => v,
                None => {
                    return None;
                },
            };
            let ghost prev = cells@;
            cells.push(sp);
            proof {
                assert(cells@ =~= prev.push(sp));
                if d_j_cells_more(b@.skip(p2 as int)) is Some {
                    let (ss, rr) = d_j_cells_more(b@.skip(p2 as int))->Some_0;
                    assert(prev + (seq![sp] + ss) =~= prev.push(sp) + ss);
                }
            }
            p = p2;
        } else if p < blen && b[p] == 93 {
            proof {
                assert(b@.skip(p as int)[0] == 93);
                assert(b@.skip(p as int).skip(1) =~= b@.skip(p as int + 1));
                assert(cells@ + Seq::<Space>::empty() =~= cells@);
            }
            return Some((cells, p + 1));
        } else {
            proof {
                if p < b@.len() {
                    assert(b@.skip(p as int)[0] == b@[p as int]);
                }
            }
            return None;
        }
    }
}

pub fn build_board(cells: &Vec<Space>) -> (r: Board)
    requires
        cells@.len() == 9,
    ensures
        r.wf(),
        board_model(&r) == cells@,
{
    let mut spaces: Vec<Vec<Space>> = Vec::new();
    let mut r0: Vec<Space> = Vec::new();
    r0.push(cells[0]);
    r0.push(cells[1]);
    r0.push(cells[2]);
    let mut r1: Vec<Space> = Vec::new();
    r1.push(cells[3]);
    r1.push(cells[4]);
    r1.push(cells[5]);
    let mut r2: Vec<Space> = Vec::new();
    r2.push(cells[6]);
    r2.push(cells[7]);
    r2.push(cells[8]);
    spaces.push(r0);
    spaces.push(r1);
    spaces.push(r2);
    let b = Board { spaces };
    proof {
        assert(board_model(&b) =~= cells@);
    }
    b
}

pub fn jr_outcome(b: &Vec<u8>, pos: usize) -> (r: Option<(Outcome, usize)>)
    requires
        pos <= b@.len(),
    ensures
        match r {
            Some(vp) => {
                &&& pos < vp.1 <= b@.len()
                &&& d_j_outcome(b@.skip(pos as int)) == Some((vp.0, b@.skip(vp.1 as int)))
            },
            None => d_j_outcome(b@.skip(pos as int)) is None,
        },
{
    match expect(b, pos, "\"Tie\"") {
        Some(p) => {
            proof {
                reveal_strlit("\"Tie\"");
                crate::json::lemma_lit_head1("\"Tie\""@);
            }
            Some((Outcome::Tie, p))
        },
        None => {
            let p1 = match expect(b, pos, "{\"Win\":") {
                Some(p) => p,
                None => {
                    return None;
                },
            };
            let (pl, p2) = match jr_player(b, p1) {
                Some(v) => v,
                None => {
                    return None;
                },
            };
            if p2 < b.len() && b[p2] == 125 {
                proof {
                    assert(b@.skip(p2 as int)[0] == 125);
                    assert(b@.skip(p2 as int).skip(1) =~= b@.skip(p2 as int + 1));
                }
                Some((Outcome::Win(pl), p2 + 1))
            } else {
                proof {
                    if p2 < b@.len() {
                        assert(b@.skip(p2 as int)[0] == b@[p2 as int]);
                    }
                }
                None
            }
        },
    }
}

fn jr_state(b: &Vec<u8>, pos: usize) -> (r: Option<(State, usize)>)
    requires
        pos <= b@.len(),
    ensures
        match r {
            Some(vp) => {
                &&& pos < vp.1 <= b@.len()
                &&& d_j_state(b@.skip(pos as int)) == Some(
                    (state_model(&vp.0), b@.skip(vp.1 as int)),
                )
                &&& match vp.0 {
                    State::AwaitingApproval(_) => true,
                    State::InProgress(ip) => ip.board.wf(),
                    State::Finished(w) => w.board.wf(),
                    State::Cancelled(reason) => wf_text(reason@) && reason@.len() <= u64::MAX,
                }
            },
            None => d_j_state(b@.skip(pos as int)) is None,
        },
{
    if let Some(p1) = expect(b, pos, "{\"AwaitingApproval\":{\"inviter\":") {
        let (inviter, p2) = match read_num(b, p1) {
            Some(v) => v,
            None => {
                return None;
            },
        };
        let p3 = match expect(b, p2, ",\"invitee\":") {
            Some(p) => p,
            None => {
                return None;
            },
        };
        let (invitee, p4) = match read_num(b, p3) {
            Some(v) => v,
            None => {
                return None;
            },
        };
        let p5 = match expect(b, p4, "}}") {
            Some(p) => p,
            None => {
                return None;
            },
        };
        proof {
            reveal_strlit("{\"AwaitingApproval\":{\"inviter\":");
            crate::json::lemma_lit_head1("{\"AwaitingApproval\":{\"inviter\":"@);
        }
        return Some((State::AwaitingApproval(Awaiting { inviter, invitee }), p5));
    }
    if let Some(p1) = expect(b, pos, "{\"InProgress\":{\"board\":") {
        let (cells, p2) = match jr_cells(b, p1) {
            Some(v) => v,
            None => {
                return None;
            },
        };
        if cells.len() != 9 {
            return None;
        }
        let p3 = match expect(b, p2, "}}") {
            Some(p) => p,
            None => {
                return None;
            },
        };
        let board = build_board(&cells);
        return Some((State::InProgress(InProgress { board }), p3));
    }
    if let Some(p1) = expect(b, pos, "{\"Finished\":{\"winner\":") {
        let (o, p2) = match jr_outcome(b, p1) {
            Some(v) => v,
            None => {
                return None;
            },
        };
        let p3 = match expect(b, p2, ",\"board\":") {
            Some(p) => p,
            None => {
                return None;
            },
        };
        let (cells, p4) = match jr_cells(b, p3) {
            Some(v) => v,
            None => {
                return None;
            },
        };
        if cells.len() != 9 {
            return None;
        }
        let p5 = match expect(b, p4, "}}") {
            Some(p) => p,
            None => {
                return None;
            },
        };
        let board = build_board(&cells);
        return Some((State::Finished(WonGame { winner: o, board }), p5));
    }
    if let Some(p1) = expect(b, pos, "{\"Cancelled\":") {
        let (reason, p2) = match read_str(b, p1) {
            Some(v) => v,
            None => {
                return None;
            },
        };
        if p2 < b.len() && b[p2] == 125 {
            proof {
                assert(b@.skip(p2 as int)[0] == 125);
                assert(b@.skip(p2 as int).skip(1) =~= b@.skip(p2 as int + 1));
                crate::json::lemma_dec_str_sound(b@.skip(p1 as int));
            }
            return Some((State::Cancelled(reason), p2 + 1));
        } else {
            proof {
                if p2 < b@.len() {
                    assert(b@.skip(p2 as int)[0] == b@[p2 as int]);
                }
            }
            return None;
        }
    }
    None
}

pub fn jr_players(b: &Vec<u8>, pos: usize) -> (r: Option<(Vec<Player>, usize)>)
    requires
        pos <= b@.len(),
    ensures
        match r {
            Some(vp) => {
                &&& pos <= vp.1 <= b@.len()
                &&& d_j_players(b@.skip(pos as int)) == Some((vp.0@, b@.skip(vp.1 as int)))
            },
            None => d_j_players(b@.skip(pos as int)) is None,
        },
{
    let blen = b.len();
    let mut players: Vec<Player> = Vec::new();
    if !(pos < blen && b[pos] == 123) {
        proof {
            if pos < b@.len() {
                assert(b@.skip(pos as int)[0] == b@[pos as int]);
            }
            assert(players@ =~= Seq::<Player>::empty());
        }
        return Some((players, pos));
    }
    proof {
        assert(b@.skip(pos as int)[0] == 123);
    }
    let (pl0, p1) = match jr_player(b, pos) {
        Some(v) => v,
        None => {
            return None;
        },
    };
    players.push(pl0);
    let mut p = p1;
    proof {
        assert(players@ =~= seq![pl0]);
    }
    loop
        invariant
            b@.len() <= usize::MAX,
            blen == b@.len(),
            pos < p <= b@.len(),
            players@.len() >= 1,
            d_j_players(b@.skip(pos as int)) == (match d_j_players_more(b@.skip(p as int)) {
                Some((ps, rr)) => Some((players@ + ps, rr)),
                None => None::<(Seq<Player>, Seq<u8>)>,
            }),
        decreases b@.len() - p,
    {
        if p < blen && b[p] == 44 {
            proof {
                assert(b@.skip(p as int)[0] == 44);
                assert(b@.skip(p as int).skip(1) =~= b@.skip(p as int + 1));
            }
            let (pl, p2) = match jr_player(b, p + 1) {
                Some(v) => v,
                None => {
                    return None;
                },
            };
            let ghost prev = players@;
            players.push(pl);
            proof {
                assert(players@ =~= prev.push(pl));
                if d_j_players_more(b@.skip(p2 as int)) is Some {
                    let (ps, rr) = d_j_players_more(b@.skip(p2 as int))->Some_0;
                    assert(prev + (seq![pl] + ps) =~= prev.push(pl) + ps);
                }
            }
            p = p2;
        } else {
            proof {
                if p < b@.len() {
                    assert(b@.skip(p as int)[0] == b@[p as int]);
                }
                assert(players@ + Seq::<Player>::empty() =~= players@);
            }
            return Some((players, p));
        }
    }
}

#[verifier::rlimit(100)]
#[verifier::spinoff_prover]
fn jr_game_rest(players: Vec<Player>, b: &Vec<u8>, p: usize) -> (r: Option<Game>)
    requires
        p <= b@.len(),
    ensures
        match r {
            Some(g) => {
                &&& g.wf()
                &&& d_j_game_rest(players@, b@.skip(p as int)) == Some(model(&g))
            },
            None => d_j_game_rest(players@, b@.skip(p as int)) is None,
        },
{
    let blen = b.len();
    let p3 = match expect(b, p, "],\"index\":") {
        Some(v) => v,
        None => {
            return None;
        },
    };
    let (idx, p4) = match read_num(b, p3) {
        Some(v) => v,
        None => {
            return None;
        },
    };
    let n = players.len();
    let ok_idx = if n == 0 {
        idx == 0
    } else {
        idx < n as u64
    };
    if !ok_idx {
        return None;
    }
    let p5 = match expect(b, p4, ",\"gamestate\":") {
        Some(v) => v,
        None => {
            return None;
        },
    };
    let (st, p6) = match jr_state(b, p5) {
        Some(v) => v,
        None => {
            return None;
        },
    };
    let p7 = match expect(b, p6, ",\"last_time\":") {
        Some(v) => v,
        None => {
            return None;
        },
    };
    let (lt, p8) = match read_num(b, p7) {
        Some(v) => v,
        None => {
            return None;
        },
    };
    if !(blen > 0 && p8 == blen - 1 && b[p8] == 125) {
        proof {
            if p8 < b@.len() {
                assert(b@.skip(p8 as int)[0] == b@[p8 as int]);
            }
            assert(b@.skip(p8 as int).len() == b@.len() - p8);
        }
        return None;
    }
    proof {
        assert(b@.skip(p8 as int).len() == 1);
        assert(b@.skip(p8 as int)[0] == 125);
    }
    let idx_us: usize = idx as usize;
    let cyc = CycleVec::from_parts(players, idx_us);
    let g = Game { players: cyc, gamestate: st, last_time: lt };
    proof {
        vstd::std_specs::vec::axiom_spec_len(&g.players.vec);
        assert(model(&g).players =~= g.players.players());
    }
    Some(g)
}

/// Parse a whole legacy JSON payload into a game.
pub fn game_of_json(b: &Vec<u8>) -> (r: Option<Game>)
    ensures
        match r {
            Some(g) => {
                &&& g.wf()
                &&& d_j_game(b@) == Some(model(&g))
            },
            None => d_j_game(b@) is None,
        },
{
    proof {
        assert(b@.skip(0) =~= b@);
    }
    let p0 = match expect(b, 0, "{\"players\":[") {
        Some(p) => p,
        None => {
            return None;
        },
    };
    let (players, p) = match jr_players(b, p0) {
        Some(v) => v,
        None => {
            return None;
        },
    };
    jr_game_rest(players, b, p)
}

// ---------------------------------------------------------------------------
// the codec contract
// ---------------------------------------------------------------------------

impl crate::codec::TokenCodec for Game {
    open spec fn wf(&self) -> bool {
        Game::wf(self)
    }

    open spec fn same(&self, other: &Self) -> bool {
        model(self) == model(other)
    }

    open spec fn enc(&self) -> Seq<u8> {
        enc_model(model(self))
    }

    open spec fn enc_legacy(&self) -> Seq<u8> {
        j_game(model(self))
    }

    proof fn lemma_format_heads(&self) {
        assert(enc_model(model(self))[0] == 1);
        reveal_strlit("{\"players\":[");
        crate::json::lemma_lit_head1("{\"players\":["@);
        let m = model(self);
        assert(j_game(m)[0] == lit("{\"players\":["@)[0]);
    }

    fn to_bytes(&self) -> (out: Vec<u8>) {
        game_to_bytes(self)
    }

    fn to_bytes_legacy(&self) -> (out: Vec<u8>) {
        game_to_json(self)
    }

    fn of_bytes(b: &Vec<u8>) -> (r: Option<Self>) {
        let r = game_of_bytes(b);
        proof {
            match &r {
                Some(g) => {
                    lemma_dec_game_sound(b@);
                    assert forall|v: Game|
                        v.wf() && b@ == #[trigger] enc_model(model(&v)) implies model(&g) == model(
                        &v,
                    ) by {
                        lemma_model_wf(&v);
                        lemma_dec_enc_game(model(&v));
                    }
                },
                None => {
                    assert forall|v: Game|
                        v.wf() && b@ == #[trigger] enc_model(model(&v)) implies false by {
                        lemma_model_wf(&v);
                        lemma_dec_enc_game(model(&v));
                    }
                },
            }
        }
        r
    }

    fn of_legacy(b: &Vec<u8>) -> (r: Option<Self>) {
        let r = game_of_json(b);
        let out = match r {
            Some(g) => {
                // pin the payload: only the exact legacy encoding of the
                // parsed value is accepted
                let again = game_to_json(&g);
                if crate::bytes::vec_bytes_eq(&again, b) {
                    Some(g)
                } else {
                    None
                }
            },
            None => None,
        };
        proof {
            match &out {
                Some(g) => {
                    assert forall|v: Game|
                        v.wf() && b@ == #[trigger] j_game(model(&v)) implies model(&g) == model(
                        &v,
                    ) by {
                        lemma_model_wf(&v);
                        lemma_d_j_game(model(&v));
                    }
                },
                None => {
                    assert forall|v: Game|
                        v.wf() && b@ == #[trigger] j_game(model(&v)) implies false by {
                        lemma_model_wf(&v);
                        lemma_d_j_game(model(&v));
                    }
                },
            }
        }
        out
    }
}

} // verus!
