//! The payload formats for an ultimate tic-tac-toe game: the current
//! binary record and the legacy JSON record the decoder keeps readable.

use vstd::prelude::*;

verus! {

use crate::bytes::dec_byte;
use crate::bytes::dec_list;
use crate::bytes::dec_text;
use crate::bytes::dec_u64;
use crate::bytes::enc_byte;
use crate::bytes::enc_list;
use crate::bytes::enc_text;
use crate::bytes::enc_u64;
use crate::bytes::lemma_dec_enc_byte;
use crate::bytes::lemma_dec_enc_list;
use crate::bytes::lemma_dec_enc_text;
use crate::bytes::lemma_dec_enc_u64;
use crate::bytes::lemma_enc_list_snoc;
use crate::bytes::read_byte;
use crate::bytes::read_text;
use crate::bytes::read_u64;
use crate::bytes::wf_text;
use crate::bytes::write_byte;
use crate::bytes::write_text;
use crate::bytes::write_u64;
use crate::json::dec_lit;
use crate::json::dec_num;
use crate::json::dec_str;
use crate::json::is_digit;
use crate::json::json_num;
use crate::json::json_str;
use crate::json::lemma_dec_enc_lit;
use crate::json::lemma_dec_enc_num;
use crate::json::lemma_lit_head1;
use crate::json::lemma_lit_head2;
use crate::json::lemma_lit_head3;
use crate::json::lemma_lit_not_prefix0;
use crate::json::lemma_lit_not_prefix1;
use crate::json::lemma_lit_not_prefix2;
use crate::json::lit;
use crate::json::expect;
use crate::json::read_num;
use crate::json::read_str;
use crate::json::write_lit;
use crate::json::write_num;
use crate::cycle::CycleVec;
use crate::tictactoe::Awaiting;
use crate::tictactoe::Board;
use crate::tictactoe::Outcome;
use crate::tictactoe::Player;
use crate::tictactoe::Space;
use crate::tictactoe::serial::board_model;
use crate::tictactoe::serial::enc_board_model;
use crate::tictactoe::serial::dec_board;
use crate::tictactoe::serial::enc_player;
use crate::tictactoe::serial::dec_player;
use crate::tictactoe::serial::enc_outcome;
use crate::tictactoe::serial::dec_outcome;
use crate::tictactoe::serial::player_e;
use crate::tictactoe::serial::player_d;
use crate::tictactoe::serial::lemma_dec_enc_board;
use crate::tictactoe::serial::lemma_dec_enc_player;
use crate::tictactoe::serial::lemma_dec_enc_outcome;
use crate::tictactoe::serial::lemma_dec_board_sound;
use crate::tictactoe::serial::lemma_dec_player_sound;
use crate::tictactoe::serial::lemma_dec_outcome_sound;
use crate::tictactoe::serial::lemma_player_d_sound;
use crate::tictactoe::serial::j_player;
use crate::tictactoe::serial::j_items;
use crate::tictactoe::serial::j_items_tail;
use crate::tictactoe::serial::j_board;
use crate::tictactoe::serial::j_outcome;
use crate::tictactoe::serial::d_j_player;
use crate::tictactoe::serial::d_j_players;
use crate::tictactoe::serial::d_j_players_more;
use crate::tictactoe::serial::d_j_board;
use crate::tictactoe::serial::d_j_outcome;
use crate::tictactoe::serial::lemma_d_j_players;
use crate::tictactoe::serial::lemma_d_j_board;
use crate::tictactoe::serial::lemma_d_j_outcome;
use crate::tictactoe::serial::lemma_state_lits;
use crate::tictactoe::serial::lemma_game_lits;
use crate::tictactoe::serial::jr_players;
use crate::tictactoe::serial::jr_cells;
use crate::tictactoe::serial::jr_outcome;
use crate::tictactoe::serial::jw_player;
use crate::tictactoe::serial::jw_outcome;
use crate::tictactoe::serial::build_board;
use crate::tictactoe::serial::read_board;
use crate::tictactoe::serial::read_player;
use crate::tictactoe::serial::read_outcome;
use crate::tictactoe::serial::write_board;
use crate::tictactoe::serial::write_player;
use crate::tictactoe::serial::write_outcome;
use crate::ultimatetictactoe::Game;
use crate::ultimatetictactoe::InProgress;
use crate::ultimatetictactoe::MetaBoard;
use crate::ultimatetictactoe::MetaSpace;
use crate::ultimatetictactoe::State;
use crate::ultimatetictactoe::WonGame;

// ---------------------------------------------------------------------------
// the model
// ---------------------------------------------------------------------------

/// One meta cell: a standing tag (0 X, 1 O, 2 tie, 3 live) and the marks.
pub open spec fn ms_model(ms: &MetaSpace) -> (u8, Seq<Space>) {
    (ms_tag(ms), board_model(&ms.board()))
}

/// The models of a run of meta cells.
pub open spec fn cells_model(cs: Seq<MetaSpace>) -> Seq<(u8, Seq<Space>)> {
    cs.map_values(|c: MetaSpace| ms_model(&c))
}

pub open spec fn ms_tag(ms: &MetaSpace) -> u8 {
    match ms {
        MetaSpace::X(_) => 0,
        MetaSpace::O(_) => 1,
        MetaSpace::Tie(_) => 2,
        MetaSpace::Empty(_) => 3,
    }
}

/// The meta-board: the forced selection, and the nine cells row-major.
pub struct MbModel {
    pub selected: Option<(int, int)>,
    pub cells: Seq<(u8, Seq<Space>)>,
}

pub open spec fn mb_model(mb: &MetaBoard) -> MbModel {
    MbModel {
        selected: match mb.selected {
            Some(s) => Some((s.0 as int, s.1 as int)),
            None => None,
        },
        cells: seq![
            ms_model(&mb.at(0, 0)),
            ms_model(&mb.at(0, 1)),
            ms_model(&mb.at(0, 2)),
            ms_model(&mb.at(1, 0)),
            ms_model(&mb.at(1, 1)),
            ms_model(&mb.at(1, 2)),
            ms_model(&mb.at(2, 0)),
            ms_model(&mb.at(2, 1)),
            ms_model(&mb.at(2, 2)),
        ],
    }
}

pub open spec fn wf_mb_model(m: MbModel) -> bool {
    &&& m.cells.len() == 9
    &&& forall|i: int|
        0 <= i < 9 ==> (#[trigger] m.cells[i]).0 <= 3 && m.cells[i].1.len() == 9
    &&& match m.selected {
        Some(s) => 0 <= s.0 < 3 && 0 <= s.1 < 3,
        None => true,
    }
}

pub enum StateModel {
    Awaiting(Awaiting),
    Playing(MbModel),
    Done(Outcome, MbModel),
    Cancelled(Seq<char>),
}

pub struct GameModel {
    pub players: Seq<Player>,
    pub cursor: int,
    pub state: StateModel,
    pub last_time: u64,
}

pub open spec fn state_model(s: &State) -> StateModel {
    match s {
        State::AwaitingApproval(a) => StateModel::Awaiting(*a),
        State::InProgress(ip) => StateModel::Playing(mb_model(&ip.board)),
        State::Finished(w) => StateModel::Done(w.winner, mb_model(&w.board)),
        State::Cancelled(reason) => StateModel::Cancelled(reason@),
    }
}

pub open spec fn model(g: &Game) -> GameModel {
    GameModel {
        players: g.players.players(),
        cursor: g.players.cursor(),
        state: state_model(&g.gamestate),
        last_time: g.last_time,
    }
}

pub open spec fn wf_model(m: GameModel) -> bool {
    &&& m.players.len() <= u64::MAX
    &&& (if m.players.len() == 0 {
        m.cursor == 0
    } else {
        0 <= m.cursor < m.players.len()
    })
    &&& match m.state {
        StateModel::Awaiting(_) => true,
        StateModel::Playing(bm) => wf_mb_model(bm),
        StateModel::Done(_, bm) => wf_mb_model(bm),
        StateModel::Cancelled(t) => wf_text(t) && t.len() <= u64::MAX,
    }
}

/// A well-formed game has a well-formed model.
pub proof fn lemma_model_wf(g: &Game)
    requires
        g.wf(),
    ensures
        wf_model(model(g)),
{
    vstd::std_specs::vec::axiom_spec_len(&g.players.vec);
    match g.gamestate {
        State::InProgress(ip) => {
            lemma_mb_model_wf(&ip.board);
        },
        State::Finished(w) => {
            lemma_mb_model_wf(&w.board);
        },
        _ => {},
    }
}

proof fn lemma_mb_model_wf(mb: &MetaBoard)
    requires
        mb.wf(),
    ensures
        wf_mb_model(mb_model(mb)),
{
    assert(mb.at(0, 0).wf());
    assert(mb.at(0, 1).wf());
    assert(mb.at(0, 2).wf());
    assert(mb.at(1, 0).wf());
    assert(mb.at(1, 1).wf());
    assert(mb.at(1, 2).wf());
    assert(mb.at(2, 0).wf());
    assert(mb.at(2, 1).wf());
    assert(mb.at(2, 2).wf());
}

// ---------------------------------------------------------------------------
// the binary record
// ---------------------------------------------------------------------------

pub open spec fn enc_ms(m: (u8, Seq<Space>)) -> Seq<u8> {
    enc_byte(m.0) + enc_board_model(m.1)
}

pub open spec fn dec_ms(b: Seq<u8>) -> Option<((u8, Seq<Space>), Seq<u8>)> {
    match dec_byte(b) {
        None => None,
        Some((t, r)) => if t <= 3 {
            match dec_board(r) {
                None => None,
                Some((bm, r2)) => Some(((t, bm), r2)),
            }
        } else {
            None
        },
    }
}

pub open spec fn ms_e() -> spec_fn((u8, Seq<Space>)) -> Seq<u8> {
    |m: (u8, Seq<Space>)| enc_ms(m)
}

pub open spec fn ms_d() -> spec_fn(Seq<u8>) -> Option<((u8, Seq<Space>), Seq<u8>)> {
    |b: Seq<u8>| dec_ms(b)
}

pub open spec fn enc_sel(s: Option<(int, int)>) -> Seq<u8> {
    match s {
        None => enc_byte(0),
        Some(p) => enc_byte(1) + enc_byte(p.0 as u8) + enc_byte(p.1 as u8),
    }
}

pub open spec fn dec_sel(b: Seq<u8>) -> Option<(Option<(int, int)>, Seq<u8>)> {
    match dec_byte(b) {
        None => None,
        Some((t, r)) => if t == 0 {
            Some((None, r))
        } else if t == 1 {
            match dec_byte(r) {
                None => None,
                Some((x, r1)) => match dec_byte(r1) {
                    None => None,
                    Some((y, r2)) => if x < 3 && y < 3 {
                        Some((Some((x as int, y as int)), r2))
                    } else {
                        None
                    },
                },
            }
        } else {
            None
        },
    }
}

pub open spec fn enc_mb(m: MbModel) -> Seq<u8> {
    enc_sel(m.selected) + enc_list(m.cells, ms_e())
}

pub open spec fn dec_mb(b: Seq<u8>) -> Option<(MbModel, Seq<u8>)> {
    match dec_sel(b) {
        None => None,
        Some((sel, r)) => match dec_list(r, 9, ms_d()) {
            None => None,
            Some((cells, r2)) => Some((MbModel { selected: sel, cells }, r2)),
        },
    }
}

pub open spec fn enc_state(sm: StateModel) -> Seq<u8> {
    match sm {
        StateModel::Awaiting(a) => enc_byte(0) + enc_u64(a.inviter) + enc_u64(a.invitee),
        StateModel::Playing(bm) => enc_byte(1) + enc_mb(bm),
        StateModel::Done(o, bm) => enc_byte(2) + enc_outcome(o) + enc_mb(bm),
        StateModel::Cancelled(t) => enc_byte(3) + enc_text(t),
    }
}

pub open spec fn dec_state(b: Seq<u8>) -> Option<(StateModel, Seq<u8>)> {
    match dec_byte(b) {
        None => None,
        Some((t, r)) => if t == 0 {
            match dec_u64(r) {
                None => None,
                Some((inviter, r1)) => match dec_u64(r1) {
                    None => None,
                    Some((invitee, r2)) => Some(
                        (StateModel::Awaiting(Awaiting { inviter, invitee }), r2),
                    ),
                },
            }
        } else if t == 1 {
            match dec_mb(r) {
                None => None,
                Some((bm, r1)) => Some((StateModel::Playing(bm), r1)),
            }
        } else if t == 2 {
            match dec_outcome(r) {
                None => None,
                Some((o, r1)) => match dec_mb(r1) {
                    None => None,
                    Some((bm, r2)) => Some((StateModel::Done(o, bm), r2)),
                },
            }
        } else if t == 3 {
            match dec_text(r) {
                None => None,
                Some((txt, r1)) => Some((StateModel::Cancelled(txt), r1)),
            }
        } else {
            None
        },
    }
}

pub open spec fn enc_model(m: GameModel) -> Seq<u8> {
    seq![1u8] + enc_u64(m.players.len() as u64) + enc_list(m.players, player_e()) + enc_u64(
        m.cursor as u64,
    ) + enc_state(m.state) + enc_u64(m.last_time)
}

pub open spec fn dec_game(b: Seq<u8>) -> Option<GameModel> {
    if b.len() < 1 || b[0] != 1 {
        None
    } else {
        let r0 = b.skip(1);
        match dec_u64(r0) {
            None => None,
            Some((n, r1)) => match dec_list(r1, n as nat, player_d()) {
                None => None,
                Some((ps, r2)) => match dec_u64(r2) {
                    None => None,
                    Some((idx, r3)) => if (n == 0 && idx == 0) || (n > 0 && idx < n) {
                        match dec_state(r3) {
                            None => None,
                            Some((sm, r4)) => match dec_u64(r4) {
                                None => None,
                                Some((lt, r5)) => if r5.len() == 0 {
                                    Some(
                                        GameModel {
                                            players: ps,
                                            cursor: idx as int,
                                            state: sm,
                                            last_time: lt,
                                        },
                                    )
                                } else {
                                    None
                                },
                            },
                        }
                    } else {
                        None
                    },
                },
            },
        }
    }
}

// round-trip lemmas

#[verifier::rlimit(100)]
#[verifier::spinoff_prover]
pub proof fn lemma_dec_enc_ms(m: (u8, Seq<Space>), rest: Seq<u8>)
    requires
        m.0 <= 3,
        m.1.len() == 9,
    ensures
        dec_ms(enc_ms(m) + rest) == Some((m, rest)),
{
    let x = enc_board_model(m.1) + rest;
    assert(enc_ms(m) + rest =~= enc_byte(m.0) + x);
    lemma_dec_enc_byte(m.0, x);
    assert(dec_byte(enc_ms(m) + rest) == Some((m.0, x)));
    lemma_dec_enc_board(m.1, rest);
}

pub proof fn lemma_dec_enc_sel(s: Option<(int, int)>, rest: Seq<u8>)
    requires
        match s {
            Some(p) => 0 <= p.0 < 3 && 0 <= p.1 < 3,
            None => true,
        },
    ensures
        dec_sel(enc_sel(s) + rest) == Some((s, rest)),
{
    match s {
        None => {
            lemma_dec_enc_byte(0, rest);
        },
        Some(p) => {
            let x = enc_byte(p.0 as u8) + (enc_byte(p.1 as u8) + rest);
            assert(enc_sel(s) + rest =~= enc_byte(1) + x);
            lemma_dec_enc_byte(1, x);
            assert(dec_byte(enc_sel(s) + rest) == Some((1u8, x)));
            lemma_dec_enc_byte(p.0 as u8, enc_byte(p.1 as u8) + rest);
            lemma_dec_enc_byte(p.1 as u8, rest);
        },
    }
}

pub proof fn lemma_ms_d_complete(cells: Seq<(u8, Seq<Space>)>)
    requires
        forall|i: int| 0 <= i < cells.len() ==> (#[trigger] cells[i]).0 <= 3 && cells[i].1.len() == 9,
    ensures
        forall|v: (u8, Seq<Space>), r2: Seq<u8>|
            cells.contains(v) ==> #[trigger] ms_d()(ms_e()(v) + r2) == Some((v, r2)),
{
    assert forall|v: (u8, Seq<Space>), r2: Seq<u8>| cells.contains(v) implies #[trigger] ms_d()(
        ms_e()(v) + r2,
    ) == Some((v, r2)) by {
        let i = choose|i: int| 0 <= i < cells.len() && cells[i] == v;
        lemma_dec_enc_ms(v, r2);
    }
}

#[verifier::rlimit(100)]
#[verifier::spinoff_prover]
pub proof fn lemma_dec_enc_mb(m: MbModel, rest: Seq<u8>)
    requires
        wf_mb_model(m),
    ensures
        dec_mb(enc_mb(m) + rest) == Some((m, rest)),
{
    let x = enc_list(m.cells, ms_e()) + rest;
    assert(enc_mb(m) + rest =~= enc_sel(m.selected) + x);
    lemma_dec_enc_sel(m.selected, x);
    lemma_ms_d_complete(m.cells);
    lemma_dec_enc_list(m.cells, rest, ms_e(), ms_d());
}

#[verifier::rlimit(100)]
#[verifier::spinoff_prover]
pub proof fn lemma_dec_enc_state(sm: StateModel, rest: Seq<u8>)
    requires
        match sm {
            StateModel::Awaiting(_) => true,
            StateModel::Playing(bm) => wf_mb_model(bm),
            StateModel::Done(_, bm) => wf_mb_model(bm),
            StateModel::Cancelled(t) => wf_text(t) && t.len() <= u64::MAX,
        },
    ensures
        dec_state(enc_state(sm) + rest) == Some((sm, rest)),
{
    match sm {
        StateModel::Awaiting(a) => {
            let b = enc_state(sm) + rest;
            let x = enc_u64(a.inviter) + (enc_u64(a.invitee) + rest);
            assert(b =~= enc_byte(0) + x);
            lemma_dec_enc_byte(0, x);
            assert(dec_byte(b) == Some((0u8, x)));
            lemma_dec_enc_u64(a.inviter, enc_u64(a.invitee) + rest);
            lemma_dec_enc_u64(a.invitee, rest);
        },
        StateModel::Playing(bm) => {
            let b = enc_state(sm) + rest;
            let x = enc_mb(bm) + rest;
            assert(b =~= enc_byte(1) + x);
            lemma_dec_enc_byte(1, x);
            assert(dec_byte(b) == Some((1u8, x)));
            lemma_dec_enc_mb(bm, rest);
        },
        StateModel::Done(o, bm) => {
            let b = enc_state(sm) + rest;
            let x = enc_outcome(o) + (enc_mb(bm) + rest);
            assert(b =~= enc_byte(2) + x);
            lemma_dec_enc_byte(2, x);
            assert(dec_byte(b) == Some((2u8, x)));
            lemma_dec_enc_outcome(o, enc_mb(bm) + rest);
            lemma_dec_enc_mb(bm, rest);
        },
        StateModel::Cancelled(t) => {
            let b = enc_state(sm) + rest;
            let x = enc_text(t) + rest;
            assert(b =~= enc_byte(3) + x);
            lemma_dec_enc_byte(3, x);
            assert(dec_byte(b) == Some((3u8, x)));
            lemma_dec_enc_text(t, rest);
        },
    }
}

/// Parsing a binary payload made from a well-formed model yields the model.
pub proof fn lemma_dec_enc_game(m: GameModel)
    requires
        wf_model(m),
    ensures
        dec_game(enc_model(m)) == Some(m),
{
    let b = enc_model(m);
    let n = m.players.len() as u64;
    let tail1 = enc_list(m.players, player_e()) + (enc_u64(m.cursor as u64) + (enc_state(m.state)
        + enc_u64(m.last_time)));
    assert(b[0] == 1);
    assert(b.skip(1) =~= enc_u64(n) + tail1);
    lemma_dec_enc_u64(n, tail1);
    assert forall|v: Player, r2: Seq<u8>| m.players.contains(v) implies #[trigger] player_d()(
        player_e()(v) + r2,
    ) == Some((v, r2)) by {
        lemma_dec_enc_player(v, r2);
    }
    let tail2 = enc_u64(m.cursor as u64) + (enc_state(m.state) + enc_u64(m.last_time));
    lemma_dec_enc_list(m.players, tail2, player_e(), player_d());
    lemma_dec_enc_u64(m.cursor as u64, enc_state(m.state) + enc_u64(m.last_time));
    lemma_dec_enc_state(m.state, enc_u64(m.last_time));
    lemma_dec_enc_u64(m.last_time, Seq::<u8>::empty());
    assert(enc_u64(m.last_time) + Seq::<u8>::empty() =~= enc_u64(m.last_time));
}

// soundness

pub proof fn lemma_dec_ms_sound(b: Seq<u8>)
    requires
        dec_ms(b) is Some,
    ensures
        b =~= enc_ms(dec_ms(b)->Some_0.0) + dec_ms(b)->Some_0.1,
        dec_ms(b)->Some_0.1.len() < b.len(),
        dec_ms(b)->Some_0.0.0 <= 3,
        dec_ms(b)->Some_0.0.1.len() == 9,
{
    crate::bytes::lemma_dec_byte_sound(b);
    let (t, r) = dec_byte(b)->Some_0;
    lemma_dec_board_sound(r);
    let (bm, r2) = dec_board(r)->Some_0;
    assert(b =~= enc_byte(t) + (enc_board_model(bm) + r2));
    assert(enc_ms((t, bm)) + r2 =~= enc_byte(t) + (enc_board_model(bm) + r2));
}

pub proof fn lemma_ms_d_sound()
    ensures
        forall|bb: Seq<u8>| #[trigger] ms_d()(bb) matches Some(vr) ==> bb =~= ms_e()(vr.0) + vr.1
            && vr.1.len() < bb.len(),
{
    assert forall|bb: Seq<u8>| #[trigger] ms_d()(bb) is Some implies {
        let vr = ms_d()(bb)->Some_0;
        bb =~= ms_e()(vr.0) + vr.1 && vr.1.len() < bb.len()
    } by {
        lemma_dec_ms_sound(bb);
    }
}

pub proof fn lemma_dec_sel_sound(b: Seq<u8>)
    requires
        dec_sel(b) is Some,
    ensures
        b =~= enc_sel(dec_sel(b)->Some_0.0) + dec_sel(b)->Some_0.1,
        match dec_sel(b)->Some_0.0 {
            Some(p) => 0 <= p.0 < 3 && 0 <= p.1 < 3,
            None => true,
        },
{
    crate::bytes::lemma_dec_byte_sound(b);
    let (t, r) = dec_byte(b)->Some_0;
    if t == 1 {
        crate::bytes::lemma_dec_byte_sound(r);
        let (x, r1) = dec_byte(r)->Some_0;
        crate::bytes::lemma_dec_byte_sound(r1);
        let (y, r2) = dec_byte(r1)->Some_0;
        assert(b =~= enc_byte(1) + (enc_byte(x) + (enc_byte(y) + r2)));
        assert(enc_sel(Some((x as int, y as int))) + r2 =~= enc_byte(1) + (enc_byte(x) + (enc_byte(
            y,
        ) + r2)));
    }
}

pub proof fn lemma_dec_mb_sound(b: Seq<u8>)
    requires
        dec_mb(b) is Some,
    ensures
        b =~= enc_mb(dec_mb(b)->Some_0.0) + dec_mb(b)->Some_0.1,
        wf_mb_model(dec_mb(b)->Some_0.0),
{
    lemma_dec_sel_sound(b);
    let (sel, r) = dec_sel(b)->Some_0;
    lemma_ms_d_sound();
    crate::bytes::lemma_dec_list_sound(r, 9, ms_e(), ms_d());
    let (cells, r2) = dec_list(r, 9, ms_d())->Some_0;
    assert forall|i: int| 0 <= i < 9 implies (#[trigger] cells[i]).0 <= 3 && cells[i].1.len()
        == 9 by {
        lemma_dec_list_elts(r, 9, i);
    }
}

/// Every element of a parsed meta-cell run satisfies the cell shape.
proof fn lemma_dec_list_elts(b: Seq<u8>, n: nat, i: int)
    requires
        dec_list(b, n, ms_d()) is Some,
        0 <= i < n,
    ensures
        ({
            let cells = dec_list(b, n, ms_d())->Some_0.0;
            i < cells.len() ==> (#[trigger] cells[i]).0 <= 3 && cells[i].1.len() == 9
        }),
    decreases n,
{
    let (v, r) = ms_d()(b)->Some_0;
    lemma_dec_ms_sound(b);
    if i > 0 {
        lemma_dec_list_elts(r, (n - 1) as nat, i - 1);
        let cells = dec_list(b, n, ms_d())->Some_0.0;
        let rest_cells = dec_list(r, (n - 1) as nat, ms_d())->Some_0.0;
        assert(cells == seq![v] + rest_cells);
        if i < cells.len() {
            assert(cells[i] == rest_cells[i - 1]);
        }
    }
}

#[verifier::rlimit(100)]
#[verifier::spinoff_prover]
pub proof fn lemma_dec_state_sound(b: Seq<u8>)
    requires
        dec_state(b) is Some,
    ensures
        b =~= enc_state(dec_state(b)->Some_0.0) + dec_state(b)->Some_0.1,
        match dec_state(b)->Some_0.0 {
            StateModel::Awaiting(_) => true,
            StateModel::Playing(bm) => wf_mb_model(bm),
            StateModel::Done(_, bm) => wf_mb_model(bm),
            StateModel::Cancelled(t) => wf_text(t) && t.len() <= u64::MAX,
        },
{
    crate::bytes::lemma_dec_byte_sound(b);
    let (t, r) = dec_byte(b)->Some_0;
    let (sm, rem) = dec_state(b)->Some_0;
    if t == 0 {
        crate::bytes::lemma_dec_u64_sound(r);
        let (inviter, r1) = dec_u64(r)->Some_0;
        crate::bytes::lemma_dec_u64_sound(r1);
        let (invitee, r2) = dec_u64(r1)->Some_0;
        assert(b =~= enc_byte(0) + (enc_u64(inviter) + (enc_u64(invitee) + r2)));
        assert(enc_state(sm) + rem =~= enc_byte(0) + (enc_u64(inviter) + (enc_u64(invitee) + r2)));
    } else if t == 1 {
        lemma_dec_mb_sound(r);
        let (bm, r1) = dec_mb(r)->Some_0;
        assert(b =~= enc_byte(1) + (enc_mb(bm) + r1));
        assert(enc_state(sm) + rem =~= enc_byte(1) + (enc_mb(bm) + r1));
    } else if t == 2 {
        lemma_dec_outcome_sound(r);
        let (o, r1) = dec_outcome(r)->Some_0;
        lemma_dec_mb_sound(r1);
        let (bm, r2) = dec_mb(r1)->Some_0;
        assert(b =~= enc_byte(2) + (enc_outcome(o) + (enc_mb(bm) + r2)));
        assert(enc_state(sm) + rem =~= enc_byte(2) + (enc_outcome(o) + (enc_mb(bm) + r2)));
    } else {
        crate::bytes::lemma_dec_text_sound(r);
        let (txt, r1) = dec_text(r)->Some_0;
        assert(b =~= enc_byte(3) + (enc_text(txt) + r1));
        assert(enc_state(sm) + rem =~= enc_byte(3) + (enc_text(txt) + r1));
        assert(txt.len() <= u64::MAX);
    }
}

/// A successful payload parse yields a well-formed model whose encoding is
/// the payload itself.
#[verifier::rlimit(60)]
pub proof fn lemma_dec_game_sound(b: Seq<u8>)
    requires
        dec_game(b) is Some,
    ensures
        wf_model(dec_game(b)->Some_0),
        b =~= enc_model(dec_game(b)->Some_0),
{
    let m = dec_game(b)->Some_0;
    let r0 = b.skip(1);
    crate::bytes::lemma_dec_u64_sound(r0);
    let (n, r1) = dec_u64(r0)->Some_0;
    lemma_player_d_sound();
    crate::bytes::lemma_dec_list_sound(r1, n as nat, player_e(), player_d());
    let (ps, r2) = dec_list(r1, n as nat, player_d())->Some_0;
    crate::bytes::lemma_dec_u64_sound(r2);
    let (idx, r3) = dec_u64(r2)->Some_0;
    lemma_dec_state_sound(r3);
    let (sm, r4) = dec_state(r3)->Some_0;
    crate::bytes::lemma_dec_u64_sound(r4);
    let (lt, r5) = dec_u64(r4)->Some_0;
    assert(r5.len() == 0);
    assert(r4 =~= enc_u64(lt));
    assert(b =~= seq![b[0]] + r0);
    assert(b =~= seq![1u8] + (enc_u64(n) + (enc_list(ps, player_e()) + (enc_u64(idx) + (enc_state(
        sm,
    ) + enc_u64(lt))))));
    assert(ps.len() == n as nat);
    assert(enc_model(m) =~= seq![1u8] + (enc_u64(m.players.len() as u64) + (enc_list(
        m.players,
        player_e(),
    ) + (enc_u64(m.cursor as u64) + (enc_state(m.state) + enc_u64(m.last_time))))));
}

// ---------------------------------------------------------------------------
// exec encoding and parsing for the binary record
// ---------------------------------------------------------------------------

fn write_ms(out: &mut Vec<u8>, ms: &MetaSpace)
    requires
        ms.wf(),
    ensures
        final(out)@ == old(out)@ + enc_ms(ms_model(ms)),
{
    match ms {
        MetaSpace::X(b) => {
            write_byte(out, 0);
            write_board(out, b);
        },
        MetaSpace::O(b) => {
            write_byte(out, 1);
            write_board(out, b);
        },
        MetaSpace::Tie(b) => {
            write_byte(out, 2);
            write_board(out, b);
        },
        MetaSpace::Empty(b) => {
            write_byte(out, 3);
            write_board(out, b);
        },
    }
    proof {
        assert(out@ =~= old(out)@ + enc_ms(ms_model(ms)));
    }
}

fn write_mb(out: &mut Vec<u8>, mb: &MetaBoard)
    requires
        mb.wf(),
    ensures
        final(out)@ == old(out)@ + enc_mb(mb_model(mb)),
{
    let ghost m = mb_model(mb);
    let ghost base = out@;
    match mb.selected {
        None => {
            write_byte(out, 0);
        },
        Some((x, y)) => {
            write_byte(out, 1);
            write_byte(out, x as u8);
            write_byte(out, y as u8);
        },
    }
    proof {
        assert(out@ =~= base + enc_sel(m.selected));
    }
    let mut i: usize = 0;
    proof {
        assert(m.cells.take(0) =~= Seq::<(u8, Seq<Space>)>::empty());
    }
    while i < 9
        invariant
            mb.wf(),
            m == mb_model(mb),
            i <= 9,
            out@ == base + enc_sel(m.selected) + enc_list(m.cells.take(i as int), ms_e()),
        decreases 9 - i,
    {
        let x = i / 3;
        let y = i % 3;
        write_ms(out, mb.get(x, y));
        proof {
            lemma_enc_list_snoc(m.cells.take(i as int), m.cells[i as int], ms_e());
            assert(m.cells.take(i as int + 1) =~= m.cells.take(i as int).push(m.cells[i as int]));
            assert(m.cells[i as int] == ms_model(&mb.at(x as int, y as int)));
            assert(out@ =~= base + enc_sel(m.selected) + enc_list(
                m.cells.take(i as int + 1),
                ms_e(),
            ));
        }
        i = i + 1;
    }
    proof {
        assert(m.cells.take(9) =~= m.cells);
        assert(out@ =~= base + enc_mb(m));
    }
}

fn write_state(out: &mut Vec<u8>, s: &State)
    requires
        match s {
            State::AwaitingApproval(_) => true,
            State::InProgress(ip) => ip.board.wf(),
            State::Finished(w) => w.board.wf(),
            State::Cancelled(reason) => wf_text(reason@),
        },
    ensures
        final(out)@ == old(out)@ + enc_state(state_model(s)),
{
    match s {
        State::AwaitingApproval(a) => {
            write_byte(out, 0);
            write_u64(out, a.inviter);
            write_u64(out, a.invitee);
            proof {
                assert(out@ =~= old(out)@ + enc_state(state_model(s)));
            }
        },
        State::InProgress(ip) => {
            write_byte(out, 1);
            write_mb(out, &ip.board);
            proof {
                assert(out@ =~= old(out)@ + enc_state(state_model(s)));
            }
        },
        State::Finished(w) => {
            write_byte(out, 2);
            write_outcome(out, &w.winner);
            write_mb(out, &w.board);
            proof {
                assert(out@ =~= old(out)@ + enc_state(state_model(s)));
            }
        },
        State::Cancelled(reason) => {
            write_byte(out, 3);
            write_text(out, reason.as_str());
            proof {
                assert(out@ =~= old(out)@ + enc_state(state_model(s)));
            }
        },
    }
}

/// Write the binary payload of a game.
pub fn game_to_bytes(g: &Game) -> (out: Vec<u8>)
    requires
        g.wf(),
    ensures
        out@ == enc_model(model(g)),
{
    let mut out: Vec<u8> = Vec::new();
    write_byte(&mut out, 1);
    let n: u64 = g.players.count() as u64;
    write_u64(&mut out, n);
    let ps = g.players.all();
    let ghost m = model(g);
    let mut i: usize = 0;
    while i < ps.len()
        invariant
            i <= ps@.len(),
            ps@ == m.players,
            out@ == seq![1u8] + enc_u64(m.players.len() as u64) + enc_list(
                m.players.take(i as int),
                player_e(),
            ),
        decreases ps@.len() - i,
    {
        let p = ps[i];
        write_player(&mut out, &p);
        proof {
            lemma_enc_list_snoc(m.players.take(i as int), m.players[i as int], player_e());
            assert(m.players.take(i as int + 1) =~= m.players.take(i as int).push(
                m.players[i as int],
            ));
        }
        i = i + 1;
    }
    proof {
        assert(m.players.take(ps@.len() as int) =~= m.players);
    }
    let idx: u64 = g.players.cursor_index() as u64;
    write_u64(&mut out, idx);
    write_state(&mut out, &g.gamestate);
    write_u64(&mut out, g.last_time);
    proof {
        assert(out@ =~= enc_model(m));
    }
    out
}

fn read_ms(b: &Vec<u8>, pos: usize) -> (r: Option<(MetaSpace, usize)>)
    requires
        pos <= b@.len(),
    ensures
        match r {
            Some(vp) => {
                &&& pos < vp.1 <= b@.len()
                &&& vp.0.wf()
                &&& dec_ms(b@.skip(pos as int)) == Some((ms_model(&vp.0), b@.skip(vp.1 as int)))
            },
            None => dec_ms(b@.skip(pos as int)) is None,
        },
{
    match read_byte(b, pos) {
        None => None,
        Some((t, p1)) => {
            if t > 3 {
                return None;
            }
            match read_board(b, p1) {
                None => None,
                Some((board, p2)) => {
                    let ms = if t == 0 {
                        MetaSpace::X(board)
                    } else if t == 1 {
                        MetaSpace::O(board)
                    } else if t == 2 {
                        MetaSpace::Tie(board)
                    } else {
                        MetaSpace::Empty(board)
                    };
                    Some((ms, p2))
                },
            }
        },
    }
}

fn read_mb(b: &Vec<u8>, pos: usize) -> (r: Option<(MetaBoard, usize)>)
    requires
        pos <= b@.len(),
    ensures
        match r {
            Some(vp) => {
                &&& pos < vp.1 <= b@.len()
                &&& vp.0.wf()
                &&& dec_mb(b@.skip(pos as int)) == Some((mb_model(&vp.0), b@.skip(vp.1 as int)))
            },
            None => dec_mb(b@.skip(pos as int)) is None,
        },
{
    let (sel, p1) = match read_byte(b, pos) {
        None => {
            return None;
        },
        Some((t, p0)) => {
            if t == 0 {
                (None, p0)
            } else if t == 1 {
                let (x, pa) = match read_byte(b, p0) {
                    None => {
                        return None;
                    },
                    Some(v) => v,
                };
                let (y, pb) = match read_byte(b, pa) {
                    None => {
                        return None;
                    },
                    Some(v) => v,
                };
                if !(x < 3 && y < 3) {
                    return None;
                }
                (Some((x as usize, y as usize)), pb)
            } else {
                return None;
            }
        },
    };
    let ghost selm = match sel {
        Some(s) => Some((s.0 as int, s.1 as int)),
        None => None::<(int, int)>,
    };
    proof {
        assert(dec_sel(b@.skip(pos as int)) == Some((selm, b@.skip(p1 as int))));
    }
    // nine meta cells
    let mut cells: Vec<MetaSpace> = Vec::new();
    let mut p = p1;
    let mut i: usize = 0;
    proof {
        assert(cells@ =~= Seq::<MetaSpace>::empty());
    }
    while i < 9
        invariant
            i <= 9,
            pos < p1 <= b@.len(),
            p1 <= p <= b@.len(),
            cells@.len() == i,
            forall|j: int| 0 <= j < i ==> (#[trigger] cells@[j]).wf(),
            dec_sel(b@.skip(pos as int)) == Some((selm, b@.skip(p1 as int))),
            dec_list(b@.skip(p1 as int), 9, ms_d()) == (match dec_list(
                b@.skip(p as int),
                (9 - i) as nat,
                ms_d(),
            ) {
                Some((vs, rr)) => Some((cells_model(cells@) + vs, rr)),
                None => None::<(Seq<(u8, Seq<Space>)>, Seq<u8>)>,
            }),
        decreases 9 - i,
    {
        match read_ms(b, p) {
            None => {
                return None;
            },
            Some((ms, p2)) => {
                let ghost prev = cells@;
                cells.push(ms);
                proof {
                    assert(cells@ =~= prev.push(ms));
                    assert(cells_model(cells@) =~= cells_model(prev).push(ms_model(&ms)));
                    if dec_list(b@.skip(p2 as int), (8 - i) as nat, ms_d()) is Some {
                        let (vs, rr) = dec_list(b@.skip(p2 as int), (8 - i) as nat, ms_d())->Some_0;
                        assert(cells_model(prev) + (seq![ms_model(&ms)]
                            + vs) =~= (cells_model(prev).push(
                            ms_model(&ms),
                        )) + vs);
                    }
                }
                p = p2;
                i = i + 1;
            },
        }
    }
    let mb = MetaBoard {
        selected: sel,
        spaces: {
            let mut spaces: Vec<Vec<MetaSpace>> = Vec::new();
            let mut r0: Vec<MetaSpace> = Vec::new();
            let mut cs = cells;
            // move the nine cells into rows, preserving order
            let c8 = cs.pop().unwrap();
            let c7 = cs.pop().unwrap();
            let c6 = cs.pop().unwrap();
            let c5 = cs.pop().unwrap();
            let c4 = cs.pop().unwrap();
            let c3 = cs.pop().unwrap();
            let c2 = cs.pop().unwrap();
            let c1 = cs.pop().unwrap();
            let c0 = cs.pop().unwrap();
            r0.push(c0);
            r0.push(c1);
            r0.push(c2);
            let mut r1: Vec<MetaSpace> = Vec::new();
            r1.push(c3);
            r1.push(c4);
            r1.push(c5);
            let mut r2: Vec<MetaSpace> = Vec::new();
            r2.push(c6);
            r2.push(c7);
            r2.push(c8);
            spaces.push(r0);
            spaces.push(r1);
            spaces.push(r2);
            spaces
        },
    };
    proof {
        assert(mb.wf());
        assert(mb_model(&mb).cells =~= cells_model(cells@));
        assert(cells_model(cells@) + Seq::<(u8, Seq<Space>)>::empty()
            =~= cells_model(cells@));
        assert(mb_model(&mb).selected == selm);
    }
    Some((mb, p))
}

fn read_state(b: &Vec<u8>, pos: usize) -> (r: Option<(State, usize)>)
    requires
        pos <= b@.len(),
    ensures
        match r {
            Some(vp) => {
                &&& pos < vp.1 <= b@.len()
                &&& dec_state(b@.skip(pos as int)) == Some(
                    (state_model(&vp.0), b@.skip(vp.1 as int)),
                )
                &&& match vp.0 {
                    State::AwaitingApproval(_) => true,
                    State::InProgress(ip) => ip.board.wf(),
                    State::Finished(w) => w.board.wf(),
                    State::Cancelled(reason) => wf_text(reason@) && reason@.len() <= u64::MAX,
                }
            },
            None => dec_state(b@.skip(pos as int)) is None,
        },
{
    match read_byte(b, pos) {
        None => None,
        Some((t, p1)) => {
            if t == 0 {
                match read_u64(b, p1) {
                    None => None,
                    Some((inviter, p2)) => match read_u64(b, p2) {
                        None => None,
                        Some((invitee, p3)) => Some(
                            (State::AwaitingApproval(Awaiting { inviter, invitee }), p3),
                        ),
                    },
                }
            } else if t == 1 {
                match read_mb(b, p1) {
                    None => None,
                    Some((board, p2)) => Some((State::InProgress(InProgress { board }), p2)),
                }
            } else if t == 2 {
                match read_outcome(b, p1) {
                    None => None,
                    Some((o, p2)) => match read_mb(b, p2) {
                        None => None,
                        Some((board, p3)) => Some(
                            (State::Finished(WonGame { winner: o, board }), p3),
                        ),
                    },
                }
            } else if t == 3 {
                match read_text(b, p1) {
                    None => None,
                    Some((reason, p2)) => {
                        proof {
                            crate::bytes::lemma_dec_text_sound(b@.skip(p1 as int));
                        }
                        Some((State::Cancelled(reason), p2))
                    },
                }
            } else {
                None
            }
        },
    }
}

/// Parse a whole binary payload into a game.
pub fn game_of_bytes(b: &Vec<u8>) -> (r: Option<Game>)
    ensures
        match r {
            Some(g) => {
                &&& g.wf()
                &&& dec_game(b@) == Some(model(&g))
            },
            None => dec_game(b@) is None,
        },
{
    let blen = b.len();
    if blen < 1 || b[0] != 1 {
        return None;
    }
    let (n, p1) = match read_u64(b, 1) {
        None => {
            return None;
        },
        Some(v) => v,
    };
    let mut players: Vec<Player> = Vec::new();
    let mut p = p1;
    let mut i: u64 = 0;
    proof {
        assert(players@ =~= Seq::<Player>::empty());
    }
    while i < n
        invariant
            i <= n,
            1 <= p <= b@.len(),
            p1 <= b@.len(),
            players@.len() == i,
            b@.len() >= 1 && b@[0] == 1,
            dec_u64(b@.skip(1)) == Some((n, b@.skip(p1 as int))),
            dec_list(b@.skip(p1 as int), n as nat, player_d()) == (match dec_list(
                b@.skip(p as int),
                (n - i) as nat,
                player_d(),
            ) {
                Some((vs, rr)) => Some((players@ + vs, rr)),
                None => None::<(Seq<Player>, Seq<u8>)>,
            }),
        decreases n - i,
    {
        match read_player(b, p) {
            None => {
                return None;
            },
            Some((pl, p2)) => {
                let ghost prev = players@;
                players.push(pl);
                proof {
                    assert(players@ =~= prev.push(pl));
                    if dec_list(b@.skip(p2 as int), (n - i - 1) as nat, player_d()) is Some {
                        let (vs, rr) = dec_list(
                            b@.skip(p2 as int),
                            (n - i - 1) as nat,
                            player_d(),
                        )->Some_0;
                        assert(prev + (seq![pl] + vs) =~= (prev.push(pl)) + vs);
                    }
                }
                p = p2;
                i = i + 1;
            },
        }
    }
    proof {
        assert(players@ + Seq::<Player>::empty() =~= players@);
    }
    let (idx, p3) = match read_u64(b, p) {
        None => {
            return None;
        },
        Some(v) => v,
    };
    let ok_idx = if players.len() == 0 {
        idx == 0
    } else {
        idx < players.len() as u64
    };
    if !ok_idx {
        return None;
    }
    let (st, p4) = match read_state(b, p3) {
        None => {
            return None;
        },
        Some(v) => v,
    };
    let (lt, p5) = match read_u64(b, p4) {
        None => {
            return None;
        },
        Some(v) => v,
    };
    if p5 != blen {
        proof {
            assert(b@.skip(p5 as int).len() != 0);
        }
        return None;
    }
    proof {
        assert(b@.skip(p5 as int).len() == 0);
    }
    let idx_us: usize = idx as usize;
    let cyc = CycleVec::from_parts(players, idx_us);
    let g = Game { players: cyc, gamestate: st, last_time: lt };
    proof {
        assert(model(&g).players =~= g.players.players());
    }
    Some(g)
}

// ---------------------------------------------------------------------------
// the legacy JSON record
// ---------------------------------------------------------------------------

pub open spec fn j_ms(m: (u8, Seq<Space>)) -> Seq<u8> {
    if m.0 == 0 {
        lit("{\"X\":"@) + j_board(m.1) + seq![125u8]
    } else if m.0 == 1 {
        lit("{\"O\":"@) + j_board(m.1) + seq![125u8]
    } else if m.0 == 2 {
        lit("{\"Tie\":"@) + j_board(m.1) + seq![125u8]
    } else {
        lit("{\"Empty\":"@) + j_board(m.1) + seq![125u8]
    }
}

pub open spec fn j_sel(s: Option<(int, int)>) -> Seq<u8> {
    match s {
        None => lit("null"@),
        Some(p) => seq![91u8] + json_num(p.0 as nat) + seq![44u8] + json_num(p.1 as nat) + seq![
            93u8,
        ],
    }
}

pub open spec fn j_ms_items_tail(cells: Seq<(u8, Seq<Space>)>) -> Seq<u8>
    decreases cells.len(),
{
    if cells.len() == 0 {
        Seq::<u8>::empty()
    } else {
        seq![44u8] + j_ms(cells[0]) + j_ms_items_tail(cells.drop_first())
    }
}

pub open spec fn j_ms_items(cells: Seq<(u8, Seq<Space>)>) -> Seq<u8> {
    if cells.len() == 0 {
        Seq::<u8>::empty()
    } else {
        j_ms(cells[0]) + j_ms_items_tail(cells.drop_first())
    }
}

pub open spec fn j_mb(m: MbModel) -> Seq<u8> {
    lit("{\"selected\":"@) + j_sel(m.selected) + lit(",\"spaces\":["@) + j_ms_items(m.cells) + lit(
        "]}"@,
    )
}

pub open spec fn j_state(sm: StateModel) -> Seq<u8> {
    match sm {
        StateModel::Awaiting(a) => lit("{\"AwaitingApproval\":{\"inviter\":"@) + json_num(
            a.inviter as nat,
        ) + lit(",\"invitee\":"@) + json_num(a.invitee as nat) + lit("}}"@),
        StateModel::Playing(bm) => lit("{\"InProgress\":{\"board\":"@) + j_mb(bm) + lit("}}"@),
        StateModel::Done(o, bm) => lit("{\"Finished\":{\"winner\":"@) + j_outcome(o) + lit(
            ",\"board\":"@,
        ) + j_mb(bm) + lit("}}"@),
        StateModel::Cancelled(t) => lit("{\"Cancelled\":"@) + json_str(t) + seq![125u8],
    }
}

pub open spec fn j_game(m: GameModel) -> Seq<u8> {
    lit("{\"players\":["@) + j_items(m.players) + lit("],\"index\":"@) + json_num(m.cursor as nat)
        + lit(",\"gamestate\":"@) + j_state(m.state) + lit(",\"last_time\":"@) + json_num(
        m.last_time as nat,
    ) + seq![125u8]
}

pub open spec fn d_j_ms(b: Seq<u8>) -> Option<((u8, Seq<Space>), Seq<u8>)> {
    let tag = if dec_lit(b, lit("{\"X\":"@)) is Some {
        Some((0u8, dec_lit(b, lit("{\"X\":"@))->Some_0))
    } else if dec_lit(b, lit("{\"O\":"@)) is Some {
        Some((1u8, dec_lit(b, lit("{\"O\":"@))->Some_0))
    } else if dec_lit(b, lit("{\"Tie\":"@)) is Some {
        Some((2u8, dec_lit(b, lit("{\"Tie\":"@))->Some_0))
    } else if dec_lit(b, lit("{\"Empty\":"@)) is Some {
        Some((3u8, dec_lit(b, lit("{\"Empty\":"@))->Some_0))
    } else {
        None
    };
    match tag {
        None => None,
        Some((t, r1)) => match d_j_board(r1) {
            None => None,
            Some((bm, r2)) => if bm.len() == 9 && r2.len() >= 1 && r2[0] == 125 {
                Some(((t, bm), r2.skip(1)))
            } else {
                None
            },
        },
    }
}

pub open spec fn d_j_sel(b: Seq<u8>) -> Option<(Option<(int, int)>, Seq<u8>)> {
    if dec_lit(b, lit("null"@)) is Some {
        Some((None, dec_lit(b, lit("null"@))->Some_0))
    } else if b.len() >= 1 && b[0] == 91 {
        match dec_num(b.skip(1)) {
            None => None,
            Some((x, r1)) => if r1.len() >= 1 && r1[0] == 44 {
                match dec_num(r1.skip(1)) {
                    None => None,
                    Some((y, r2)) => if r2.len() >= 1 && r2[0] == 93 && x < 3 && y < 3 {
                        Some((Some((x as int, y as int)), r2.skip(1)))
                    } else {
                        None
                    },
                }
            } else {
                None
            },
        }
    } else {
        None
    }
}

pub open spec fn d_j_mss_more(b: Seq<u8>) -> Option<(Seq<(u8, Seq<Space>)>, Seq<u8>)>
    decreases b.len(),
{
    if b.len() >= 1 && b[0] == 44 {
        match d_j_ms(b.skip(1)) {
            None => None,
            Some((m, r)) => if r.len() < b.len() {
                match d_j_mss_more(r) {
                    None => None,
                    Some((ms, r2)) => Some((seq![m] + ms, r2)),
                }
            } else {
                None
            },
        }
    } else {
        Some((Seq::<(u8, Seq<Space>)>::empty(), b))
    }
}

pub open spec fn d_j_mss(b: Seq<u8>) -> Option<(Seq<(u8, Seq<Space>)>, Seq<u8>)> {
    if b.len() >= 1 && b[0] == 123 {
        match d_j_ms(b) {
            None => None,
            Some((m, r)) => if r.len() < b.len() {
                match d_j_mss_more(r) {
                    None => None,
                    Some((ms, r2)) => Some((seq![m] + ms, r2)),
                }
            } else {
                None
            },
        }
    } else {
        Some((Seq::<(u8, Seq<Space>)>::empty(), b))
    }
}

pub open spec fn d_j_mb(b: Seq<u8>) -> Option<(MbModel, Seq<u8>)> {
    match dec_lit(b, lit("{\"selected\":"@)) {
        None => None,
        Some(r1) => match d_j_sel(r1) {
            None => None,
            Some((sel, r2)) => match dec_lit(r2, lit(",\"spaces\":["@)) {
                None => None,
                Some(r3) => match d_j_mss(r3) {
                    None => None,
                    Some((cells, r4)) => if cells.len() == 9 {
                        match dec_lit(r4, lit("]}"@)) {
                            None => None,
                            Some(r5) => Some((MbModel { selected: sel, cells }, r5)),
                        }
                    } else {
                        None
                    },
                },
            },
        },
    }
}

pub open spec fn d_j_state(b: Seq<u8>) -> Option<(StateModel, Seq<u8>)> {
    if dec_lit(b, lit("{\"AwaitingApproval\":{\"inviter\":"@)) is Some {
        let r1 = dec_lit(b, lit("{\"AwaitingApproval\":{\"inviter\":"@))->Some_0;
        match dec_num(r1) {
            None => None,
            Some((inviter, r2)) => match dec_lit(r2, lit(",\"invitee\":"@)) {
                None => None,
                Some(r3) => match dec_num(r3) {
                    None => None,
                    Some((invitee, r4)) => match dec_lit(r4, lit("}}"@)) {
                        None => None,
                        Some(r5) => Some(
                            (StateModel::Awaiting(Awaiting { inviter, invitee }), r5),
                        ),
                    },
                },
            },
        }
    } else if dec_lit(b, lit("{\"InProgress\":{\"board\":"@)) is Some {
        let r1 = dec_lit(b, lit("{\"InProgress\":{\"board\":"@))->Some_0;
        match d_j_mb(r1) {
            None => None,
            Some((bm, r2)) => match dec_lit(r2, lit("}}"@)) {
                None => None,
                Some(r3) => Some((StateModel::Playing(bm), r3)),
            },
        }
    } else if dec_lit(b, lit("{\"Finished\":{\"winner\":"@)) is Some {
        let r1 = dec_lit(b, lit("{\"Finished\":{\"winner\":"@))->Some_0;
        match d_j_outcome(r1) {
            None => None,
            Some((o, r2)) => match dec_lit(r2, lit(",\"board\":"@)) {
                None => None,
                Some(r3) => match d_j_mb(r3) {
                    None => None,
                    Some((bm, r4)) => match dec_lit(r4, lit("}}"@)) {
                        None => None,
                        Some(r5) => Some((StateModel::Done(o, bm), r5)),
                    },
                },
            },
        }
    } else if dec_lit(b, lit("{\"Cancelled\":"@)) is Some {
        let r1 = dec_lit(b, lit("{\"Cancelled\":"@))->Some_0;
        match dec_str(r1) {
            None => None,
            Some((t, r2)) => if r2.len() >= 1 && r2[0] == 125 && t.len() <= u64::MAX {
                Some((StateModel::Cancelled(t), r2.skip(1)))
            } else {
                None
            },
        }
    } else {
        None
    }
}

pub open spec fn d_j_game_rest(ps: Seq<Player>, b: Seq<u8>) -> Option<GameModel> {
    match dec_lit(b, lit("],\"index\":"@)) {
        None => None,
        Some(r3) => match dec_num(r3) {
            None => None,
            Some((idx, r4)) => if ((ps.len() == 0 && idx == 0) || (ps.len() > 0 && idx < ps.len()))
                && ps.len() <= u64::MAX {
                match dec_lit(r4, lit(",\"gamestate\":"@)) {
                    None => None,
                    Some(r5) => match d_j_state(r5) {
                        None => None,
                        Some((sm, r6)) => match dec_lit(r6, lit(",\"last_time\":"@)) {
                            None => None,
                            Some(r7) => match dec_num(r7) {
                                None => None,
                                Some((lt, r8)) => if r8.len() == 1 && r8[0] == 125 {
                                    Some(
                                        GameModel {
                                            players: ps,
                                            cursor: idx as int,
                                            state: sm,
                                            last_time: lt,
                                        },
                                    )
                                } else {
                                    None
                                },
                            },
                        },
                    },
                }
            } else {
                None
            },
        },
    }
}

pub open spec fn d_j_game(b: Seq<u8>) -> Option<GameModel> {
    match dec_lit(b, lit("{\"players\":["@)) {
        None => None,
        Some(r1) => match d_j_players(r1) {
            None => None,
            Some((ps, r2)) => d_j_game_rest(ps, r2),
        },
    }
}

// completeness lemmas for the legacy record

proof fn lemma_ms_lits()
    ensures
        lit("{\"X\":"@).len() >= 3 && lit("{\"X\":"@)[0] == 123 && lit("{\"X\":"@)[1] == 34 && lit(
            "{\"X\":"@,
        )[2] == 88,
        lit("{\"O\":"@).len() >= 3 && lit("{\"O\":"@)[0] == 123 && lit("{\"O\":"@)[1] == 34 && lit(
            "{\"O\":"@,
        )[2] == 79,
        lit("{\"Tie\":"@).len() >= 3 && lit("{\"Tie\":"@)[0] == 123 && lit("{\"Tie\":"@)[1] == 34
            && lit("{\"Tie\":"@)[2] == 84,
        lit("{\"Empty\":"@).len() >= 3 && lit("{\"Empty\":"@)[0] == 123 && lit("{\"Empty\":"@)[1]
            == 34 && lit("{\"Empty\":"@)[2] == 69,
        lit("{\"selected\":"@).len() >= 1 && lit("{\"selected\":"@)[0] == 123,
        lit(",\"spaces\":["@).len() >= 1 && lit(",\"spaces\":["@)[0] == 44,
        lit("]}"@).len() >= 1 && lit("]}"@)[0] == 93,
        lit("null"@).len() >= 1 && lit("null"@)[0] == 110,
{
    reveal_strlit("{\"X\":");
    reveal_strlit("{\"O\":");
    reveal_strlit("{\"Tie\":");
    reveal_strlit("{\"Empty\":");
    reveal_strlit("{\"selected\":");
    reveal_strlit(",\"spaces\":[");
    reveal_strlit("]}");
    reveal_strlit("null");
    lemma_lit_head3("{\"X\":"@);
    lemma_lit_head3("{\"O\":"@);
    lemma_lit_head3("{\"Tie\":"@);
    lemma_lit_head3("{\"Empty\":"@);
    lemma_lit_head1("{\"selected\":"@);
    lemma_lit_head1(",\"spaces\":["@);
    lemma_lit_head1("]}"@);
    lemma_lit_head1("null"@);
}

proof fn lemma_d_j_ms_end(t: u8, bmcells: Seq<Space>, rest: Seq<u8>)
    requires
        bmcells.len() == 9,
    ensures
        ({
            let t2 = seq![125u8] + rest;
            &&& d_j_board(j_board(bmcells) + t2) == Some((bmcells, t2))
            &&& t2[0] == 125
            &&& t2.skip(1) =~= rest
        }),
{
    lemma_d_j_board(bmcells, seq![125u8] + rest);
}

#[verifier::spinoff_prover]
proof fn lemma_d_j_ms_x(m: (u8, Seq<Space>), rest: Seq<u8>)
    requires
        m.0 == 0,
        m.1.len() == 9,
    ensures
        d_j_ms(j_ms(m) + rest) == Some((m, rest)),
        (j_ms(m) + rest)[0] == 123,
{
    lemma_ms_lits();
    let b = j_ms(m) + rest;
    let t1 = j_board(m.1) + (seq![125u8] + rest);
    assert(b =~= lit("{\"X\":"@) + t1);
    lemma_dec_enc_lit(lit("{\"X\":"@), t1);
    lemma_d_j_ms_end(m.0, m.1, rest);
}

#[verifier::spinoff_prover]
proof fn lemma_d_j_ms_o(m: (u8, Seq<Space>), rest: Seq<u8>)
    requires
        m.0 == 1,
        m.1.len() == 9,
    ensures
        d_j_ms(j_ms(m) + rest) == Some((m, rest)),
        (j_ms(m) + rest)[0] == 123,
{
    lemma_ms_lits();
    reveal_strlit("{\"X\":");
    let b = j_ms(m) + rest;
    let t1 = j_board(m.1) + (seq![125u8] + rest);
    assert(b =~= lit("{\"O\":"@) + t1);
    assert(b[2] == lit("{\"O\":"@)[2]);
    lemma_lit_not_prefix2("{\"X\":"@, b);
    lemma_dec_enc_lit(lit("{\"O\":"@), t1);
    lemma_d_j_ms_end(m.0, m.1, rest);
}

#[verifier::spinoff_prover]
proof fn lemma_d_j_ms_tie(m: (u8, Seq<Space>), rest: Seq<u8>)
    requires
        m.0 == 2,
        m.1.len() == 9,
    ensures
        d_j_ms(j_ms(m) + rest) == Some((m, rest)),
        (j_ms(m) + rest)[0] == 123,
{
    lemma_ms_lits();
    reveal_strlit("{\"X\":");
    reveal_strlit("{\"O\":");
    let b = j_ms(m) + rest;
    let t1 = j_board(m.1) + (seq![125u8] + rest);
    assert(b =~= lit("{\"Tie\":"@) + t1);
    assert(b[2] == lit("{\"Tie\":"@)[2]);
    lemma_lit_not_prefix2("{\"X\":"@, b);
    lemma_lit_not_prefix2("{\"O\":"@, b);
    lemma_dec_enc_lit(lit("{\"Tie\":"@), t1);
    lemma_d_j_ms_end(m.0, m.1, rest);
}

#[verifier::spinoff_prover]
proof fn lemma_d_j_ms_live(m: (u8, Seq<Space>), rest: Seq<u8>)
    requires
        m.0 == 3,
        m.1.len() == 9,
    ensures
        d_j_ms(j_ms(m) + rest) == Some((m, rest)),
        (j_ms(m) + rest)[0] == 123,
{
    lemma_ms_lits();
    reveal_strlit("{\"X\":");
    reveal_strlit("{\"O\":");
    reveal_strlit("{\"Tie\":");
    let b = j_ms(m) + rest;
    let t1 = j_board(m.1) + (seq![125u8] + rest);
    assert(b =~= lit("{\"Empty\":"@) + t1);
    assert(b[2] == lit("{\"Empty\":"@)[2]);
    lemma_lit_not_prefix2("{\"X\":"@, b);
    lemma_lit_not_prefix2("{\"O\":"@, b);
    lemma_lit_not_prefix2("{\"Tie\":"@, b);
    lemma_dec_enc_lit(lit("{\"Empty\":"@), t1);
    lemma_d_j_ms_end(m.0, m.1, rest);
}

proof fn lemma_d_j_ms(m: (u8, Seq<Space>), rest: Seq<u8>)
    requires
        m.0 <= 3,
        m.1.len() == 9,
    ensures
        d_j_ms(j_ms(m) + rest) == Some((m, rest)),
        (j_ms(m) + rest)[0] == 123,
{
    if m.0 == 0 {
        lemma_d_j_ms_x(m, rest);
    } else if m.0 == 1 {
        lemma_d_j_ms_o(m, rest);
    } else if m.0 == 2 {
        lemma_d_j_ms_tie(m, rest);
    } else {
        lemma_d_j_ms_live(m, rest);
    }
}

#[verifier::rlimit(60)]
proof fn lemma_d_j_sel(s: Option<(int, int)>, rest: Seq<u8>)
    requires
        match s {
            Some(p) => 0 <= p.0 < 3 && 0 <= p.1 < 3,
            None => true,
        },
    ensures
        d_j_sel(j_sel(s) + rest) == Some((s, rest)),
{
    lemma_ms_lits();
    reveal_strlit("null");
    let b = j_sel(s) + rest;
    match s {
        None => {
            lemma_dec_enc_lit(lit("null"@), rest);
        },
        Some(p) => {
            assert(b =~= seq![91u8] + (json_num(p.0 as nat) + (seq![44u8] + (json_num(p.1 as nat)
                + (seq![93u8] + rest)))));
            assert(b[0] == 91);
            lemma_lit_not_prefix0("null"@, b);
            let t1 = json_num(p.0 as nat) + (seq![44u8] + (json_num(p.1 as nat) + (seq![93u8]
                + rest)));
            assert(b.skip(1) =~= t1);
            let t2 = seq![44u8] + (json_num(p.1 as nat) + (seq![93u8] + rest));
            assert(t2[0] == 44 && !is_digit(t2[0]));
            lemma_dec_enc_num((p.0 as nat) as u64, t2);
            let t3 = json_num(p.1 as nat) + (seq![93u8] + rest);
            assert(t2.skip(1) =~= t3);
            let t4 = seq![93u8] + rest;
            assert(t4[0] == 93 && !is_digit(t4[0]));
            lemma_dec_enc_num((p.1 as nat) as u64, t4);
            assert(t4.skip(1) =~= rest);
        },
    }
}

#[verifier::rlimit(100)]
#[verifier::spinoff_prover]
proof fn lemma_d_j_mss_more(cells: Seq<(u8, Seq<Space>)>, rest: Seq<u8>)
    requires
        rest.len() >= 1,
        rest[0] != 44,
        forall|i: int| 0 <= i < cells.len() ==> (#[trigger] cells[i]).0 <= 3 && cells[i].1.len() == 9,
    ensures
        d_j_mss_more(j_ms_items_tail(cells) + rest) == Some((cells, rest)),
    decreases cells.len(),
{
    let b = j_ms_items_tail(cells) + rest;
    if cells.len() == 0 {
        assert(b =~= rest);
    } else {
        lemma_d_j_ms(cells[0], j_ms_items_tail(cells.drop_first()) + rest);
        assert(b =~= seq![44u8] + (j_ms(cells[0]) + (j_ms_items_tail(cells.drop_first()) + rest)));
        assert(b[0] == 44);
        assert(b.skip(1) =~= j_ms(cells[0]) + (j_ms_items_tail(cells.drop_first()) + rest));
        assert(forall|i: int|
            0 <= i < cells.drop_first().len() ==> (#[trigger] cells.drop_first()[i]).0 <= 3
                && cells.drop_first()[i].1.len() == 9);
        lemma_d_j_mss_more(cells.drop_first(), rest);
        assert(seq![cells[0]] + cells.drop_first() =~= cells);
    }
}

#[verifier::rlimit(100)]
#[verifier::spinoff_prover]
proof fn lemma_d_j_mss(cells: Seq<(u8, Seq<Space>)>, rest: Seq<u8>)
    requires
        rest.len() >= 1,
        rest[0] != 44,
        rest[0] != 123,
        forall|i: int| 0 <= i < cells.len() ==> (#[trigger] cells[i]).0 <= 3 && cells[i].1.len() == 9,
    ensures
        d_j_mss(j_ms_items(cells) + rest) == Some((cells, rest)),
{
    let b = j_ms_items(cells) + rest;
    if cells.len() == 0 {
        assert(b =~= rest);
    } else {
        lemma_d_j_ms(cells[0], j_ms_items_tail(cells.drop_first()) + rest);
        assert(b =~= j_ms(cells[0]) + (j_ms_items_tail(cells.drop_first()) + rest));
        assert(b[0] == 123);
        assert(forall|i: int|
            0 <= i < cells.drop_first().len() ==> (#[trigger] cells.drop_first()[i]).0 <= 3
                && cells.drop_first()[i].1.len() == 9);
        lemma_d_j_mss_more(cells.drop_first(), rest);
        assert(seq![cells[0]] + cells.drop_first() =~= cells);
    }
}

#[verifier::rlimit(100)]
#[verifier::spinoff_prover]
proof fn lemma_d_j_mb(m: MbModel, rest: Seq<u8>)
    requires
        wf_mb_model(m),
    ensures
        d_j_mb(j_mb(m) + rest) == Some((m, rest)),
        (j_mb(m) + rest)[0] == 123,
{
    lemma_ms_lits();
    let b = j_mb(m) + rest;
    let t1 = j_sel(m.selected) + (lit(",\"spaces\":["@) + (j_ms_items(m.cells) + (lit("]}"@)
        + rest)));
    assert(b =~= lit("{\"selected\":"@) + t1);
    lemma_dec_enc_lit(lit("{\"selected\":"@), t1);
    lemma_d_j_sel(m.selected, lit(",\"spaces\":["@) + (j_ms_items(m.cells) + (lit("]}"@) + rest)));
    let t2 = j_ms_items(m.cells) + (lit("]}"@) + rest);
    lemma_dec_enc_lit(lit(",\"spaces\":["@), t2);
    let t3 = lit("]}"@) + rest;
    assert(t3[0] == 93 && t3[0] != 44 && t3[0] != 123);
    lemma_d_j_mss(m.cells, t3);
    lemma_dec_enc_lit(lit("]}"@), rest);
}

#[verifier::rlimit(100)]
#[verifier::spinoff_prover]
proof fn lemma_d_j_state_awaiting(a: Awaiting, rest: Seq<u8>)
    ensures
        d_j_state(j_state(StateModel::Awaiting(a)) + rest) == Some((StateModel::Awaiting(a), rest)),
{
    lemma_state_lits();
    let sm = StateModel::Awaiting(a);
    let b = j_state(sm) + rest;
    let ka = lit("{\"AwaitingApproval\":{\"inviter\":"@);
    let t1 = json_num(a.inviter as nat) + (lit(",\"invitee\":"@) + (json_num(a.invitee as nat)
        + lit("}}"@)));
    assert(b =~= ka + (t1 + rest));
    lemma_dec_enc_lit(ka, t1 + rest);
    let t2 = lit(",\"invitee\":"@) + (json_num(a.invitee as nat) + (lit("}}"@) + rest));
    assert(t1 + rest =~= json_num(a.inviter as nat) + t2);
    assert(t2[0] == 44 && !is_digit(t2[0]));
    lemma_dec_enc_num(a.inviter, t2);
    let t3 = json_num(a.invitee as nat) + (lit("}}"@) + rest);
    lemma_dec_enc_lit(lit(",\"invitee\":"@), t3);
    let t4 = lit("}}"@) + rest;
    assert(t4[0] == 125 && !is_digit(t4[0]));
    lemma_dec_enc_num(a.invitee, t4);
    lemma_dec_enc_lit(lit("}}"@), rest);
}

#[verifier::spinoff_prover]
proof fn lemma_d_j_state_playing(bm: MbModel, rest: Seq<u8>)
    requires
        wf_mb_model(bm),
    ensures
        d_j_state(j_state(StateModel::Playing(bm)) + rest) == Some((StateModel::Playing(bm), rest)),
{
    lemma_state_lits();
    let sm = StateModel::Playing(bm);
    let b = j_state(sm) + rest;
    let ki = lit("{\"InProgress\":{\"board\":"@);
    let t1 = j_mb(bm) + (lit("}}"@) + rest);
    assert(b =~= ki + t1);
    assert(b[2] == ki[2]);
    reveal_strlit("{\"AwaitingApproval\":{\"inviter\":");
    reveal_strlit("{\"InProgress\":{\"board\":");
    lemma_lit_not_prefix2("{\"AwaitingApproval\":{\"inviter\":"@, b);
    lemma_dec_enc_lit(ki, t1);
    lemma_d_j_mb(bm, lit("}}"@) + rest);
    lemma_dec_enc_lit(lit("}}"@), rest);
}

#[verifier::spinoff_prover]
proof fn lemma_d_j_state_done(o: Outcome, bm: MbModel, rest: Seq<u8>)
    requires
        wf_mb_model(bm),
    ensures
        d_j_state(j_state(StateModel::Done(o, bm)) + rest) == Some((StateModel::Done(o, bm), rest)),
{
    lemma_state_lits();
    let sm = StateModel::Done(o, bm);
    let b = j_state(sm) + rest;
    let kf = lit("{\"Finished\":{\"winner\":"@);
    let t1 = j_outcome(o) + (lit(",\"board\":"@) + (j_mb(bm) + (lit("}}"@) + rest)));
    assert(b =~= kf + t1);
    assert(b[2] == kf[2]);
    reveal_strlit("{\"AwaitingApproval\":{\"inviter\":");
    reveal_strlit("{\"InProgress\":{\"board\":");
    reveal_strlit("{\"Finished\":{\"winner\":");
    lemma_lit_not_prefix2("{\"AwaitingApproval\":{\"inviter\":"@, b);
    lemma_lit_not_prefix2("{\"InProgress\":{\"board\":"@, b);
    lemma_dec_enc_lit(kf, t1);
    lemma_d_j_outcome(o, lit(",\"board\":"@) + (j_mb(bm) + (lit("}}"@) + rest)));
    lemma_dec_enc_lit(lit(",\"board\":"@), j_mb(bm) + (lit("}}"@) + rest));
    lemma_d_j_mb(bm, lit("}}"@) + rest);
    lemma_dec_enc_lit(lit("}}"@), rest);
}

#[verifier::spinoff_prover]
proof fn lemma_d_j_state_cancelled(t: Seq<char>, rest: Seq<u8>)
    requires
        wf_text(t),
        t.len() <= u64::MAX,
    ensures
        d_j_state(j_state(StateModel::Cancelled(t)) + rest) == Some((
            StateModel::Cancelled(t),
            rest,
        )),
{
    lemma_state_lits();
    let sm = StateModel::Cancelled(t);
    let b = j_state(sm) + rest;
    let kc = lit("{\"Cancelled\":"@);
    let t1 = json_str(t) + (seq![125u8] + rest);
    assert(b =~= kc + t1);
    assert(b[2] == kc[2]);
    reveal_strlit("{\"AwaitingApproval\":{\"inviter\":");
    reveal_strlit("{\"InProgress\":{\"board\":");
    reveal_strlit("{\"Finished\":{\"winner\":");
    lemma_lit_not_prefix2("{\"AwaitingApproval\":{\"inviter\":"@, b);
    lemma_lit_not_prefix2("{\"InProgress\":{\"board\":"@, b);
    lemma_lit_not_prefix2("{\"Finished\":{\"winner\":"@, b);
    lemma_dec_enc_lit(kc, t1);
    crate::json::lemma_dec_enc_str(t, seq![125u8] + rest);
    let t2 = seq![125u8] + rest;
    assert(t2[0] == 125);
    assert(t2.skip(1) =~= rest);
}

proof fn lemma_d_j_state(sm: StateModel, rest: Seq<u8>)
    requires
        match sm {
            StateModel::Awaiting(_) => true,
            StateModel::Playing(bm) => wf_mb_model(bm),
            StateModel::Done(_, bm) => wf_mb_model(bm),
            StateModel::Cancelled(t) => wf_text(t) && t.len() <= u64::MAX,
        },
    ensures
        d_j_state(j_state(sm) + rest) == Some((sm, rest)),
{
    match sm {
        StateModel::Awaiting(a) => lemma_d_j_state_awaiting(a, rest),
        StateModel::Playing(bm) => lemma_d_j_state_playing(bm, rest),
        StateModel::Done(o, bm) => lemma_d_j_state_done(o, bm, rest),
        StateModel::Cancelled(t) => lemma_d_j_state_cancelled(t, rest),
    }
}

/// Parsing a legacy payload made from a well-formed model yields the model.
#[verifier::rlimit(100)]
#[verifier::spinoff_prover]
pub proof fn lemma_d_j_game(m: GameModel)
    requires
        wf_model(m),
    ensures
        d_j_game(j_game(m)) == Some(m),
{
    lemma_game_lits();
    let b = j_game(m);
    let l1 = lit("{\"players\":["@);
    let l2 = lit("],\"index\":"@);
    let l3 = lit(",\"gamestate\":"@);
    let l4 = lit(",\"last_time\":"@);
    let t1 = j_items(m.players) + (l2 + (json_num(m.cursor as nat) + (l3 + (j_state(m.state) + (l4
        + (json_num(m.last_time as nat) + seq![125u8]))))));
    assert(b =~= l1 + t1);
    lemma_dec_enc_lit(l1, t1);
    let t2 = l2 + (json_num(m.cursor as nat) + (l3 + (j_state(m.state) + (l4 + (json_num(
        m.last_time as nat,
    ) + seq![125u8])))));
    assert(t1 =~= j_items(m.players) + t2);
    assert(t2[0] == 93 && t2[0] != 44 && t2[0] != 123);
    lemma_d_j_players(m.players, t2);
    let t3 = json_num(m.cursor as nat) + (l3 + (j_state(m.state) + (l4 + (json_num(
        m.last_time as nat,
    ) + seq![125u8]))));
    lemma_dec_enc_lit(l2, t3);
    let t4 = l3 + (j_state(m.state) + (l4 + (json_num(m.last_time as nat) + seq![125u8])));
    assert(t4[0] == 44 && !is_digit(t4[0]));
    assert(m.cursor as nat <= u64::MAX);
    lemma_dec_enc_num((m.cursor as nat) as u64, t4);
    let t5 = j_state(m.state) + (l4 + (json_num(m.last_time as nat) + seq![125u8]));
    lemma_dec_enc_lit(l3, t5);
    lemma_d_j_state(m.state, l4 + (json_num(m.last_time as nat) + seq![125u8]));
    let t6 = json_num(m.last_time as nat) + seq![125u8];
    lemma_dec_enc_lit(l4, t6);
    let t7 = seq![125u8];
    assert(t7[0] == 125 && !is_digit(t7[0]));
    lemma_dec_enc_num(m.last_time, t7);
}

// ---------------------------------------------------------------------------
// exec encoding and parsing for the legacy record
// ---------------------------------------------------------------------------

proof fn lemma_j_ms_items_tail_snoc(s: Seq<(u8, Seq<Space>)>, x: (u8, Seq<Space>))
    ensures
        j_ms_items_tail(s.push(x)) =~= j_ms_items_tail(s) + (seq![44u8] + j_ms(x)),
    decreases s.len(),
{
    if s.len() == 0 {
        assert(s.push(x).drop_first() =~= Seq::<(u8, Seq<Space>)>::empty());
        assert(s.push(x)[0] == x);
        assert(j_ms_items_tail(Seq::<(u8, Seq<Space>)>::empty()) =~= Seq::<u8>::empty());
    } else {
        lemma_j_ms_items_tail_snoc(s.drop_first(), x);
        assert(s.push(x).drop_first() =~= s.drop_first().push(x));
        assert(s.push(x)[0] == s[0]);
        assert(seq![44u8] + j_ms(s[0]) + (j_ms_items_tail(s.drop_first()) + (seq![44u8] + j_ms(x)))
            =~= (seq![44u8] + j_ms(s[0]) + j_ms_items_tail(s.drop_first())) + (seq![44u8] + j_ms(
            x,
        )));
    }
}

fn jw_board(out: &mut Vec<u8>, b: &Board)
    requires
        b.wf(),
    ensures
        final(out)@ == old(out)@ + j_board(board_model(b)),
{
    crate::tictactoe::serial::jw_board(out, b);
}

fn jw_ms(out: &mut Vec<u8>, ms: &MetaSpace)
    requires
        ms.wf(),
    ensures
        final(out)@ == old(out)@ + j_ms(ms_model(ms)),
{
    match ms {
        MetaSpace::X(b) => {
            write_lit(out, "{\"X\":");
            jw_board(out, b);
        },
        MetaSpace::O(b) => {
            write_lit(out, "{\"O\":");
            jw_board(out, b);
        },
        MetaSpace::Tie(b) => {
            write_lit(out, "{\"Tie\":");
            jw_board(out, b);
        },
        MetaSpace::Empty(b) => {
            write_lit(out, "{\"Empty\":");
            jw_board(out, b);
        },
    }
    out.push(125);
    proof {
        assert(out@ =~= old(out)@ + j_ms(ms_model(ms)));
    }
}

#[verifier::rlimit(100)]
#[verifier::spinoff_prover]
fn jw_ms_items(out: &mut Vec<u8>, mb: &MetaBoard)
    requires
        mb.wf(),
    ensures
        final(out)@ == old(out)@ + j_ms_items(mb_model(mb).cells),
{
    let ghost m = mb_model(mb);
    let ghost base2 = out@;
    jw_ms(out, mb.get(0, 0));
    proof {
        assert(m.cells.take(1).drop_first() =~= Seq::<(u8, Seq<Space>)>::empty());
        assert(m.cells[0] == ms_model(&mb.at(0, 0)));
        assert(out@ =~= base2 + j_ms(m.cells[0]) + j_ms_items_tail(m.cells.take(1).drop_first()));
    }
    let mut i: usize = 1;
    while i < 9
        invariant
            mb.wf(),
            m == mb_model(mb),
            1 <= i <= 9,
            out@ == base2 + j_ms(m.cells[0]) + j_ms_items_tail(m.cells.take(i as int).drop_first()),
        decreases 9 - i,
    {
        out.push(44);
        let x = i / 3;
        let y = i % 3;
        jw_ms(out, mb.get(x, y));
        proof {
            assert(m.cells[i as int] == ms_model(&mb.at(x as int, y as int)));
            lemma_j_ms_items_tail_snoc(m.cells.take(i as int).drop_first(), m.cells[i as int]);
            assert(m.cells.take(i as int + 1).drop_first() =~= m.cells.take(
                i as int,
            ).drop_first().push(m.cells[i as int]));
            assert(out@ =~= base2 + j_ms(m.cells[0]) + j_ms_items_tail(
                m.cells.take(i as int + 1).drop_first(),
            ));
        }
        i = i + 1;
    }
    proof {
        assert(m.cells.take(9) =~= m.cells);
        assert(out@ =~= base2 + j_ms_items(m.cells));
    }
}

fn jw_mb(out: &mut Vec<u8>, mb: &MetaBoard)
    requires
        mb.wf(),
    ensures
        final(out)@ == old(out)@ + j_mb(mb_model(mb)),
{
    let ghost m = mb_model(mb);
    let ghost base = out@;
    write_lit(out, "{\"selected\":");
    match mb.selected {
        None => {
            write_lit(out, "null");
        },
        Some((x, y)) => {
            out.push(91);
            write_num(out, x as u64);
            out.push(44);
            write_num(out, y as u64);
            out.push(93);
        },
    }
    proof {
        assert(out@ =~= base + lit("{\"selected\":"@) + j_sel(m.selected));
    }
    write_lit(out, ",\"spaces\":[");
    jw_ms_items(out, mb);
    write_lit(out, "]}");
    proof {
        assert(out@ =~= base + j_mb(m));
    }
}

fn jw_state(out: &mut Vec<u8>, s: &State)
    requires
        match s {
            State::AwaitingApproval(_) => true,
            State::InProgress(ip) => ip.board.wf(),
            State::Finished(w) => w.board.wf(),
            State::Cancelled(reason) => wf_text(reason@),
        },
    ensures
        final(out)@ == old(out)@ + j_state(state_model(s)),
{
    match s {
        State::AwaitingApproval(a) => {
            write_lit(out, "{\"AwaitingApproval\":{\"inviter\":");
            write_num(out, a.inviter);
            write_lit(out, ",\"invitee\":");
            write_num(out, a.invitee);
            write_lit(out, "}}");
            proof {
                assert(out@ =~= old(out)@ + j_state(state_model(s)));
            }
        },
        State::InProgress(ip) => {
            write_lit(out, "{\"InProgress\":{\"board\":");
            jw_mb(out, &ip.board);
            write_lit(out, "}}");
            proof {
                assert(out@ =~= old(out)@ + j_state(state_model(s)));
            }
        },
        State::Finished(w) => {
            write_lit(out, "{\"Finished\":{\"winner\":");
            jw_outcome(out, &w.winner);
            write_lit(out, ",\"board\":");
            jw_mb(out, &w.board);
            write_lit(out, "}}");
            proof {
                assert(out@ =~= old(out)@ + j_state(state_model(s)));
            }
        },
        State::Cancelled(reason) => {
            write_lit(out, "{\"Cancelled\":");
            crate::json::write_str(out, reason.as_str());
            out.push(125);
            proof {
                assert(out@ =~= old(out)@ + j_state(state_model(s)));
            }
        },
    }
}

/// Write the legacy JSON payload of a game.
pub fn game_to_json(g: &Game) -> (out: Vec<u8>)
    requires
        g.wf(),
    ensures
        out@ == j_game(model(g)),
{
    let ghost m = model(g);
    let mut out: Vec<u8> = Vec::new();
    write_lit(&mut out, "{\"players\":[");
    let ps = g.players.all();
    if ps.len() > 0 {
        let p0 = ps[0];
        jw_player(&mut out, &p0);
        proof {
            assert(m.players.take(1).drop_first() =~= Seq::<Player>::empty());
            assert(out@ =~= lit("{\"players\":["@) + j_player(m.players[0]) + j_items_tail(
                m.players.take(1).drop_first(),
            ));
        }
        let mut i: usize = 1;
        while i < ps.len()
            invariant
                1 <= i <= ps@.len(),
                ps@ == m.players,
                out@ == lit("{\"players\":["@) + j_player(m.players[0]) + j_items_tail(
                    m.players.take(i as int).drop_first(),
                ),
            decreases ps@.len() - i,
        {
            out.push(44);
            let pi = ps[i];
            jw_player(&mut out, &pi);
            proof {
                crate::tictactoe::serial::lemma_j_items_tail_snoc(
                    m.players.take(i as int).drop_first(),
                    m.players[i as int],
                );
                assert(m.players.take(i as int + 1).drop_first() =~= m.players.take(
                    i as int,
                ).drop_first().push(m.players[i as int]));
                assert(out@ =~= lit("{\"players\":["@) + j_player(m.players[0]) + j_items_tail(
                    m.players.take(i as int + 1).drop_first(),
                ));
            }
            i = i + 1;
        }
        proof {
            assert(m.players.take(ps@.len() as int) =~= m.players);
            assert(out@ =~= lit("{\"players\":["@) + j_items(m.players));
        }
    } else {
        proof {
            assert(out@ =~= lit("{\"players\":["@) + j_items(m.players));
        }
    }
    write_lit(&mut out, "],\"index\":");
    write_num(&mut out, g.players.cursor_index() as u64);
    write_lit(&mut out, ",\"gamestate\":");
    jw_state(&mut out, &g.gamestate);
    write_lit(&mut out, ",\"last_time\":");
    write_num(&mut out, g.last_time);
    out.push(125);
    proof {
        assert(out@ =~= j_game(m));
    }
    out
}

fn jr_ms(b: &Vec<u8>, pos: usize) -> (r: Option<(MetaSpace, usize)>)
    requires
        pos <= b@.len(),
    ensures
        match r {
            Some(vp) => {
                &&& pos < vp.1 <= b@.len()
                &&& vp.0.wf()
                &&& d_j_ms(b@.skip(pos as int)) == Some((ms_model(&vp.0), b@.skip(vp.1 as int)))
            },
            None => d_j_ms(b@.skip(pos as int)) is None,
        },
{
    let (tag, p1) = if let Some(p) = expect(b, pos, "{\"X\":") {
        (0u8, p)
    } else if let Some(p) = expect(b, pos, "{\"O\":") {
        (1u8, p)
    } else if let Some(p) = expect(b, pos, "{\"Tie\":") {
        (2u8, p)
    } else if let Some(p) = expect(b, pos, "{\"Empty\":") {
        (3u8, p)
    } else {
        return None;
    };
    let (cells, p2) = match jr_cells(b, p1) {
        Some(v) => v,
        None => {
            return None;
        },
    };
    if cells.len() != 9 {
        return None;
    }
    if p2 < b.len() && b[p2] == 125 {
        proof {
            assert(b@.skip(p2 as int)[0] == 125);
            assert(b@.skip(p2 as int).skip(1) =~= b@.skip(p2 as int + 1));
        }
        let board = build_board(&cells);
        let ms = if tag == 0 {
            MetaSpace::X(board)
        } else if tag == 1 {
            MetaSpace::O(board)
        } else if tag == 2 {
            MetaSpace::Tie(board)
        } else {
            MetaSpace::Empty(board)
        };
        Some((ms, p2 + 1))
    } else {
        proof {
            if p2 < b@.len() {
                assert(b@.skip(p2 as int)[0] == b@[p2 as int]);
            }
        }
        None
    }
}

fn jr_sel(b: &Vec<u8>, pos: usize) -> (r: Option<(Option<(usize, usize)>, usize)>)
    requires
        pos <= b@.len(),
    ensures
        match r {
            Some(vp) => {
                &&& pos <= vp.1 <= b@.len()
                &&& d_j_sel(b@.skip(pos as int)) == Some(
                    (
                        match vp.0 {
                            Some(s) => Some((s.0 as int, s.1 as int)),
                            None => None::<(int, int)>,
                        },
                        b@.skip(vp.1 as int),
                    ),
                )
                &&& (vp.0 matches Some(s) ==> s.0 < 3 && s.1 < 3)
            },
            None => d_j_sel(b@.skip(pos as int)) is None,
        },
{
    if let Some(p) = expect(b, pos, "null") {
        return Some((None, p));
    }
    let blen = b.len();
    if !(pos < blen && b[pos] == 91) {
        proof {
            if pos < b@.len() {
                assert(b@.skip(pos as int)[0] == b@[pos as int]);
            }
        }
        return None;
    }
    proof {
        assert(b@.skip(pos as int)[0] == 91);
        assert(b@.skip(pos as int).skip(1) =~= b@.skip(pos as int + 1));
    }
    let (x, p1) = match read_num(b, pos + 1) {
        Some(v) => v,
        None => {
            return None;
        },
    };
    if !(p1 < blen && b[p1] == 44) {
        proof {
            if p1 < b@.len() {
                assert(b@.skip(p1 as int)[0] == b@[p1 as int]);
            }
        }
        return None;
    }
    proof {
        assert(b@.skip(p1 as int)[0] == 44);
        assert(b@.skip(p1 as int).skip(1) =~= b@.skip(p1 as int + 1));
    }
    let (y, p2) = match read_num(b, p1 + 1) {
        Some(v) => v,
        None => {
            return None;
        },
    };
    if !(p2 < blen && b[p2] == 93 && x < 3 && y < 3) {
        proof {
            if p2 < b@.len() {
                assert(b@.skip(p2 as int)[0] == b@[p2 as int]);
            }
        }
        return None;
    }
    proof {
        assert(b@.skip(p2 as int)[0] == 93);
        assert(b@.skip(p2 as int).skip(1) =~= b@.skip(p2 as int + 1));
    }
    Some((Some((x as usize, y as usize)), p2 + 1))
}

#[verifier::rlimit(100)]
#[verifier::spinoff_prover]
fn jr_mss(b: &Vec<u8>, p2: usize) -> (r: Option<(Vec<MetaSpace>, usize)>)
    requires
        p2 <= b@.len(),
    ensures
        match r {
            Some(vp) => {
                &&& p2 <= vp.1 <= b@.len()
                &&& forall|j: int| 0 <= j < vp.0@.len() ==> (#[trigger] vp.0@[j]).wf()
                &&& d_j_mss(b@.skip(p2 as int)) == Some(
                    (cells_model(vp.0@), b@.skip(vp.1 as int)),
                )
            },
            None => d_j_mss(b@.skip(p2 as int)) is None,
        },
{
    let blen = b.len();
    let mut cells: Vec<MetaSpace> = Vec::new();
    let mut p = p2;
    if p < blen && b[p] == 123 {
        proof {
            assert(b@.skip(p as int)[0] == 123);
        }
        let (m0, pa) = match jr_ms(b, p) {
            Some(v) => v,
            None => {
                return None;
            },
        };
        cells.push(m0);
        p = pa;
        proof {
            assert(cells@ =~= seq![m0]);
        }
        loop
            invariant
                b@.len() <= usize::MAX,
                blen == b@.len(),
                p2 < p <= b@.len(),
                p2 <= b@.len(),
                cells@.len() >= 1,
                forall|j: int| 0 <= j < cells@.len() ==> (#[trigger] cells@[j]).wf(),
                d_j_mss(b@.skip(p2 as int)) == (match d_j_mss_more(b@.skip(p as int)) {
                    Some((ms, rr)) => Some(
                        (cells_model(cells@) + ms, rr),
                    ),
                    None => None::<(Seq<(u8, Seq<Space>)>, Seq<u8>)>,
                }),
            decreases b@.len() - p,
        {
            if p < blen && b[p] == 44 {
                proof {
                    assert(b@.skip(p as int)[0] == 44);
                    assert(b@.skip(p as int).skip(1) =~= b@.skip(p as int + 1));
                }
                let (mi, pb) = match jr_ms(b, p + 1) {
                    Some(v) => v,
                    None => {
                        return None;
                    },
                };
                let ghost prev = cells@;
                cells.push(mi);
                proof {
                    assert(cells@ =~= prev.push(mi));
                    assert(cells_model(cells@) =~= cells_model(prev).push(ms_model(&mi)));
                    if d_j_mss_more(b@.skip(pb as int)) is Some {
                        let (ms, rr) = d_j_mss_more(b@.skip(pb as int))->Some_0;
                        assert(cells_model(prev) + (seq![ms_model(&mi)]
                            + ms) =~= (cells_model(prev).push(
                            ms_model(&mi),
                        )) + ms);
                    }
                }
                p = pb;
            } else {
                proof {
                    if p < b@.len() {
                        assert(b@.skip(p as int)[0] == b@[p as int]);
                    }
                    assert(cells_model(cells@) + Seq::<(u8, Seq<Space>)>::empty() =~= cells_model(
                        cells@,
                    ));
                }
                return Some((cells, p));
            }
        }
    } else {
        proof {
            if p < b@.len() {
                assert(b@.skip(p as int)[0] == b@[p as int]);
            }
            assert(cells_model(cells@) =~= Seq::<(u8, Seq<Space>)>::empty());
        }
        return Some((cells, p));
    }
}

#[verifier::rlimit(100)]
#[verifier::spinoff_prover]
fn jr_mb(b: &Vec<u8>, pos: usize) -> (r: Option<(MetaBoard, usize)>)
    requires
        pos <= b@.len(),
    ensures
        match r {
            Some(vp) => {
                &&& pos < vp.1 <= b@.len()
                &&& vp.0.wf()
                &&& d_j_mb(b@.skip(pos as int)) == Some((mb_model(&vp.0), b@.skip(vp.1 as int)))
            },
            None => d_j_mb(b@.skip(pos as int)) is None,
        },
{
    proof {
        lemma_ms_lits();
    }
    let p0 = match expect(b, pos, "{\"selected\":") {
        Some(p) => p,
        None => {
            return None;
        },
    };
    let (sel, p1) = match jr_sel(b, p0) {
        Some(v) => v,
        None => {
            return None;
        },
    };
    let p2 = match expect(b, p1, ",\"spaces\":[") {
        Some(p) => p,
        None => {
            return None;
        },
    };
    let (cells, p) = match jr_mss(b, p2) {
        Some(v) => v,
        None => {
            return None;
        },
    };
    if cells.len() != 9 {
        return None;
    }
    let p3 = match expect(b, p, "]}") {
        Some(v) => v,
        None => {
            return None;
        },
    };
    let mb = build_meta(cells, sel);
    Some((mb, p3))
}

fn build_meta(cells: Vec<MetaSpace>, sel: Option<(usize, usize)>) -> (mb: MetaBoard)
    requires
        cells@.len() == 9,
        forall|j: int| 0 <= j < 9 ==> (#[trigger] cells@[j]).wf(),
        sel matches Some(s) ==> s.0 < 3 && s.1 < 3,
    ensures
        mb.wf(),
        mb.selected == sel,
        mb_model(&mb).cells == cells_model(cells@),
        mb_model(&mb).selected == (match sel {
            Some(s) => Some((s.0 as int, s.1 as int)),
            None => None::<(int, int)>,
        }),
{
    let ghost cellsg = cells@;
    let mut cs = cells;
    let c8 = cs.pop().unwrap();
    let c7 = cs.pop().unwrap();
    let c6 = cs.pop().unwrap();
    let c5 = cs.pop().unwrap();
    let c4 = cs.pop().unwrap();
    let c3 = cs.pop().unwrap();
    let c2 = cs.pop().unwrap();
    let c1 = cs.pop().unwrap();
    let c0 = cs.pop().unwrap();
    let mut r0: Vec<MetaSpace> = Vec::new();
    r0.push(c0);
    r0.push(c1);
    r0.push(c2);
    let mut r1: Vec<MetaSpace> = Vec::new();
    r1.push(c3);
    r1.push(c4);
    r1.push(c5);
    let mut r2: Vec<MetaSpace> = Vec::new();
    r2.push(c6);
    r2.push(c7);
    r2.push(c8);
    let mut spaces: Vec<Vec<MetaSpace>> = Vec::new();
    spaces.push(r0);
    spaces.push(r1);
    spaces.push(r2);
    let mb = MetaBoard { selected: sel, spaces };
    proof {
        assert(mb.wf());
        assert(c0 == cellsg[0] && c1 == cellsg[1] && c2 == cellsg[2] && c3 == cellsg[3] && c4
            == cellsg[4] && c5 == cellsg[5] && c6 == cellsg[6] && c7 == cellsg[7] && c8
            == cellsg[8]);
        assert(mb_model(&mb).cells =~= seq![
            ms_model(&c0),
            ms_model(&c1),
            ms_model(&c2),
            ms_model(&c3),
            ms_model(&c4),
            ms_model(&c5),
            ms_model(&c6),
            ms_model(&c7),
            ms_model(&c8),
        ]);
        assert(cells_model(cellsg) =~= seq![
            ms_model(&c0),
            ms_model(&c1),
            ms_model(&c2),
            ms_model(&c3),
            ms_model(&c4),
            ms_model(&c5),
            ms_model(&c6),
            ms_model(&c7),
            ms_model(&c8),
        ]);
    }
    mb
}

fn jr_state(b: &Vec<u8>, pos: usize) -> (r: Option<(State, usize)>)
    requires
        pos <= b@.len(),
    ensures
        match r {
            Some(vp) => {
                &&& pos < vp.1 <= b@.len()
                &&& d_j_state(b@.skip(pos as int)) == Some(
                    (state_model(&vp.0), b@.skip(vp.1 as int)),
                )
                &&& match vp.0 {
                    State::AwaitingApproval(_) => true,
                    State::InProgress(ip) => ip.board.wf(),
                    State::Finished(w) => w.board.wf(),
                    State::Cancelled(reason) => wf_text(reason@) && reason@.len() <= u64::MAX,
                }
            },
            None => d_j_state(b@.skip(pos as int)) is None,
        },
{
    if let Some(p1) = expect(b, pos, "{\"AwaitingApproval\":{\"inviter\":") {
        let (inviter, p2) = match read_num(b, p1) {
            Some(v) => v,
            None => {
                return None;
            },
        };
        let p3 = match expect(b, p2, ",\"invitee\":") {
            Some(p) => p,
            None => {
                return None;
            },
        };
        let (invitee, p4) = match read_num(b, p3) {
            Some(v) => v,
            None => {
                return None;
            },
        };
        let p5 = match expect(b, p4, "}}") {
            Some(p) => p,
            None => {
                return None;
            },
        };
        proof {
            reveal_strlit("{\"AwaitingApproval\":{\"inviter\":");
            crate::json::lemma_lit_head1("{\"AwaitingApproval\":{\"inviter\":"@);
        }
        return Some((State::AwaitingApproval(Awaiting { inviter, invitee }), p5));
    }
    if let Some(p1) = expect(b, pos, "{\"InProgress\":{\"board\":") {
        let (board, p2) = match jr_mb(b, p1) {
            Some(v) => v,
            None => {
                return None;
            },
        };
        let p3 = match expect(b, p2, "}}") {
            Some(p) => p,
            None => {
                return None;
            },
        };
        return Some((State::InProgress(InProgress { board }), p3));
    }
    if let Some(p1) = expect(b, pos, "{\"Finished\":{\"winner\":") {
        let (o, p2) = match jr_outcome(b, p1) {
            Some(v) => v,
            None => {
                return None;
            },
        };
        let p3 = match expect(b, p2, ",\"board\":") {
            Some(p) => p,
            None => {
                return None;
            },
        };
        let (board, p4) = match jr_mb(b, p3) {
            Some(v) => v,
            None => {
                return None;
            },
        };
        let p5 = match expect(b, p4, "}}") {
            Some(p) => p,
            None => {
                return None;
            },
        };
        return Some((State::Finished(WonGame { winner: o, board }), p5));
    }
    if let Some(p1) = expect(b, pos, "{\"Cancelled\":") {
        let (reason, p2) = match read_str(b, p1) {
            Some(v) => v,
            None => {
                return None;
            },
        };
        if p2 < b.len() && b[p2] == 125 {
            proof {
                assert(b@.skip(p2 as int)[0] == 125);
                assert(b@.skip(p2 as int).skip(1) =~= b@.skip(p2 as int + 1));
                crate::json::lemma_dec_str_sound(b@.skip(p1 as int));
            }
            return Some((State::Cancelled(reason), p2 + 1));
        } else {
            proof {
                if p2 < b@.len() {
                    assert(b@.skip(p2 as int)[0] == b@[p2 as int]);
                }
            }
            return None;
        }
    }
    None
}

#[verifier::rlimit(100)]
#[verifier::spinoff_prover]
fn jr_game_rest(players: Vec<Player>, b: &Vec<u8>, p: usize) -> (r: Option<Game>)
    requires
        p <= b@.len(),
    ensures
        match r {
            Some(g) => {
                &&& g.wf()
                &&& d_j_game_rest(players@, b@.skip(p as int)) == Some(model(&g))
            },
            None => d_j_game_rest(players@, b@.skip(p as int)) is None,
        },
{
    let blen = b.len();
    let p3 = match expect(b, p, "],\"index\":") {
        Some(v) => v,
        None => {
            return None;
        },
    };
    let (idx, p4) = match read_num(b, p3) {
        Some(v) => v,
        None => {
            return None;
        },
    };
    let n = players.len();
    let ok_idx = if n == 0 {
        idx == 0
    } else {
        idx < n as u64
    };
    if !ok_idx {
        return None;
    }
    let p5 = match expect(b, p4, ",\"gamestate\":") {
        Some(v) => v,
        None => {
            return None;
        },
    };
    let (st, p6) = match jr_state(b, p5) {
        Some(v) => v,
        None => {
            return None;
        },
    };
    let p7 = match expect(b, p6, ",\"last_time\":") {
        Some(v) => v,
        None => {
            return None;
        },
    };
    let (lt, p8) = match read_num(b, p7) {
        Some(v) => v,
        None => {
            return None;
        },
    };
    if !(blen > 0 && p8 == blen - 1 && b[p8] == 125) {
        proof {
            if p8 < b@.len() {
                assert(b@.skip(p8 as int)[0] == b@[p8 as int]);
            }
            assert(b@.skip(p8 as int).len() == b@.len() - p8);
        }
        return None;
    }
    proof {
        assert(b@.skip(p8 as int).len() == 1);
        assert(b@.skip(p8 as int)[0] == 125);
    }
    let idx_us: usize = idx as usize;
    let cyc = CycleVec::from_parts(players, idx_us);
    let g = Game { players: cyc, gamestate: st, last_time: lt };
    proof {
        vstd::std_specs::vec::axiom_spec_len(&g.players.vec);
        assert(model(&g).players =~= g.players.players());
    }
    Some(g)
}

/// Parse a whole legacy JSON payload into a game.
pub fn game_of_json(b: &Vec<u8>) -> (r: Option<Game>)
    ensures
        match r {
            Some(g) => {
                &&& g.wf()
                &&& d_j_game(b@) == Some(model(&g))
            },
            None => d_j_game(b@) is None,
        },
{
    proof {
        assert(b@.skip(0) =~= b@);
    }
    let p0 = match expect(b, 0, "{\"players\":[") {
        Some(p) => p,
        None => {
            return None;
        },
    };
    let (players, p) = match jr_players(b, p0) {
        Some(v) => v,
        None => {
            return None;
        },
    };
    jr_game_rest(players, b, p)
}

// ---------------------------------------------------------------------------
// the codec contract
// ---------------------------------------------------------------------------

impl crate::codec::TokenCodec for Game {
    open spec fn wf(&self) -> bool {
        Game::wf(self)
    }

    open spec fn same(&self, other: &Self) -> bool {
        model(self) == model(other)
    }

    open spec fn enc(&self) -> Seq<u8> {
        enc_model(model(self))
    }

    open spec fn enc_legacy(&self) -> Seq<u8> {
        j_game(model(self))
    }

    proof fn lemma_format_heads(&self) {
        assert(enc_model(model(self))[0] == 1);
        reveal_strlit("{\"players\":[");
        crate::json::lemma_lit_head1("{\"players\":["@);
        let m = model(self);
        assert(j_game(m)[0] == lit("{\"players\":["@)[0]);
    }

    fn to_bytes(&self) -> (out: Vec<u8>) {
        game_to_bytes(self)
    }

    fn to_bytes_legacy(&self) -> (out: Vec<u8>) {
        game_to_json(self)
    }

    fn of_bytes(b: &Vec<u8>) -> (r: Option<Self>) {
        let r = game_of_bytes(b);
        proof {
            match &r {
                Some(g) => {
                    lemma_dec_game_sound(b@);
                    assert forall|v: Game|
                        v.wf() && b@ == #[trigger] enc_model(model(&v)) implies model(&g) == model(
                        &v,
                    ) by {
                        lemma_model_wf(&v);
                        lemma_dec_enc_game(model(&v));
                    }
                },
                None => {
                    assert forall|v: Game|
                        v.wf() && b@ == #[trigger] enc_model(model(&v)) implies false by {
                        lemma_model_wf(&v);
                        lemma_dec_enc_game(model(&v));
                    }
                },
            }
        }
        r
    }

    fn of_legacy(b: &Vec<u8>) -> (r: Option<Self>) {
        let r = game_of_json(b);
        let out = match r {
            Some(g) => {
                // pin the payload: only the exact legacy encoding of the
                // parsed value is accepted
                let again = game_to_json(&g);
                if crate::bytes::vec_bytes_eq(&again, b) {
                    Some(g)
                } else {
                    None
                }
            },
            None => None,
        };
        proof {
            match &out {
                Some(g) => {
                    assert forall|v: Game|
                        v.wf() && b@ == #[trigger] j_game(model(&v)) implies model(&g) == model(
                        &v,
                    ) by {
                        lemma_model_wf(&v);
                        lemma_d_j_game(model(&v));
                    }
                },
                None => {
                    assert forall|v: Game|
                        v.wf() && b@ == #[trigger] j_game(model(&v)) implies false by {
                        lemma_model_wf(&v);
                        lemma_d_j_game(model(&v));
                    }
                },
            }
        }
        out
    }
}

} // verus!
