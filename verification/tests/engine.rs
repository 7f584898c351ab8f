//! End-to-end checks of the game engine: codecs, boards, and the state
//! machines, driven through the public surface.

use quickgames::codec::{deserialize, embed_token, extract_token, serialize, serialize_legacy, DecodeError};
use quickgames::cycle::CycleVec;
use quickgames::effect::{Effect, GameError, Note};
use quickgames::tictactoe;
use quickgames::tictactoe::{Action, Board, Outcome, Player, Space};
use base64::Engine;
use Space::{Empty, O, X};

fn two_players() -> Vec<Player> {
    vec![
        Player {
            id: 1,
            piece: Space::X,
        },
        Player {
            id: 2,
            piece: Space::O,
        },
    ]
}

fn fresh_game() -> tictactoe::Game {
    tictactoe::Game {
        players: CycleVec::from_parts(two_players(), 0),
        gamestate: tictactoe::State::AwaitingApproval(tictactoe::Awaiting {
            inviter: 1,
            invitee: 2,
        }),
        last_time: 100,
    }
}

#[test]
fn tictactoe_round_trip_through_token() {
    let game = fresh_game();
    let token = serialize(&game);
    assert!(!token.is_empty());
    assert!(!token.contains('\n'));
    assert!(!token.contains(' '));
    let back: tictactoe::Game = deserialize(&token).unwrap();
    assert_eq!(back, game);
}

#[test]
fn tictactoe_legacy_token_still_decodes() {
    let mut game = fresh_game();
    // also exercise a mid-game state
    let effects = game.do_action(2, Action::Accept, 160).unwrap();
    assert_eq!(
        effects,
        vec![Effect::Notify {
            player: 1,
            note: Note::YourTurn
        }]
    );
    let legacy = serialize_legacy(&game);
    let back: tictactoe::Game = deserialize(&legacy).unwrap();
    assert_eq!(back, game);
}

#[test]
fn corrupt_tokens_fail_without_panicking() {
    let r: Result<tictactoe::Game, _> = deserialize("!!!not-base64!!!");
    assert_eq!(r.unwrap_err(), DecodeError::Base64);
    // valid base64, but not gzip
    let not_gzip = base64::engine::general_purpose::URL_SAFE_NO_PAD.encode(b"plain bytes");
    let r: Result<tictactoe::Game, _> = deserialize(&not_gzip);
    assert_eq!(r.unwrap_err(), DecodeError::Compression);
    // valid gzip, but a payload in neither format
    let mut enc = flate2::write::GzEncoder::new(Vec::new(), flate2::Compression::default());
    std::io::Write::write_all(&mut enc, b"\x07neither format").unwrap();
    let garbled = base64::engine::general_purpose::URL_SAFE_NO_PAD.encode(enc.finish().unwrap());
    let r: Result<tictactoe::Game, _> = deserialize(&garbled);
    assert_eq!(r.unwrap_err(), DecodeError::Payload);
}

#[test]
fn turn_cycle_full_rotation_returns_to_start() {
    let mut cycle = CycleVec::new(two_players());
    let start = *cycle.current().unwrap();
    for _ in 0..2 {
        cycle.next_player();
        assert!(cycle.current().is_some());
    }
    assert_eq!(*cycle.current().unwrap(), start);
}

#[test]
fn occupied_cell_is_rejected_without_mutation() {
    let mut ip = tictactoe::InProgress {
        board: Board::blank(),
    };
    ip.make_move(1, 1, Space::X).unwrap();
    let before = ip.board.clone();
    let err = ip.make_move(1, 1, Space::O).unwrap_err();
    assert_eq!(err, GameError::Occupied);
    assert_eq!(ip.board, before);
    let err = ip.make_move(3, 0, Space::O).unwrap_err();
    assert_eq!(err, GameError::OutOfBounds);
    assert_eq!(ip.board, before);
}

fn board_from(rows: [[Space; 3]; 3]) -> Board {
    Board {
        spaces: rows.iter().map(|r| r.to_vec()).collect(),
    }
}

#[test]
fn full_board_with_no_line_is_a_tie() {
    let board = board_from([[X, O, X], [X, O, O], [O, X, X]]);
    let players = CycleVec::from_parts(two_players(), 0);
    assert_eq!(board.check_winner(&players), Some(Outcome::Tie));
    let open_board = board_from([[X, O, X], [X, Empty, O], [O, X, X]]);
    assert_eq!(open_board.check_winner(&players), None);
}

#[test]
fn every_line_reports_its_winner() {
    let players = CycleVec::from_parts(two_players(), 0);
    let x = Player {
        id: 1,
        piece: Space::X,
    };
    // a row, a column, and both diagonals
    let row = board_from([[X, X, X], [O, O, Empty], [Empty, Empty, Empty]]);
    assert_eq!(row.check_winner(&players), Some(Outcome::Win(x)));
    let col = board_from([[X, O, Empty], [X, O, Empty], [X, Empty, Empty]]);
    assert_eq!(col.check_winner(&players), Some(Outcome::Win(x)));
    let diag = board_from([[X, O, Empty], [O, X, Empty], [Empty, Empty, X]]);
    assert_eq!(diag.check_winner(&players), Some(Outcome::Win(x)));
    let anti = board_from([[O, Empty, X], [O, X, Empty], [X, Empty, Empty]]);
    assert_eq!(anti.check_winner(&players), Some(Outcome::Win(x)));
}

#[test]
fn two_players_play_x_wins_and_the_game_locks() {
    let mut game = fresh_game();
    // only the invitee may answer, and only with a handshake action
    assert_eq!(
        game.do_action(1, Action::Accept, 100).unwrap_err(),
        GameError::NotInvitee
    );
    assert_eq!(
        game.do_action(2, Action::Place(0, 0), 100).unwrap_err(),
        GameError::InvalidAction
    );
    game.do_action(2, Action::Accept, 100).unwrap();
    // player 1 (X) starts; O answers elsewhere between each X move
    game.do_action(1, Action::Place(0, 0), 100).unwrap();
    assert_eq!(
        game.do_action(1, Action::Place(0, 1), 100).unwrap_err(),
        GameError::NotYourTurn
    );
    game.do_action(2, Action::Place(1, 0), 100).unwrap();
    game.do_action(1, Action::Place(0, 1), 100).unwrap();
    game.do_action(2, Action::Place(1, 1), 100).unwrap();
    let effects = game.do_action(1, Action::Place(0, 2), 100).unwrap();
    let x = Player {
        id: 1,
        piece: Space::X,
    };
    match &game.gamestate {
        tictactoe::State::Finished(w) => assert_eq!(w.winner, Outcome::Win(x)),
        other => panic!("expected a finished game, got {:?}", other),
    }
    // everyone is told, and both leaderboard rows are requested
    assert_eq!(
        effects,
        vec![
            Effect::Notify {
                player: 1,
                note: Note::Won
            },
            Effect::Notify {
                player: 2,
                note: Note::Lost
            },
            Effect::RecordTicTacToe {
                player: 1,
                opponent: 2,
                won: true
            },
            Effect::RecordTicTacToe {
                player: 2,
                opponent: 1,
                won: false
            },
        ]
    );
    // the terminal phase accepts nothing further
    assert_eq!(
        game.do_action(2, Action::Place(2, 2), 100).unwrap_err(),
        GameError::InvalidAction
    );
}

#[test]
fn declining_cancels_the_game() {
    let mut game = fresh_game();
    game.do_action(2, Action::Decline, 100).unwrap();
    match &game.gamestate {
        tictactoe::State::Cancelled(reason) => assert_eq!(reason, "Declined"),
        other => panic!("expected a cancelled game, got {:?}", other),
    }
    assert_eq!(
        game.do_action(2, Action::Accept, 100).unwrap_err(),
        GameError::InvalidAction
    );
}

#[test]
fn malformed_control_ids_decode_to_none() {
    assert!(Action::from_custom_id("tictactoe:Accept").is_some());
    assert!(Action::from_custom_id("tictactoe:Place:1:2").is_some());
    // unknown action name
    assert!(Action::from_custom_id("tictactoe:Bogus").is_none());
    // wrong argument count, including trailing extras
    assert!(Action::from_custom_id("tictactoe:Place:1").is_none());
    assert!(Action::from_custom_id("tictactoe:Place:1:2:3").is_none());
    assert!(Action::from_custom_id("tictactoe:Accept:9").is_none());
    // unparseable argument
    assert!(Action::from_custom_id("tictactoe:Place:one:2").is_none());
    assert!(Action::from_custom_id("").is_none());
}

#[test]
fn control_ids_round_trip() {
    let id = Action::Place(2, 1).to_custom_id("tictactoe");
    assert_eq!(id, "tictactoe:Place:2:1");
    match Action::from_custom_id(&id) {
        Some(Action::Place(2, 1)) => {}
        other => panic!("unexpected decode: {:?}", other),
    }
    assert_eq!(Action::Accept.name(), "Accept");
}

#[test]
fn tokens_ride_the_first_fenced_line() {
    let game = fresh_game();
    let token = serialize(&game);
    // the token is URL-safe: no whitespace, padding or fence characters
    assert!(token
        .chars()
        .all(|c| c.is_ascii_alphanumeric() || c == '-' || c == '_'));
    let content = embed_token(&token, "Tic Tac Toe");
    assert!(content.starts_with("```"));
    let back = extract_token(&content).unwrap();
    assert_eq!(back, token);
    let round: tictactoe::Game = deserialize(&back).unwrap();
    assert_eq!(round, game);
    // content without the fence carries no token
    assert!(extract_token("no fence here\njust text").is_none());
}

#[test]
fn a_tampered_legacy_payload_is_rejected() {
    let game = fresh_game();
    let legacy = serialize_legacy(&game);
    let bytes = base64::engine::general_purpose::URL_SAFE_NO_PAD
        .decode(legacy.as_bytes())
        .unwrap();
    let mut dec = flate2::read::GzDecoder::new(&bytes[..]);
    let mut payload = Vec::new();
    std::io::Read::read_to_end(&mut dec, &mut payload).unwrap();
    // appending junk after the closing brace must not decode
    payload.push(b'!');
    let mut enc = flate2::write::GzEncoder::new(Vec::new(), flate2::Compression::default());
    std::io::Write::write_all(&mut enc, &payload).unwrap();
    let tampered =
        base64::engine::general_purpose::URL_SAFE_NO_PAD.encode(enc.finish().unwrap());
    let r: Result<tictactoe::Game, _> = deserialize(&tampered);
    assert_eq!(r.unwrap_err(), DecodeError::Payload);
}
