//! Checks for the ultimate meta-board rules, the sliding puzzle, and the
//! leaderboard helpers.

use quickgames::codec::{deserialize, serialize, serialize_legacy};
use quickgames::cycle::CycleVec;
use quickgames::db;
use quickgames::effect::{Effect, GameError};
use quickgames::slidingpuzzle;
use quickgames::tictactoe::{Action, Board, Outcome, Player, Space};
use quickgames::ultimatetictactoe as ult;
use quickgames::slidingpuzzle::serial::{game_of_bytes, game_to_bytes};
use slidingpuzzle::{
    Action as PAction, Board as PBoard, Difficulty, Direction, Size, Space as PSpace,
};
use quickgames::leaderboard::{parse_leaderboard_query, LbQuery, Opt, OptVal};
use quickgames::util::{format_duration, to_emoji};
use Space::{O, X};

fn players() -> Vec<Player> {
    vec![
        Player {
            id: 1,
            piece: Space::X,
        },
        Player {
            id: 2,
            piece: Space::O,
        },
    ]
}

fn full_tied_board() -> Board {
    Board {
        spaces: vec![vec![X, O, X], vec![X, O, O], vec![O, X, X]],
    }
}

fn fresh_ult() -> ult::Game {
    ult::Game {
        players: CycleVec::from_parts(players(), 0),
        gamestate: ult::State::AwaitingApproval(quickgames::tictactoe::Awaiting {
            inviter: 1,
            invitee: 2,
        }),
        last_time: 50,
    }
}

#[test]
fn ultimate_round_trip_through_token() {
    let mut game = fresh_ult();
    game.do_action(2, Action::Accept, 50).unwrap();
    // one selection and one placement so the board is no longer blank
    game.do_action(1, Action::Place(1, 1), 50).unwrap();
    game.do_action(1, Action::Place(0, 0), 50).unwrap();
    let token = serialize(&game);
    let back: ult::Game = deserialize(&token).unwrap();
    assert_eq!(back, game);
    let legacy = serialize_legacy(&game);
    let back: ult::Game = deserialize(&legacy).unwrap();
    assert_eq!(back, game);
}

#[test]
fn selection_keeps_the_turn_and_placement_passes_it() {
    let mut game = fresh_ult();
    game.do_action(2, Action::Accept, 50).unwrap();
    // selecting a sub-board does not pass the turn
    game.do_action(1, Action::Place(1, 1), 50).unwrap();
    // ... so the same player places, landing on (0, 0): that sub-board is
    // undecided, and the opponent is sent there
    game.do_action(1, Action::Place(0, 0), 50).unwrap();
    match &game.gamestate {
        ult::State::InProgress(ip) => assert_eq!(ip.board.selected, Some((0, 0))),
        other => panic!("expected play, got {:?}", other),
    }
    // now it is the opponent's turn
    assert_eq!(
        game.do_action(1, Action::Place(2, 2), 50).unwrap_err(),
        GameError::NotYourTurn
    );
    game.do_action(2, Action::Place(2, 2), 50).unwrap();
}

#[test]
fn a_decided_sub_board_cannot_be_chosen() {
    let mut game = fresh_ult();
    game.do_action(2, Action::Accept, 50).unwrap();
    // replace one sub-board with a tied one to lock it
    if let ult::State::InProgress(ip) = &mut game.gamestate {
        ip.board.spaces[2][2] = ult::MetaSpace::Tie(full_tied_board());
    } else {
        panic!("expected play");
    }
    let err = game.do_action(1, Action::Place(2, 2), 50).unwrap_err();
    assert_eq!(err, GameError::BoardDecided);
}

#[test]
fn a_tie_counts_for_either_player_but_three_ties_count_for_no_one() {
    let b = || full_tied_board();
    assert_eq!(
        ult::all_equal(
            &ult::MetaSpace::Tie(b()),
            &ult::MetaSpace::X(b()),
            &ult::MetaSpace::X(b())
        ),
        Some(Space::X)
    );
    assert_eq!(
        ult::all_equal(
            &ult::MetaSpace::O(b()),
            &ult::MetaSpace::Tie(b()),
            &ult::MetaSpace::Tie(b())
        ),
        Some(Space::O)
    );
    assert_eq!(
        ult::all_equal(
            &ult::MetaSpace::Tie(b()),
            &ult::MetaSpace::Tie(b()),
            &ult::MetaSpace::Tie(b())
        ),
        None
    );
}

#[test]
fn nine_tied_sub_boards_tie_the_whole_game() {
    let mut meta = ult::MetaBoard::new();
    for x in 0..3 {
        for y in 0..3 {
            meta.spaces[x][y] = ult::MetaSpace::Tie(full_tied_board());
        }
    }
    let cycle = CycleVec::from_parts(players(), 0);
    assert_eq!(meta.check_winner(&cycle), Some(Outcome::Tie));
}

#[test]
fn check_solved_means_every_cell_holds_its_index_plus_one() {
    let solved = PBoard::seeded(Size::Three, 4);
    assert!(solved.check_winner());
    let mut off = PBoard::seeded(Size::Three, 4);
    off.spaces[0] = PSpace::Value(3);
    assert!(!off.check_winner());
}

#[test]
fn swap_checked_rejects_non_adjacent_and_non_blank_swaps() {
    let mut b = PBoard::seeded(Size::Three, 4);
    // neither index is the blank
    assert_eq!(b.swap_checked(0, 1).unwrap_err(), GameError::NotBlank);
    // blank involved but diagonal
    assert_eq!(b.swap_checked(0, 4).unwrap_err(), GameError::NotAdjacent);
    // out of bounds
    assert_eq!(b.swap_checked(4, 9).unwrap_err(), GameError::OutOfBounds);
    // a legal swap works and is reversible
    b.swap_checked(1, 4).unwrap();
    b.swap_checked(4, 1).unwrap();
    assert!(b.check_winner());
}

#[test]
fn generated_boards_are_well_formed_and_slides_keep_the_tiles() {
    let b = PBoard::new(Size::Four, Difficulty::Easy);
    assert_eq!(b.spaces.len(), 16);
    let blanks = b
        .spaces
        .iter()
        .filter(|s| **s == PSpace::Empty)
        .count();
    assert_eq!(blanks, 1);
    // a slide and its inverse restore the board
    let mut c = PBoard::seeded(Size::Three, 4);
    let used = c.move_empty_tile_raw(Direction::Up);
    assert_eq!(used, Direction::Up);
    c.move_empty_tile_raw(Direction::Down);
    assert!(c.check_winner());
}

#[test]
fn puzzle_solved_by_inverting_the_shuffle_finishes_and_records() {
    // a deterministic "shuffle": the generation slides the blank up, and
    // the player undoes it by sliding the tile back down
    let mut board = PBoard::seeded(Size::Three, 4);
    board.move_empty_tile_raw(Direction::Up);
    assert!(!board.check_winner());
    let mut game = slidingpuzzle::Game::new(7);
    game.do_action(7, PAction::SetDifficulty(Difficulty::Easy), 1000)
        .unwrap();
    game.do_action(7, PAction::Start, 1000).unwrap();
    if let slidingpuzzle::State::InProgress(ip) = &mut game.gamestate {
        ip.board = board;
    } else {
        panic!("expected play");
    }
    // blank sits at index 1 after the shuffle; the inverse move swaps it back
    let effects = game.do_action(7, PAction::MoveTile(4, 1), 1030).unwrap();
    match &game.gamestate {
        slidingpuzzle::State::Finished(w) => {
            assert_eq!(w.winner.moves, 1);
            assert_eq!(w.winner.elapsed, 0);
        }
        other => panic!("expected a finished puzzle, got {:?}", other),
    }
    assert_eq!(
        effects,
        vec![Effect::RecordPuzzle {
            player: 7,
            difficulty: 0,
            size: 0,
            moves: 1,
            elapsed: 0
        }]
    );
    // and nothing further is accepted
    assert_eq!(
        game.do_action(7, PAction::MoveTile(1, 4), 1030).unwrap_err(),
        GameError::InvalidAction
    );
}

#[test]
fn puzzle_state_survives_its_binary_record() {
    let mut game = slidingpuzzle::Game::new(9);
    game.do_action(9, slidingpuzzle::Action::Start, 5).unwrap();
    let bytes = game_to_bytes(&game);
    let back = game_of_bytes(&bytes).unwrap();
    assert_eq!(back, game);
    // corrupting the payload is caught
    let mut bad = bytes.clone();
    bad[0] = 9;
    assert!(game_of_bytes(&bad).is_none());
}

#[test]
fn puzzle_action_ids_round_trip() {
    let id = PAction::SetSize(Size::Four).to_custom_id("slidingpuzzle");
    assert_eq!(id, "slidingpuzzle:SetSize:4x4");
    match PAction::from_custom_id(&id) {
        Some(PAction::SetSize(Size::Four)) => {}
        other => panic!("unexpected decode: {:?}", other),
    }
    match PAction::from_custom_id("slidingpuzzle:MoveTile:3:6") {
        Some(PAction::MoveTile(3, 6)) => {}
        other => panic!("unexpected decode: {:?}", other),
    }
    assert!(PAction::from_custom_id("slidingpuzzle:SetDifficulty:Extreme").is_none());
    assert!(PAction::from_custom_id("slidingpuzzle:MoveTile:3").is_none());
    assert_eq!(Difficulty::Hard.name(), "Hard");
}

#[test]
fn ratings_and_puzzle_standings_follow_the_rules() {
    assert_eq!(db::calculate_rating(3, 2), 3 * 17 - 2 * 13);
    assert_eq!(db::calculate_rating(0, 0), 0);
    let row = |user_id, score, time, created_at| db::PuzzleRow {
        user_id,
        difficulty: 0,
        size: 0,
        score,
        time,
        created_at,
    };
    let rows = vec![
        row(1, 30, 60, 5),
        row(1, 20, 90, 6),  // player 1's best score
        row(2, 20, 70, 7),  // beats player 1 on time at the same score
        row(3, 50, 10, 8),
    ];
    let (page, more) = db::puzzle_standings(&rows, db::SlidingPuzzleSortBy::Score, 2);
    assert!(more);
    assert_eq!(page.len(), 2);
    assert_eq!(page[0], row(2, 20, 70, 7));
    assert_eq!(page[1], row(1, 20, 90, 6));
    let (all, more) = db::puzzle_standings(&rows, db::SlidingPuzzleSortBy::Time, 10);
    assert!(!more);
    assert_eq!(all.len(), 3);
    assert_eq!(all[0], row(3, 50, 10, 8));
}

#[test]
fn filter_builders_update_their_fields() {
    let mut f = db::SlidingPuzzleFilters::default();
    assert_eq!(f.limit, 10);
    f.hard();
    f.fivebyfive();
    f.sort_by_time();
    f.limit(5);
    f.increment_offset();
    assert_eq!(f.filter_by.difficulty, 2);
    assert_eq!(f.filter_by.size, 2);
    assert_eq!(f.sort_by, db::SlidingPuzzleSortBy::Time);
    assert_eq!(f.paginated_offset(), 5);
}

#[test]
fn puzzle_round_trip_through_token() {
    let mut game = slidingpuzzle::Game::new(11);
    game.do_action(11, PAction::SetSize(Size::Five), 3).unwrap();
    game.do_action(11, PAction::Start, 3).unwrap();
    let token = serialize(&game);
    let back: slidingpuzzle::Game = deserialize(&token).unwrap();
    assert_eq!(back, game);
    let legacy = serialize_legacy(&game);
    let back: slidingpuzzle::Game = deserialize(&legacy).unwrap();
    assert_eq!(back, game);
}

#[test]
fn durations_and_tile_labels_format_exactly() {
    assert_eq!(format_duration(0), "0s");
    assert_eq!(format_duration(59), "59s");
    assert_eq!(format_duration(60), "1m");
    assert_eq!(format_duration(61), "1m 1s");
    assert_eq!(format_duration(90061), "1d 1h 1m 1s");
    assert_eq!(format_duration(86400), "1d");
    assert_eq!(to_emoji(7), "7\u{fe0f}\u{20e3}");
    assert_eq!(to_emoji(25), "2\u{fe0f}\u{20e3}5\u{fe0f}\u{20e3}");
}

#[test]
fn tiles_slide_only_toward_an_adjacent_blank() {
    // blank at the center of a solved three-wide board
    let b = PBoard::seeded(Size::Three, 4);
    assert_eq!(b.direction_towards_empty_tile(1, 0), Some(Direction::Up));
    assert_eq!(b.direction_towards_empty_tile(1, 2), Some(Direction::Down));
    assert_eq!(b.direction_towards_empty_tile(0, 1), Some(Direction::Left));
    assert_eq!(b.direction_towards_empty_tile(2, 1), Some(Direction::Right));
    // the blank itself, a diagonal, and an off-board coordinate
    assert_eq!(b.direction_towards_empty_tile(1, 1), None);
    assert_eq!(b.direction_towards_empty_tile(0, 0), None);
    assert_eq!(b.direction_towards_empty_tile(9, 1), None);
}

#[test]
fn generated_boards_hold_every_tile_exactly_once() {
    let b = PBoard::new(Size::Three, Difficulty::Easy);
    for i in 0..b.spaces.len() {
        for j in 0..b.spaces.len() {
            if i != j {
                assert_ne!(b.spaces[i], b.spaces[j]);
            }
        }
    }
}

#[test]
fn leaderboard_options_parse_to_typed_queries() {
    let opt = |name: &str, value| Opt {
        name: name.to_string(),
        value,
    };
    let text = |v: &str| OptVal::Text(v.to_string());
    // slidingpuzzle > 4x4 > (sort=time, difficulty=hard)
    let tree = vec![opt(
        "slidingpuzzle",
        OptVal::Group(vec![opt(
            "4x4",
            OptVal::Sub(vec![opt("sort", text("time")), opt("difficulty", text("hard"))]),
        )]),
    )];
    match parse_leaderboard_query(&tree) {
        Ok(LbQuery::SlidingPuzzle(f)) => {
            assert_eq!(f.sort_by, db::SlidingPuzzleSortBy::Time);
            assert_eq!(f.filter_by.size, 1);
            assert_eq!(f.filter_by.difficulty, 2);
            assert_eq!(f.limit, 10);
        }
        other => panic!("unexpected parse: {:?}", other),
    }
    // the plain two-player sub-commands
    let ttt = vec![opt("tictactoe", OptVal::Sub(vec![]))];
    assert_eq!(parse_leaderboard_query(&ttt), Ok(LbQuery::TicTacToe));
    let ult = vec![opt("ultimate_tictactoe", OptVal::Sub(vec![]))];
    assert_eq!(parse_leaderboard_query(&ult), Ok(LbQuery::UltimateTicTacToe));
    // unknown names, wrong shapes and bad choices are rejected
    assert!(parse_leaderboard_query(&vec![opt("bogus", OptVal::Sub(vec![]))]).is_err());
    assert!(parse_leaderboard_query(&vec![opt("tictactoe", text("x"))]).is_err());
    let bad = vec![opt(
        "slidingpuzzle",
        OptVal::Group(vec![opt("3x3", OptVal::Sub(vec![opt("sort", text("loudness"))]))]),
    )];
    assert!(parse_leaderboard_query(&bad).is_err());
    assert!(parse_leaderboard_query(&vec![]).is_err());
}
