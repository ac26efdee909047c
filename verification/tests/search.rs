use cartographers::board::GameBoard;
use cartographers::card::{
    fischerdorf, gnollangriff, ogeroffensive, rattenmenschenrache, splitterland,
};
use cartographers::game::{PlayerBoard, PlayerTerrain, Season};
use cartographers::mask::Mask;
use cartographers::scoring::{Board, Edict};
use cartographers::search::{
    deepen, find_best_move, search_explore_move, search_game_move, Deepening, FindError,
    GameState, InitialState, RevealError, SearchError, Statistics, Turn,
};
use cartographers::timer::Deadline;
use std::sync::atomic::AtomicBool;
use PlayerTerrain::{Farm, Forest, Monster, Water};

const SCALE: i128 = 1 << 20;

const EDICTS: [Edict; 4] = [
    Edict::SentinelWood,
    Edict::CanalLake,
    Edict::Wildholds,
    Edict::Borderlands,
];

fn statistics() -> Statistics {
    Statistics { positions_evaluated: 0, depth_reached: 0, end_reached: false }
}

/// The state on side 1 in which farms fill every cell but the mountains and
/// the cells of `free`.
fn filled_but<'a>(initial: &'a InitialState, free: Mask) -> GameState<'a> {
    let mut state = GameState::new(initial);
    let mountains = state.mountain();
    state.new_board(PlayerBoard::new_with(|i| {
        let cell = Mask::cell_idx(i);
        if mountains.contains(cell) || free.contains(cell) {
            None
        } else {
            Some(Farm)
        }
    }));
    state
}

#[test]
fn a_new_game_starts_in_spring() {
    let initial = InitialState::new(EDICTS);
    let state = GameState::new(&initial);
    assert_eq!(state.season(), Season::Spring);
    assert_eq!(state.gold(), 0);
    assert_eq!(state.total_score(), 0);
    assert!(state.is_searchable());
    assert!(state.deck().draw_cards().is_empty());
    assert_eq!(state.mountain(), GameBoard::side1().mountain());
    assert_eq!(state.ruin(), Mask::from_cells(&[16, 23, 31, 89, 97, 104]));
    assert_eq!(state.mountain(), Mask::from_cells(&[14, 30, 60, 90, 106]));
    assert_eq!(state.wasteland(), Mask::empty());
    assert_eq!(state.filled(), state.mountain());
}

#[test]
fn revealing_a_card_takes_it_out_of_the_deck() {
    let initial = InitialState::new(EDICTS);
    let mut state = GameState::new(&initial);
    state.new_season(Season::Spring);
    assert_eq!(state.deck().draw_cards().len(), 19);
    let card = state.reveal_card("fischerdorf").unwrap();
    assert_eq!(card.name(), "fischerdorf");
    assert!(!card.is_ambush());
    assert_eq!(state.deck().draw_cards().len(), 18);
    let card = state.reveal_card("ogeroffensive").unwrap();
    assert!(card.is_ambush());
    assert_eq!(state.deck().monsters_in_deck(), 0);
    assert_eq!(state.deck().draw_cards().len(), 10);
    assert_eq!(state.reveal_card("tempelruinen").err(), Some(RevealError::UnknownCard));
    assert_eq!(state.reveal_card("gnollangriff").err(), Some(RevealError::NoMonsterInDeck));
    assert_eq!(state.deck().draw_cards().len(), 10);
}

#[test]
fn the_season_ends_when_its_time_is_used_up() {
    let initial = InitialState::new(EDICTS);
    let mut state = GameState::new(&initial);
    state.new_season(Season::Spring);
    assert!(state.handle_season_end());
    assert_eq!(state.season(), Season::Spring);
    assert_eq!(state.total_score(), 0);
}

#[test]
fn the_estimate_weighs_what_the_season_scores() {
    let initial = InitialState::new(EDICTS);
    let mut state = GameState::new(&initial);
    state.new_board(PlayerBoard::new_with(|i| match i {
        0 | 1 => Some(Forest),
        12 => Some(Monster),
        40 => Some(Water),
        41 => Some(Farm),
        _ => None,
    }));
    // spring: sentinel wood 2 * 2, canal lake 2 * 2, monsters 4 * -3
    assert_eq!(state.heuristic_score(), 4 + 4 - 12);
    state.new_season(Season::Fall);
    // fall: sentinel wood 1 * 2, canal lake not scored, monsters 2 * -3
    assert_eq!(state.heuristic_score(), 2 - 6);
    let state = state.add_gold(3);
    assert_eq!(state.gold(), 3);
    assert_eq!(state.heuristic_score(), 2 - 6 + 2 * 3);
}

#[test]
fn an_ambush_without_a_place_falls_back_to_one_cell() {
    let initial = InitialState::new(EDICTS);
    let state = filled_but(&initial, Mask::cell(4, 4));
    let mut stats = statistics();
    let (turn, _) = search_explore_move(
        &state,
        &gnollangriff(),
        false,
        0,
        &mut stats,
        Deadline::never(),
        false,
    )
    .unwrap();
    assert_eq!(turn.terrain, Monster);
    assert_eq!(turn.cells, Mask::cell(4, 4));
    assert_eq!(stats.positions_evaluated, 1);
}

#[test]
fn a_card_without_a_place_falls_back_to_one_cell_of_any_terrain() {
    let initial = InitialState::new(EDICTS);
    let state = filled_but(&initial, Mask::cell(0, 4));
    let mut stats = statistics();
    let (turn, value) = search_explore_move(
        &state,
        &fischerdorf(),
        true,
        0,
        &mut stats,
        Deadline::never(),
        false,
    )
    .unwrap();
    // a forest on the border is worth 2 by sentinel wood; water beside the
    // farms would be worth more by canal lake
    assert_eq!(turn.cells, Mask::cell(0, 4));
    assert_eq!(turn.terrain, Water);
    assert_eq!(stats.positions_evaluated, 5);
    let placed = state.place_cells(Water, Mask::cell(0, 4));
    assert_eq!(value, placed.heuristic_score() as i128 * SCALE);
}

#[test]
fn a_full_board_allows_no_turn() {
    let initial = InitialState::new(EDICTS);
    let state = filled_but(&initial, Mask::empty());
    let mut stats = statistics();
    let result = search_explore_move(
        &state,
        &fischerdorf(),
        false,
        0,
        &mut stats,
        Deadline::never(),
        false,
    );
    assert_eq!(result.err(), Some(SearchError::NoTurn));
    let result = search_explore_move(
        &state,
        &splitterland(),
        false,
        0,
        &mut stats,
        Deadline::never(),
        true,
    );
    assert_eq!(result.err(), Some(SearchError::NoTurn));
}

#[test]
fn a_card_that_must_cover_a_ruin_covers_one() {
    let initial = InitialState::new(EDICTS);
    // free: the ruin (1, 2) with (2, 2), and a strip far from any ruin
    let ruin_side = Mask::cell(1, 2) | Mask::cell(2, 2);
    let free = ruin_side | Mask::cell(6, 6) | Mask::cell(7, 6);
    let state = filled_but(&initial, free);
    let card = cartographers::card::ackerland();
    let mut stats = statistics();
    let (turn, _) =
        search_explore_move(&state, &card, true, 0, &mut stats, Deadline::never(), false).unwrap();
    assert_eq!(turn.cells, ruin_side);
    assert_eq!(turn.terrain, Farm);
    assert_eq!(stats.positions_evaluated, 1);
    let mut stats = statistics();
    search_explore_move(&state, &card, false, 0, &mut stats, Deadline::never(), false).unwrap();
    assert_eq!(stats.positions_evaluated, 2);
}

#[test]
fn an_ambush_is_played_against_the_player() {
    let initial = InitialState::new(EDICTS);
    // two strips of three cells: one closed in, one with an empty cell beside it
    let closed = Mask::cell(0, 0) | Mask::cell(1, 0) | Mask::cell(2, 0);
    let open = Mask::cell(6, 6) | Mask::cell(7, 6) | Mask::cell(8, 6);
    let beside = Mask::cell(7, 7);
    let state = filled_but(&initial, closed | open | beside);
    let mut stats = statistics();
    let (turn, value) = search_explore_move(
        &state,
        &rattenmenschenrache(),
        false,
        0,
        &mut stats,
        Deadline::never(),
        false,
    )
    .unwrap();
    assert_eq!(turn.terrain, Monster);
    assert_eq!(turn.cells, open);
    assert_eq!(stats.positions_evaluated, 2);
    let worse = state.place_cells(Monster, open);
    let milder = state.place_cells(Monster, closed);
    assert!(worse.heuristic_score() < milder.heuristic_score());
    assert_eq!(value, worse.heuristic_score() as i128 * SCALE);
    // the same place is the worst for the player when it is the player's turn
    let mut stats = statistics();
    let (turn, _) = search_explore_move(
        &state,
        &cartographers::card::grosser_strom(),
        false,
        0,
        &mut stats,
        Deadline::never(),
        false,
    )
    .unwrap();
    assert_eq!(turn.terrain, Water);
}

#[test]
fn the_first_of_equal_moves_is_taken() {
    let initial = InitialState::new([
        Edict::Treetower,
        Edict::Treetower,
        Edict::Treetower,
        Edict::Treetower,
    ]);
    let free = Mask::cell(4, 3) | Mask::cell(5, 3) | Mask::cell(4, 4) | Mask::cell(5, 4);
    let state = filled_but(&initial, free);
    let mut stats = statistics();
    let (turn, _) = search_explore_move(
        &state,
        &ogeroffensive(),
        false,
        0,
        &mut stats,
        Deadline::never(),
        false,
    )
    .unwrap();
    assert_eq!(turn.cells, free);
    // four places in a free square of three by three, all worth the same
    let free = Mask::from_cells(&[37, 38, 39, 48, 49, 50, 59, 61, 62]) | Mask::cell(4, 6);
    let state = filled_but(&initial, free);
    let mut stats = statistics();
    let card = cartographers::card::fischerdorf();
    let result = search_explore_move(&state, &card, false, 0, &mut stats, Deadline::never(), false);
    assert!(result.is_ok());
}

#[test]
fn two_searches_of_one_state_agree() {
    let initial = InitialState::new(EDICTS);
    let free = Mask::from_cells(&[0, 1, 2, 11, 12, 24, 25, 26, 100, 101]);
    let mut state = filled_but(&initial, free);
    state.new_season(Season::Spring);
    let card = state.reveal_card("weiler").unwrap();
    for depth in 0..2 {
        let mut first = statistics();
        let a = search_explore_move(&state, card, false, depth, &mut first, Deadline::never(), false)
            .unwrap();
        let mut second = statistics();
        let b = search_explore_move(&state, card, false, depth, &mut second, Deadline::never(), false)
            .unwrap();
        assert_eq!(a.0.terrain, b.0.terrain);
        assert_eq!(a.0.cells, b.0.cells);
        assert_eq!(a.1, b.1);
        assert_eq!(first.positions_evaluated, second.positions_evaluated);
        assert!(first.positions_evaluated > 0);
        assert_eq!(first.end_reached, second.end_reached);
    }
}

#[test]
fn a_deeper_search_is_not_worse_where_every_card_helps() {
    let initial = InitialState::new(EDICTS);
    let mut state = filled_but(&initial, Mask::cell(0, 4) | Mask::cell(6, 6));
    state.new_season(Season::Spring);
    let card = splitterland();
    let mut shallow = statistics();
    let (_, at_depth_0) =
        search_explore_move(&state, &card, false, 0, &mut shallow, Deadline::never(), false)
            .unwrap();
    let mut deep = statistics();
    let (_, at_depth_1) =
        search_explore_move(&state, &card, false, 1, &mut deep, Deadline::never(), false).unwrap();
    // whatever card comes next fills the last cell, and no scoring falls by that
    assert!(at_depth_1 >= at_depth_0);
    // two cells, five terrains; then 19 cards, each on the one cell left
    assert_eq!(shallow.positions_evaluated, 10);
    assert_eq!(deep.positions_evaluated, 10 + 10 * (11 * 5 + 8));
    assert!(!deep.end_reached);
}

#[test]
fn the_worth_of_a_position_is_the_average_over_the_draws() {
    let initial = InitialState::new(EDICTS);
    let mut state = filled_but(&initial, Mask::cell(0, 4));
    state.new_season(Season::Spring);
    let mut stats = statistics();
    let at_depth_0 = search_game_move(state, 0, &mut stats, Deadline::never()).unwrap();
    assert_eq!(at_depth_0, state.heuristic_score() as i128 * SCALE);
    assert_eq!(stats.positions_evaluated, 1);
    // each exploration card has 8 of 96 chances, each monster 1 of 96; the
    // player puts the best terrain on the last cell, the ambush a monster
    let mut best = i64::MIN;
    for terrain in [Forest, cartographers::game::PlayerTerrain::Village, Farm, Water, Monster] {
        best = best.max(state.place_cells(terrain, Mask::cell(0, 4)).heuristic_score());
    }
    let ambushed = state.place_cells(Monster, Mask::cell(0, 4)).heuristic_score();
    let expected = (11 * 8 * best as i128 * SCALE + 8 * ambushed as i128 * SCALE).div_euclid(96);
    let mut stats = statistics();
    let at_depth_1 = search_game_move(state, 1, &mut stats, Deadline::never()).unwrap();
    assert_eq!(at_depth_1, expected);
    assert_eq!(stats.positions_evaluated, 1 + 11 * 5 + 8);
    // with no empty cell left, no card can be played
    let full = filled_but(&initial, Mask::empty());
    let mut full = full;
    full.new_season(Season::Spring);
    let mut stats = statistics();
    assert_eq!(
        search_game_move(full, 1, &mut stats, Deadline::never()).err(),
        Some(SearchError::NoTurn)
    );
    // without a card in the deck there is nothing to average over
    let bare = filled_but(&initial, Mask::empty());
    let mut stats = statistics();
    assert_eq!(search_game_move(bare, 3, &mut stats, Deadline::never()), Ok(0));
}

#[test]
fn find_best_move_names_what_is_wrong() {
    let initial = InitialState::new(EDICTS);
    let mut state = filled_but(&initial, Mask::cell(4, 4));
    state.new_season(Season::Spring);
    let result = find_best_move(&state, "tempelruinen", false, Deadline::never());
    assert_eq!(result.err(), Some(FindError::UnknownCard));
    let raised = AtomicBool::new(true);
    let result = find_best_move(&state, "weiler", false, Deadline::flag(&raised));
    assert_eq!(result.err(), Some(FindError::TimedOut));
    let full = filled_but(&initial, Mask::empty());
    let result = find_best_move(&full, "weiler", false, Deadline::never());
    assert_eq!(result.err(), Some(FindError::NoTurn));
    for _ in 0..255 {
        if state.deck().monsters_in_deck() < 255 {
            state.new_season(Season::Spring);
        }
    }
    let result = find_best_move(&state, "weiler", false, Deadline::never());
    assert_eq!(result.err(), Some(FindError::OutOfRange));
}

#[test]
fn a_raised_flag_ends_the_search() {
    let initial = InitialState::new(EDICTS);
    let state = filled_but(&initial, Mask::cell(4, 4));
    let raised = AtomicBool::new(true);
    let mut stats = statistics();
    assert_eq!(
        search_game_move(state, 0, &mut stats, Deadline::flag(&raised)).err(),
        Some(SearchError::TimedOut)
    );
    assert_eq!(stats.positions_evaluated, 0);
    let result = search_explore_move(
        &state,
        &splitterland(),
        false,
        0,
        &mut stats,
        Deadline::flag(&raised),
        false,
    );
    assert_eq!(result.err(), Some(SearchError::TimedOut));
    let lowered = AtomicBool::new(false);
    let result = search_explore_move(
        &state,
        &splitterland(),
        false,
        0,
        &mut stats,
        Deadline::flag(&lowered),
        false,
    );
    assert!(result.is_ok());
    assert!(!Deadline::never().passed());
    assert!(Deadline::flag(&raised).passed());
    assert!(!Deadline::flag(&lowered).passed());
    assert!(Deadline::flag(&lowered).passed_when(true));
    assert!(!Deadline::flag(&raised).passed_when(false));
    assert!(!Deadline::never().passed_when(true));
    assert!(!Deadline::never().passed_when(false));
}

#[test]
fn the_game_ends_with_winter() {
    let initial = InitialState::new(EDICTS);
    let mut state = filled_but(&initial, Mask::cell(0, 4) | Mask::cell(6, 6) | Mask::cell(8, 8));
    state.new_season(Season::Winter);
    // winter is over after 6 units of time: three cards of 2 units each
    let mut stats = statistics();
    let deep = search_explore_move(
        &state,
        &splitterland(),
        false,
        1,
        &mut stats,
        Deadline::never(),
        false,
    );
    assert!(deep.is_ok());
    assert!(!stats.end_reached);
}

fn turn_at(x: u8) -> Turn {
    Turn { terrain: Farm, cells: Mask::cell(x, 0) }
}

fn same(a: Option<Turn>, b: Option<Turn>) -> bool {
    match (a, b) {
        (None, None) => true,
        (Some(a), Some(b)) => a.terrain == b.terrain && a.cells == b.cells,
        _ => false,
    }
}

#[test]
fn a_pass_counts_when_it_is_over_in_time() {
    let old = Some(turn_at(1));
    match deepen(old, 3, 4, Ok((turn_at(2), 7)), false) {
        Deepening::Go { best, reached, depth } => {
            assert!(same(best, Some(turn_at(2))));
            assert_eq!(reached, 4);
            assert_eq!(depth, 5);
        }
        other => panic!("{:?}", other),
    }
    match deepen(None, 0, 0, Ok((turn_at(2), -7)), false) {
        Deepening::Go { best, reached, depth } => {
            assert!(same(best, Some(turn_at(2))));
            assert_eq!(reached, 0);
            assert_eq!(depth, 1);
        }
        other => panic!("{:?}", other),
    }
    // no deeper pass can be counted
    match deepen(old, u32::MAX - 1, u32::MAX, Ok((turn_at(2), 7)), false) {
        Deepening::Stop { best, reached } => {
            assert!(same(best, Some(turn_at(2))));
            assert_eq!(reached, u32::MAX);
        }
        other => panic!("{:?}", other),
    }
}

#[test]
fn a_pass_that_is_late_or_cut_short_is_thrown_away() {
    let old = Some(turn_at(1));
    match deepen(old, 3, 4, Ok((turn_at(2), 7)), true) {
        Deepening::Stop { best, reached } => {
            assert!(same(best, old));
            assert_eq!(reached, 3);
        }
        other => panic!("{:?}", other),
    }
    for raised in [false, true] {
        match deepen(old, 3, 4, Err(SearchError::TimedOut), raised) {
            Deepening::Stop { best, reached } => {
                assert!(same(best, old));
                assert_eq!(reached, 3);
            }
            other => panic!("{:?}", other),
        }
        match deepen(None, 0, 0, Err(SearchError::TimedOut), raised) {
            Deepening::Stop { best, reached } => {
                assert!(best.is_none());
                assert_eq!(reached, 0);
            }
            other => panic!("{:?}", other),
        }
        assert!(matches!(deepen(old, 3, 4, Err(SearchError::NoTurn), raised), Deepening::Fail));
    }
}

#[test]
fn the_turn_of_the_last_pass_in_time_is_kept() {
    // the passes of depth 0 to 2 are over in time, the one of depth 3 is cut short
    let mut best = None;
    let mut reached = 0;
    let mut depth = 0;
    let passes = [
        (Ok((turn_at(0), 10)), false),
        (Ok((turn_at(1), 11)), false),
        (Ok((turn_at(2), 12)), false),
        (Err(SearchError::TimedOut), true),
        (Ok((turn_at(4), 14)), false),
    ];
    let mut stopped = false;
    for (pass, raised) in passes {
        match deepen(best, reached, depth, pass, raised) {
            Deepening::Go { best: b, reached: r, depth: d } => {
                best = b;
                reached = r;
                depth = d;
            }
            Deepening::Stop { best: b, reached: r } => {
                best = b;
                reached = r;
                stopped = true;
                break;
            }
            Deepening::Fail => panic!("no pass fails here"),
        }
    }
    assert!(stopped);
    assert!(same(best, Some(turn_at(2))));
    assert_eq!(reached, 2);
    assert_eq!(depth, 3);
}

#[test]
fn a_state_says_how_deep_it_can_be_searched() {
    let initial = InitialState::new(EDICTS);
    let mut state = GameState::new(&initial);
    assert!(state.can_search(0));
    assert!(state.can_search(u32::MAX));
    let rich = state.add_gold(i16::MAX);
    assert!(rich.can_search(1000));
    for _ in 0..255 {
        if state.deck().monsters_in_deck() < 255 {
            state.new_season(Season::Spring);
        }
    }
    assert!(!state.can_search(0));
    assert!(!state.is_searchable());
}

#[test]
fn a_card_without_any_move_fails_whatever_the_flag() {
    let initial = InitialState::new(EDICTS);
    let full = filled_but(&initial, Mask::empty());
    let raised = AtomicBool::new(true);
    let mut stats = statistics();
    let result = search_explore_move(
        &full,
        &fischerdorf(),
        false,
        2,
        &mut stats,
        Deadline::flag(&raised),
        false,
    );
    assert_eq!(result.err(), Some(SearchError::NoTurn));
    assert_eq!(stats.positions_evaluated, 0);
    let result = find_best_move(&full, "weiler", false, Deadline::flag(&raised));
    assert_eq!(result.err(), Some(FindError::NoTurn));
    let result = find_best_move(&full, "nothing", false, Deadline::flag(&raised));
    assert_eq!(result.err(), Some(FindError::UnknownCard));
}

#[test]
fn a_search_of_depth_0_looks_at_one_position_for_each_move() {
    let initial = InitialState::new(EDICTS);
    // a free strip of four cells in a row: weiler has no place, fischerdorf one
    let free = Mask::cell(2, 4) | Mask::cell(3, 4) | Mask::cell(4, 4) | Mask::cell(5, 4);
    let state = filled_but(&initial, free);
    let mut stats = statistics();
    search_explore_move(&state, &fischerdorf(), false, 0, &mut stats, Deadline::never(), false)
        .unwrap();
    // one place, two terrains
    assert_eq!(stats.positions_evaluated, 2);
    let mut stats = statistics();
    search_explore_move(
        &state,
        &rattenmenschenrache(),
        false,
        0,
        &mut stats,
        Deadline::never(),
        false,
    )
    .unwrap();
    // two places for three cells in a row, one terrain
    assert_eq!(stats.positions_evaluated, 2);
}
