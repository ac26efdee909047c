use cartographers::board::{CombinedBoard, GameBoard};
use cartographers::game::{PlayerBoard, PlayerTerrain};
use cartographers::mask::Mask;
use cartographers::scoring::{
    borderlands, canal_lake, great_city, greenbough, greengold_plains, lost_barony, mage_valley,
    monsters, mountain_gold, score_edict, sentinel_wood, shieldgate, shoreside_expanse,
    stoneside_forest, the_broken_road, the_cauldrons, the_golden_granary, treetower, wildholds,
    Board, Edict,
};
use cartographers::search::{GameState, InitialState};
use PlayerTerrain::{Farm, Forest, Monster, Village, Water};

const EDICTS: [Edict; 4] = [
    Edict::SentinelWood,
    Edict::CanalLake,
    Edict::Wildholds,
    Edict::Borderlands,
];

fn side1() -> InitialState {
    InitialState::with_board(EDICTS, GameBoard::side1())
}

fn side2() -> InitialState {
    InitialState::with_board(EDICTS, GameBoard::side2())
}

/// The board on which the listed cells hold the terrain listed with them.
fn board(placed: &[(PlayerTerrain, &[(u8, u8)])]) -> PlayerBoard {
    PlayerBoard::new_with(|i| {
        for (terrain, cells) in placed {
            if cells.iter().any(|&(x, y)| y * 11 + x == i) {
                return Some(*terrain);
            }
        }
        None
    })
}

fn state<'a>(initial: &'a InitialState, placed: &[(PlayerTerrain, &[(u8, u8)])]) -> GameState<'a> {
    let mut state = GameState::new(initial);
    state.new_board(board(placed));
    state
}

fn all_edicts(s: &GameState) -> Vec<i32> {
    vec![
        stoneside_forest(s),
        sentinel_wood(s),
        treetower(s),
        greenbough(s),
        mage_valley(s),
        canal_lake(s),
        shoreside_expanse(s),
        the_golden_granary(s),
        greengold_plains(s),
        shieldgate(s),
        wildholds(s),
        great_city(s),
        borderlands(s),
        the_cauldrons(s),
        the_broken_road(s),
        lost_barony(s),
    ]
}

fn reference_borderlands(filled: Mask) -> i32 {
    let mut score = 0;
    for i in 0..11 {
        if (0..11).all(|y| filled.contains(Mask::cell(i, y))) {
            score += 6;
        }
        if (0..11).all(|x| filled.contains(Mask::cell(x, i))) {
            score += 6;
        }
    }
    score
}

fn reference_broken_road(filled: Mask) -> i32 {
    let mut score = 0;
    for k in 0..11u8 {
        if (0..=k).all(|x| filled.contains(Mask::cell(x, 10 - k + x))) {
            score += 3;
        }
    }
    score
}

fn reference_lost_barony(filled: Mask) -> i32 {
    for size in (1..=11u8).rev() {
        for y in 0..=(11 - size) {
            for x in 0..=(11 - size) {
                if (0..size).all(|dy| (0..size).all(|dx| filled.contains(Mask::cell(x + dx, y + dy)))) {
                    return 3 * size as i32;
                }
            }
        }
    }
    0
}

#[test]
fn an_empty_board_scores_only_by_what_is_printed() {
    for initial in [side1(), side2()] {
        let s = GameState::new(&initial);
        let filled = s.filled();
        assert_eq!(filled, s.mountain() | s.wasteland());
        assert_eq!(s.empty(), !filled);
        assert_eq!(stoneside_forest(&s), 0);
        assert_eq!(sentinel_wood(&s), 0);
        assert_eq!(treetower(&s), 0);
        assert_eq!(greenbough(&s), 0);
        assert_eq!(mage_valley(&s), 0);
        assert_eq!(canal_lake(&s), 0);
        assert_eq!(shoreside_expanse(&s), 0);
        assert_eq!(the_golden_granary(&s), 0);
        assert_eq!(greengold_plains(&s), 0);
        assert_eq!(shieldgate(&s), 0);
        assert_eq!(wildholds(&s), 0);
        assert_eq!(great_city(&s), 0);
        assert_eq!(the_cauldrons(&s), 0);
        assert_eq!(borderlands(&s), reference_borderlands(filled));
        assert_eq!(the_broken_road(&s), reference_broken_road(filled));
        assert_eq!(lost_barony(&s), reference_lost_barony(filled));
        assert_eq!(mountain_gold(&s), 0);
        assert_eq!(monsters(&s), 0);
    }
    assert_eq!(lost_barony(&GameState::new(&side1())), 3);
    assert_eq!(lost_barony(&GameState::new(&side2())), 6);
    assert_eq!(borderlands(&GameState::new(&side1())), 0);
    assert_eq!(the_broken_road(&GameState::new(&side1())), 0);
}

#[test]
fn forest_along_the_left_edge() {
    let initial = side1();
    let s = state(&initial, &[(Forest, &[(0, 0), (0, 1), (0, 2)])]);
    assert_eq!(sentinel_wood(&s), 3);
    assert_eq!(greenbough(&s), 4);
    assert_eq!(treetower(&s), 0);
    assert_eq!(s.forest(), Mask::cell(0, 0) | Mask::cell(0, 1) | Mask::cell(0, 2));
}

#[test]
fn a_lone_monster_in_the_wasteland() {
    let initial = side2();
    let s = state(&initial, &[(Monster, &[(5, 5)])]);
    // all four cells beside (5, 5) are wasteland
    assert_eq!(s.empty().touches(s.monster()), Mask::empty());
    assert_eq!(monsters(&s), 0);
    let s = state(&initial, &[(Monster, &[(5, 6)])]);
    // beside (5, 6): (4, 6) and (6, 6) are empty, (5, 5) is wasteland, (5, 7) a mountain
    assert_eq!(monsters(&s), -2);
    let initial = side1();
    let s = state(&initial, &[(Monster, &[(0, 0)])]);
    assert_eq!(monsters(&s), -2);
    let s = state(&initial, &[(Monster, &[(4, 4)])]);
    assert_eq!(monsters(&s), -4);
}

#[test]
fn villages_of_six_cells_count() {
    let initial = side1();
    let six: &[(u8, u8)] = &[(8, 4), (9, 4), (10, 4), (8, 5), (9, 5), (10, 5)];
    let s = state(&initial, &[(Village, six)]);
    assert_eq!(wildholds(&s), 8);
    assert_eq!(great_city(&s), 6);
    assert_eq!(shieldgate(&s), 0);
    let both: Vec<(u8, u8)> =
        six.iter().copied().chain([(0, 4), (1, 4), (2, 4), (3, 4), (4, 4)]).collect();
    let s = state(&initial, &[(Village, &both)]);
    assert_eq!(wildholds(&s), 8);
    assert_eq!(shieldgate(&s), 5);
    assert_eq!(great_city(&s), 6);
    let third: Vec<(u8, u8)> = both.iter().copied().chain((0..7).map(|x| (x, 10))).collect();
    let s = state(&initial, &[(Village, &third)]);
    assert_eq!(wildholds(&s), 16);
    assert_eq!(shieldgate(&s), 6);
    assert_eq!(great_city(&s), 7);
}

#[test]
fn a_full_board() {
    let initial = side1();
    let mountains = [(3u8, 1u8), (8, 2), (5, 5), (2, 8), (7, 9)];
    let mut cells = Vec::new();
    for y in 0..11 {
        for x in 0..11 {
            if !mountains.contains(&(x, y)) {
                cells.push((x, y));
            }
        }
    }
    let s = state(&initial, &[(Farm, &cells)]);
    assert_eq!(s.filled(), Mask::full());
    assert_eq!(borderlands(&s), 132);
    assert_eq!(lost_barony(&s), 33);
    assert_eq!(the_broken_road(&s), 33);
    assert_eq!(the_cauldrons(&s), 0);
    assert_eq!(mountain_gold(&s), 5);
    // the six ruins are covered by farms
    assert_eq!(the_golden_granary(&s), 18);
    assert_eq!(mage_valley(&s), 5 * 4);
}

#[test]
fn a_full_board_but_for_the_ruins() {
    let initial = side1();
    let skipped = [
        (3u8, 1u8), (8, 2), (5, 5), (2, 8), (7, 9),
        (1, 2), (5, 1), (9, 2), (1, 8), (5, 9), (9, 8),
    ];
    let mut cells = Vec::new();
    for y in 0..11 {
        for x in 0..11 {
            if !skipped.contains(&(x, y)) {
                cells.push((x, y));
            }
        }
    }
    let s = state(&initial, &[(Water, &cells)]);
    // a ruin alone fills no cell: rows 1, 2, 8, 9 and columns 1, 5, 9 have a gap
    assert_eq!(borderlands(&s), 6 * (7 + 8));
    assert_eq!(the_cauldrons(&s), 6);
    assert_eq!(lost_barony(&s), reference_lost_barony(s.filled()));
    assert_eq!(the_broken_road(&s), reference_broken_road(s.filled()));
}

#[test]
fn water_and_farms() {
    let initial = side1();
    let s = state(
        &initial,
        &[(Water, &[(4, 4), (4, 5), (1, 1)]), (Farm, &[(5, 4), (6, 4), (5, 1)])],
    );
    // (4, 4) lies beside the farm (5, 4); (5, 4) lies beside the water (4, 4)
    assert_eq!(canal_lake(&s), 2);
    // water (1, 1) lies beside the ruin (1, 2); farm (5, 1) lies on a ruin
    assert_eq!(the_golden_granary(&s), 1 + 3);
    // water (4, 5) and farm (5, 4) lie beside the mountain (5, 5)
    assert_eq!(mage_valley(&s), 2 + 1);
    // the farm (5, 1) is alone and away from water and border; the others touch
    assert_eq!(shoreside_expanse(&s), 3 + 3);
}

#[test]
fn forests_between_mountains() {
    let initial = side1();
    // a forest from the mountain (3, 1) to the mountain (8, 2)
    let s = state(&initial, &[(Forest, &[(4, 1), (5, 1), (6, 1), (7, 1), (7, 2)])]);
    assert_eq!(stoneside_forest(&s), 6);
    // a forest beside one mountain only
    let s = state(&initial, &[(Forest, &[(4, 1), (5, 1)])]);
    assert_eq!(stoneside_forest(&s), 0);
    // a forest closed in on all sides
    let s = state(
        &initial,
        &[(Forest, &[(0, 0)]), (Farm, &[(1, 0)]), (Water, &[(0, 1)])],
    );
    assert_eq!(treetower(&s), 1);
    assert_eq!(sentinel_wood(&s), 1);
}

#[test]
fn villages_and_what_lies_beside_them() {
    let initial = side1();
    let s = state(
        &initial,
        &[
            (Village, &[(4, 4), (4, 5)]),
            (Forest, &[(3, 4)]),
            (Farm, &[(4, 3)]),
        ],
    );
    // forest, farm and the mountain (5, 5)
    assert_eq!(greengold_plains(&s), 3);
    // the village touches a mountain
    assert_eq!(great_city(&s), 0);
    let s = state(&initial, &[(Village, &[(4, 4)]), (Forest, &[(3, 4)]), (Farm, &[(4, 3)])]);
    assert_eq!(greengold_plains(&s), 0);
    assert_eq!(great_city(&s), 1);
}

#[test]
fn cauldrons_are_closed_in_empty_cells() {
    let initial = side1();
    let s = state(&initial, &[(Farm, &[(1, 0), (0, 1)]), (Water, &[(9, 10), (10, 9)])]);
    assert_eq!(the_cauldrons(&s), 2);
    // the mountain (3, 1) is closed in
    let s = state(&initial, &[(Farm, &[(3, 0), (2, 1), (4, 1), (3, 2)])]);
    assert_eq!(mountain_gold(&s), 1);
}

#[test]
fn the_diagonals_start_in_the_bottom_left_corner() {
    let initial = side1();
    let s = state(&initial, &[(Farm, &[(0, 10)])]);
    assert_eq!(the_broken_road(&s), 3);
    let s = state(&initial, &[(Farm, &[(0, 10), (0, 9), (1, 10)])]);
    assert_eq!(the_broken_road(&s), 6);
    let s = state(&initial, &[(Farm, &[(0, 9), (1, 10)])]);
    assert_eq!(the_broken_road(&s), 3);
    let s = state(&initial, &[(Farm, &[(0, 0), (1, 1)])]);
    assert_eq!(the_broken_road(&s), 0);
}

#[test]
fn squares() {
    let initial = side1();
    let s = state(&initial, &[(Farm, &[(6, 6), (7, 6), (6, 7), (7, 7)])]);
    assert_eq!(lost_barony(&s), 6);
    let s = state(
        &initial,
        &[(Farm, &[(8, 8), (9, 8), (10, 8), (8, 9), (9, 9), (10, 9), (8, 10), (9, 10), (10, 10)])],
    );
    assert_eq!(lost_barony(&s), 9);
    let s = state(&initial, &[(Farm, &[(0, 0), (1, 0), (2, 0), (0, 1)])]);
    assert_eq!(lost_barony(&s), 3);
}

#[test]
fn rows_and_columns() {
    let initial = side1();
    let row: Vec<(u8, u8)> = (0..11).map(|x| (x, 4)).collect();
    let s = state(&initial, &[(Water, &row)]);
    assert_eq!(borderlands(&s), 6);
    assert_eq!(greenbough(&s), 0);
    let s = state(&initial, &[(Forest, &row)]);
    assert_eq!(greenbough(&s), 11 + 1);
    // row 1 holds the mountain (3, 1) and the ruin (5, 1)
    let row: Vec<(u8, u8)> = (0..11).filter(|&x| x != 3).map(|x| (x, 1)).collect();
    let s = state(&initial, &[(Water, &row)]);
    assert_eq!(borderlands(&s), 6);
}

#[test]
fn an_edict_is_scored_by_its_rule() {
    let initial = side1();
    let s = state(
        &initial,
        &[
            (Village, &[(0, 0), (1, 0), (2, 0), (0, 1), (1, 1), (2, 1), (6, 6)]),
            (Forest, &[(10, 10), (4, 1), (5, 1), (6, 1), (7, 1), (7, 2)]),
            (Water, &[(4, 4)]),
            (Farm, &[(5, 4)]),
        ],
    );
    let edicts = [
        Edict::StonesideForest,
        Edict::SentinelWood,
        Edict::Treetower,
        Edict::Greenbough,
        Edict::MageValley,
        Edict::CanalLake,
        Edict::ShoresideExpanse,
        Edict::TheGoldenGranary,
        Edict::GreengoldPlains,
        Edict::Shieldgate,
        Edict::Wildholds,
        Edict::GreatCity,
        Edict::Borderlands,
        Edict::TheCauldrons,
        Edict::TheBrokenRoad,
        Edict::LostBarony,
    ];
    let direct = all_edicts(&s);
    for (edict, expected) in edicts.iter().zip(direct) {
        assert_eq!(score_edict(*edict, &s), expected);
    }
}

#[test]
fn a_player_board_laid_on_the_printed_board() {
    let player = board(&[(Forest, &[(0, 0)]), (Water, &[(5, 5), (6, 5)])]);
    let game = GameBoard::side2();
    let both = CombinedBoard::new(&player, &game);
    assert_eq!(both.forest(), Mask::cell(0, 0));
    assert_eq!(both.water(), Mask::cell(5, 5) | Mask::cell(6, 5));
    assert_eq!(both.village(), Mask::empty());
    assert_eq!(both.farm(), Mask::empty());
    assert_eq!(both.monster(), Mask::empty());
    assert_eq!(both.mountain(), game.mountain());
    assert_eq!(both.wasteland(), game.wasteland());
    assert_eq!(both.ruin(), game.ruin());
    assert_eq!(both.ruin().count_cells(), 6);
    assert_eq!(both.filled(), Mask::cell(0, 0) | game.mountain() | game.wasteland());
    assert_eq!(both.empty(), !both.filled());
    assert_eq!(both.filled().count_cells(), 1 + 5 + 7);
}
