use cartographers::card::{
    ackerland, baumwipfeldorf, explore_cards, fischerdorf, gehoeft, gnollangriff, goblinattacke,
    grosser_strom, grottenschratueberfall, hinterlandbach, insektoideninvasion, koboldansturm,
    monster_cards, obsthain, ogeroffensive, rattenmenschenrache, schindersturm, splitterland,
    splitterland_monster, sumpf, vergessener_wald, weiler, ExploreCard, ExploreCardBuilder,
};
use cartographers::game::PlayerTerrain;
use cartographers::mask::Mask;

fn mask_of(cells: &[(i32, i32)]) -> Mask {
    let min_x = cells.iter().map(|c| c.0).min().unwrap();
    let min_y = cells.iter().map(|c| c.1).min().unwrap();
    let mut m = Mask::empty();
    for (x, y) in cells {
        m = m | Mask::cell((x - min_x) as u8, (y - min_y) as u8);
    }
    m
}

/// The eight positions of a shape, anchored at the corner, sorted, each once.
fn dihedral(rows: &[&str]) -> Vec<Mask> {
    let mut cells = Vec::new();
    for (y, row) in rows.iter().enumerate() {
        for (x, c) in row.chars().enumerate() {
            if c == 'x' {
                cells.push((x as i32, y as i32));
            }
        }
    }
    let mut out = Vec::new();
    for mirror in [false, true] {
        let mut shape: Vec<(i32, i32)> =
            cells.iter().map(|&(x, y)| if mirror { (-x, y) } else { (x, y) }).collect();
        for _ in 0..4 {
            out.push(mask_of(&shape));
            shape = shape.iter().map(|&(x, y)| (-y, x)).collect();
        }
    }
    out.sort();
    out.dedup();
    out
}

fn check(card: &ExploreCard, name: &str, time: u16, terrains: &[PlayerTerrain], shapes: &[(&[&str], i16)]) {
    assert_eq!(card.name(), name);
    assert_eq!(card.time(), time);
    assert_eq!(card.terrains(), terrains);
    assert_eq!(card.is_ambush(), terrains[0] == PlayerTerrain::Monster);
    let mut expected = Vec::new();
    for (rows, gold) in shapes {
        for m in dihedral(rows) {
            expected.push((m, *gold));
        }
    }
    assert_eq!(card.patterns(), &expected[..]);
}

use PlayerTerrain::{Farm, Forest, Monster, Village, Water};

#[test]
fn exploration_cards() {
    check(&ackerland(), "ackerland", 1, &[Farm], &[(&["xx"], 1), (&[" x ", "xxx", " x "], 0)]);
    check(&baumwipfeldorf(), "baumwipfeldorf", 2, &[Forest, Village], &[(&["  xx", "xxx "], 0)]);
    check(&fischerdorf(), "fischerdorf", 2, &[Village, Water], &[(&["xxxx"], 0)]);
    check(&gehoeft(), "gehoeft", 2, &[Village, Farm], &[(&["x ", "xx", "x "], 0)]);
    check(&grosser_strom(), "grosserStrom", 1, &[Water], &[(&["xxx"], 1), (&["  x", " xx", "xx "], 0)]);
    check(&hinterlandbach(), "hinterlandbach", 2, &[Farm, Water], &[(&["xxx", "x  ", "x  "], 0)]);
    check(&obsthain(), "obsthain", 2, &[Forest, Farm], &[(&["xxx", "  x"], 0)]);
    check(&sumpf(), "sumpf", 2, &[Forest, Water], &[(&["x  ", "xxx", "x  "], 0)]);
    check(&vergessener_wald(), "vergessenerWald", 1, &[Forest], &[(&["x ", " x"], 1), (&["x ", "xx", " x"], 0)]);
    check(&weiler(), "weiler", 1, &[Village], &[(&["x ", "xx"], 1), (&["xxx", "xx "], 0)]);
}

#[test]
fn monster_cards_are_ambushes() {
    check(&gnollangriff(), "gnollangriff", 0, &[Monster], &[(&["xx", "x ", "xx"], 0)]);
    check(&goblinattacke(), "goblinattacke", 0, &[Monster], &[(&["x  ", " x ", "  x"], 0)]);
    check(&grottenschratueberfall(), "grottenschratueberfall", 0, &[Monster], &[(&["x x", "x x"], 0)]);
    check(&insektoideninvasion(), "insektoideninvasion", 0, &[Monster], &[(&[" x", "xx", "x "], 0)]);
    check(&koboldansturm(), "koboldansturm", 0, &[Monster], &[(&["x ", "xx", "x "], 0)]);
    check(&ogeroffensive(), "ogeroffensive", 0, &[Monster], &[(&["xx", "xx"], 0)]);
    check(&rattenmenschenrache(), "rattenmenschenrache", 0, &[Monster], &[(&["xxx"], 0)]);
    check(&schindersturm(), "schindersturm", 0, &[Monster], &[(&["x ", "xx"], 0)]);
    for card in monster_cards() {
        assert!(card.is_ambush());
        assert_eq!(card.time(), 0);
    }
}

#[test]
fn rift_lands_are_one_cell() {
    check(&splitterland(), "splitterland", 0, &[Forest, Village, Farm, Water, Monster], &[(&["x"], 0)]);
    check(&splitterland_monster(), "splitterland_monster", 0, &[Monster], &[(&["x"], 0)]);
    assert_eq!(splitterland().patterns(), &[(Mask::cell(0, 0), 0)][..]);
    assert!(!splitterland().is_ambush());
    assert!(splitterland_monster().is_ambush());
}

#[test]
fn catalogue_order() {
    let names: Vec<String> = explore_cards().iter().map(|c| c.name().to_string()).collect();
    assert_eq!(
        names,
        vec![
            "ackerland", "baumwipfeldorf", "fischerdorf", "gehoeft", "grosserStrom",
            "hinterlandbach", "obsthain", "splitterland", "sumpf", "vergessenerWald", "weiler"
        ]
    );
    let names: Vec<String> = monster_cards().iter().map(|c| c.name().to_string()).collect();
    assert_eq!(
        names,
        vec![
            "gnollangriff", "goblinattacke", "grottenschratueberfall", "insektoideninvasion",
            "koboldansturm", "ogeroffensive", "rattenmenschenrache", "schindersturm"
        ]
    );
}

#[test]
fn shapes_have_as_many_positions_as_their_symmetry_leaves() {
    assert_eq!(fischerdorf().patterns().len(), 2);
    assert_eq!(ogeroffensive().patterns().len(), 1);
    assert_eq!(ackerland().patterns().len(), 2 + 1);
    assert_eq!(baumwipfeldorf().patterns().len(), 8);
    assert_eq!(gehoeft().patterns().len(), 4);
    assert_eq!(goblinattacke().patterns().len(), 2);
    assert_eq!(obsthain().patterns().len(), 8);
    assert_eq!(weiler().patterns().len(), 4 + 8);
    assert_eq!(
        fischerdorf().patterns(),
        &[
            (Mask::from_bits(0b1111), 0),
            (Mask::cell(0, 0) | Mask::cell(0, 1) | Mask::cell(0, 2) | Mask::cell(0, 3), 0)
        ][..]
    );
}

#[test]
fn a_card_can_be_built_from_rows() {
    let card = ExploreCardBuilder::new("probe", 2, vec![Monster, Forest])
        .with_pattern(&vec!["xo", "xx"], 5)
        .build();
    check(&card, "probe", 2, &[Monster, Forest], &[(&["x ", "xx"], 5)]);
    assert!(card.is_ambush());
}
