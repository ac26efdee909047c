use cartographers::deck::{Deck, DrawnCard, Probability};

#[test]
fn an_empty_deck_has_no_draw() {
    let deck = Deck::empty();
    assert_eq!(deck.monsters_in_deck(), 0);
    assert!(deck.draw_cards().is_empty());
}

#[test]
fn a_new_season_brings_eleven_cards_and_one_monster() {
    let mut deck = Deck::empty();
    deck.new_season();
    assert_eq!(deck.monsters_in_deck(), 1);
    let draws = deck.draw_cards();
    assert_eq!(draws.len(), 11 + 8);
    let explore: Vec<u16> = draws
        .iter()
        .filter_map(|d| if let DrawnCard::ExploreCard(i) = d.0 { Some(i) } else { None })
        .collect();
    assert_eq!(explore, (0..11).collect::<Vec<u16>>());
    let monsters: Vec<u16> = draws
        .iter()
        .filter_map(|d| if let DrawnCard::MonsterCard(i) = d.0 { Some(i) } else { None })
        .collect();
    assert_eq!(monsters, (0..8).collect::<Vec<u16>>());
    deck.new_season();
    assert_eq!(deck.monsters_in_deck(), 2);
    assert_eq!(deck.draw_cards().len(), 19);
}

#[test]
fn chances_are_one_in_total_and_monsters_split_evenly() {
    let mut deck = Deck::empty();
    deck.new_season();
    let draws = deck.draw_cards();
    // 11 exploration cards and 1 monster in the pile: 12 cards
    for d in &draws[..11] {
        assert_eq!(d.1, Probability { numerator: 8, denominator: 96 });
    }
    for d in &draws[11..] {
        assert_eq!(d.1, Probability { numerator: 1, denominator: 96 });
    }
}

#[test]
fn chances_add_up_to_one() {
    let mut deck = Deck::empty();
    for season in 0..4 {
        deck.new_season();
        deck.remove_explore_card(season);
        deck.remove_explore_card(7);
        if season == 2 {
            deck.remove_monster_card(3);
        }
        let draws = deck.draw_cards();
        assert!(!draws.is_empty());
        let denominator = draws[0].1.denominator;
        let mut sum = 0;
        let mut float_sum = 0.0f64;
        for d in &draws {
            assert_eq!(d.1.denominator, denominator);
            sum += d.1.numerator;
            float_sum += d.1.numerator as f64 / d.1.denominator as f64;
        }
        assert_eq!(sum, denominator);
        assert!((float_sum - 1.0).abs() < 1e-9);
    }
}

#[test]
fn a_draw_takes_the_card_out() {
    let mut deck = Deck::empty();
    deck.new_season();
    let draws = deck.draw_cards();
    let after_explore = draws[4].2;
    assert_eq!(after_explore.monsters_in_deck(), 1);
    let next = after_explore.draw_cards();
    assert_eq!(next.len(), 10 + 8);
    assert!(next.iter().all(|d| d.0 != DrawnCard::ExploreCard(4)));
    assert_eq!(next[0].1, Probability { numerator: 8, denominator: 88 });
    let after_monster = draws[11 + 2].2;
    assert_eq!(after_monster.monsters_in_deck(), 0);
    let next = after_monster.draw_cards();
    // no monster is left in the pile: only exploration cards can come
    assert_eq!(next.len(), 11);
    assert_eq!(next[0].1, Probability { numerator: 1, denominator: 11 });
}

#[test]
fn removing_a_card_twice_changes_nothing_more() {
    let mut deck = Deck::empty();
    deck.new_season();
    deck.remove_explore_card(3);
    let once = deck.draw_cards().len();
    deck.remove_explore_card(3);
    assert_eq!(deck.draw_cards().len(), once);
    assert_eq!(once, 18);
}
