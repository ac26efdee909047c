//! What a player does when a turn comes: take note of the cards that were
//! revealed, and tell the server where the turn goes.
use vstd::prelude::*;
use vstd::string::StringExecFns;
use crate::deck::{DeckView, DrawnCard};
use crate::game::{PlayerBoard, PlayerTerrain};
use crate::grid;
use crate::json::Json;
use crate::protocol::texts;
use crate::search::{
    card_named, card_of, without, GameState, Position, RevealError, Rules, Turn,
};
use crate::text::same_text;

verus! {

/// Whether a card is one of the two that ask for a ruin to be covered.
pub open spec fn is_ruin_marker(name: Seq<char>) -> bool {
    name == "tempelruinen"@ || name == "verfallenerAussenposten"@
}

/// What the cards that were revealed leave.
pub struct Revealed {
    pub deck: DeckView,
    /// Whether one of them asks for a ruin to be covered.
    pub on_ruin: bool,
    /// Whether one of them is an ambush.
    pub is_ambush: bool,
}

/// What the first `n` of `names` leave of `start`: a ruin card asks for a
/// ruin, any other card leaves the deck and may be an ambush.
pub open spec fn reveal_all(rules: Rules, start: Revealed, names: Seq<Seq<char>>, n: int) -> Result<
    Revealed,
    RevealError,
>
    decreases n,
{
    if n <= 0 {
        Ok(start)
    } else {
        match reveal_all(rules, start, names, n - 1) {
            Err(e) => Err(e),
            Ok(so_far) => if is_ruin_marker(names[n - 1]) {
                Ok(Revealed { on_ruin: true, ..so_far })
            } else {
                match card_named(rules, names[n - 1]) {
                    None => Err(RevealError::UnknownCard),
                    Some(drawn) => if drawn is MonsterCard && so_far.deck.monsters_in_deck == 0 {
                        Err(RevealError::NoMonsterInDeck)
                    } else {
                        Ok(
                            Revealed {
                                deck: without(so_far.deck, drawn),
                                is_ambush: so_far.is_ambush || card_of(rules, drawn).is_ambush,
                                ..so_far
                            },
                        )
                    },
                }
            },
        }
    }
}

/// How a turn starts.
#[derive(Clone, Copy, Debug)]
pub struct TurnPlan {
    /// Whether the turn has to cover a ruin.
    pub on_ruin: bool,
    /// Whether an ambush was revealed.
    pub is_ambush: bool,
    /// How many of the drawn cards are dealt with. After an ambush the cards
    /// come again with the next turn.
    pub card_counter: usize,
}

/// Takes note of the cards drawn since `card_counter`, and of the board as it
/// now is. Where a card cannot be revealed, the state stays as it was.
pub fn begin_turn(
    state: &mut GameState,
    board: PlayerBoard,
    drawn_cards: &Vec<String>,
    card_counter: usize,
) -> (r: Result<TurnPlan, RevealError>)
    requires
        card_counter <= drawn_cards@.len(),
    ensures
        final(state).initial() == old(state).initial(),
        match r {
            Ok(plan) => {
                &&& reveal_all(
                    old(state).rules(),
                    Revealed { deck: old(state)@.deck, on_ruin: false, is_ambush: false },
                    texts(drawn_cards@).skip(card_counter as int),
                    drawn_cards@.len() - card_counter,
                ) == Ok::<Revealed, RevealError>(
                    Revealed {
                        deck: final(state)@.deck,
                        on_ruin: plan.on_ruin,
                        is_ambush: plan.is_ambush,
                    },
                )
                &&& final(state)@ == (Position {
                    deck: final(state)@.deck,
                    board: board@,
                    ..old(state)@
                })
                &&& plan.card_counter == if plan.is_ambush {
                    card_counter
                } else {
                    drawn_cards@.len() as usize
                }
            },
            Err(e) => reveal_all(
                old(state).rules(),
                Revealed { deck: old(state)@.deck, on_ruin: false, is_ambush: false },
                texts(drawn_cards@).skip(card_counter as int),
                drawn_cards@.len() - card_counter,
            ) == Err::<Revealed, RevealError>(e) && *final(state) == *old(state),
        },
{
    let ghost rules = state.rules();
    let ghost start = Revealed { deck: state@.deck, on_ruin: false, is_ambush: false };
    let ghost names = texts(drawn_cards@).skip(card_counter as int);
    let mut next = *state;
    let mut on_ruin = false;
    let mut is_ambush = false;
    let mut i: usize = card_counter;
    while i < drawn_cards.len()
        invariant
            card_counter <= i <= drawn_cards@.len(),
            rules == old(state).rules(),
            next.rules() == rules,
            next.initial() == old(state).initial(),
            *state == *old(state),
            start == (Revealed { deck: old(state)@.deck, on_ruin: false, is_ambush: false }),
            names == texts(drawn_cards@).skip(card_counter as int),
            next@ == (Position { deck: next@.deck, ..old(state)@ }),
            reveal_all(rules, start, names, i - card_counter) == Ok::<Revealed, RevealError>(
                Revealed { deck: next@.deck, on_ruin, is_ambush },
            ),
        decreases drawn_cards.len() - i,
    {
        let name = drawn_cards[i].as_str();
        if same_text(name, "tempelruinen") || same_text(name, "verfallenerAussenposten") {
            on_ruin = true;
        } else {
            match next.reveal_card(name) {
                Ok(card) => {
                    let ambush = card.is_ambush();
                    is_ambush = is_ambush || ambush;
                },
                Err(e) => {
                    proof {
                        lemma_reveal_error_stays(
                            rules,
                            start,
                            names,
                            i - card_counter + 1,
                            drawn_cards@.len() - card_counter,
                        );
                    }
                    return Err(e);
                },
            }
        }
        i += 1;
    }
    next.new_board(board);
    *state = next;
    Ok(
        TurnPlan {
            on_ruin,
            is_ambush,
            card_counter: if is_ambush {
                card_counter
            } else {
                drawn_cards.len()
            },
        },
    )
}

/// A card that cannot be revealed stays the first such card when more cards
/// are looked at.
proof fn lemma_reveal_error_stays(
    rules: Rules,
    start: Revealed,
    names: Seq<Seq<char>>,
    n: int,
    m: int,
)
    requires
        0 <= n <= m,
        reveal_all(rules, start, names, n) is Err,
    ensures
        reveal_all(rules, start, names, m) == reveal_all(rules, start, names, n),
    decreases m - n,
{
    if n < m {
        lemma_reveal_error_stays(rules, start, names, n, m - 1);
    }
}

/// What the server calls a terrain.
pub open spec fn terrain_name(terrain: PlayerTerrain) -> Seq<char> {
    match terrain {
        PlayerTerrain::Forest => "FOREST"@,
        PlayerTerrain::Village => "VILLAGE"@,
        PlayerTerrain::Farm => "FARM"@,
        PlayerTerrain::Water => "WATER"@,
        PlayerTerrain::Monster => "MONSTER"@,
    }
}

/// The digit `d` as a character.
pub open spec fn digit(d: int) -> char {
    if d == 0 {
        '0'
    } else if d == 1 {
        '1'
    } else if d == 2 {
        '2'
    } else if d == 3 {
        '3'
    } else if d == 4 {
        '4'
    } else if d == 5 {
        '5'
    } else if d == 6 {
        '6'
    } else if d == 7 {
        '7'
    } else if d == 8 {
        '8'
    } else {
        '9'
    }
}

/// A number below 1000 in decimal, without leading zeros.
pub open spec fn decimal(i: int) -> Seq<char> {
    if i < 10 {
        seq![digit(i)]
    } else if i < 100 {
        seq![digit(i / 10), digit(i % 10)]
    } else {
        seq![digit(i / 100), digit(i / 10 % 10), digit(i % 10)]
    }
}

fn digit_text(d: u8) -> (r: &'static str)
    requires
        d < 10,
    ensures
        r@ == seq![digit(d as int)],
{
    proof {
        reveal_strlit("0");
        reveal_strlit("1");
        reveal_strlit("2");
        reveal_strlit("3");
        reveal_strlit("4");
        reveal_strlit("5");
        reveal_strlit("6");
        reveal_strlit("7");
        reveal_strlit("8");
        reveal_strlit("9");
    }
    let r = match d {
        0 => "0",
        1 => "1",
        2 => "2",
        3 => "3",
        4 => "4",
        5 => "5",
        6 => "6",
        7 => "7",
        8 => "8",
        _ => "9",
    };
    r
}

/// `i` in decimal.
pub fn decimal_text(i: u8) -> (r: String)
    ensures
        r@ == decimal(i as int),
{
    let mut text = String::new();
    if i >= 100 {
        text.append(digit_text(i / 100));
    }
    if i >= 10 {
        text.append(digit_text(i / 10 % 10));
    }
    text.append(digit_text(i % 10));
    text
}

/// What the server calls a terrain.
pub fn terrain_text(terrain: PlayerTerrain) -> (r: &'static str)
    ensures
        r@ == terrain_name(terrain),
{
    match terrain {
        PlayerTerrain::Forest => "FOREST",
        PlayerTerrain::Village => "VILLAGE",
        PlayerTerrain::Farm => "FARM",
        PlayerTerrain::Water => "WATER",
        PlayerTerrain::Monster => "MONSTER",
    }
}

/// Whether `fields` names the first `n` of `cells`, each in decimal, and gives
/// each the name of `terrain`.
pub open spec fn names_cells(
    fields: Seq<(String, Json)>,
    cells: Seq<int>,
    terrain: PlayerTerrain,
    n: int,
) -> bool {
    &&& fields.len() == n
    &&& forall|k: int|
        0 <= k < n ==> (#[trigger] fields[k]).0@ == decimal(cells[k]) && fields[k].1.text() == Some(
            terrain_name(terrain),
        )
}

/// Whether `payload` says that `player_id` puts `terrain` on `cells`: it has
/// the field `playerId`, and the field `fields` with one field for each cell,
/// in ascending order, called by the cell's index and holding the terrain's
/// name.
pub open spec fn says_turn(
    payload: Json,
    player_id: Seq<char>,
    terrain: PlayerTerrain,
    cells: Set<int>,
) -> bool {
    &&& payload matches Json::Object(top)
    &&& top@.len() == 2
    &&& top@[0].0@ == "playerId"@
    &&& top@[0].1.text() == Some(player_id)
    &&& top@[1].0@ == "fields"@
    &&& top@[1].1 matches Json::Object(fields)
    &&& names_cells(fields@, grid::ascending(cells), terrain, grid::ascending(cells).len() as int)
}

/// What is sent to the server to play `turn`.
pub fn finish_turn(player_id: &str, turn: &Turn) -> (r: Json)
    ensures
        says_turn(r, player_id@, turn.terrain, turn.cells@),
{
    let name = terrain_text(turn.terrain);
    let mut fields: Vec<(String, Json)> = Vec::new();
    let mut cells = turn.cells.cells();
    let ghost all = grid::ascending(turn.cells@);
    proof {
        grid::lemma_ascending(turn.cells@);
    }
    loop
        invariant
            name@ == terrain_name(turn.terrain),
            all == grid::ascending(turn.cells@),
            cells@.subset_of(grid::board()),
            fields@.len() <= all.len(),
            all.skip(fields@.len() as int) == grid::ascending(cells@),
            names_cells(fields@, all, turn.terrain, fields@.len() as int),
        ensures
            names_cells(fields@, all, turn.terrain, all.len() as int),
        decreases cells@.len(),
    {
        let ghost left = cells@;
        let ghost n = fields@.len() as int;
        match cells.next() {
            None => {
                break ;
            },
            Some(pos) => {
                proof {
                    grid::lemma_region_len(left);
                    grid::lemma_least_shrinks(left);
                    assert(grid::ascending(left) =~= seq![pos as int] + grid::ascending(cells@));
                    assert(all.skip(n)[0] == all[n]);
                    assert(all.skip(n).skip(1) =~= all.skip(n + 1));
                }
                fields.push((decimal_text(pos), Json::Text(name.to_owned())));
            },
        }
    }
    let mut top: Vec<(String, Json)> = Vec::new();
    top.push(("playerId".to_owned(), Json::Text(player_id.to_owned())));
    top.push(("fields".to_owned(), Json::Object(fields)));
    Json::Object(top)
}

} // verus!
