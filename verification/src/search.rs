//! The state of a game and the search for the turn to play.
use vstd::prelude::*;
use crate::board::GameBoard;
use crate::card::{
    explore_cards, is_explore_catalogue, is_monster_catalogue, monster_cards, CardView,
    ExploreCard,
};
use crate::deck::{Deck, DeckView, DrawnCard, Probability};
use crate::game::{PlayerBoard, PlayerTerrain, Season};
use crate::mask::Mask;
use crate::scoring::{monsters, mountain_gold, score_edict, Board, Edict, Regions};
use crate::text::same_text;
use crate::card::{splitterland, splitterland_monster};
use crate::grid;
use crate::timer::Deadline;
use core::ops::Not;

verus! {

/// What a game is played by: the cards, the four edicts and the printed board.
pub struct Rules {
    pub deck: Seq<CardView>,
    pub monster_deck: Seq<CardView>,
    pub edicts: Seq<Edict>,
    pub mountain: Set<int>,
    pub wasteland: Set<int>,
    pub ruin: Set<int>,
}

/// What does not change during a game.
pub struct InitialState {
    deck: Vec<ExploreCard>,
    monster_deck: Vec<ExploreCard>,
    degrees: [Edict; 4],
    board: GameBoard,
}

impl View for InitialState {
    type V = Rules;

    closed spec fn view(&self) -> Rules {
        Rules {
            deck: Seq::new(self.deck@.len(), |k: int| self.deck@[k]@),
            monster_deck: Seq::new(self.monster_deck@.len(), |k: int| self.monster_deck@[k]@),
            edicts: self.degrees@,
            mountain: self.board.mountain_cells(),
            wasteland: self.board.wasteland_cells(),
            ruin: self.board.ruin_cells(),
        }
    }
}

impl InitialState {
    #[verifier::type_invariant]
    closed spec fn wf(self) -> bool {
        self.deck@.len() == 11 && self.monster_deck@.len() == 8
    }

    /// The exploration cards.
    pub closed spec fn explore_cards(&self) -> Seq<ExploreCard> {
        self.deck@
    }

    /// The monster cards.
    pub closed spec fn monster_cards(&self) -> Seq<ExploreCard> {
        self.monster_deck@
    }

    /// A game on side 1 of the board, scored by `degrees`.
    pub fn new(degrees: [Edict; 4]) -> (r: Self)
        ensures
            r@.edicts == degrees@,
            r@.mountain == crate::board::side1_mountains(),
            r@.wasteland == Set::<int>::empty(),
            r@.ruin == crate::board::side1_ruins(),
            is_explore_catalogue(r.explore_cards()),
            is_monster_catalogue(r.monster_cards()),
    {
        Self::with_board(degrees, GameBoard::side1())
    }

    /// A game on `board`, scored by `degrees`.
    pub fn with_board(degrees: [Edict; 4], board: GameBoard) -> (r: Self)
        ensures
            r@.edicts == degrees@,
            r@.mountain == board.mountain_cells(),
            r@.wasteland == board.wasteland_cells(),
            r@.ruin == board.ruin_cells(),
            is_explore_catalogue(r.explore_cards()),
            is_monster_catalogue(r.monster_cards()),
    {
        Self { deck: explore_cards(), monster_deck: monster_cards(), degrees, board }
    }
}

/// Where a game stands.
pub struct Position {
    pub season: Season,
    /// The time that the cards of this season have taken.
    pub season_timer: int,
    pub deck: DeckView,
    /// The cells that the player has filled, by terrain.
    pub board: Map<PlayerTerrain, Set<int>>,
    pub gold: int,
    /// What the seasons that are over have given.
    pub total_score: int,
}

/// The regions of the board on which `board` was placed.
pub open spec fn regions_of(rules: Rules, board: Map<PlayerTerrain, Set<int>>) -> Regions {
    Regions {
        forest: board[PlayerTerrain::Forest],
        village: board[PlayerTerrain::Village],
        farm: board[PlayerTerrain::Farm],
        water: board[PlayerTerrain::Water],
        monster: board[PlayerTerrain::Monster],
        mountain: rules.mountain,
        wasteland: rules.wasteland,
        ruin: rules.ruin,
    }
}

/// The most that `gold` may be, either way.
pub open spec fn gold_limit() -> int {
    0x2_0000_0000_0000
}

/// The most that one scoring may give, either way: the gold and what a board
/// is worth at most.
pub open spec fn score_limit() -> int {
    0x2_0000_0000_03e8
}

/// The most that the end of one season may add to the score, either way: six
/// scorings.
pub open spec fn season_limit() -> int {
    0xc_0000_0000_1770
}

/// The most that `total_score` may be, either way: four seasons.
pub open spec fn total_limit() -> int {
    0x30_0000_0000_5dc0
}

/// The most that the estimate of a board may be, either way.
pub open spec fn heuristic_limit() -> int {
    0x60_0000_0000_bb80
}

/// How many seasons are over when `season` runs.
pub open spec fn seasons_before(season: Season) -> int {
    match season {
        Season::Spring => 0,
        Season::Summer => 1,
        Season::Fall => 2,
        Season::Winter => 3,
    }
}

/// What is scored at the end of a season: an edict, the gold, the monsters,
/// or nothing.
#[derive(Clone, Copy, PartialEq, Eq, Debug, Structural)]
pub enum Scoring {
    Edict(Edict),
    Gold,
    Monsters,
    Zero,
}

/// What is scored at the end of `season`, each with the weight that it has in
/// the estimate of a board during that season.
pub open spec fn table(edicts: Seq<Edict>, season: Season) -> Seq<(Scoring, int)> {
    match season {
        Season::Spring => seq![
            (Scoring::Edict(edicts[0]), 2int),
            (Scoring::Edict(edicts[1]), 2int),
            (Scoring::Edict(edicts[2]), 2int),
            (Scoring::Edict(edicts[3]), 2int),
            (Scoring::Gold, 4int),
            (Scoring::Monsters, 4int),
        ],
        Season::Summer => seq![
            (Scoring::Edict(edicts[0]), 1int),
            (Scoring::Edict(edicts[1]), 1int),
            (Scoring::Edict(edicts[2]), 2int),
            (Scoring::Edict(edicts[3]), 2int),
            (Scoring::Gold, 3int),
            (Scoring::Monsters, 3int),
        ],
        Season::Fall => seq![
            (Scoring::Edict(edicts[0]), 1int),
            (Scoring::Zero, 0int),
            (Scoring::Edict(edicts[2]), 1int),
            (Scoring::Edict(edicts[3]), 2int),
            (Scoring::Gold, 2int),
            (Scoring::Monsters, 2int),
        ],
        Season::Winter => seq![
            (Scoring::Edict(edicts[0]), 1int),
            (Scoring::Zero, 0int),
            (Scoring::Zero, 0int),
            (Scoring::Edict(edicts[3]), 1int),
            (Scoring::Gold, 1int),
            (Scoring::Monsters, 1int),
        ],
    }
}

/// What `scoring` gives.
pub open spec fn scoring_value(scoring: Scoring, regions: Regions, gold: int) -> int {
    match scoring {
        Scoring::Edict(edict) => regions.edict(edict),
        Scoring::Gold => gold + regions.mountain_gold(),
        Scoring::Monsters => regions.monsters(),
        Scoring::Zero => 0,
    }
}

/// What the first `n` scorings of the season add to the score at its end.
pub open spec fn season_sum(rules: Rules, pos: Position, n: int) -> int
    decreases n,
{
    if n <= 0 {
        0
    } else {
        season_sum(rules, pos, n - 1) + scoring_value(
            table(rules.edicts, pos.season)[n - 1].0,
            regions_of(rules, pos.board),
            pos.gold,
        )
    }
}

/// What the first `n` scorings of the season add to the estimate of a board:
/// each what it gives, times its weight.
pub open spec fn weighted_sum(rules: Rules, pos: Position, n: int) -> int
    decreases n,
{
    if n <= 0 {
        0
    } else {
        weighted_sum(rules, pos, n - 1) + table(rules.edicts, pos.season)[n - 1].1 * scoring_value(
            table(rules.edicts, pos.season)[n - 1].0,
            regions_of(rules, pos.board),
            pos.gold,
        )
    }
}

/// The estimate of a board in the middle of a season: the score so far, and
/// what the season's scorings give now, each times its weight.
pub open spec fn heuristic(rules: Rules, pos: Position) -> int {
    pos.total_score + weighted_sum(rules, pos, 6)
}

/// Where the game stands once a season that has used up its time is scored,
/// and whether the game goes on: it ends with winter.
pub open spec fn after_season_end(rules: Rules, pos: Position) -> (Position, bool) {
    if pos.season_timer < pos.season.budget() {
        (pos, true)
    } else {
        let scored = Position { total_score: pos.total_score + season_sum(rules, pos, 6), ..pos };
        match pos.season.successor() {
            Some(next) => (
                Position { season: next, season_timer: 0, deck: pos.deck.new_season(), ..scored },
                true,
            ),
            None => (scored, false),
        }
    }
}

/// Whether the score is one that the seasons so far can have given, and one
/// more monster fits into the pile for each season to come.
pub open spec fn in_range(pos: Position) -> bool {
    &&& -seasons_before(pos.season) * season_limit() <= pos.total_score <= seasons_before(
        pos.season,
    ) * season_limit()
    &&& pos.deck.monsters_in_deck <= 252 + seasons_before(pos.season)
}

/// The place of the first card from `from` on that is called `name`.
pub open spec fn first_named(cards: Seq<CardView>, name: Seq<char>, from: int) -> Option<int>
    decreases cards.len() - from,
{
    if from < 0 || from >= cards.len() {
        None
    } else if cards[from].name == name {
        Some(from)
    } else {
        first_named(cards, name, from + 1)
    }
}

/// The card called `name`: the first such exploration card, or else the first
/// such monster card.
pub open spec fn card_named(rules: Rules, name: Seq<char>) -> Option<DrawnCard> {
    match first_named(rules.deck, name, 0) {
        Some(i) => Some(DrawnCard::ExploreCard(i as u16)),
        None => match first_named(rules.monster_deck, name, 0) {
            Some(i) => Some(DrawnCard::MonsterCard(i as u16)),
            None => None,
        },
    }
}

/// The deck once `drawn` is taken out.
pub open spec fn without(deck: DeckView, drawn: DrawnCard) -> DeckView {
    match drawn {
        DrawnCard::ExploreCard(i) => deck.without_explore(i as int),
        DrawnCard::MonsterCard(i) => deck.without_monster(i as int),
    }
}

/// Whether a position can be searched to any depth: its numbers are in range,
/// and the gold leaves room for as many cards as a depth can count.
pub open spec fn searchable(pos: Position) -> bool {
    in_range(pos) && gold_room(pos, 0x1_0000_0000)
}

/// Why a card could not be revealed.
#[derive(Clone, Copy, PartialEq, Eq, Debug, Structural)]
pub enum RevealError {
    /// No card has that name.
    UnknownCard,
    /// The card is a monster, and no monster is in the pile.
    NoMonsterInDeck,
}

/// Why no move was found.
#[derive(Clone, Copy, PartialEq, Eq, Debug, Structural)]
pub enum FindError {
    /// No card has that name.
    UnknownCard,
    /// The numbers of the state are beyond what a search can count with.
    OutOfRange,
    /// Somewhere in the search a card could not be played at all.
    NoTurn,
    /// The deadline passed before the first search was completed.
    TimedOut,
}

/// The card that was drawn.
pub open spec fn card_of(rules: Rules, drawn: DrawnCard) -> CardView {
    match drawn {
        DrawnCard::ExploreCard(i) => rules.deck[i as int],
        DrawnCard::MonsterCard(i) => rules.monster_deck[i as int],
    }
}

/// What changes from turn to turn.
#[derive(Clone, Copy)]
pub struct GameState<'a> {
    initial_state: &'a InitialState,
    season: Season,
    season_timer: u16,
    deck: Deck,
    board: PlayerBoard,
    gold: i64,
    total_score: i64,
}

impl<'a> View for GameState<'a> {
    type V = Position;

    closed spec fn view(&self) -> Position {
        Position {
            season: self.season,
            season_timer: self.season_timer as int,
            deck: self.deck@,
            board: self.board@,
            gold: self.gold as int,
            total_score: self.total_score as int,
        }
    }
}

impl<'a> GameState<'a> {
    #[verifier::type_invariant]
    closed spec fn wf(self) -> bool {
        &&& self.season_timer <= 9
        &&& -gold_limit() <= self.gold <= gold_limit()
        &&& -total_limit() <= self.total_score <= total_limit()
    }

    /// The game's unchanging part.
    pub closed spec fn initial(&self) -> InitialState {
        *self.initial_state
    }

    /// What the game is played by.
    pub open spec fn rules(&self) -> Rules {
        self.initial()@
    }

    /// The start of a game: spring, no time used, no card in the deck, an
    /// empty board, no gold and no score.
    pub fn new(initial_state: &'a InitialState) -> (r: GameState<'a>)
        ensures
            r.initial() == *initial_state,
            r.rules() == initial_state@,
            r@.season == Season::Spring,
            r@.season_timer == 0,
            r@.deck == (DeckView { explore: Set::empty(), monsters: Set::empty(), monsters_in_deck: 0 }),
            forall|t: PlayerTerrain| r@.board[t] == Set::<int>::empty(),
            r@.gold == 0,
            r@.total_score == 0,
    {
        GameState {
            initial_state,
            season: Season::Spring,
            season_timer: 0,
            deck: Deck::empty(),
            board: PlayerBoard::new(),
            gold: 0,
            total_score: 0,
        }
    }

    /// Takes the board as it now is.
    pub fn new_board(&mut self, board: PlayerBoard)
        ensures
            final(self)@ == (Position { board: board@, ..old(self)@ }),
            final(self).initial() == old(self).initial(),
    {
        proof {
            use_type_invariant(&*self);
        }
        *self = GameState {
            initial_state: self.initial_state,
            season: self.season,
            season_timer: self.season_timer,
            deck: self.deck,
            board,
            gold: self.gold,
            total_score: self.total_score,
        };
    }
    /// Starts `season`: no time used, and the deck of a new season.
    pub fn new_season(&mut self, season: Season)
        requires
            old(self)@.deck.monsters_in_deck < 255,
        ensures
            final(self)@ == (Position {
                season,
                season_timer: 0,
                deck: old(self)@.deck.new_season(),
                ..old(self)@
            }),
            final(self).initial() == old(self).initial(),
    {
        proof {
            use_type_invariant(&*self);
        }
        let mut deck = self.deck;
        deck.new_season();
        *self = GameState {
            initial_state: self.initial_state,
            season,
            season_timer: 0,
            deck,
            board: self.board,
            gold: self.gold,
            total_score: self.total_score,
        };
    }

    /// The place of the first of `cards` from `from` on that is called `name`.
    fn find_card(cards: &Vec<ExploreCard>, name: &str) -> (r: Option<usize>)
        ensures
            match r {
                Some(i) => i < cards@.len() && first_named(
                    Seq::new(cards@.len(), |k: int| cards@[k]@),
                    name@,
                    0,
                ) == Some(i as int),
                None => first_named(Seq::new(cards@.len(), |k: int| cards@[k]@), name@, 0) is None,
            },
    {
        let ghost views = Seq::new(cards@.len(), |k: int| cards@[k]@);
        let mut i: usize = 0;
        while i < cards.len()
            invariant
                i <= cards.len(),
                views == Seq::new(cards@.len(), |k: int| cards@[k]@),
                first_named(views, name@, 0) == first_named(views, name@, i as int),
            decreases cards.len() - i,
        {
            if same_text(cards[i].name(), name) {
                return Some(i);
            }
            i += 1;
        }
        None
    }

    /// The card called `name`.
    fn find(&self, name: &str) -> (r: Option<DrawnCard>)
        ensures
            r == card_named(self.rules(), name@),
            match r {
                Some(DrawnCard::ExploreCard(i)) => i < 11,
                Some(DrawnCard::MonsterCard(i)) => i < 8,
                None => true,
            },
    {
        proof {
            use_type_invariant(self.initial_state);
        }
        match Self::find_card(&self.initial_state.deck, name) {
            Some(i) => Some(DrawnCard::ExploreCard(i as u16)),
            None => match Self::find_card(&self.initial_state.monster_deck, name) {
                Some(i) => Some(DrawnCard::MonsterCard(i as u16)),
                None => None,
            },
        }
    }

    /// Takes the card called `name` out of the deck, and hands it out.
    pub fn reveal_card(&mut self, name: &str) -> (r: Result<&'a ExploreCard, RevealError>)
        ensures
            final(self).initial() == old(self).initial(),
            match r {
                Ok(card) => {
                    &&& card_named(old(self).rules(), name@) matches Some(drawn)
                    &&& card@ == card_of(old(self).rules(), drawn)
                    &&& drawn is MonsterCard ==> old(self)@.deck.monsters_in_deck > 0
                    &&& final(self)@ == (Position {
                        deck: without(old(self)@.deck, drawn),
                        ..old(self)@
                    })
                },
                Err(RevealError::UnknownCard) => card_named(old(self).rules(), name@) is None
                    && *final(self) == *old(self),
                Err(RevealError::NoMonsterInDeck) => card_named(old(self).rules(), name@) matches Some(
                    DrawnCard::MonsterCard(_),
                ) && old(self)@.deck.monsters_in_deck == 0 && *final(self) == *old(self),
            },
    {
        proof {
            use_type_invariant(&*self);
        }
        let drawn = match self.find(name) {
            None => {
                return Err(RevealError::UnknownCard);
            },
            Some(drawn) => drawn,
        };
        let mut deck = self.deck;
        match drawn {
            DrawnCard::ExploreCard(i) => {
                deck.remove_explore_card(i);
            },
            DrawnCard::MonsterCard(i) => {
                if deck.monsters_in_deck() == 0 {
                    return Err(RevealError::NoMonsterInDeck);
                }
                deck.remove_monster_card(i);
            },
        }
        let card = self.card(drawn);
        *self = GameState {
            initial_state: self.initial_state,
            season: self.season,
            season_timer: self.season_timer,
            deck,
            board: self.board,
            gold: self.gold,
            total_score: self.total_score,
        };
        Ok(card)
    }

    /// Whether the state can be searched `depth` cards deep.
    pub fn can_search(&self, depth: u32) -> (r: bool)
        ensures
            r == (in_range(self@) && gold_room(self@, depth + 1)),
    {
        let before: i64 = match self.season {
            Season::Spring => 0,
            Season::Summer => 1,
            Season::Fall => 2,
            Season::Winter => 3,
        };
        let limit: i64 = before * 0xc_0000_0000_1770;
        let room: i64 = 0x2_0000_0000_0000 - (depth as i64 + 1) * 32768;
        -limit <= self.total_score && self.total_score <= limit && self.deck.monsters_in_deck() as i64
            <= 252 + before && -room <= self.gold && self.gold <= room
    }

    /// Whether the state can be searched.
    pub fn is_searchable(&self) -> (r: bool)
        ensures
            r == searchable(self@),
    {
        let before: i64 = match self.season {
            Season::Spring => 0,
            Season::Summer => 1,
            Season::Fall => 2,
            Season::Winter => 3,
        };
        let limit: i64 = before * 0xc_0000_0000_1770;
        let room: i64 = 0x2_0000_0000_0000 - 0x8000_0000_0000;
        -limit <= self.total_score && self.total_score <= limit && self.deck.monsters_in_deck() as i64
            <= 252 + before && -room <= self.gold && self.gold <= room
    }

    /// The gold.
    pub fn gold(&self) -> (r: i64)
        ensures
            r == self@.gold,
            -gold_limit() <= r <= gold_limit(),
    {
        proof {
            use_type_invariant(self);
        }
        self.gold
    }

    /// What the seasons that are over have given.
    pub fn total_score(&self) -> (r: i64)
        ensures
            r == self@.total_score,
            -total_limit() <= r <= total_limit(),
    {
        proof {
            use_type_invariant(self);
        }
        self.total_score
    }

    /// The season that runs.
    pub fn season(&self) -> (r: Season)
        ensures
            r == self@.season,
    {
        self.season
    }

    /// The cards that may still be drawn this season.
    pub fn deck(&self) -> (r: Deck)
        ensures
            r@ == self@.deck,
    {
        self.deck
    }

    /// The state with `gold` more gold.
    pub fn add_gold(&self, gold: i16) -> (r: Self)
        requires
            -gold_limit() <= self@.gold + gold <= gold_limit(),
        ensures
            r@ == (Position { gold: self@.gold + gold, ..self@ }),
            r.initial() == self.initial(),
    {
        proof {
            use_type_invariant(self);
        }
        GameState {
            initial_state: self.initial_state,
            season: self.season,
            season_timer: self.season_timer,
            deck: self.deck,
            board: self.board,
            gold: self.gold + gold as i64,
            total_score: self.total_score,
        }
    }

    /// The state with `cells` added to `terrain`.
    pub fn place_cells(&self, terrain: PlayerTerrain, cells: Mask) -> (r: Self)
        ensures
            r@ == (Position {
                board: self@.board.insert(terrain, self@.board[terrain] + cells@),
                ..self@
            }),
            r.initial() == self.initial(),
    {
        proof {
            use_type_invariant(self);
        }
        GameState {
            initial_state: self.initial_state,
            season: self.season,
            season_timer: self.season_timer,
            deck: self.deck,
            board: self.board.place_cells(terrain, cells),
            gold: self.gold,
            total_score: self.total_score,
        }
    }

    /// Entry `i` of the season's table.
    fn table_entry(&self, i: usize) -> (r: (Scoring, i64))
        requires
            i < 6,
        ensures
            r.0 == table(self.rules().edicts, self@.season)[i as int].0,
            r.1 == table(self.rules().edicts, self@.season)[i as int].1,
            0 <= r.1 <= 4,
    {
        let degrees = &self.initial_state.degrees;
        let first = Scoring::Edict(degrees[0]);
        let second = Scoring::Edict(degrees[1]);
        let third = Scoring::Edict(degrees[2]);
        let fourth = Scoring::Edict(degrees[3]);
        match self.season {
            Season::Spring => match i {
                0 => (first, 2),
                1 => (second, 2),
                2 => (third, 2),
                3 => (fourth, 2),
                4 => (Scoring::Gold, 4),
                _ => (Scoring::Monsters, 4),
            },
            Season::Summer => match i {
                0 => (first, 1),
                1 => (second, 1),
                2 => (third, 2),
                3 => (fourth, 2),
                4 => (Scoring::Gold, 3),
                _ => (Scoring::Monsters, 3),
            },
            Season::Fall => match i {
                0 => (first, 1),
                1 => (Scoring::Zero, 0),
                2 => (third, 1),
                3 => (fourth, 2),
                4 => (Scoring::Gold, 2),
                _ => (Scoring::Monsters, 2),
            },
            Season::Winter => match i {
                0 => (first, 1),
                1 => (Scoring::Zero, 0),
                2 => (Scoring::Zero, 0),
                3 => (fourth, 1),
                4 => (Scoring::Gold, 1),
                _ => (Scoring::Monsters, 1),
            },
        }
    }

    /// What `scoring` gives.
    fn score(&self, scoring: Scoring) -> (r: i64)
        ensures
            r == scoring_value(scoring, self.regions(), self@.gold),
            -score_limit() <= r <= score_limit(),
    {
        proof {
            use_type_invariant(self);
        }
        match scoring {
            Scoring::Edict(edict) => score_edict(edict, self) as i64,
            Scoring::Gold => self.gold + mountain_gold(self) as i64,
            Scoring::Monsters => monsters(self) as i64,
            Scoring::Zero => 0,
        }
    }

    /// Scores the season if its time is used up, and goes on to the next one.
    /// Gives `false` when the game is over.
    pub fn handle_season_end(&mut self) -> (going: bool)
        requires
            in_range(old(self)@),
        ensures
            (final(self)@, going) == after_season_end(old(self).rules(), old(self)@),
            final(self).initial() == old(self).initial(),
            final(self).rules() == old(self).rules(),
            going ==> in_range(final(self)@) && final(self)@.season_timer < final(self)@.season.budget(),
            final(self)@.gold == old(self)@.gold,
    {
        proof {
            use_type_invariant(&*self);
        }
        if (self.season_timer as u32) < self.season.time() {
            return true;
        }
        let mut sum: i64 = 0;
        let mut i: usize = 0;
        while i < 6
            invariant
                i <= 6,
                *self == *old(self),
                sum == season_sum(self.rules(), self@, i as int),
                -(i as int) * 0x2_0000_0000_03e8 <= sum <= i * 0x2_0000_0000_03e8,
            decreases 6 - i,
        {
            let entry = self.table_entry(i);
            let part = self.score(entry.0);
            sum = sum + part;
            i += 1;
        }
        let total = self.total_score + sum;
        match self.season.next() {
            Some(season) => {
                let mut deck = self.deck;
                deck.new_season();
                *self = GameState {
                    initial_state: self.initial_state,
                    season,
                    season_timer: 0,
                    deck,
                    board: self.board,
                    gold: self.gold,
                    total_score: total,
                };
                true
            },
            None => {
                *self = GameState {
                    initial_state: self.initial_state,
                    season: self.season,
                    season_timer: self.season_timer,
                    deck: self.deck,
                    board: self.board,
                    gold: self.gold,
                    total_score: total,
                };
                false
            },
        }
    }

    /// The estimate of the board: the score so far, and what the season's
    /// scorings give now, each times its weight.
    pub fn heuristic_score(&self) -> (r: i64)
        ensures
            r == heuristic(self.rules(), self@),
            -heuristic_limit() <= r <= heuristic_limit(),
    {
        proof {
            use_type_invariant(self);
        }
        let mut sum: i64 = 0;
        let mut i: usize = 0;
        while i < 6
            invariant
                i <= 6,
                sum == weighted_sum(self.rules(), self@, i as int),
                -(i as int) * 0x8_0000_0000_0fa0 <= sum <= i * 0x8_0000_0000_0fa0,
            decreases 6 - i,
        {
            let entry = self.table_entry(i);
            let part = self.score(entry.0);
            assert(-0x8_0000_0000_0fa0 <= entry.1 * part <= 0x8_0000_0000_0fa0) by (nonlinear_arith)
                requires
                    0 <= entry.1 <= 4,
                    -0x2_0000_0000_03e8 <= part <= 0x2_0000_0000_03e8,
            ;
            sum = sum + entry.1 * part;
            i += 1;
        }
        self.total_score + sum
    }

    /// The card that was drawn.
    fn card(&self, drawn: DrawnCard) -> (r: &'a ExploreCard)
        requires
            match drawn {
                DrawnCard::ExploreCard(i) => i < 11,
                DrawnCard::MonsterCard(i) => i < 8,
            },
        ensures
            r@ == card_of(self.rules(), drawn),
    {
        proof {
            use_type_invariant(self.initial_state);
        }
        match drawn {
            DrawnCard::ExploreCard(i) => &self.initial_state.deck[i as usize],
            DrawnCard::MonsterCard(i) => &self.initial_state.monster_deck[i as usize],
        }
    }

    /// The state after a card that takes `time` was drawn and left `deck`.
    fn after_draw(&self, deck: Deck, time: u16) -> (r: Self)
        requires
            self@.season_timer < 8,
            time <= 2,
        ensures
            r@ == (Position { deck: deck@, season_timer: self@.season_timer + time, ..self@ }),
            r.initial() == self.initial(),
    {
        proof {
            use_type_invariant(self);
        }
        GameState {
            initial_state: self.initial_state,
            season: self.season,
            season_timer: self.season_timer + time,
            deck,
            board: self.board,
            gold: self.gold,
            total_score: self.total_score,
        }
    }

    /// The cells that hold something.
    fn all_filled(&self) -> (m: Mask)
        ensures
            m@ == regions_of(self.rules(), self@.board).filled(),
    {
        let layout = &self.initial_state.board;
        let m = self.board.get_cells(PlayerTerrain::Forest) | self.board.get_cells(
            PlayerTerrain::Village,
        ) | self.board.get_cells(PlayerTerrain::Farm) | self.board.get_cells(PlayerTerrain::Water)
            | self.board.get_cells(PlayerTerrain::Monster) | layout.mountain() | layout.wasteland();
        m
    }

    /// The cells that hold nothing.
    fn all_empty(&self) -> (m: Mask)
        ensures
            m@ == regions_of(self.rules(), self@.board).empty(),
    {
        self.all_filled().not()
    }
}


impl<'a> Board for GameState<'a> {
    open spec fn regions(&self) -> Regions {
        regions_of(self.rules(), self@.board)
    }

    fn filled(&self) -> (m: Mask) {
        self.all_filled()
    }

    fn empty(&self) -> (m: Mask) {
        self.all_empty()
    }

    fn forest(&self) -> (m: Mask) {
        self.board.get_cells(PlayerTerrain::Forest)
    }

    fn village(&self) -> (m: Mask) {
        self.board.get_cells(PlayerTerrain::Village)
    }

    fn farm(&self) -> (m: Mask) {
        self.board.get_cells(PlayerTerrain::Farm)
    }

    fn water(&self) -> (m: Mask) {
        self.board.get_cells(PlayerTerrain::Water)
    }

    fn monster(&self) -> (m: Mask) {
        self.board.get_cells(PlayerTerrain::Monster)
    }

    fn mountain(&self) -> (m: Mask) {
        self.initial_state.board.mountain()
    }

    fn wasteland(&self) -> (m: Mask) {
        self.initial_state.board.wasteland()
    }

    fn ruin(&self) -> (m: Mask) {
        self.initial_state.board.ruin()
    }
}

/// A turn that a card allows, and the gold that its shape is worth.
pub struct Move {
    pub terrain: PlayerTerrain,
    pub cells: Set<int>,
    pub gold: int,
}

/// The turn to play.
#[derive(Clone, Copy, Debug)]
pub struct Turn {
    pub terrain: PlayerTerrain,
    pub cells: Mask,
}

/// What a search has seen.
#[derive(Clone, Copy, Debug)]
pub struct Statistics {
    /// The positions looked at; it stops counting at the largest number it
    /// can hold.
    pub positions_evaluated: u32,
    /// The depth of the last search that was completed.
    pub depth_reached: u32,
    /// Whether a search came to the end of the game.
    pub end_reached: bool,
}

/// Why a search gave no turn.
#[derive(Clone, Copy, PartialEq, Eq, Debug, Structural)]
pub enum SearchError {
    /// The deadline passed.
    TimedOut,
    /// Somewhere in the search a card could not be played at all: the board
    /// has no empty cell that it may take.
    NoTurn,
}

/// What a position is worth, and what finding that out took.
pub struct Node {
    /// The worth, in units of one over `scale()` points.
    pub value: int,
    /// The positions looked at.
    pub positions: nat,
    /// Whether the end of the game was among them.
    pub ended: bool,
}

/// The best move for a card, what it is worth, and what finding it took.
pub struct Found {
    pub turn: Move,
    pub value: int,
    pub positions: nat,
    pub ended: bool,
}

/// How many units of worth make one point of score. A worth is a whole number
/// of units, so that an average of scores keeps twenty binary places.
pub open spec fn scale() -> int {
    0x10_0000
}

/// The most that a worth may be, either way.
pub open spec fn value_limit() -> int {
    0x60_0000_0000_bb80_0000_0
}

/// Whether the card may take `cells`: a card that has to cover a ruin must
/// cover one, unless it is an ambush.
pub open spec fn legal(rules: Rules, card: CardView, on_ruin: bool, cells: Set<int>) -> bool {
    !(on_ruin && !card.is_ambush && cells.disjoint(rules.ruin))
}

/// The moves that take `cells`, one for each of the first `n` terrains of the
/// card.
pub open spec fn cell_moves(
    rules: Rules,
    card: CardView,
    on_ruin: bool,
    gold: int,
    cells: Set<int>,
    n: int,
) -> Seq<Move>
    decreases n,
{
    if n <= 0 || !legal(rules, card, on_ruin, cells) {
        Seq::empty()
    } else {
        cell_moves(rules, card, on_ruin, gold, cells, n - 1).push(
            Move { terrain: card.terrains[n - 1], cells, gold },
        )
    }
}

/// The moves that take one of the first `n` of `places`.
pub open spec fn shape_moves(
    rules: Rules,
    card: CardView,
    on_ruin: bool,
    gold: int,
    places: Seq<Set<int>>,
    n: int,
) -> Seq<Move>
    decreases n,
{
    if n <= 0 {
        Seq::empty()
    } else {
        shape_moves(rules, card, on_ruin, gold, places, n - 1) + cell_moves(
            rules,
            card,
            on_ruin,
            gold,
            places[n - 1],
            card.terrains.len() as int,
        )
    }
}

/// The moves for the first `n` shapes of the card, where `free` is empty.
pub open spec fn card_moves(rules: Rules, free: Set<int>, card: CardView, on_ruin: bool, n: int) -> Seq<
    Move,
>
    decreases n,
{
    if n <= 0 {
        Seq::empty()
    } else {
        let places = grid::sub_masks(free, card.patterns[n - 1].0);
        card_moves(rules, free, card, on_ruin, n - 1) + shape_moves(
            rules,
            card,
            on_ruin,
            card.patterns[n - 1].1,
            places,
            places.len() as int,
        )
    }
}

/// All moves that the card allows, in the order in which they are tried: shape
/// by shape, place by place, terrain by terrain.
pub open spec fn moves(rules: Rules, pos: Position, card: CardView, on_ruin: bool) -> Seq<Move> {
    card_moves(
        rules,
        regions_of(rules, pos.board).empty(),
        card,
        on_ruin,
        card.patterns.len() as int,
    )
}

/// Where the game stands after a move.
pub open spec fn after_move(pos: Position, m: Move) -> Position {
    Position {
        board: pos.board.insert(m.terrain, pos.board[m.terrain] + m.cells),
        gold: pos.gold + m.gold,
        ..pos
    }
}

/// The card that is played where a card has no place: one cell, of any
/// terrain, or of monster for an ambush.
pub open spec fn rift_card(ambush: bool) -> CardView {
    if ambush {
        CardView {
            name: "splitterland_monster"@,
            time: 0,
            terrains: seq![PlayerTerrain::Monster],
            patterns: seq![(set![0int], 0int)],
            is_ambush: true,
        }
    } else {
        CardView {
            name: "splitterland"@,
            time: 0,
            terrains: seq![
                PlayerTerrain::Forest,
                PlayerTerrain::Village,
                PlayerTerrain::Farm,
                PlayerTerrain::Water,
                PlayerTerrain::Monster,
            ],
            patterns: seq![(set![0int], 0int)],
            is_ambush: false,
        }
    }
}

/// Whether `worth` is better than `best`: lower for an ambush, which the
/// search plays against the player, and higher otherwise.
pub open spec fn better(ambush: bool, worth: int, best: int) -> bool {
    if ambush {
        worth < best
    } else {
        worth > best
    }
}

/// The best move for `card`: the first of the moves with the best worth. Where
/// the card allows no move, the rift card is played in its place. `None`
/// where that allows none either, or where a card cannot be played further
/// down.
pub open spec fn explore_outcome(
    rules: Rules,
    pos: Position,
    card: CardView,
    on_ruin: bool,
    depth: nat,
    tried_rift: bool,
) -> Option<Found>
    decreases depth, if tried_rift { 4int } else { 5int }, 0int,
{
    let all = moves(rules, pos, card, on_ruin);
    if all.len() > 0 {
        best_outcome(rules, pos, all, card.is_ambush, depth)
    } else if tried_rift {
        None
    } else {
        explore_outcome(rules, pos, rift_card(card.is_ambush), false, depth, true)
    }
}

/// The best of `all`, which is not empty.
pub open spec fn best_outcome(
    rules: Rules,
    pos: Position,
    all: Seq<Move>,
    ambush: bool,
    depth: nat,
) -> Option<Found>
    decreases depth, 3int, all.len(),
{
    if all.len() == 0 {
        None
    } else {
        match game_outcome(rules, after_move(pos, all.last()), depth) {
            None => None,
            Some(node) => if all.len() == 1 {
                Some(
                    Found {
                        turn: all.last(),
                        value: node.value,
                        positions: node.positions,
                        ended: node.ended,
                    },
                )
            } else {
                match best_outcome(rules, pos, all.drop_last(), ambush, depth) {
                    None => None,
                    Some(best) => Some(
                        if better(ambush, node.value, best.value) {
                            Found {
                                turn: all.last(),
                                value: node.value,
                                positions: best.positions + node.positions,
                                ended: best.ended || node.ended,
                            }
                        } else {
                            Found {
                                turn: best.turn,
                                value: best.value,
                                positions: best.positions + node.positions,
                                ended: best.ended || node.ended,
                            }
                        },
                    ),
                }
            },
        }
    }
}

/// What a position is worth once a move was made. At the end of the game:
/// the score. At depth 0: the estimate of the board. Else: the average of the
/// worths of the best moves for the cards that may come, each weighed with its
/// chance, rounded down to a whole unit; 0 where no card can come.
pub open spec fn game_outcome(rules: Rules, pos: Position, depth: nat) -> Option<Node>
    decreases depth, 2int, 0int,
{
    let (now, going) = after_season_end(rules, pos);
    if !going {
        Some(Node { value: now.total_score * scale(), positions: 1, ended: true })
    } else if depth == 0 {
        Some(Node { value: heuristic(rules, now) * scale(), positions: 1, ended: false })
    } else {
        let n = now.deck.draws().len();
        match draws_outcome(rules, now, depth, n as int) {
            None => None,
            Some(sum) => Some(
                Node {
                    value: if n == 0 {
                        0
                    } else {
                        sum.value / now.deck.denominator()
                    },
                    positions: 1 + sum.positions,
                    ended: sum.ended,
                },
            ),
        }
    }
}

/// The first `n` draws: the worths of the best moves, each times the numerator
/// of the chance of the draw, added up.
pub open spec fn draws_outcome(rules: Rules, pos: Position, depth: nat, n: int) -> Option<Node>
    decreases depth, 1int, n,
{
    if n <= 0 || depth == 0 {
        Some(Node { value: 0, positions: 0, ended: false })
    } else {
        let (drawn, chance, deck) = pos.deck.draws()[n - 1];
        let card = card_of(rules, drawn);
        let next = Position { deck, season_timer: pos.season_timer + card.time, ..pos };
        match explore_outcome(rules, next, card, false, (depth - 1) as nat, false) {
            None => None,
            Some(found) => match draws_outcome(rules, pos, depth, n - 1) {
                None => None,
                Some(sum) => Some(
                    Node {
                        value: sum.value + chance.numerator * found.value,
                        positions: sum.positions + found.positions,
                        ended: sum.ended || found.ended,
                    },
                ),
            },
        }
    }
}

/// The statistics after `positions` more positions.
pub open spec fn counted(before: Statistics, positions: nat, ended: bool) -> Statistics {
    Statistics {
        positions_evaluated: if before.positions_evaluated + positions > u32::MAX {
            u32::MAX
        } else {
            (before.positions_evaluated + positions) as u32
        },
        depth_reached: before.depth_reached,
        end_reached: before.end_reached || ended,
    }
}

/// Whether `turn` is the move `m`.
pub open spec fn turn_is(turn: Turn, m: Move) -> bool {
    turn.terrain == m.terrain && turn.cells@ == m.cells
}

/// Whether `best` holds the turn and the worth of `found`.
pub open spec fn holds_best(best: Option<(Turn, i128)>, found: Found) -> bool {
    &&& best matches Some((turn, value))
    &&& turn_is(turn, found.turn)
    &&& value == found.value
    &&& -value_limit() <= value <= value_limit()
}

/// Whether a search for the best move for `card` that starts with the
/// statistics `before` ends with `turn`, `value` and the statistics `after`.
pub open spec fn is_explore_result(
    rules: Rules,
    pos: Position,
    card: CardView,
    on_ruin: bool,
    depth: nat,
    tried_rift: bool,
    before: Statistics,
    turn: Turn,
    value: int,
    after: Statistics,
) -> bool {
    &&& explore_outcome(rules, pos, card, on_ruin, depth, tried_rift) matches Some(found)
    &&& turn_is(turn, found.turn)
    &&& found.value == value
    &&& after == counted(before, found.positions, found.ended)
}

/// Two searches of one position for one card to one depth, neither cut short,
/// give the same turn and the same worth, and count the same positions.
pub proof fn law_search_is_deterministic(
    rules: Rules,
    pos: Position,
    card: CardView,
    on_ruin: bool,
    depth: nat,
    before: Statistics,
    first: (Turn, int, Statistics),
    second: (Turn, int, Statistics),
)
    requires
        is_explore_result(rules, pos, card, on_ruin, depth, false, before, first.0, first.1, first.2),
        is_explore_result(
            rules,
            pos,
            card,
            on_ruin,
            depth,
            false,
            before,
            second.0,
            second.1,
            second.2,
        ),
    ensures
        first.0.terrain == second.0.terrain,
        first.0.cells@ == second.0.cells@,
        first.1 == second.1,
        first.2 == second.2,
{
}

/// A search of depth 0 looks at one position for each move.
pub proof fn law_depth_zero_counts_moves(
    rules: Rules,
    pos: Position,
    all: Seq<Move>,
    ambush: bool,
)
    requires
        best_outcome(rules, pos, all, ambush, 0) is Some,
    ensures
        best_outcome(rules, pos, all, ambush, 0)->Some_0.positions == all.len(),
    decreases all.len(),
{
    let node = game_outcome(rules, after_move(pos, all.last()), 0);
    assert(node is Some && node->Some_0.positions == 1);
    if all.len() > 1 {
        law_depth_zero_counts_moves(rules, pos, all.drop_last(), ambush);
    }
}

/// What the move `m` is worth.
pub open spec fn worth(rules: Rules, pos: Position, m: Move, depth: nat) -> int {
    game_outcome(rules, after_move(pos, m), depth)->Some_0.value
}

/// Whether move `k` is the best of `all`: it is better than every move before
/// it, and no move is better than it.
pub open spec fn is_first_best(
    rules: Rules,
    pos: Position,
    all: Seq<Move>,
    ambush: bool,
    depth: nat,
    k: int,
) -> bool {
    &&& 0 <= k < all.len()
    &&& forall|j: int|
        0 <= j < k ==> better(
            ambush,
            worth(rules, pos, all[k], depth),
            #[trigger] worth(rules, pos, all[j], depth),
        )
    &&& forall|j: int|
        0 <= j < all.len() ==> !better(
            ambush,
            #[trigger] worth(rules, pos, all[j], depth),
            worth(rules, pos, all[k], depth),
        )
}

/// The move that a search picks is the first of the best: for an ambush no
/// move is worth less to the player, for any other card none is worth more,
/// and every move before it is worse.
pub proof fn law_best_is_extreme(
    rules: Rules,
    pos: Position,
    all: Seq<Move>,
    ambush: bool,
    depth: nat,
) -> (k: int)
    requires
        best_outcome(rules, pos, all, ambush, depth) is Some,
    ensures
        is_first_best(rules, pos, all, ambush, depth, k),
        best_outcome(rules, pos, all, ambush, depth)->Some_0.turn == all[k],
        best_outcome(rules, pos, all, ambush, depth)->Some_0.value == worth(
            rules,
            pos,
            all[k],
            depth,
        ),
    decreases all.len(),
{
    let last = all.len() - 1;
    if all.len() == 1 {
        0
    } else {
        let shorter = all.drop_last();
        let before = law_best_is_extreme(rules, pos, shorter, ambush, depth);
        let best = best_outcome(rules, pos, shorter, ambush, depth)->Some_0;
        assert forall|j: int| 0 <= j < shorter.len() implies shorter[j] == all[j] by {}
        if better(ambush, worth(rules, pos, all[last], depth), best.value) {
            last
        } else {
            before
        }
    }
}

/// Whether a search can have turned the statistics `before` into `after`:
/// the depth is left alone, the count of positions has not fallen, and an
/// end of the game that was seen stays seen.
pub open spec fn grew(before: Statistics, after: Statistics) -> bool {
    &&& after.depth_reached == before.depth_reached
    &&& after.positions_evaluated >= before.positions_evaluated
    &&& before.end_reached ==> after.end_reached
}

/// Whether the card has a move, or else the rift card has one where it may
/// still be tried.
pub open spec fn has_move(
    rules: Rules,
    pos: Position,
    card: CardView,
    on_ruin: bool,
    tried_rift: bool,
) -> bool {
    moves(rules, pos, card, on_ruin).len() > 0 || (!tried_rift && moves(
        rules,
        pos,
        rift_card(card.is_ambush),
        false,
    ).len() > 0)
}

/// A terrain of a card, on a place that the card may take, is a move.
proof fn lemma_cell_moves_len(
    rules: Rules,
    card: CardView,
    on_ruin: bool,
    gold: int,
    cells: Set<int>,
    n: int,
)
    requires
        legal(rules, card, on_ruin, cells),
        0 <= n,
    ensures
        cell_moves(rules, card, on_ruin, gold, cells, n).len() == n,
    decreases n,
{
    if n > 0 {
        lemma_cell_moves_len(rules, card, on_ruin, gold, cells, n - 1);
    }
}

/// More places give no fewer moves.
proof fn lemma_shape_moves_grow(
    rules: Rules,
    card: CardView,
    on_ruin: bool,
    gold: int,
    places: Seq<Set<int>>,
    n: int,
    m: int,
)
    requires
        0 <= n <= m,
    ensures
        shape_moves(rules, card, on_ruin, gold, places, n).len() <= shape_moves(
            rules,
            card,
            on_ruin,
            gold,
            places,
            m,
        ).len(),
    decreases m - n,
{
    if n < m {
        lemma_shape_moves_grow(rules, card, on_ruin, gold, places, n, m - 1);
    }
}

/// More shapes give no fewer moves.
proof fn lemma_card_moves_grow(
    rules: Rules,
    free: Set<int>,
    card: CardView,
    on_ruin: bool,
    n: int,
    m: int,
)
    requires
        0 <= n <= m,
    ensures
        card_moves(rules, free, card, on_ruin, n).len() <= card_moves(
            rules,
            free,
            card,
            on_ruin,
            m,
        ).len(),
    decreases m - n,
{
    if n < m {
        lemma_card_moves_grow(rules, free, card, on_ruin, n, m - 1);
    }
}

/// A card with a terrain, and with a shape that has a place which the card
/// may take, has a move.
proof fn lemma_has_move(
    rules: Rules,
    free: Set<int>,
    card: CardView,
    on_ruin: bool,
    k: int,
    j: int,
)
    requires
        0 <= k < card.patterns.len(),
        0 <= j < grid::sub_masks(free, card.patterns[k].0).len(),
        legal(rules, card, on_ruin, grid::sub_masks(free, card.patterns[k].0)[j]),
        card.terrains.len() > 0,
    ensures
        card_moves(rules, free, card, on_ruin, card.patterns.len() as int).len() > 0,
{
    let places = grid::sub_masks(free, card.patterns[k].0);
    let gold = card.patterns[k].1;
    lemma_cell_moves_len(rules, card, on_ruin, gold, places[j], card.terrains.len() as int);
    lemma_shape_moves_grow(rules, card, on_ruin, gold, places, j + 1, places.len() as int);
    lemma_card_moves_grow(rules, free, card, on_ruin, k + 1, card.patterns.len() as int);
}

/// Whether the gold leaves room for the shapes of `levels` more cards.
pub open spec fn gold_room(pos: Position, levels: int) -> bool {
    -gold_limit() + levels * 32768 <= pos.gold <= gold_limit() - levels * 32768
}

/// The sum of weighted worths, divided by the denominator of the chances.
fn average(sum: i128, denominator: u32) -> (r: i128)
    requires
        0 < denominator <= 8 * 266,
        -denominator * value_limit() <= sum <= denominator * value_limit(),
    ensures
        r == sum as int / denominator as int,
        -value_limit() <= r <= value_limit(),
{
    let d = denominator as i128;
    assert(-0x1000_0000_0000_0000_0000_0000 < sum < 0x1000_0000_0000_0000_0000_0000) by (nonlinear_arith)
        requires
            0 < denominator <= 8 * 266,
            -denominator * 0x60_0000_0000_bb80_0000_0 <= sum <= denominator * 0x60_0000_0000_bb80_0000_0,
    ;
    let q = if sum >= 0 {
        sum / d
    } else {
        let q = (-sum + d - 1) / d;
        assert(-q == (sum as int) / (d as int)) by (nonlinear_arith)
            requires
                q == (-sum + d - 1) / (d as int),
                d > 0,
                sum < 0,
        ;
        -q
    };
    assert(-0x60_0000_0000_bb80_0000_0 <= q <= 0x60_0000_0000_bb80_0000_0) by (nonlinear_arith)
        requires
            q == (sum as int) / (d as int),
            d > 0,
            -d * 0x60_0000_0000_bb80_0000_0 <= sum <= d * 0x60_0000_0000_bb80_0000_0,
    ;
    q
}

/// What the position is worth once the move that led to it was made.
pub fn search_game_move(
    state: GameState,
    depth: u32,
    statistics: &mut Statistics,
    deadline: Deadline,
) -> (r: Result<i128, SearchError>)
    requires
        in_range(state@),
        gold_room(state@, depth as int),
    ensures
        grew(*old(statistics), *final(statistics)),
        match r {
            Ok(value) => {
                &&& game_outcome(state.rules(), state@, depth as nat) matches Some(node)
                &&& node.value == value
                &&& *final(statistics) == counted(*old(statistics), node.positions, node.ended)
                &&& -value_limit() <= value <= value_limit()
            },
            Err(SearchError::NoTurn) => game_outcome(state.rules(), state@, depth as nat) is None,
            Err(SearchError::TimedOut) => !deadline.is_never(),
        },
    decreases depth, 2int, 0int,
{
    if deadline.passed() {
        return Err(SearchError::TimedOut);
    }
    let ghost rules = state.rules();
    let ghost start = *statistics;
    let mut now = state;
    if statistics.positions_evaluated < u32::MAX {
        statistics.positions_evaluated += 1;
    }
    if !now.handle_season_end() {
        statistics.end_reached = true;
        let score = now.total_score();
        return Ok(score as i128 * 0x10_0000);
    }
    if depth == 0 {
        let score = now.heuristic_score();
        return Ok(score as i128 * 0x10_0000);
    }
    let deck = now.deck();
    let draws = deck.draw_cards();
    let ghost wanted = now@.deck.draws();
    let ghost mut acc = Node { value: 0, positions: 0, ended: false };
    proof {
        crate::deck::law_draw_chances(now@.deck);
    }
    let mut sum: i128 = 0;
    let mut weight: u32 = 0;
    let mut stuck = false;
    let mut n: usize = 0;
    while n < draws.len()
        invariant
            n <= draws.len(),
            depth > 0,
            rules == state.rules(),
            now.rules() == rules,
            in_range(now@),
            gold_room(now@, depth as int),
            now@.season_timer < 8,
            wanted == now@.deck.draws(),
            draws@.len() == wanted.len(),
            wanted.len() <= 19,
            forall|k: int|
                0 <= k < draws@.len() ==> (#[trigger] draws@[k]).0 == wanted[k].0 && draws@[k].1
                    == wanted[k].1 && draws@[k].2@ == wanted[k].2,
            forall|k: int| 0 <= k < wanted.len() ==> 0 <= (#[trigger] wanted[k]).1.numerator <= 255,
            forall|k: int|
                0 <= k < wanted.len() ==> match (#[trigger] wanted[k]).0 {
                    DrawnCard::ExploreCard(i) => i < 11,
                    DrawnCard::MonsterCard(i) => i < 8,
                },
            start == *old(statistics),
            grew(start, *statistics),
            weight == crate::deck::numerator_sum(wanted.take(n as int)),
            weight <= 255 * n,
            -weight * value_limit() <= sum <= weight * value_limit(),
            stuck ==> draws_outcome(rules, now@, depth as nat, n as int) is None,
            !stuck ==> draws_outcome(rules, now@, depth as nat, n as int) == Some(acc) && acc.value
                == sum && *statistics == counted(start, 1 + acc.positions, acc.ended),
        decreases draws.len() - n,
    {
        let (drawn, chance, next_deck) = draws[n];
        let card = now.card(drawn);
        let next = now.after_draw(next_deck, card.time());
        proof {
            assert(wanted.take(n + 1).drop_last() =~= wanted.take(n as int));
        }
        match search_explore_move(&next, card, false, depth - 1, statistics, deadline, false) {
            Err(SearchError::TimedOut) => {
                return Err(SearchError::TimedOut);
            },
            Err(SearchError::NoTurn) => {
                stuck = true;
            },
            Ok((_, value)) => {
                assert(-255 * value_limit() <= chance.numerator * value <= 255 * value_limit()
                    && -(weight + chance.numerator) * value_limit() <= sum + chance.numerator
                    * value <= (weight + chance.numerator) * value_limit()) by (nonlinear_arith)
                    requires
                        0 <= chance.numerator <= 255,
                        -value_limit() <= value <= value_limit(),
                        -weight * value_limit() <= sum <= weight * value_limit(),
                ;
                assert(weight * value_limit() <= 4845 * value_limit()) by (nonlinear_arith)
                    requires
                        0 <= weight <= 4845,
                ;
                sum = sum + chance.numerator as i128 * value;
                proof {
                    if !stuck {
                        let found = explore_outcome(
                            rules,
                            next@,
                            card@,
                            false,
                            (depth - 1) as nat,
                            false,
                        ).unwrap();
                        acc = Node {
                            value: acc.value + chance.numerator * found.value,
                            positions: acc.positions + found.positions,
                            ended: acc.ended || found.ended,
                        };
                    }
                }
            },
        }
        weight = weight + chance.numerator;
        n += 1;
    }
    if stuck {
        return Err(SearchError::NoTurn);
    }
    if draws.len() == 0 {
        return Ok(0);
    }
    proof {
        assert(wanted.take(n as int) =~= wanted);
        let bound = now@.deck.denominator();
        assert(weight * value_limit() <= bound * value_limit()) by (nonlinear_arith)
            requires
                0 <= weight <= bound,
        ;
    }
    Ok(average(sum, draws[0].1.denominator))
}

/// The best move for `card`, and what it is worth.
pub fn search_explore_move(
    state: &GameState,
    card: &ExploreCard,
    on_ruin: bool,
    depth: u32,
    statistics: &mut Statistics,
    deadline: Deadline,
    tried_rift_land: bool,
) -> (r: Result<(Turn, i128), SearchError>)
    requires
        in_range(state@),
        gold_room(state@, depth + 1),
    ensures
        grew(*old(statistics), *final(statistics)),
        !has_move(state.rules(), state@, card@, on_ruin, tried_rift_land) ==> r == Err::<
            (Turn, i128),
            SearchError,
        >(SearchError::NoTurn) && *final(statistics) == *old(statistics),
        match r {
            Ok((turn, value)) => {
                &&& is_explore_result(
                    state.rules(),
                    state@,
                    card@,
                    on_ruin,
                    depth as nat,
                    tried_rift_land,
                    *old(statistics),
                    turn,
                    value as int,
                    *final(statistics),
                )
                &&& -value_limit() <= value <= value_limit()
            },
            Err(SearchError::NoTurn) => explore_outcome(
                state.rules(),
                state@,
                card@,
                on_ruin,
                depth as nat,
                tried_rift_land,
            ) is None,
            Err(SearchError::TimedOut) => !deadline.is_never() && has_move(
                state.rules(),
                state@,
                card@,
                on_ruin,
                tried_rift_land,
            ),
        },
    decreases depth, if tried_rift_land { 4int } else { 5int }, 0int,
{
    let ghost rules = state.rules();
    let ghost start = *statistics;
    let is_ambush = card.is_ambush();
    let free = state.empty();
    let ruin = state.ruin();
    let patterns = card.patterns();
    let terrains = card.terrains();
    let ghost mut seen: Seq<Move> = Seq::empty();
    let ghost mut found = Found {
        turn: Move { terrain: PlayerTerrain::Forest, cells: Set::empty(), gold: 0 },
        value: 0,
        positions: 0,
        ended: false,
    };
    let mut best: Option<(Turn, i128)> = None;
    let mut stuck = false;
    let mut k: usize = 0;
    while k < patterns.len()
        invariant
            k <= patterns.len(),
            rules == state.rules(),
            in_range(state@),
            gold_room(state@, depth + 1),
            is_ambush == card@.is_ambush,
            free@ == regions_of(rules, state@.board).empty(),
            ruin@ == rules.ruin,
            patterns@.len() == card@.patterns.len(),
            forall|i: int|
                0 <= i < patterns@.len() ==> (#[trigger] card@.patterns[i]).0 == patterns@[i].0@
                    && card@.patterns[i].1 == patterns@[i].1,
            terrains@ == card@.terrains,
            terrains@.len() > 0,
            start == *old(statistics),
            grew(start, *statistics),
            seen == card_moves(rules, free@, card@, on_ruin, k as int),
            seen.len() == 0 ==> best is None && !stuck && *statistics == start,
            seen.len() > 0 && stuck ==> best_outcome(rules, state@, seen, is_ambush, depth as nat)
                is None,
            seen.len() > 0 && !stuck ==> best_outcome(rules, state@, seen, is_ambush, depth as nat)
                == Some(found) && holds_best(best, found) && *statistics == counted(
                start,
                found.positions,
                found.ended,
            ),
        decreases patterns.len() - k,
    {
        let (pattern, gold) = patterns[k];
        let with_gold = state.add_gold(gold);
        let mut places = free.sub_masks(pattern);
        let ghost all_places = places@;
        let ghost base = seen;
        let ghost mut j: int = 0;
        loop
            invariant
                k < patterns.len(),
                rules == state.rules(),
                with_gold.rules() == rules,
                with_gold@ == (Position { gold: state@.gold + gold, ..state@ }),
                in_range(state@),
                gold_room(state@, depth + 1),
                is_ambush == card@.is_ambush,
                ruin@ == rules.ruin,
                terrains@ == card@.terrains,
                terrains@.len() > 0,
                start == *old(statistics),
            grew(start, *statistics),
                free@ == regions_of(rules, state@.board).empty(),
                patterns@.len() == card@.patterns.len(),
                pattern@ == card@.patterns[k as int].0,
                gold == card@.patterns[k as int].1,
                all_places == grid::sub_masks(free@, pattern@),
                0 <= j <= all_places.len(),
                places@ == all_places.skip(j),
                seen == base + shape_moves(rules, card@, on_ruin, gold as int, all_places, j),
                seen.len() == 0 ==> best is None && !stuck && *statistics == start,
                seen.len() > 0 && stuck ==> best_outcome(
                    rules,
                    state@,
                    seen,
                    is_ambush,
                    depth as nat,
                ) is None,
                seen.len() > 0 && !stuck ==> best_outcome(
                    rules,
                    state@,
                    seen,
                    is_ambush,
                    depth as nat,
                ) == Some(found) && holds_best(best, found) && *statistics == counted(
                    start,
                    found.positions,
                    found.ended,
                ),
            ensures
                j == all_places.len(),
            decreases places@.len(),
        {
            let cells = match places.next() {
                None => {
                    break ;
                },
                Some(cells) => cells,
            };
            proof {
                grid::lemma_disjoint(cells@, ruin@);
            }
            let ghost line = seen;
            let allowed = !(on_ruin && !is_ambush && (cells & ruin).is_empty());
            if allowed {
                let mut t: usize = 0;
                while t < terrains.len()
                    invariant
                        t <= terrains.len(),
                        rules == state.rules(),
                        with_gold.rules() == rules,
                        with_gold@ == (Position { gold: state@.gold + gold, ..state@ }),
                        in_range(state@),
                        gold_room(state@, depth + 1),
                        is_ambush == card@.is_ambush,
                        terrains@ == card@.terrains,
                        start == *old(statistics),
            grew(start, *statistics),
                        free@ == regions_of(rules, state@.board).empty(),
                        k < patterns.len(),
                        patterns@.len() == card@.patterns.len(),
                        pattern@ == card@.patterns[k as int].0,
                        all_places == grid::sub_masks(free@, pattern@),
                        0 <= j < all_places.len(),
                        cells@ == all_places[j],
                        legal(rules, card@, on_ruin, cells@),
                        seen == line + cell_moves(
                            rules,
                            card@,
                            on_ruin,
                            gold as int,
                            cells@,
                            t as int,
                        ),
                        seen.len() == 0 ==> best is None && !stuck && *statistics == start,
                        seen.len() > 0 && stuck ==> best_outcome(
                            rules,
                            state@,
                            seen,
                            is_ambush,
                            depth as nat,
                        ) is None,
                        seen.len() > 0 && !stuck ==> best_outcome(
                            rules,
                            state@,
                            seen,
                            is_ambush,
                            depth as nat,
                        ) == Some(found) && holds_best(best, found) && *statistics == counted(
                            start,
                            found.positions,
                            found.ended,
                        ),
                    decreases terrains.len() - t,
                {
                    let terrain = terrains[t];
                    let placed = with_gold.place_cells(terrain, cells);
                    let ghost m = Move { terrain, cells: cells@, gold: gold as int };
                    let ghost longer = seen.push(m);
                    proof {
                        assert(longer.drop_last() =~= seen);
                    }
                    match search_game_move(placed, depth, statistics, deadline) {
                        Err(SearchError::TimedOut) => {
                            proof {
                                lemma_has_move(rules, free@, card@, on_ruin, k as int, j);
                            }
                            return Err(SearchError::TimedOut);
                        },
                        Err(SearchError::NoTurn) => {
                            stuck = true;
                        },
                        Ok(score) => {
                            if !stuck {
                                let ghost node = game_outcome(rules, placed@, depth as nat).unwrap();
                                match best {
                                    None => {
                                        best = Some((Turn { terrain, cells }, score));
                                        proof {
                                            found = Found {
                                                turn: m,
                                                value: node.value,
                                                positions: node.positions,
                                                ended: node.ended,
                                            };
                                        }
                                    },
                                    Some((_, value)) => {
                                        let is_better = if is_ambush {
                                            score < value
                                        } else {
                                            score > value
                                        };
                                        if is_better {
                                            best = Some((Turn { terrain, cells }, score));
                                            proof {
                                                found = Found {
                                                    turn: m,
                                                    value: node.value,
                                                    positions: found.positions + node.positions,
                                                    ended: found.ended || node.ended,
                                                };
                                            }
                                        } else {
                                            proof {
                                                found = Found {
                                                    turn: found.turn,
                                                    value: found.value,
                                                    positions: found.positions + node.positions,
                                                    ended: found.ended || node.ended,
                                                };
                                            }
                                        }
                                    },
                                }
                            }
                        },
                    }
                    proof {
                        seen = longer;
                    }
                    t += 1;
                }
            }
            proof {
                j = j + 1;
            }
        }
        k += 1;
    }
    if stuck {
        return Err(SearchError::NoTurn);
    }
    match best {
        Some(result) => Ok(result),
        None => {
            if tried_rift_land {
                Err(SearchError::NoTurn)
            } else {
                let rift_land = if is_ambush {
                    splitterland_monster()
                } else {
                    splitterland()
                };
                rift_land.check_valid();
                search_explore_move(state, &rift_land, false, depth, statistics, deadline, true)
            }
        },
    }
}

/// What a pass means for a search that goes deeper pass by pass.
#[derive(Clone, Copy, Debug)]
pub enum Deepening {
    /// The pass counts: `best` is its turn, `reached` its depth, and the next
    /// pass goes to `depth`.
    Go { best: Option<Turn>, reached: u32, depth: u32 },
    /// The search is over with `best`, the turn of the pass of depth `reached`.
    Stop { best: Option<Turn>, reached: u32 },
    /// The pass met a card that cannot be played.
    Fail,
}

/// What the pass of depth `depth` means, where `best` is the turn of the pass
/// of depth `reached`, the last one that counted, and `raised` says whether
/// the deadline had passed when the pass was over. A pass that was cut short,
/// or was over too late, is thrown away: the search stops with what it had.
/// A pass that met a card without any move fails the search. Any other pass
/// counts, and the search goes one deeper, unless no deeper pass can be
/// counted.
pub open spec fn deepened(
    best: Option<Turn>,
    reached: u32,
    depth: u32,
    pass: Result<(Turn, i128), SearchError>,
    raised: bool,
) -> Deepening {
    match pass {
        Err(SearchError::NoTurn) => Deepening::Fail,
        Err(SearchError::TimedOut) => Deepening::Stop { best, reached },
        Ok((turn, _)) => if raised {
            Deepening::Stop { best, reached }
        } else if depth == u32::MAX {
            Deepening::Stop { best: Some(turn), reached: depth }
        } else {
            Deepening::Go { best: Some(turn), reached: depth, depth: (depth + 1) as u32 }
        },
    }
}

/// Where the pass of depth `depth` is over in time and the next pass is cut
/// short, or is over too late, the search stops with the turn of the pass of
/// depth `depth`, and that depth is the one it has reached.
pub proof fn law_last_pass_in_time_is_kept(
    best: Option<Turn>,
    reached: u32,
    depth: u32,
    pass: (Turn, i128),
    next: Result<(Turn, i128), SearchError>,
    raised: bool,
)
    requires
        depth < u32::MAX,
        next is Ok ==> raised,
        next != Err::<(Turn, i128), SearchError>(SearchError::NoTurn),
    ensures
        deepened(best, reached, depth, Ok(pass), false) == (Deepening::Go {
            best: Some(pass.0),
            reached: depth,
            depth: (depth + 1) as u32,
        }),
        deepened(Some(pass.0), depth, (depth + 1) as u32, next, raised) == (Deepening::Stop {
            best: Some(pass.0),
            reached: depth,
        }),
{
}

/// What the pass of depth `depth` means for the search.
pub fn deepen(
    best: Option<Turn>,
    reached: u32,
    depth: u32,
    pass: Result<(Turn, i128), SearchError>,
    raised: bool,
) -> (r: Deepening)
    ensures
        r == deepened(best, reached, depth, pass, raised),
{
    match pass {
        Err(SearchError::NoTurn) => Deepening::Fail,
        Err(SearchError::TimedOut) => Deepening::Stop { best, reached },
        Ok((turn, _)) => if raised {
            Deepening::Stop { best, reached }
        } else if depth == u32::MAX {
            Deepening::Stop { best: Some(turn), reached: depth }
        } else {
            Deepening::Go { best: Some(turn), reached: depth, depth: depth + 1 }
        },
    }
}

/// The statistics after the passes of depth 0 to `k`, each run to its end,
/// from statistics that have seen nothing.
pub open spec fn after_passes(
    rules: Rules,
    pos: Position,
    card: CardView,
    on_ruin: bool,
    k: nat,
) -> Statistics
    decreases k,
{
    let before = if k == 0 {
        Statistics { positions_evaluated: 0, depth_reached: 0, end_reached: false }
    } else {
        after_passes(rules, pos, card, on_ruin, (k - 1) as nat)
    };
    match explore_outcome(rules, pos, card, on_ruin, k, false) {
        Some(found) => counted(before, found.positions, found.ended),
        None => before,
    }
}

/// Whether `statistics` can be what a search hands out whose last pass that
/// counted is the one of depth `statistics.depth_reached`: it has seen what
/// the passes up to that depth see, and what a pass that was thrown away saw
/// before it was cut short.
pub open spec fn counts_passes(
    rules: Rules,
    pos: Position,
    card: CardView,
    on_ruin: bool,
    statistics: Statistics,
) -> bool {
    let done = after_passes(rules, pos, card, on_ruin, statistics.depth_reached as nat);
    &&& statistics.positions_evaluated >= done.positions_evaluated
    &&& done.end_reached ==> statistics.end_reached
}

/// Whether `statistics` is what the passes up to the deepest one leave.
pub open spec fn counts_all_passes(
    rules: Rules,
    pos: Position,
    card: CardView,
    on_ruin: bool,
    statistics: Statistics,
) -> bool {
    let done = after_passes(rules, pos, card, on_ruin, u32::MAX as nat);
    &&& statistics.depth_reached == u32::MAX
    &&& statistics.positions_evaluated == done.positions_evaluated
    &&& statistics.end_reached == done.end_reached
}

/// The move to play for the card called `card`: the best move that the
/// deepest search found which was completed before the deadline passed, each
/// search one card deeper than the one before. Which pass is the last to
/// count is decided, pass by pass, by `deepen`.
pub fn find_best_move(state: &GameState, card: &str, on_ruin: bool, deadline: Deadline) -> (r:
    Result<(Turn, Statistics), FindError>)
    ensures
        card_named(state.rules(), card@) is None ==> r matches Err(FindError::UnknownCard),
        card_named(state.rules(), card@) is Some && !searchable(state@) ==> r matches Err(
            FindError::OutOfRange,
        ),
        card_named(state.rules(), card@) matches Some(drawn) && searchable(state@) && !has_move(
            state.rules(),
            state@,
            card_of(state.rules(), drawn),
            on_ruin,
            false,
        ) ==> r matches Err(FindError::NoTurn),
        match r {
            Ok((turn, statistics)) => {
                &&& card_named(state.rules(), card@) matches Some(drawn)
                &&& searchable(state@)
                &&& explore_outcome(
                    state.rules(),
                    state@,
                    card_of(state.rules(), drawn),
                    on_ruin,
                    statistics.depth_reached as nat,
                    false,
                ) matches Some(found)
                &&& turn_is(turn, found.turn)
                &&& counts_passes(
                    state.rules(),
                    state@,
                    card_of(state.rules(), drawn),
                    on_ruin,
                    statistics,
                )
                &&& deadline.is_never() ==> counts_all_passes(
                    state.rules(),
                    state@,
                    card_of(state.rules(), drawn),
                    on_ruin,
                    statistics,
                )
            },
            Err(FindError::UnknownCard) => card_named(state.rules(), card@) is None,
            Err(FindError::OutOfRange) => card_named(state.rules(), card@) is Some && !searchable(
                state@,
            ),
            Err(FindError::NoTurn) => {
                &&& card_named(state.rules(), card@) matches Some(drawn)
                &&& searchable(state@)
                &&& exists|depth: nat|
                    (#[trigger] explore_outcome(
                        state.rules(),
                        state@,
                        card_of(state.rules(), drawn),
                        on_ruin,
                        depth,
                        false,
                    )) is None
            },
            Err(FindError::TimedOut) => {
                &&& !deadline.is_never()
                &&& card_named(state.rules(), card@) matches Some(drawn)
                &&& searchable(state@)
                &&& has_move(
                    state.rules(),
                    state@,
                    card_of(state.rules(), drawn),
                    on_ruin,
                    false,
                )
            },
        },
{
    let drawn = match state.find(card) {
        None => {
            return Err(FindError::UnknownCard);
        },
        Some(drawn) => drawn,
    };
    if !state.is_searchable() {
        return Err(FindError::OutOfRange);
    }
    let played = state.card(drawn);
    let mut statistics = Statistics { positions_evaluated: 0, depth_reached: 0, end_reached: false };
    let mut best: Option<Turn> = None;
    let mut reached: u32 = 0;
    let mut depth: u32 = 0;
    let ghost rules = state.rules();
    loop
        invariant_except_break
            depth == 0 ==> best is None && statistics == (Statistics {
                positions_evaluated: 0,
                depth_reached: 0,
                end_reached: false,
            }),
            depth > 0 ==> best is Some && reached == depth - 1 && statistics == after_passes(
                rules,
                state@,
                played@,
                on_ruin,
                reached as nat,
            ) && has_move(rules, state@, played@, on_ruin, false),
        invariant
            rules == state.rules(),
            searchable(state@),
            card_named(rules, card@) == Some(drawn),
            played@ == card_of(rules, drawn),
            statistics.depth_reached == 0,
            best matches Some(turn) ==> explore_outcome(
                rules,
                state@,
                played@,
                on_ruin,
                reached as nat,
                false,
            ) matches Some(found) && turn_is(turn, found.turn),
        ensures
            has_move(rules, state@, played@, on_ruin, false),
            best is None ==> !deadline.is_never(),
            best matches Some(turn) ==> explore_outcome(
                rules,
                state@,
                played@,
                on_ruin,
                reached as nat,
                false,
            ) matches Some(found) && turn_is(turn, found.turn) && grew(
                after_passes(rules, state@, played@, on_ruin, reached as nat),
                statistics,
            ),
            deadline.is_never() ==> best is Some && reached == u32::MAX && statistics
                == after_passes(rules, state@, played@, on_ruin, reached as nat),
        decreases u32::MAX - depth,
    {
        let pass = search_explore_move(
            state,
            played,
            on_ruin,
            depth,
            &mut statistics,
            deadline,
            false,
        );
        let raised = deadline.passed();
        proof {
            if pass is Ok {
                assert(statistics == after_passes(rules, state@, played@, on_ruin, depth as nat));
            }
        }
        match deepen(best, reached, depth, pass, raised) {
            Deepening::Fail => {
                assert(explore_outcome(
                    state.rules(),
                    state@,
                    card_of(state.rules(), drawn),
                    on_ruin,
                    depth as nat,
                    false,
                ) is None);
                return Err(FindError::NoTurn);
            },
            Deepening::Stop { best: turn, reached: at } => {
                best = turn;
                reached = at;
                break ;
            },
            Deepening::Go { best: turn, reached: at, depth: next } => {
                best = turn;
                reached = at;
                depth = next;
            },
        }
    }
    statistics.depth_reached = reached;
    match best {
        Some(turn) => Ok((turn, statistics)),
        None => Err(FindError::TimedOut),
    }
}

} // verus!
