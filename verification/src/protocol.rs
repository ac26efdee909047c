//! What the game server says, read from the values that its events carry.
use vstd::prelude::*;
use crate::game::{PlayerBoard, PlayerTerrain, Season};
use crate::json::Json;
use crate::mask::Mask;
use crate::scoring::Edict;
use crate::text::same_text;

verus! {

/// Why an event could not be read.
#[derive(Clone, Copy, PartialEq, Eq, Debug, Structural)]
pub enum ProtocolError {
    /// A value is missing or is of another kind than the event has it.
    Malformed,
    /// An edict is not one of the sixteen.
    UnknownDegree,
    /// A season is not one of the four.
    UnknownSeason,
    /// A cell holds what is no landscape.
    UnknownTerrain,
    /// The event is none that the game has.
    UnexpectedEvent,
    /// The server did not take the turn.
    TurnRejected,
}

/// The edict that the server calls `name`.
pub open spec fn degree_named(name: Seq<char>) -> Option<Edict> {
    if name == "wald1"@ {
        Some(Edict::StonesideForest)
    } else if name == "wald2"@ {
        Some(Edict::SentinelWood)
    } else if name == "wald3"@ {
        Some(Edict::Treetower)
    } else if name == "wald4"@ {
        Some(Edict::Greenbough)
    } else if name == "wasser1"@ {
        Some(Edict::MageValley)
    } else if name == "wasser2"@ {
        Some(Edict::CanalLake)
    } else if name == "wasser3"@ {
        Some(Edict::ShoresideExpanse)
    } else if name == "wasser4"@ {
        Some(Edict::TheGoldenGranary)
    } else if name == "dorf1"@ {
        Some(Edict::GreengoldPlains)
    } else if name == "dorf2"@ {
        Some(Edict::Shieldgate)
    } else if name == "dorf3"@ {
        Some(Edict::Wildholds)
    } else if name == "dorf4"@ {
        Some(Edict::GreatCity)
    } else if name == "distanz1"@ {
        Some(Edict::Borderlands)
    } else if name == "distanz2"@ {
        Some(Edict::TheCauldrons)
    } else if name == "distanz3"@ {
        Some(Edict::TheBrokenRoad)
    } else if name == "distanz4"@ {
        Some(Edict::LostBarony)
    } else {
        None
    }
}

/// The season that the server calls `name`.
pub open spec fn season_named(name: Seq<char>) -> Option<Season> {
    if name == "spring"@ {
        Some(Season::Spring)
    } else if name == "sommer"@ {
        Some(Season::Summer)
    } else if name == "autmn"@ {
        Some(Season::Fall)
    } else if name == "winter"@ {
        Some(Season::Winter)
    } else {
        None
    }
}

/// What the player has placed on a cell whose landscape the server calls
/// `name`: a terrain, or nothing where the cell is empty or holds what the
/// board came with.
pub open spec fn terrain_named(name: Seq<char>) -> Option<Option<PlayerTerrain>> {
    if name == "FOREST"@ {
        Some(Some(PlayerTerrain::Forest))
    } else if name == "VILLAGE"@ {
        Some(Some(PlayerTerrain::Village))
    } else if name == "FARM"@ {
        Some(Some(PlayerTerrain::Farm))
    } else if name == "WATER"@ {
        Some(Some(PlayerTerrain::Water))
    } else if name == "MONSTER"@ {
        Some(Some(PlayerTerrain::Monster))
    } else if name == "MOUNTAIN"@ || name == "WASTELAND"@ || name == "Ruin"@ || name == "EMPTY"@ {
        Some(None)
    } else {
        None
    }
}

/// The edict that `value` names in its field `card`.
pub open spec fn degree_of(value: Json) -> Result<Edict, ProtocolError> {
    match value.text_field("card"@) {
        None => Err(ProtocolError::Malformed),
        Some(name) => match degree_named(name) {
            Some(edict) => Ok(edict),
            None => Err(ProtocolError::UnknownDegree),
        },
    }
}

/// The season that `value` names in its field `name`.
pub open spec fn season_of(value: Json) -> Result<Season, ProtocolError> {
    match value.text_field("name"@) {
        None => Err(ProtocolError::Malformed),
        Some(name) => match season_named(name) {
            Some(season) => Ok(season),
            None => Err(ProtocolError::UnknownSeason),
        },
    }
}

/// What the player has placed on the cell `value`, named in its field
/// `landscape`.
pub open spec fn terrain_of(value: Json) -> Result<Option<PlayerTerrain>, ProtocolError> {
    match value.text_field("landscape"@) {
        None => Err(ProtocolError::Malformed),
        Some(name) => match terrain_named(name) {
            Some(terrain) => Ok(terrain),
            None => Err(ProtocolError::UnknownTerrain),
        },
    }
}

/// The name of the card `value`, from its field `name`.
pub open spec fn card_name_of(value: Json) -> Result<Seq<char>, ProtocolError> {
    match value.text_field("name"@) {
        None => Err(ProtocolError::Malformed),
        Some(name) => Ok(name),
    }
}

/// The first of the first `n` items that `read` cannot read, if there is one.
pub open spec fn first_error<T>(
    items: Seq<Json>,
    read: spec_fn(Json) -> Result<T, ProtocolError>,
    n: int,
) -> Option<ProtocolError>
    decreases n,
{
    if n <= 0 {
        None
    } else {
        match first_error(items, read, n - 1) {
            Some(e) => Some(e),
            None => match read(items[n - 1]) {
                Err(e) => Some(e),
                Ok(_) => None,
            },
        }
    }
}

/// The four edicts that the list `data` names.
pub open spec fn degrees_of(data: Json) -> Result<Seq<Edict>, ProtocolError> {
    match data.items() {
        None => Err(ProtocolError::Malformed),
        Some(items) => if items.len() < 4 {
            Err(ProtocolError::Malformed)
        } else {
            match first_error(items, |v: Json| degree_of(v), 4) {
                Some(e) => Err(e),
                None => Ok(Seq::new(4, |i: int| degree_of(items[i])->Ok_0)),
            }
        },
    }
}

/// The board that the list `value` of 121 cells shows: each terrain on the
/// cells whose landscape is that terrain.
pub open spec fn board_of(value: Json) -> Result<Map<PlayerTerrain, Set<int>>, ProtocolError> {
    match value.items() {
        None => Err(ProtocolError::Malformed),
        Some(items) => if items.len() < 121 {
            Err(ProtocolError::Malformed)
        } else {
            match first_error(items, |v: Json| terrain_of(v), 121) {
                Some(e) => Err(e),
                None => Ok(
                    Map::new(
                        |t: PlayerTerrain| true,
                        |t: PlayerTerrain|
                            Set::new(|i: int| 0 <= i < 121 && terrain_of(items[i]) == Ok::<
                                Option<PlayerTerrain>,
                                ProtocolError,
                            >(Some(t))),
                    ),
                ),
            }
        },
    }
}

/// The names of the cards that the list `value` holds.
pub open spec fn card_names_of(value: Json) -> Result<Seq<Seq<char>>, ProtocolError> {
    match value.items() {
        None => Err(ProtocolError::Malformed),
        Some(items) => match first_error(items, |v: Json| card_name_of(v), items.len() as int) {
            Some(e) => Err(e),
            None => Ok(Seq::new(items.len(), |i: int| card_name_of(items[i])->Ok_0)),
        },
    }
}

/// What an event says.
pub enum MessageView {
    NewDegrees(Seq<Edict>),
    NewSeason(Season),
    NewTurn { player_id: Seq<char>, board: Map<PlayerTerrain, Set<int>>, drawn_cards: Seq<Seq<char>> },
    FinalScoring(Json),
}

/// What the event `newTurn` says: who plays, the board, and the cards drawn
/// so far, the one to play last.
pub open spec fn turn_of(data: Json) -> Result<MessageView, ProtocolError> {
    match data.text_field("playerId"@) {
        None => Err(ProtocolError::Malformed),
        Some(player_id) => match data.field("fields"@) {
            None => Err(ProtocolError::Malformed),
            Some(fields) => match board_of(fields) {
                Err(e) => Err(e),
                Ok(board) => match data.field("usedCards"@) {
                    None => Err(ProtocolError::Malformed),
                    Some(used) => match card_names_of(used) {
                        Err(e) => Err(e),
                        Ok(names) => match data.field("exploreCard"@) {
                            None => Err(ProtocolError::Malformed),
                            Some(card) => match card_name_of(card) {
                                Err(e) => Err(e),
                                Ok(name) => Ok(
                                    MessageView::NewTurn {
                                        player_id,
                                        board,
                                        drawn_cards: names.push(name),
                                    },
                                ),
                            },
                        },
                    },
                },
            },
        },
    }
}

/// What the event called `event` says with `data`; nothing where the game
/// has no use for the event.
pub open spec fn parsed(event: Seq<char>, data: Json) -> Result<Option<MessageView>, ProtocolError> {
    if event == "newDegrees"@ {
        match degrees_of(data) {
            Ok(degrees) => Ok(Some(MessageView::NewDegrees(degrees))),
            Err(e) => Err(e),
        }
    } else if event == "newSeason"@ {
        match season_of(data) {
            Ok(season) => Ok(Some(MessageView::NewSeason(season))),
            Err(e) => Err(e),
        }
    } else if event == "newTurn"@ {
        match turn_of(data) {
            Ok(turn) => Ok(Some(turn)),
            Err(e) => Err(e),
        }
    } else if event == "receivedTurn"@ {
        match data {
            Json::Bool(true) => Ok(None),
            Json::Bool(false) => Err(ProtocolError::TurnRejected),
            _ => Err(ProtocolError::Malformed),
        }
    } else if event == "finalScoring"@ {
        Ok(Some(MessageView::FinalScoring(data)))
    } else if event == "playerJoinsOrLeaves"@ || event == "scoring"@ {
        Ok(None)
    } else {
        Err(ProtocolError::UnexpectedEvent)
    }
}

/// What the server says.
#[derive(Debug)]
pub enum Message {
    NewDegrees([Edict; 4]),
    NewSeason(Season),
    NewTurn { player_id: String, board: PlayerBoard, drawn_cards: Vec<String> },
    FinalScoring(Json),
}

/// The views of the strings.
pub open spec fn texts(list: Seq<String>) -> Seq<Seq<char>> {
    Seq::new(list.len(), |i: int| list[i]@)
}

impl View for Message {
    type V = MessageView;

    open spec fn view(&self) -> MessageView {
        match self {
            Message::NewDegrees(degrees) => MessageView::NewDegrees(degrees@),
            Message::NewSeason(season) => MessageView::NewSeason(*season),
            Message::NewTurn { player_id, board, drawn_cards } => MessageView::NewTurn {
                player_id: player_id@,
                board: board@,
                drawn_cards: texts(drawn_cards@),
            },
            Message::FinalScoring(value) => MessageView::FinalScoring(*value),
        }
    }
}

impl Message {
    /// Reads the event called `event` that carries `data`.
    pub fn parse(event: &str, data: Json) -> (r: Result<Option<Message>, ProtocolError>)
        ensures
            match r {
                Ok(Some(message)) => parsed(event@, data) == Ok::<Option<MessageView>, ProtocolError>(
                    Some(message@),
                ),
                Ok(None) => parsed(event@, data) == Ok::<Option<MessageView>, ProtocolError>(None),
                Err(e) => parsed(event@, data) == Err::<Option<MessageView>, ProtocolError>(e),
            },
    {
        if same_text(event, "newDegrees") {
            let items = match data.get_items() {
                Some(items) => items,
                None => {
                    return Err(ProtocolError::Malformed);
                },
            };
            if items.len() < 4 {
                return Err(ProtocolError::Malformed);
            }
            let first = match Self::parse_degree(&items[0]) {
                Ok(edict) => edict,
                Err(e) => {
                    proof {
                        reveal_with_fuel(first_error, 5);
                    }
                    return Err(e);
                },
            };
            let second = match Self::parse_degree(&items[1]) {
                Ok(edict) => edict,
                Err(e) => {
                    proof {
                        reveal_with_fuel(first_error, 5);
                    }
                    return Err(e);
                },
            };
            let third = match Self::parse_degree(&items[2]) {
                Ok(edict) => edict,
                Err(e) => {
                    proof {
                        reveal_with_fuel(first_error, 5);
                    }
                    return Err(e);
                },
            };
            let fourth = match Self::parse_degree(&items[3]) {
                Ok(edict) => edict,
                Err(e) => {
                    proof {
                        reveal_with_fuel(first_error, 5);
                    }
                    return Err(e);
                },
            };
            let degrees = [first, second, third, fourth];
            proof {
                reveal_with_fuel(first_error, 5);
                assert(degrees@ =~= Seq::new(4, |i: int| degree_of(items@[i])->Ok_0));
            }
            Ok(Some(Message::NewDegrees(degrees)))
        } else if same_text(event, "newSeason") {
            match Self::parse_season(&data) {
                Ok(season) => Ok(Some(Message::NewSeason(season))),
                Err(e) => Err(e),
            }
        } else if same_text(event, "newTurn") {
            let player_id = match data.get_text_field("playerId") {
                Some(id) => id.to_owned(),
                None => {
                    return Err(ProtocolError::Malformed);
                },
            };
            let board = match data.get_field("fields") {
                None => {
                    return Err(ProtocolError::Malformed);
                },
                Some(fields) => match Self::parse_board(fields) {
                    Ok(board) => board,
                    Err(e) => {
                        return Err(e);
                    },
                },
            };
            let mut drawn_cards = match data.get_field("usedCards") {
                None => {
                    return Err(ProtocolError::Malformed);
                },
                Some(used) => match Self::parse_cards(used) {
                    Ok(names) => names,
                    Err(e) => {
                        return Err(e);
                    },
                },
            };
            let ghost names = texts(drawn_cards@);
            let last = match data.get_field("exploreCard") {
                None => {
                    return Err(ProtocolError::Malformed);
                },
                Some(card) => match Self::parse_card(card) {
                    Ok(name) => name,
                    Err(e) => {
                        return Err(e);
                    },
                },
            };
            drawn_cards.push(last);
            assert(texts(drawn_cards@) =~= names.push(last@));
            Ok(Some(Message::NewTurn { player_id, board, drawn_cards }))
        } else if same_text(event, "receivedTurn") {
            match data {
                Json::Bool(true) => Ok(None),
                Json::Bool(false) => Err(ProtocolError::TurnRejected),
                _ => Err(ProtocolError::Malformed),
            }
        } else if same_text(event, "finalScoring") {
            Ok(Some(Message::FinalScoring(data)))
        } else if same_text(event, "playerJoinsOrLeaves") || same_text(event, "scoring") {
            Ok(None)
        } else {
            Err(ProtocolError::UnexpectedEvent)
        }
    }

    /// The edict that `value` names.
    pub fn parse_degree(value: &Json) -> (r: Result<Edict, ProtocolError>)
        ensures
            r == degree_of(*value),
    {
        let name = match value.get_text_field("card") {
            Some(name) => name,
            None => {
                return Err(ProtocolError::Malformed);
            },
        };
        if same_text(name, "wald1") {
            Ok(Edict::StonesideForest)
        } else if same_text(name, "wald2") {
            Ok(Edict::SentinelWood)
        } else if same_text(name, "wald3") {
            Ok(Edict::Treetower)
        } else if same_text(name, "wald4") {
            Ok(Edict::Greenbough)
        } else if same_text(name, "wasser1") {
            Ok(Edict::MageValley)
        } else if same_text(name, "wasser2") {
            Ok(Edict::CanalLake)
        } else if same_text(name, "wasser3") {
            Ok(Edict::ShoresideExpanse)
        } else if same_text(name, "wasser4") {
            Ok(Edict::TheGoldenGranary)
        } else if same_text(name, "dorf1") {
            Ok(Edict::GreengoldPlains)
        } else if same_text(name, "dorf2") {
            Ok(Edict::Shieldgate)
        } else if same_text(name, "dorf3") {
            Ok(Edict::Wildholds)
        } else if same_text(name, "dorf4") {
            Ok(Edict::GreatCity)
        } else if same_text(name, "distanz1") {
            Ok(Edict::Borderlands)
        } else if same_text(name, "distanz2") {
            Ok(Edict::TheCauldrons)
        } else if same_text(name, "distanz3") {
            Ok(Edict::TheBrokenRoad)
        } else if same_text(name, "distanz4") {
            Ok(Edict::LostBarony)
        } else {
            Err(ProtocolError::UnknownDegree)
        }
    }

    /// The season that `value` names.
    pub fn parse_season(value: &Json) -> (r: Result<Season, ProtocolError>)
        ensures
            r == season_of(*value),
    {
        let name = match value.get_text_field("name") {
            Some(name) => name,
            None => {
                return Err(ProtocolError::Malformed);
            },
        };
        if same_text(name, "spring") {
            Ok(Season::Spring)
        } else if same_text(name, "sommer") {
            Ok(Season::Summer)
        } else if same_text(name, "autmn") {
            Ok(Season::Fall)
        } else if same_text(name, "winter") {
            Ok(Season::Winter)
        } else {
            Err(ProtocolError::UnknownSeason)
        }
    }

    /// What the player has placed on the cell `value`.
    fn parse_terrain(value: &Json) -> (r: Result<Option<PlayerTerrain>, ProtocolError>)
        ensures
            r == terrain_of(*value),
    {
        let name = match value.get_text_field("landscape") {
            Some(name) => name,
            None => {
                return Err(ProtocolError::Malformed);
            },
        };
        if same_text(name, "FOREST") {
            Ok(Some(PlayerTerrain::Forest))
        } else if same_text(name, "VILLAGE") {
            Ok(Some(PlayerTerrain::Village))
        } else if same_text(name, "FARM") {
            Ok(Some(PlayerTerrain::Farm))
        } else if same_text(name, "WATER") {
            Ok(Some(PlayerTerrain::Water))
        } else if same_text(name, "MONSTER") {
            Ok(Some(PlayerTerrain::Monster))
        } else if same_text(name, "MOUNTAIN") || same_text(name, "WASTELAND") || same_text(
            name,
            "Ruin",
        ) || same_text(name, "EMPTY") {
            Ok(None)
        } else {
            Err(ProtocolError::UnknownTerrain)
        }
    }

    /// The board that the list `value` of cells shows.
    pub fn parse_board(value: &Json) -> (r: Result<PlayerBoard, ProtocolError>)
        ensures
            match r {
                Ok(board) => board_of(*value) == Ok::<Map<PlayerTerrain, Set<int>>, ProtocolError>(
                    board@,
                ),
                Err(e) => board_of(*value) == Err::<Map<PlayerTerrain, Set<int>>, ProtocolError>(e),
            },
    {
        let cells = match value.get_items() {
            Some(cells) => cells,
            None => {
                return Err(ProtocolError::Malformed);
            },
        };
        if cells.len() < 121 {
            return Err(ProtocolError::Malformed);
        }
        let ghost read = |v: Json| terrain_of(v);
        let mut board = PlayerBoard::new();
        let mut i: u8 = 0;
        proof {
            board.lemma_is_placement();}
        while i < 121
            invariant
                i <= 121,
                value.items() == Some(cells@),
                cells@.len() >= 121,
                read == |v: Json| terrain_of(v),
                first_error(cells@, read, i as int) is None,
                forall|t: PlayerTerrain| #[trigger]
                    board@.dom().contains(t) && board@[t] == Set::new(
                        |k: int|
                            0 <= k < i && terrain_of(cells@[k]) == Ok::<
                                Option<PlayerTerrain>,
                                ProtocolError,
                            >(Some(t)),
                    ),
            decreases 121 - i,
        {
            let ghost before = board@;
            match Self::parse_terrain(&cells[i as usize]) {
                Ok(Some(terrain)) => {
                    board = board.place_cells(terrain, Mask::cell_idx(i));
                },
                Ok(None) => {},
                Err(e) => {
                    proof {
                        lemma_first_error_stays(cells@, read, i + 1, 121);
                    }
                    return Err(e);
                },
            }
            proof {
                board.lemma_is_placement();
                assert forall|t: PlayerTerrain| #[trigger]
                    board@.dom().contains(t) && board@[t] == Set::new(
                        |k: int|
                            0 <= k < i + 1 && terrain_of(cells@[k]) == Ok::<
                                Option<PlayerTerrain>,
                                ProtocolError,
                            >(Some(t)),
                    ) by {
                    assert(before.dom().contains(t));
                }
            }
            i += 1;
        }
        proof {
            assert(board@ =~= board_of(*value)->Ok_0);
        }
        Ok(board)
    }

    /// The names of the cards that the list `value` holds.
    pub fn parse_cards(value: &Json) -> (r: Result<Vec<String>, ProtocolError>)
        ensures
            match r {
                Ok(names) => card_names_of(*value) == Ok::<Seq<Seq<char>>, ProtocolError>(
                    texts(names@),
                ),
                Err(e) => card_names_of(*value) == Err::<Seq<Seq<char>>, ProtocolError>(e),
            },
    {
        let used = match value.get_items() {
            Some(items) => items,
            None => {
                return Err(ProtocolError::Malformed);
            },
        };
        let ghost read = |v: Json| card_name_of(v);
        let mut names: Vec<String> = Vec::new();
        let mut i: usize = 0;
        while i < used.len()
            invariant
                i <= used.len(),
                value.items() == Some(used@),
                read == |v: Json| card_name_of(v),
                first_error(used@, read, i as int) is None,
                names@.len() == i,
                forall|k: int|
                    0 <= k < i ==> card_name_of(used@[k]) == Ok::<Seq<char>, ProtocolError>(
                        (#[trigger] names@[k])@,
                    ),
            decreases used.len() - i,
        {
            match Self::parse_card(&used[i]) {
                Ok(name) => {
                    names.push(name);
                },
                Err(e) => {
                    proof {
                        lemma_first_error_stays(used@, read, i + 1, used@.len() as int);
                    }
                    return Err(e);
                },
            }
            i += 1;
        }
        assert(texts(names@) =~= Seq::new(used@.len(), |i: int| card_name_of(used@[i])->Ok_0));
        Ok(names)
    }

    /// The name of the card `value`.
    pub fn parse_card(value: &Json) -> (r: Result<String, ProtocolError>)
        ensures
            match r {
                Ok(name) => card_name_of(*value) == Ok::<Seq<char>, ProtocolError>(name@),
                Err(e) => card_name_of(*value) == Err::<Seq<char>, ProtocolError>(e),
            },
    {
        match value.get_text_field("name") {
            Some(name) => Ok(name.to_owned()),
            None => Err(ProtocolError::Malformed),
        }
    }
}

/// An item that cannot be read stays the first such item when more items are
/// looked at.
proof fn lemma_first_error_stays<T>(
    items: Seq<Json>,
    read: spec_fn(Json) -> Result<T, ProtocolError>,
    n: int,
    m: int,
)
    requires
        0 <= n <= m,
        first_error(items, read, n) is Some,
    ensures
        first_error(items, read, m) == first_error(items, read, n),
    decreases m - n,
{
    if n < m {
        lemma_first_error_stays(items, read, n, m - 1);
    }
}

} // verus!
