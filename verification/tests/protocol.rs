use cartographers::driver::{begin_turn, decimal_text, finish_turn, terrain_text};
use cartographers::game::{PlayerTerrain, Season};
use cartographers::json::Json;
use cartographers::mask::Mask;
use cartographers::protocol::{Message, ProtocolError};
use cartographers::scoring::Edict;
use cartographers::search::{GameState, InitialState, RevealError, Turn};
use cartographers::socketio::{
    engineio_packet, event_message, event_of, event_payload, json_event_message, read_message,
    socketio_frame, socketio_step, EngineIOPacket, Incoming, PacketError, SocketIOPacket, Step,
};

fn text(s: &str) -> Json {
    Json::Text(s.to_string())
}

fn object(fields: &[(&str, Json)]) -> Json {
    let mut out = Vec::new();
    for (k, v) in fields {
        out.push((k.to_string(), copy(v)));
    }
    Json::Object(out)
}

fn copy(v: &Json) -> Json {
    Json::parse(&v.to_text()).unwrap()
}

fn named(key: &str, name: &str) -> Json {
    object(&[(key, text(name))])
}

fn cells(landscape: &dyn Fn(usize) -> &'static str) -> Json {
    Json::List((0..121).map(|i| named("landscape", landscape(i))).collect())
}

fn turn(board: Json, used: &[&str], card: &str) -> Json {
    object(&[
        ("playerId", text("p1")),
        ("fields", board),
        ("usedCards", Json::List(used.iter().map(|c| named("name", c)).collect())),
        ("exploreCard", named("name", card)),
    ])
}

#[test]
fn json_is_read_and_written_by_serde() {
    let value = Json::parse(r#"{"b": [1, 2.5, "x", null, true], "a": {"k": "v"}}"#).unwrap();
    assert_eq!(value.to_text(), r#"{"a":{"k":"v"},"b":[1,2.5,"x",null,true]}"#);
    assert!(Json::parse("{").is_none());
    assert!(Json::parse("").is_none());
    assert_eq!(value.get_field("a").unwrap().get_text_field("k"), Some("v"));
    assert!(value.get_field("c").is_none());
    assert_eq!(value.get_field("b").unwrap().get_items().unwrap().len(), 5);
    assert!(value.get_text().is_none());
    assert_eq!(text("q\"uote").to_text(), r#""q\"uote""#);
}

#[test]
fn the_four_edicts_are_read_by_their_names() {
    let names = [
        ("wald1", Edict::StonesideForest),
        ("wald2", Edict::SentinelWood),
        ("wald3", Edict::Treetower),
        ("wald4", Edict::Greenbough),
        ("wasser1", Edict::MageValley),
        ("wasser2", Edict::CanalLake),
        ("wasser3", Edict::ShoresideExpanse),
        ("wasser4", Edict::TheGoldenGranary),
        ("dorf1", Edict::GreengoldPlains),
        ("dorf2", Edict::Shieldgate),
        ("dorf3", Edict::Wildholds),
        ("dorf4", Edict::GreatCity),
        ("distanz1", Edict::Borderlands),
        ("distanz2", Edict::TheCauldrons),
        ("distanz3", Edict::TheBrokenRoad),
        ("distanz4", Edict::LostBarony),
    ];
    for (name, edict) in names {
        assert_eq!(Message::parse_degree(&named("card", name)), Ok(edict));
    }
    assert_eq!(Message::parse_degree(&named("card", "wald5")), Err(ProtocolError::UnknownDegree));
    assert_eq!(Message::parse_degree(&named("name", "wald1")), Err(ProtocolError::Malformed));
    let data = Json::List(vec![
        named("card", "wald2"),
        named("card", "wasser2"),
        named("card", "dorf3"),
        named("card", "distanz1"),
    ]);
    match Message::parse("newDegrees", data) {
        Ok(Some(Message::NewDegrees(degrees))) => assert_eq!(
            degrees,
            [Edict::SentinelWood, Edict::CanalLake, Edict::Wildholds, Edict::Borderlands]
        ),
        other => panic!("{:?}", other),
    }
    let short = Json::List(vec![named("card", "wald2")]);
    assert!(matches!(Message::parse("newDegrees", short), Err(ProtocolError::Malformed)));
    let wrong = Json::List(vec![
        named("card", "wald2"),
        named("card", "nope"),
        Json::Null,
        named("card", "distanz1"),
    ]);
    assert!(matches!(Message::parse("newDegrees", wrong), Err(ProtocolError::UnknownDegree)));
}

#[test]
fn seasons_are_read_by_their_names() {
    for (name, season) in [
        ("spring", Season::Spring),
        ("sommer", Season::Summer),
        ("autmn", Season::Fall),
        ("winter", Season::Winter),
    ] {
        assert!(matches!(
            Message::parse("newSeason", named("name", name)),
            Ok(Some(Message::NewSeason(s))) if s == season
        ));
    }
    assert!(matches!(
        Message::parse("newSeason", named("name", "autumn")),
        Err(ProtocolError::UnknownSeason)
    ));
    assert!(matches!(Message::parse("newSeason", Json::Null), Err(ProtocolError::Malformed)));
}

#[test]
fn a_turn_is_read_with_its_board_and_cards() {
    let board = cells(&|i| match i {
        0 => "FOREST",
        1 => "VILLAGE",
        2 => "FARM",
        3 => "WATER",
        4 => "MONSTER",
        14 => "MOUNTAIN",
        16 => "Ruin",
        20 => "WASTELAND",
        120 => "FOREST",
        _ => "EMPTY",
    });
    match Message::parse("newTurn", turn(board, &["weiler", "tempelruinen"], "sumpf")) {
        Ok(Some(Message::NewTurn { player_id, board, drawn_cards })) => {
            assert_eq!(player_id, "p1");
            assert_eq!(drawn_cards, vec!["weiler", "tempelruinen", "sumpf"]);
            assert_eq!(board.get_cells(PlayerTerrain::Forest), Mask::cell_idx(0) | Mask::cell_idx(120));
            assert_eq!(board.get_cells(PlayerTerrain::Village), Mask::cell_idx(1));
            assert_eq!(board.get_cells(PlayerTerrain::Farm), Mask::cell_idx(2));
            assert_eq!(board.get_cells(PlayerTerrain::Water), Mask::cell_idx(3));
            assert_eq!(board.get_cells(PlayerTerrain::Monster), Mask::cell_idx(4));
        }
        other => panic!("{:?}", other),
    }
    let bad = cells(&|i| if i == 7 { "LAVA" } else { "EMPTY" });
    assert!(matches!(
        Message::parse("newTurn", turn(bad, &[], "sumpf")),
        Err(ProtocolError::UnknownTerrain)
    ));
    let short = Json::List((0..120).map(|_| named("landscape", "EMPTY")).collect());
    assert!(matches!(
        Message::parse("newTurn", turn(short, &[], "sumpf")),
        Err(ProtocolError::Malformed)
    ));
}

#[test]
fn other_events() {
    assert!(matches!(Message::parse("receivedTurn", Json::Bool(true)), Ok(None)));
    assert!(matches!(
        Message::parse("receivedTurn", Json::Bool(false)),
        Err(ProtocolError::TurnRejected)
    ));
    assert!(matches!(Message::parse("receivedTurn", Json::Null), Err(ProtocolError::Malformed)));
    assert!(matches!(Message::parse("playerJoinsOrLeaves", Json::Null), Ok(None)));
    assert!(matches!(Message::parse("scoring", text("x")), Ok(None)));
    assert!(matches!(
        Message::parse("finalScoring", text("won")),
        Ok(Some(Message::FinalScoring(Json::Text(s)))) if s == "won"
    ));
    assert!(matches!(Message::parse("hello", Json::Null), Err(ProtocolError::UnexpectedEvent)));
}

#[test]
fn packets_are_a_type_and_what_they_carry() {
    let packet = engineio_packet("42[\"a\"]").unwrap();
    assert_eq!(packet.0, '4');
    assert_eq!(packet.1, "2[\"a\"]");
    assert_eq!(engineio_packet("").err(), Some(PacketError::EmptyEngineIO));
    assert!(matches!(socketio_step(EngineIOPacket('2', String::new())), Step::Pong));
    assert!(matches!(socketio_step(EngineIOPacket('6', String::new())), Step::Skip));
    assert!(matches!(
        socketio_step(EngineIOPacket('4', "0{}".to_string())),
        Step::Deliver(SocketIOPacket('0', rest)) if rest == "{}"
    ));
    assert!(matches!(
        socketio_step(EngineIOPacket('4', String::new())),
        Step::Fail(PacketError::EmptySocketIO)
    ));
    assert!(matches!(
        socketio_step(EngineIOPacket('1', String::new())),
        Step::Fail(PacketError::UnexpectedEngineIO('1'))
    ));
    assert_eq!(event_payload(SocketIOPacket('2', "[]".to_string())), Ok("[]".to_string()));
    assert_eq!(
        event_payload(SocketIOPacket('0', "[]".to_string())),
        Err(PacketError::UnexpectedSocketIO('0'))
    );
    assert_eq!(socketio_frame("0"), "40");
}

#[test]
fn events_are_read_from_messages() {
    assert!(matches!(read_message("2"), Incoming::Pong));
    assert!(matches!(read_message("6"), Incoming::Skip));
    assert!(matches!(read_message(""), Incoming::Fail(PacketError::EmptyEngineIO)));
    assert!(matches!(read_message("0{}"), Incoming::Fail(PacketError::UnexpectedEngineIO('0'))));
    assert!(matches!(read_message("4"), Incoming::Fail(PacketError::EmptySocketIO)));
    assert!(matches!(read_message("40"), Incoming::Fail(PacketError::UnexpectedSocketIO('0'))));
    assert!(matches!(read_message("42[\"a\""), Incoming::Fail(PacketError::BadJson)));
    assert!(matches!(read_message("42{}"), Incoming::Fail(PacketError::BadPayload)));
    assert!(matches!(read_message("42[]"), Incoming::Fail(PacketError::BadPayload)));
    assert!(matches!(read_message("42[1]"), Incoming::Fail(PacketError::BadPayload)));
    match read_message(r#"42["newSeason",{"name":"sommer"}]"#) {
        Incoming::Event(event, Some(data)) => {
            assert_eq!(event, "newSeason");
            assert!(matches!(
                Message::parse(&event, data),
                Ok(Some(Message::NewSeason(Season::Summer)))
            ));
        }
        other => panic!("{:?}", other),
    }
    assert!(matches!(read_message(r#"42["ping"]"#), Incoming::Event(e, None) if e == "ping"));
    assert!(matches!(
        event_of(Json::List(vec![text("a"), Json::Null, Json::Bool(true)])),
        Ok((e, Some(Json::Null))) if e == "a"
    ));
    assert_eq!(event_of(Json::Null).err(), Some(PacketError::BadPayload));
}

#[test]
fn events_are_written_as_messages() {
    assert_eq!(event_message("enterGame", "Bot"), r#"42["enterGame","Bot"]"#);
    assert_eq!(event_message("startGame", ""), r#"42["startGame",""]"#);
    let data = object(&[("playerId", text("p"))]);
    assert_eq!(
        json_event_message("finishTurn", &data),
        r#"42["finishTurn","{\"playerId\":\"p\"}"]"#
    );
}

#[test]
fn a_turn_is_told_cell_by_cell() {
    assert_eq!(decimal_text(0), "0");
    assert_eq!(decimal_text(9), "9");
    assert_eq!(decimal_text(10), "10");
    assert_eq!(decimal_text(99), "99");
    assert_eq!(decimal_text(100), "100");
    assert_eq!(decimal_text(120), "120");
    assert_eq!(decimal_text(255), "255");
    assert_eq!(terrain_text(PlayerTerrain::Forest), "FOREST");
    assert_eq!(terrain_text(PlayerTerrain::Village), "VILLAGE");
    assert_eq!(terrain_text(PlayerTerrain::Farm), "FARM");
    assert_eq!(terrain_text(PlayerTerrain::Water), "WATER");
    assert_eq!(terrain_text(PlayerTerrain::Monster), "MONSTER");
    let turn = Turn {
        terrain: PlayerTerrain::Water,
        cells: Mask::cell_idx(5) | Mask::cell_idx(16) | Mask::cell_idx(120),
    };
    let payload = finish_turn("p1", &turn);
    assert_eq!(
        payload.to_text(),
        r#"{"fields":{"120":"WATER","16":"WATER","5":"WATER"},"playerId":"p1"}"#
    );
    match payload.get_field("fields") {
        Some(Json::Object(fields)) => {
            let names: Vec<&str> = fields.iter().map(|f| f.0.as_str()).collect();
            assert_eq!(names, vec!["5", "16", "120"]);
        }
        other => panic!("{:?}", other),
    }
}

#[test]
fn a_turn_starts_with_the_cards_that_were_revealed() {
    let initial = InitialState::new([
        Edict::SentinelWood,
        Edict::CanalLake,
        Edict::Wildholds,
        Edict::Borderlands,
    ]);
    let mut state = GameState::new(&initial);
    state.new_season(Season::Spring);
    let board = cartographers::game::PlayerBoard::new();
    let cards: Vec<String> =
        ["weiler", "tempelruinen", "sumpf"].iter().map(|s| s.to_string()).collect();
    let plan = begin_turn(&mut state, board, &cards, 0).unwrap();
    assert!(plan.on_ruin);
    assert!(!plan.is_ambush);
    assert_eq!(plan.card_counter, 3);
    assert_eq!(state.deck().draw_cards().len(), 9 + 8);
    // an ambush: the cards are not counted as dealt with
    let cards: Vec<String> = ["weiler", "tempelruinen", "sumpf", "gnollangriff"]
        .iter()
        .map(|s| s.to_string())
        .collect();
    let plan = begin_turn(&mut state, board, &cards, 3).unwrap();
    assert!(!plan.on_ruin);
    assert!(plan.is_ambush);
    assert_eq!(plan.card_counter, 3);
    assert_eq!(state.deck().monsters_in_deck(), 0);
    // the same cards again: no monster is left in the pile
    let before = state.deck().draw_cards().len();
    assert_eq!(begin_turn(&mut state, board, &cards, 3).err(), Some(RevealError::NoMonsterInDeck));
    assert_eq!(state.deck().draw_cards().len(), before);
    let cards: Vec<String> = vec!["nothing".to_string()];
    assert_eq!(begin_turn(&mut state, board, &cards, 0).err(), Some(RevealError::UnknownCard));
    assert!(begin_turn(&mut state, board, &cards, 1).is_ok());
}
