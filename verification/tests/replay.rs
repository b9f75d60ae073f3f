use map18xx::board::{Location, Orientation};
use map18xx::defs::{Tile, TileDefinition};
use map18xx::engine::{
    Action, Company, EngineError, Game, Home, Log, Manifest, PlacedTile, Token, TopTile,
    top_tiles,
};
use map18xx::maps::{GameMap, MapTile};
use map18xx::table::NameMap;
use map18xx::tiles::{City, Coordinate};

/// A definition with one city of the given capacity.
fn definition_with_city(name: &str, circles: u32) -> TileDefinition {
    let city = City::new(
        circles,
        "rev".to_string(),
        Coordinate::Named("C".to_string()),
        Coordinate::Named("C".to_string()),
    )
    .expect("valid circle count");
    let mut def = TileDefinition::default();
    def.set_name(name.to_string());
    def.cities.push(city);
    def
}

/// A manifest tile named by its number and bound to a definition.
fn manifest_tile(number: &str, def: &TileDefinition) -> Tile {
    let mut tile = Tile::default();
    tile.set_name(number.to_string());
    tile.set_definition(def);
    tile
}

/// A base map placement bound to a definition.
fn map_tile(label: &str, def: &TileDefinition) -> MapTile {
    let mut t = MapTile {
        location: Location::Named(label.to_string()),
        tile: MapTile::default_tile(),
        color: None,
        orientation: None,
        text: Vec::new(),
        arrows: Vec::new(),
        revenue: None,
        terrain: None,
        definition: None,
    };
    t.set_definition(def);
    t
}

fn company(name: &str, home: Option<Home>) -> Company {
    Company { name: name.to_string(), color: "blue".to_string(), home }
}

fn lay(label: &str, tile: &str, orientation: &str) -> Action {
    Action::TileLay {
        location: Location::Named(label.to_string()),
        tile: tile.to_string(),
        orientation: orientation.to_string(),
    }
}

fn token(label: &str, company: &str, city: Option<u32>) -> Action {
    Action::Token {
        location: Location::Named(label.to_string()),
        company: company.to_string(),
        city,
    }
}

fn game_with(
    manifest: Manifest,
    raw_tiles: Vec<MapTile>,
    companies: Vec<Company>,
    actions: Vec<Action>,
) -> Game {
    let mut game = Game::new();
    game.manifest = manifest;
    game.map = GameMap {
        orientation: Orientation::Horizontal,
        width: 8,
        height: 8,
        raw_tiles,
        barriers: Vec::new(),
    };
    game.companies = companies;
    let mut log = Log::new();
    log.log = actions;
    game.set_log(log)
}

#[test]
fn home_token_converts_in_place() {
    // A company homed at B4 station 0; one token action there converts the
    // home marker instead of adding a second token.
    let game = game_with(
        Manifest::default(),
        Vec::new(),
        vec![company("C", Some(Home::PositionOnly(Location::Named("B4".to_string()))))],
        vec![token("B4", "C", Some(0))],
    );
    let (tokens, warnings) = game.tokens().expect("replay succeeds");
    assert_eq!(warnings.len(), 0);
    let at_b4 = tokens.get(1, 1).expect("a token stands at B4");
    assert_eq!(at_b4.len(), 1);
    assert_eq!(at_b4[0].name, "C");
    assert_eq!(at_b4[0].station, 0);
    assert!(!at_b4[0].is_home);
}

#[test]
fn seeded_home_tokens_start_unconverted() {
    let game = game_with(
        Manifest::default(),
        Vec::new(),
        vec![company("C", Some(Home::PositionStation(Location::Named("B4".to_string()), 1)))],
        Vec::new(),
    );
    let (tokens, _) = game.tokens().expect("replay succeeds");
    let at_b4 = tokens.get(1, 1).expect("the home marker stands at B4");
    assert_eq!(at_b4.len(), 1);
    assert!(at_b4[0].is_home);
    assert_eq!(at_b4[0].station, 1);
    assert_eq!(at_b4[0].circle, 0);
}

#[test]
fn full_station_skips_the_placement_with_a_warning() {
    // One circle at B4; the second placement is rejected but not fatal.
    let def = definition_with_city("plain", 1);
    let game = game_with(
        Manifest::default(),
        vec![map_tile("B4", &def)],
        vec![company("A", None), company("B", None)],
        vec![token("B4", "A", None), token("B4", "B", Some(0))],
    );
    let (tokens, warnings) = game.tokens().expect("replay succeeds");
    let at_b4 = tokens.get(1, 1).expect("one token stands at B4");
    assert_eq!(at_b4.len(), 1);
    assert_eq!(at_b4[0].name, "A");
    assert_eq!(at_b4[0].circle, 0);
    assert_eq!(warnings.len(), 1);
    assert_eq!(warnings[0].company, "B");
    assert_eq!(warnings[0].location, (1, 1));
    assert_eq!(warnings[0].station, 0);
}

#[test]
fn tokens_never_exceed_station_capacity() {
    let def = definition_with_city("plain", 2);
    let game = game_with(
        Manifest::default(),
        vec![map_tile("B4", &def)],
        vec![company("A", None), company("B", None), company("C", None)],
        vec![
            token("B4", "A", None),
            token("B4", "B", None),
            token("B4", "C", None),
        ],
    );
    let (tokens, warnings) = game.tokens().expect("replay succeeds");
    let at_b4 = tokens.get(1, 1).expect("tokens stand at B4");
    assert_eq!(at_b4.len(), 2);
    assert_eq!(warnings.len(), 1);
}

#[test]
fn removal_repacks_circle_indices() {
    // Tokens A, B, C fill circles 0, 1, 2; removing B shifts C down to 1.
    let def = definition_with_city("plain", 3);
    let game = game_with(
        Manifest::default(),
        vec![map_tile("B4", &def)],
        vec![company("A", None), company("B", None), company("C", None)],
        vec![
            token("B4", "A", None),
            token("B4", "B", None),
            token("B4", "C", None),
            Action::RemoveCompany { company: "B".to_string() },
        ],
    );
    let (tokens, warnings) = game.tokens().expect("replay succeeds");
    assert_eq!(warnings.len(), 0);
    let at_b4 = tokens.get(1, 1).expect("tokens stand at B4");
    assert_eq!(at_b4.len(), 2);
    assert_eq!(at_b4[0].name, "A");
    assert_eq!(at_b4[0].circle, 0);
    assert_eq!(at_b4[1].name, "C");
    assert_eq!(at_b4[1].circle, 1);
}

#[test]
fn token_on_an_empty_hex_is_fatal() {
    let game = game_with(
        Manifest::default(),
        Vec::new(),
        vec![company("A", None)],
        vec![token("B4", "A", None)],
    );
    match game.tokens() {
        Err(EngineError::NoTileAt(1, 1)) => {}
        other => panic!("expected NoTileAt, got {:?}", other.map(|_| ())),
    }
}

#[test]
fn token_at_a_missing_station_is_fatal() {
    let def = definition_with_city("plain", 1);
    let game = game_with(
        Manifest::default(),
        vec![map_tile("B4", &def)],
        vec![company("A", None)],
        vec![token("B4", "A", Some(5))],
    );
    match game.tokens() {
        Err(EngineError::NoSuchStation(1, 1, 5)) => {}
        other => panic!("expected NoSuchStation, got {:?}", other.map(|_| ())),
    }
}

#[test]
fn token_of_an_unknown_company_is_fatal() {
    let def = definition_with_city("plain", 1);
    let game = game_with(
        Manifest::default(),
        vec![map_tile("B4", &def)],
        Vec::new(),
        vec![token("B4", "A", None)],
    );
    match game.tokens() {
        Err(EngineError::UnknownCompany(name)) => assert_eq!(name, "A"),
        other => panic!("expected UnknownCompany, got {:?}", other.map(|_| ())),
    }
}

#[test]
fn later_lays_supersede_earlier_ones() {
    let def = definition_with_city("base", 1);
    let manifest = Manifest {
        tiles: vec![manifest_tile("7", &def), manifest_tile("9", &def)],
        amounts: NameMap::new(),
    };
    let game = game_with(
        manifest,
        Vec::new(),
        Vec::new(),
        vec![lay("B4", "7", "N"), lay("B4", "9", "SE")],
    );
    let placed = game.placed_tiles().expect("replay succeeds");
    assert_eq!(placed.len(), 1);
    let tile = placed.get(1, 1).expect("a tile lies at B4");
    assert_eq!(tile.tile_index, 1);
    assert_eq!(tile.orientation, 120);
}

#[test]
fn laying_an_unknown_tile_is_fatal() {
    let game = game_with(Manifest::default(), Vec::new(), Vec::new(), vec![lay("B4", "7", "N")]);
    match game.placed_tiles() {
        Err(EngineError::UnknownTile(name)) => assert_eq!(name, "7"),
        other => panic!("expected UnknownTile, got {:?}", other.map(|_| ())),
    }
}

#[test]
fn laying_with_a_bad_rotation_is_fatal() {
    let def = definition_with_city("base", 1);
    let manifest =
        Manifest { tiles: vec![manifest_tile("7", &def)], amounts: NameMap::new() };
    let game = game_with(manifest, Vec::new(), Vec::new(), vec![lay("B4", "7", "C")]);
    match game.placed_tiles() {
        Err(EngineError::InvalidDirection(code)) => assert_eq!(code, "C"),
        other => panic!("expected InvalidDirection, got {:?}", other.map(|_| ())),
    }
}

#[test]
fn capacity_reads_the_replay_resolved_tile() {
    // The base tile at B4 has one circle, but the log upgrades it to a
    // two-circle tile before the second token arrives.
    let small = definition_with_city("small", 1);
    let big = definition_with_city("big", 2);
    let manifest =
        Manifest { tiles: vec![manifest_tile("63", &big)], amounts: NameMap::new() };
    let game = game_with(
        manifest,
        vec![map_tile("B4", &small)],
        vec![company("A", None), company("B", None)],
        vec![
            token("B4", "A", None),
            lay("B4", "63", "N"),
            token("B4", "B", None),
        ],
    );
    let (tokens, warnings) = game.tokens().expect("replay succeeds");
    assert_eq!(warnings.len(), 0);
    let at_b4 = tokens.get(1, 1).expect("tokens stand at B4");
    assert_eq!(at_b4.len(), 2);
}

#[test]
fn replaying_twice_gives_identical_results() {
    let def = definition_with_city("base", 2);
    let mut amounts = NameMap::new();
    amounts.insert("7".to_string(), 4);
    let manifest = Manifest { tiles: vec![manifest_tile("7", &def)], amounts };
    let game = game_with(
        manifest,
        vec![map_tile("B4", &def)],
        vec![company("A", Some(Home::PositionOnly(Location::Named("B4".to_string()))))],
        vec![lay("B2", "7", "N"), token("B4", "A", None)],
    );
    let (t1, w1) = game.tokens().expect("first replay");
    let (t2, w2) = game.tokens().expect("second replay");
    assert_eq!(t1.len(), t2.len());
    assert_eq!(w1.len(), w2.len());
    let l1 = t1.get(1, 1).expect("tokens at B4");
    let l2 = t2.get(1, 1).expect("tokens at B4");
    assert_eq!(l1.len(), l2.len());
    for (a, b) in l1.iter().zip(l2.iter()) {
        assert_eq!(a.name, b.name);
        assert_eq!(a.circle, b.circle);
        assert_eq!(a.station, b.station);
        assert_eq!(a.is_home, b.is_home);
    }
    let p1 = game.placed_tiles().expect("first replay");
    let p2 = game.placed_tiles().expect("second replay");
    assert_eq!(p1.len(), p2.len());
    assert_eq!(p1.get(1, 0).copied(), p2.get(1, 0).copied());
    let a1 = game.manifest.amounts(&game.log).expect("first walk");
    let a2 = game.manifest.amounts(&game.log).expect("second walk");
    assert_eq!(a1.get("7"), a2.get("7"));
}

#[test]
fn remaining_amounts_subtract_the_copies_in_play() {
    // Four copies of tile 57; laying it at two distinct hexes leaves two.
    let mut amounts = NameMap::new();
    amounts.insert("57".to_string(), 4);
    let manifest = Manifest { tiles: Vec::new(), amounts };
    let log = {
        let mut log = Log::new();
        log.log = vec![lay("B2", "57", "N"), lay("D2", "57", "N")];
        Some(log)
    };
    let remaining = manifest.amounts(&log).expect("accounting succeeds");
    assert_eq!(remaining.get("57"), Some(2));
}

#[test]
fn an_overwritten_lay_returns_its_tile_to_supply() {
    let mut amounts = NameMap::new();
    amounts.insert("57".to_string(), 4);
    amounts.insert("61".to_string(), 1);
    let manifest = Manifest { tiles: Vec::new(), amounts };
    let log = {
        let mut log = Log::new();
        log.log = vec![lay("B2", "57", "N"), lay("B2", "61", "N")];
        Some(log)
    };
    let remaining = manifest.amounts(&log).expect("accounting succeeds");
    assert_eq!(remaining.get("57"), Some(4));
    assert_eq!(remaining.get("61"), Some(0));
}

#[test]
fn amounts_without_a_log_are_the_initial_ones() {
    let mut amounts = NameMap::new();
    amounts.insert("57".to_string(), 4);
    let manifest = Manifest { tiles: Vec::new(), amounts };
    let remaining = manifest.amounts(&None).expect("accounting succeeds");
    assert_eq!(remaining.get("57"), Some(4));
}

#[test]
fn a_lay_without_an_amount_entry_is_fatal() {
    let manifest = Manifest { tiles: Vec::new(), amounts: NameMap::new() };
    let log = {
        let mut log = Log::new();
        log.log = vec![lay("B2", "99", "N")];
        Some(log)
    };
    match manifest.amounts(&log) {
        Err(EngineError::MissingAmount(name)) => assert_eq!(name, "99"),
        other => panic!("expected MissingAmount, got {:?}", other.map(|_| ())),
    }
}

#[test]
fn more_copies_in_play_than_granted_is_fatal() {
    let mut amounts = NameMap::new();
    amounts.insert("57".to_string(), 1);
    let manifest = Manifest { tiles: Vec::new(), amounts };
    let log = {
        let mut log = Log::new();
        log.log = vec![lay("B2", "57", "N"), lay("D2", "57", "N")];
        Some(log)
    };
    match manifest.amounts(&log) {
        Err(EngineError::SupplyExhausted(name)) => assert_eq!(name, "57"),
        other => panic!("expected SupplyExhausted, got {:?}", other.map(|_| ())),
    }
}

#[test]
fn the_layered_view_prefers_replay_placements() {
    let def = definition_with_city("base", 1);
    let manifest =
        Manifest { tiles: vec![manifest_tile("7", &def)], amounts: NameMap::new() };
    let game = game_with(
        manifest,
        vec![map_tile("B4", &def), map_tile("B2", &def)],
        Vec::new(),
        vec![lay("B4", "7", "N")],
    );
    let placed = game.placed_tiles().expect("replay succeeds");
    let statics = game.map.tiles().expect("static resolution succeeds");
    let top = top_tiles(&placed, &statics);
    assert_eq!(top.len(), 2);
    assert!(top.contains(1, 1));
    assert!(top.contains(1, 0));
    assert!(!top.contains(0, 0));
    match top.get(1, 1) {
        Some(TopTile::Placed(PlacedTile { tile_index: 0, orientation: 0 })) => {}
        other => panic!("expected the laid tile on top, got {:?}", other),
    }
    match top.get(1, 0) {
        Some(TopTile::Base(1)) => {}
        other => panic!("expected the base tile, got {:?}", other),
    }
}

#[test]
fn home_tokens_resolve_their_location_and_station() {
    let home = Home::PositionStation(Location::Named("C2".to_string()), 1);
    let t = Token::from(&home, "PRR", "green", &Orientation::Horizontal);
    assert_eq!(t.location, (2, 0));
    assert_eq!(t.station, 1);
    assert_eq!(t.circle, 0);
    assert!(!t.is_home);
    let t = t.set_home();
    assert!(t.is_home);
    let placed = Token::place(&company("PRR", None), "PRR", (2, 0), 1, 3);
    assert_eq!(placed.color, "blue");
    assert_eq!(placed.circle, 3);
    assert!(!placed.is_home);
}

#[test]
fn fresh_logs_are_empty() {
    let log = Log::new();
    assert_eq!(log.game_name, "1830");
    assert!(log.log.is_empty());
    let log = Log::new_game("1889".to_string());
    assert_eq!(log.game_name, "1889");
    assert!(log.log.is_empty());
}

#[test]
fn manifest_lookup_finds_tiles_by_number() {
    let def = definition_with_city("base", 1);
    let manifest = Manifest {
        tiles: vec![manifest_tile("7", &def), manifest_tile("9", &def)],
        amounts: NameMap::new(),
    };
    let t = manifest.get_tile(&"9".to_string()).expect("tile 9 exists");
    assert_eq!(t.name(), "9");
    match manifest.get_tile(&"57".to_string()) {
        Err(msg) => assert_eq!(msg, "Tile with name '57' not found in manifest"),
        Ok(_) => panic!("tile 57 should be missing"),
    }
}
