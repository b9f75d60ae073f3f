use map18xx::board::{Location, Orientation};
use map18xx::coord::{DefError, HexVec};
use map18xx::defs::{Tile, TileDefinition, lookup_def};
use map18xx::engine::Manifest;
use map18xx::maps::{GameMap, MapTile};
use map18xx::table::NameMap;
use map18xx::tiles::{City, Coordinate, Text, TextAnchor};

#[test]
fn a_default_definition_is_empty() {
    let def = TileDefinition::default();
    assert_eq!(def.name(), "NoName");
    assert!(def.paths().is_empty());
    assert!(def.cities().is_empty());
    assert!(def.stops().is_empty());
    assert!(!def.is_lawson());
    assert!(def.code_position().is_none());
    assert!(def.code_text_id().is_none());
}

#[test]
fn text_spec_synthesizes_the_tile_number_first() {
    let mut def = TileDefinition::default();
    def.set_name("57".to_string());
    def.text.push(Text {
        id: "label".to_string(),
        position: Coordinate::Named("C".to_string()),
        size: None,
        weight: Some(700),
        anchor: TextAnchor::Middle,
    });
    let spec = def.text_spec();
    assert_eq!(spec.len(), 2);
    assert_eq!(spec[0].id, "number");
    assert!(matches!(spec[0].anchor, TextAnchor::End));
    assert_eq!(
        spec[0].position().unwrap(),
        HexVec { x: 0, y: 900, z: -900 }
    );
    assert_eq!(spec[1].id, "label");
}

#[test]
fn definition_text_echoes_ids_but_number_shows_the_name() {
    let mut def = TileDefinition::default();
    def.set_name("8".to_string());
    assert_eq!(def.get_text("number"), "8");
    assert_eq!(def.get_text("anything"), "anything");
}

#[test]
fn a_half_configured_code_label_fails_validation() {
    let mut def = TileDefinition::default();
    def.code_position = Some(Coordinate::Named("C".to_string()));
    match def.validate() {
        Err(DefError::CodeLabelHalfMissing) => {}
        other => panic!("expected CodeLabelHalfMissing, got {:?}", other),
    }
    def.code_text_id = Some("code".to_string());
    assert!(def.validate().is_ok());
}

#[test]
fn a_definition_with_a_bad_city_fails_validation() {
    let mut def = TileDefinition::default();
    def.cities.push(
        City::new(
            2,
            "rev".to_string(),
            Coordinate::Named("C".to_string()),
            Coordinate::Named("C".to_string()),
        )
        .unwrap(),
    );
    assert!(def.validate().is_ok());
    // Damage the circle count after construction.
    def.cities[0].circles = 9;
    match def.validate() {
        Err(DefError::InvalidCircleCount(9)) => {}
        other => panic!("expected InvalidCircleCount, got {:?}", other),
    }
}

#[test]
fn manifest_tiles_carry_their_number_in_the_text_table() {
    let mut tile = Tile::default();
    tile.set_name("23".to_string());
    assert_eq!(tile.name(), "23");
    assert_eq!(tile.get_text("number"), "23");
    assert_eq!(tile.get_text("missing"), "");
    assert_eq!(tile.base_tile(), "");
}

#[test]
fn binding_a_definition_exposes_its_shape() {
    let mut def = TileDefinition::default();
    def.set_name("laws".to_string());
    def.is_lawson = true;
    let mut tile = Tile::default();
    tile.set_name("18".to_string());
    tile.set_definition(&def);
    assert!(tile.is_lawson());
    assert!(tile.paths().is_empty());
    assert_eq!(tile.text_spec().len(), 1);
}

#[test]
fn map_tiles_default_to_the_plain_tile_and_ground_color() {
    assert_eq!(MapTile::default_tile(), "plain");
    let tile = MapTile {
        location: Location::Coord(0, 0),
        tile: MapTile::default_tile(),
        color: None,
        orientation: None,
        text: vec![("city".to_string(), "Altoona".to_string())],
        arrows: Vec::new(),
        revenue: None,
        terrain: None,
        definition: None,
    };
    assert_eq!(tile.color().value(), "#FDD9B5");
    assert_eq!(tile.orientation().unwrap(), 0);
    assert_eq!(tile.get_text("city"), "Altoona");
    assert_eq!(tile.get_text("other"), "");
}

#[test]
fn map_tile_rotation_follows_its_compass_code() {
    let mut tile = MapTile {
        location: Location::Coord(0, 0),
        tile: MapTile::default_tile(),
        color: Some("red".to_string()),
        orientation: Some("SW".to_string()),
        text: Vec::new(),
        arrows: Vec::new(),
        revenue: None,
        terrain: None,
        definition: None,
    };
    assert_eq!(tile.color().value(), "#DC143C");
    assert_eq!(tile.orientation().unwrap(), -120);
    tile.orientation = Some("C".to_string());
    assert!(tile.orientation().is_err());
}

fn unbound_map_tile(name: &str) -> MapTile {
    MapTile {
        location: Location::Coord(0, 0),
        tile: name.to_string(),
        color: None,
        orientation: None,
        text: Vec::new(),
        arrows: Vec::new(),
        revenue: None,
        terrain: None,
        definition: None,
    }
}

#[test]
fn connecting_a_map_binds_every_placement() {
    let mut plain = TileDefinition::default();
    plain.set_name("plain".to_string());
    let catalog = vec![("plain".to_string(), plain)];
    let mut map = GameMap {
        orientation: Orientation::Horizontal,
        width: 2,
        height: 2,
        raw_tiles: vec![unbound_map_tile("plain"), unbound_map_tile("plain")],
        barriers: Vec::new(),
    };
    map.connect(&catalog).expect("every placement names a known definition");
    for t in &map.raw_tiles {
        assert!(t.definition.is_some());
    }
}

#[test]
fn connecting_an_unknown_placement_is_fatal() {
    let catalog = Vec::new();
    let mut map = GameMap {
        orientation: Orientation::Horizontal,
        width: 1,
        height: 1,
        raw_tiles: vec![unbound_map_tile("city57")],
        barriers: Vec::new(),
    };
    match map.connect(&catalog) {
        Err(DefError::UnknownDefinition(name)) => assert_eq!(name, "city57"),
        other => panic!("expected UnknownDefinition, got {:?}", other),
    }
}

#[test]
fn connecting_a_manifest_binds_by_base_tile() {
    let mut base = TileDefinition::default();
    base.set_name("8".to_string());
    let catalog = vec![("8".to_string(), base)];
    let mut tile = Tile::default();
    tile.base_tile = "8".to_string();
    tile.set_name("8".to_string());
    let mut manifest = Manifest { tiles: vec![tile], amounts: NameMap::new() };
    manifest.connect(&catalog).expect("the base tile is known");
    assert!(manifest.tiles[0].definition.is_some());
    let mut stray = Tile::default();
    stray.base_tile = "99".to_string();
    stray.set_name("99".to_string());
    manifest.tiles.push(stray);
    match manifest.connect(&catalog) {
        Err(DefError::UnknownDefinition(name)) => assert_eq!(name, "99"),
        other => panic!("expected UnknownDefinition, got {:?}", other),
    }
}

#[test]
fn catalog_lookup_finds_the_first_entry() {
    let mut a = TileDefinition::default();
    a.set_name("a".to_string());
    let mut b = TileDefinition::default();
    b.set_name("b".to_string());
    let catalog = vec![("a".to_string(), a), ("b".to_string(), b)];
    assert_eq!(lookup_def(&catalog, "b").expect("entry exists").name(), "b");
    assert!(lookup_def(&catalog, "c").is_none());
}
