use map18xx::colors::{Color, name_to_color};
use map18xx::coord::{DefError, HexVec, direction_to_angle, edge_to_coordinate};
use map18xx::tiles::{City, Coordinate, Path};

fn edge(code: &str) -> HexVec {
    edge_to_coordinate(code).expect("valid edge code")
}

#[test]
fn edge_codes_match_the_fixed_table() {
    assert_eq!(edge("N"), HexVec { x: 0, y: 500, z: -500 });
    assert_eq!(edge("NE"), HexVec { x: 500, y: 0, z: -500 });
    assert_eq!(edge("SE"), HexVec { x: 500, y: -500, z: 0 });
    assert_eq!(edge("S"), HexVec { x: 0, y: -500, z: 500 });
    assert_eq!(edge("SW"), HexVec { x: -500, y: 0, z: 500 });
    assert_eq!(edge("NW"), HexVec { x: -500, y: 500, z: 0 });
    assert_eq!(edge("C"), HexVec { x: 0, y: 0, z: 0 });
}

#[test]
fn edge_code_components_sum_to_zero() {
    for code in ["N", "NE", "SE", "S", "SW", "NW"] {
        let v = edge(code);
        assert_eq!(v.x + v.y + v.z, 0, "edge {} is off the hex plane", code);
    }
}

#[test]
fn unknown_edge_code_is_a_definition_error() {
    for code in ["X", "", "NS", "north", "n"] {
        match edge_to_coordinate(code) {
            Err(DefError::InvalidEdgeCode(c)) => assert_eq!(c, code),
            other => panic!("expected InvalidEdgeCode, got {:?}", other),
        }
    }
}

#[test]
fn direction_angles_are_multiples_of_sixty() {
    assert_eq!(direction_to_angle("N").unwrap(), 0);
    assert_eq!(direction_to_angle("NE").unwrap(), 60);
    assert_eq!(direction_to_angle("SE").unwrap(), 120);
    assert_eq!(direction_to_angle("S").unwrap(), 180);
    assert_eq!(direction_to_angle("SW").unwrap(), -120);
    assert_eq!(direction_to_angle("NW").unwrap(), -60);
}

#[test]
fn direction_angles_are_distinct() {
    let codes = ["N", "NE", "SE", "S", "SW", "NW"];
    let mut seen: Vec<i32> = Vec::new();
    for code in codes {
        let a = direction_to_angle(code).unwrap();
        assert!(!seen.contains(&a), "angle {} repeats", a);
        seen.push(a);
    }
    for a in seen {
        assert!([0, 60, -60, 120, -120, 180].contains(&a));
    }
}

#[test]
fn center_is_no_direction() {
    match direction_to_angle("C") {
        Err(DefError::InvalidDirection(c)) => assert_eq!(c, "C"),
        other => panic!("expected InvalidDirection, got {:?}", other),
    }
}

#[test]
fn coordinates_resolve_to_vectors() {
    let named = Coordinate::Named("NW".to_string());
    assert_eq!(named.as_vector().unwrap(), HexVec { x: -500, y: 500, z: 0 });
    let explicit = Coordinate::HexSpace(HexVec { x: 0, y: 900, z: -900 });
    assert_eq!(explicit.as_vector().unwrap(), HexVec { x: 0, y: 900, z: -900 });
}

#[test]
fn off_plane_vectors_are_rejected() {
    let bad = Coordinate::HexSpace(HexVec { x: 1, y: 0, z: 0 });
    match bad.as_vector() {
        Err(DefError::NotOnHexPlane(v)) => assert_eq!(v, HexVec { x: 1, y: 0, z: 0 }),
        other => panic!("expected NotOnHexPlane, got {:?}", other),
    }
}

fn path_between(a: &str, b: &str) -> Path {
    Path {
        start: Coordinate::Named(a.to_string()),
        end: Coordinate::Named(b.to_string()),
        start_control: None,
        end_control: None,
        is_bridge: false,
    }
}

#[test]
fn gentle_curves_share_a_compass_half_or_cross_it() {
    // two-letter edges of the same half
    assert!(path_between("NW", "NE").is_gentle());
    assert!(path_between("SW", "SE").is_gentle());
    // a single-letter edge against a two-letter edge of the other half
    assert!(path_between("N", "SE").is_gentle());
    assert!(path_between("SW", "N").is_gentle());
    // everything else is sharp
    assert!(!path_between("N", "NE").is_gentle());
    assert!(!path_between("N", "S").is_gentle());
    assert!(!path_between("NE", "SW").is_gentle());
    let through_center = Path {
        start: Coordinate::Named("N".to_string()),
        end: Coordinate::HexSpace(HexVec { x: 0, y: 0, z: 0 }),
        start_control: None,
        end_control: None,
        is_bridge: false,
    };
    assert!(!through_center.is_gentle());
}

#[test]
fn city_circle_counts_are_validated() {
    for circles in 1..=4u32 {
        let c = City::new(
            circles,
            "rev".to_string(),
            Coordinate::Named("C".to_string()),
            Coordinate::Named("C".to_string()),
        )
        .expect("one to four circles are valid");
        assert_eq!(c.circles, circles);
    }
    for circles in [0u32, 5, 100] {
        match City::new(
            circles,
            "rev".to_string(),
            Coordinate::Named("C".to_string()),
            Coordinate::Named("C".to_string()),
        ) {
            Err(DefError::InvalidCircleCount(n)) => assert_eq!(n, circles),
            other => panic!("expected InvalidCircleCount, got {:?}", other),
        }
    }
}

#[test]
fn color_names_are_case_insensitive() {
    assert_eq!(name_to_color(&"Yellow".to_string()).value(), "#FDEE00");
    assert_eq!(name_to_color(&"GROUND".to_string()).value(), "#FDD9B5");
    assert_eq!(name_to_color(&"green".to_string()).value(), "#00A550");
    assert_eq!(name_to_color(&"barrier".to_string()).value(), "#660000");
    assert_eq!(name_to_color(&"no such color".to_string()).value(), "#000000");
}

#[test]
fn default_color_is_ground() {
    assert_eq!(Color::default().value(), Color::ground().value());
}
