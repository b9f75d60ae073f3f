use map18xx::board::Location;
use map18xx::codec::{decode_log, encode_log};
use map18xx::engine::{Action, Log};

fn sample_log() -> Log {
    let mut log = Log::new_game("1830".to_string());
    log.log = vec![
        Action::TileLay {
            location: Location::Named("B4".to_string()),
            tile: "57".to_string(),
            orientation: "NE".to_string(),
        },
        Action::Token {
            location: Location::Coord(3, 5),
            company: "PRR".to_string(),
            city: Some(1),
        },
        Action::Token {
            location: Location::Named("AA10".to_string()),
            company: "B&O".to_string(),
            city: None,
        },
        Action::RemoveCompany { company: "C&O".to_string() },
    ];
    log
}

fn assert_same_action(a: &Action, b: &Action) {
    match (a, b) {
        (
            Action::TileLay { location: la, tile: ta, orientation: oa },
            Action::TileLay { location: lb, tile: tb, orientation: ob },
        ) => {
            assert_same_location(la, lb);
            assert_eq!(ta, tb);
            assert_eq!(oa, ob);
        }
        (
            Action::Token { location: la, company: ca, city: ia },
            Action::Token { location: lb, company: cb, city: ib },
        ) => {
            assert_same_location(la, lb);
            assert_eq!(ca, cb);
            assert_eq!(ia, ib);
        }
        (Action::RemoveCompany { company: ca }, Action::RemoveCompany { company: cb }) => {
            assert_eq!(ca, cb);
        }
        _ => panic!("action variants differ: {:?} vs {:?}", a, b),
    }
}

fn assert_same_location(a: &Location, b: &Location) {
    match (a, b) {
        (Location::Coord(xa, ya), Location::Coord(xb, yb)) => {
            assert_eq!((xa, ya), (xb, yb));
        }
        (Location::Named(na), Location::Named(nb)) => assert_eq!(na, nb),
        _ => panic!("location variants differ: {:?} vs {:?}", a, b),
    }
}

#[test]
fn a_written_log_reads_back_equal() {
    let log = sample_log();
    let doc = encode_log(&log);
    let back = decode_log(doc.as_str()).expect("a written document reads back");
    assert_eq!(back.game_name, log.game_name);
    assert_eq!(back.log.len(), log.log.len());
    for (a, b) in log.log.iter().zip(back.log.iter()) {
        assert_same_action(a, b);
    }
}

#[test]
fn an_empty_log_round_trips() {
    let log = Log::new();
    let doc = encode_log(&log);
    assert_eq!(doc, "4;18300;");
    let back = decode_log(doc.as_str()).expect("a written document reads back");
    assert_eq!(back.game_name, "1830");
    assert!(back.log.is_empty());
}

#[test]
fn strings_with_delimiters_round_trip() {
    let mut log = Log::new_game("a;b:c\nd".to_string());
    log.log = vec![Action::RemoveCompany { company: "7;X".to_string() }];
    let doc = encode_log(&log);
    let back = decode_log(doc.as_str()).expect("a written document reads back");
    assert_eq!(back.game_name, "a;b:c\nd");
    match &back.log[0] {
        Action::RemoveCompany { company } => assert_eq!(company, "7;X"),
        other => panic!("expected RemoveCompany, got {:?}", other),
    }
}

#[test]
fn malformed_documents_are_rejected() {
    for doc in [
        "",
        "x",
        "4;1830",
        "4;18301;",
        "4;18301;X",
        "4;18300;extra",
        "99;1830",
        ";",
        "4;18300",
    ] {
        assert!(decode_log(doc).is_none(), "document {:?} should be rejected", doc);
    }
}

#[test]
fn a_token_without_a_station_keeps_its_default() {
    let mut log = Log::new();
    log.log = vec![Action::Token {
        location: Location::Coord(0, 0),
        company: "A".to_string(),
        city: None,
    }];
    let doc = encode_log(&log);
    let back = decode_log(doc.as_str()).expect("a written document reads back");
    match &back.log[0] {
        Action::Token { city, .. } => assert_eq!(*city, None),
        other => panic!("expected Token, got {:?}", other),
    }
}
