use map18xx::board::{Location, Orientation, resolve_location};

#[test]
fn labels_resolve_like_spreadsheet_columns() {
    let b4 = Location::Named("B4".to_string());
    assert_eq!(b4.as_coord(&Orientation::Horizontal), (1, 1));
    assert_eq!(b4.as_coord(&Orientation::Vertical), (1, 1));

    let c2 = Location::Named("C2".to_string());
    assert_eq!(c2.as_coord(&Orientation::Horizontal), (2, 0));
    assert_eq!(c2.as_coord(&Orientation::Vertical), (0, 2));

    let a1 = Location::Named("A1".to_string());
    assert_eq!(a1.as_coord(&Orientation::Horizontal), (0, 0));
}

#[test]
fn multi_letter_labels_compose_in_base_twenty_six() {
    let aa10 = Location::Named("AA10".to_string());
    // AA reads 26 * 1 + 1 = 27, made 0-based: 26; row 10 gives (10 - 1) / 2.
    assert_eq!(aa10.as_coord(&Orientation::Horizontal), (26, 4));
    let z9 = Location::Named("z9".to_string());
    assert_eq!(z9.as_coord(&Orientation::Horizontal), (25, 4));
}

#[test]
fn raw_coordinates_pass_through_under_both_orientations() {
    let raw = Location::Coord(7, 3);
    assert_eq!(raw.as_coord(&Orientation::Horizontal), (7, 3));
    assert_eq!(raw.as_coord(&Orientation::Vertical), (7, 3));
}

#[test]
fn malformed_labels_do_not_resolve() {
    for label in ["", "4", "B", "B0", "B4x", "1B", " B4"] {
        let loc = Location::Named(label.to_string());
        assert!(
            resolve_location(&loc, &Orientation::Horizontal).is_none(),
            "label {:?} should not resolve",
            label
        );
    }
}

#[test]
fn odd_and_even_row_labels_share_a_row() {
    // Row labels advance by two per physical row: 1 and 2 land on row 0.
    let b1 = Location::Named("B1".to_string());
    let b2 = Location::Named("B2".to_string());
    assert_eq!(b1.as_coord(&Orientation::Horizontal), (1, 0));
    assert_eq!(b2.as_coord(&Orientation::Horizontal), (1, 0));
    let b3 = Location::Named("B3".to_string());
    assert_eq!(b3.as_coord(&Orientation::Horizontal), (1, 1));
}
