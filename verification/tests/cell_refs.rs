use libxcsv::cellref::col_to_index;
use libxcsv::cellref::parse_cell_ref;
use libxcsv::cellref::CellRef;

#[test]
fn column_letters_decode_in_base_26() {
    assert_eq!(col_to_index("A"), 1);
    assert_eq!(col_to_index("Z"), 26);
    assert_eq!(col_to_index("AA"), 27);
    assert_eq!(col_to_index("AZ"), 52);
    assert_eq!(col_to_index("BA"), 53);
    assert_eq!(col_to_index("XFD"), 16384);
}

#[test]
fn column_reading_stops_at_first_other_character() {
    assert_eq!(col_to_index(""), 0);
    assert_eq!(col_to_index("B7"), 2);
    assert_eq!(col_to_index("aB"), 0);
    assert_eq!(col_to_index("AbC"), 1);
}

#[test]
fn address_gives_column_and_row() {
    assert_eq!(parse_cell_ref("B7"), Some(CellRef { col: 2, row: 7 }));
    assert_eq!(parse_cell_ref("aa10"), Some(CellRef { col: 27, row: 10 }));
    assert_eq!(parse_cell_ref("A+3"), Some(CellRef { col: 1, row: 3 }));
}

#[test]
fn address_without_letters_or_digits_names_no_cell() {
    assert_eq!(parse_cell_ref(""), None);
    assert_eq!(parse_cell_ref("17"), None);
    assert_eq!(parse_cell_ref("ABC"), None);
    assert_eq!(parse_cell_ref("A-1"), None);
    assert_eq!(parse_cell_ref("A1.5"), None);
    assert_eq!(parse_cell_ref("A0"), None);
    assert_eq!(parse_cell_ref("A4294967296"), None);
    assert_eq!(parse_cell_ref("ZZZZZZZZ1"), None);
}
