use curly::grid::PositionGrid;

#[test]
fn multi_row_grid_indexes_rows() {
    let grid = PositionGrid::build("Line 1\nLine 2");
    assert_eq!(grid.row_count(), 2);
    assert_eq!(grid.get_row(0), Some(String::from("Line 1")));
    assert_eq!(grid.get_row(1), Some(String::from("Line 2")));
    assert_eq!(grid.get_row(2), None);
}

#[test]
fn trailing_newline_adds_no_row() {
    let grid = PositionGrid::build("Line 1\nLine 2\n");
    assert_eq!(grid.row_count(), 2);
    assert_eq!(grid.get_row(0), Some(String::from("Line 1")));
    assert_eq!(grid.get_row(1), Some(String::from("Line 2")));
    assert_eq!(grid.get_row(2), None);
}

#[test]
fn carriage_returns_are_dropped() {
    let grid = PositionGrid::build("a\r\nb\r\n");
    assert_eq!(grid.row_count(), 2);
    assert_eq!(grid.get_row(0), Some(String::from("a")));
    assert_eq!(grid.get_row(1), Some(String::from("b")));
    let grid = PositionGrid::build("a\rb");
    assert_eq!(grid.row_count(), 1);
    assert_eq!(grid.get_row(0), Some(String::from("ab")));
}

#[test]
fn empty_rows_inside_are_kept() {
    let grid = PositionGrid::build("a\n\nb");
    assert_eq!(grid.row_count(), 3);
    assert_eq!(grid.get_row(1), Some(String::new()));
    let grid = PositionGrid::build("a\n\n");
    assert_eq!(grid.row_count(), 2);
    assert_eq!(grid.get_row(1), Some(String::new()));
}

#[test]
fn empty_input_has_no_rows() {
    assert_eq!(PositionGrid::build("").row_count(), 0);
    assert_eq!(PositionGrid::build("").get_row(0), None);
    assert_eq!(PositionGrid::build("\n").row_count(), 1);
    assert_eq!(PositionGrid::build("\n").get_row(0), Some(String::new()));
}

#[test]
fn characters_are_found_by_row_and_column() {
    let grid = PositionGrid::build("ab\ncde");
    assert_eq!(grid.get_char(0, 0), Some('a'));
    assert_eq!(grid.get_char(0, 1), Some('b'));
    assert_eq!(grid.get_char(0, 2), None);
    assert_eq!(grid.get_char(1, 2), Some('e'));
    assert_eq!(grid.get_char(1, 3), None);
    assert_eq!(grid.get_char(2, 0), None);
}

#[test]
fn grid_text_joins_rows_with_newlines() {
    let text: String = PositionGrid::build("ab\r\ncde\n").text().into_iter().collect();
    assert_eq!(text, "ab\ncde");
    let text: String = PositionGrid::build("héllo\n\nwörld").text().into_iter().collect();
    assert_eq!(text, "héllo\n\nwörld");
}
