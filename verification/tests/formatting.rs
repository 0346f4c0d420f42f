use papergrid::{align, Alignment, Cell, CellFormatter};

#[test]
fn cell_formating_empty() {
    let mut cell = Cell::new();
    cell.set_content("").set_corner("-");

    let expected = "--\n--";

    assert_eq!(expected, CellFormatter::new().boxed().format(&cell));
}

#[test]
fn cell_formating_single() {
    let mut cell = Cell::new();
    cell.set_content("hello world").set_corner("-");

    let expected = "-------------\n|hello world|\n-------------";

    assert_eq!(expected, CellFormatter::new().boxed().format(&cell));
}

#[test]
fn cell_formating_multiline() {
    let mut cell = Cell::new();
    cell.set_content("hello\nworld").set_corner("-");

    let expected = "-------\n|hello|\n|world|\n-------";

    assert_eq!(expected, CellFormatter::new().boxed().format(&cell));
}

#[test]
fn cell_formating_multilane_forced() {
    let mut cell = Cell::new();
    cell.set_content("hello").set_corner("-");

    let expected = "-------\n|hello|\n|     |\n-------";

    assert_eq!(
        expected,
        CellFormatter::new().boxed().height(2).format(&cell)
    );
}

#[test]
fn cell_height_and_weight() {
    let mut cell = Cell::new();
    assert_eq!(cell.height(), 0);
    assert_eq!(cell.weight(), 0);

    cell.set_content("ab\ncdef\ng");
    assert_eq!(cell.height(), 3);
    assert_eq!(cell.weight(), 4);

    cell.set_content("tail\n");
    assert_eq!(cell.height(), 1);
    assert_eq!(cell.weight(), 4);
}

#[test]
fn align_pads_with_spaces() {
    assert_eq!(align("ab", Alignment::Left, 5), "ab   ");
    assert_eq!(align("ab", Alignment::Right, 5), "   ab");
    assert_eq!(align("ab", Alignment::Center, 5), " ab  ");
    // The odd space goes to the right.
    assert_eq!(align("a", Alignment::Center, 4), " a  ");
    // A text already long enough is kept.
    assert_eq!(align("abcdef", Alignment::Center, 3), "abcdef");
}

#[test]
fn formatter_without_borders() {
    let mut cell = Cell::new();
    cell.set_content("hi");

    assert_eq!("hi", CellFormatter::new().format(&cell));
    assert_eq!("hi ", CellFormatter::new().weight(3).format(&cell));
}

#[test]
fn edge_glyphs_are_settable() {
    let mut cell = Cell::new();
    cell.set_content("x")
        .set_left_border(":")
        .set_right_border(";")
        .set_top_border("=");

    let expected = "+=+\n:x;\n+-+";

    assert_eq!(expected, CellFormatter::new().boxed().format(&cell));
}

#[test]
fn formatter_empty_corner() {
    let mut cell = Cell::new();
    cell.set_content("abc").set_corner("");

    let formatted = CellFormatter::new().boxed().format(&cell);
    assert_eq!("---\n|abc|\n---", formatted);
}

#[test]
fn formatter_wide_glyphs_repeat() {
    let mut cell = Cell::new();
    cell.set_content("abc").set_top_border("ab");

    // An edge glyph is a repeat unit: it is laid down once per column of
    // inner width, whatever its own length.
    let formatted = CellFormatter::new().boxed().format(&cell);
    assert_eq!("+ababab+\n|abc|\n+---+", formatted);
}
