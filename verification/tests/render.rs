use papergrid::{Alignment, Grid};

#[test]
fn render() {
    let mut grid = Grid::new(2, 2);
    grid.cell(0, 0).set_content("0-0");
    grid.cell(0, 1).set_content("0-1");
    grid.cell(1, 0).set_content("1-0");
    grid.cell(1, 1).set_content("1-1");

    let expected = "+---+---+\n|0-0|0-1|\n+---+---+\n|1-0|1-1|\n+---+---+\n";

    assert_eq!(expected, grid.render());
}

#[test]
fn render_multilane() {
    let mut grid = Grid::new(2, 2);
    grid.cell(0, 0).set_content("left\ncell");
    grid.cell(0, 1).set_content("right one");
    grid.cell(1, 0)
        .set_content("the second column got the beginning here");
    grid.cell(1, 1)
        .set_content("and here\nwe\nsee\na\nlong\nstring");

    let expected = "+----------------------------------------+---------+\n\
                    |                  left                  |right one|\n\
                    |                  cell                  |         |\n\
                    +----------------------------------------+---------+\n\
                    |the second column got the beginning here|and here |\n\
                    |                                        |   we    |\n\
                    |                                        |   see   |\n\
                    |                                        |    a    |\n\
                    |                                        |  long   |\n\
                    |                                        | string  |\n\
                    +----------------------------------------+---------+\n";

    assert_eq!(expected, grid.render());
}

#[test]
fn render_one_line() {
    let mut grid = Grid::new(1, 1);
    grid.cell(0, 0).set_content("one line");

    let expected = "+--------+\n|one line|\n+--------+\n";

    assert_eq!(expected, grid.render());
}

#[test]
fn render_not_quadratic() {
    let mut grid = Grid::new(1, 2);
    grid.cell(0, 0).set_content("hello");
    grid.cell(0, 1).set_content("world");

    let expected = "+-----+-----+\n|hello|world|\n+-----+-----+\n";

    assert_eq!(expected, grid.render());
}

#[test]
fn render_empty() {
    let grid = Grid::new(0, 0);

    let expected = "";

    assert_eq!(expected, grid.render());
}

#[test]
fn render_no_columns_or_no_rows() {
    let grid = Grid::new(2, 0);
    assert_eq!("", grid.render());

    let grid = Grid::new(0, 3);
    assert_eq!("", grid.render());
}

#[test]
fn shape_accessors() {
    let grid = Grid::new(3, 5);
    assert_eq!(grid.count_rows(), 3);
    assert_eq!(grid.count_columns(), 5);
    assert_eq!(grid.rows().len(), 3);
    assert_eq!(grid.columns().len(), 5);
    assert_eq!(grid.row(0).len(), 5);
    assert_eq!(grid.column(0).len(), 3);
}

#[test]
fn render_twice_is_identical() {
    let mut grid = Grid::new(2, 2);
    grid.cell(0, 0).set_content("a");
    grid.cell(0, 1).set_content("bb");
    grid.cell(1, 0).set_content("c\nc");
    grid.cell(1, 1).set_content("d");

    let first = grid.render();
    let second = grid.render();

    assert_eq!(first, second);
}

#[test]
fn render_line_count_matches_heights() {
    let mut grid = Grid::new(3, 2);
    grid.cell(0, 0).set_content("a\nb");
    grid.cell(0, 1).set_content("c");
    grid.cell(1, 0).set_content("d");
    grid.cell(1, 1).set_content("e\nf\ng");
    grid.cell(2, 0).set_content("h");
    grid.cell(2, 1).set_content("i");

    let out = grid.render();
    let newline_count = out.matches('\n').count();

    // Row heights 2, 3 and 1, plus one border line before the first row and
    // one after every row.
    assert_eq!(newline_count, 2 + 3 + 1 + 4);
}

#[test]
fn render_columns_abut() {
    let mut grid = Grid::new(2, 2);
    grid.cell(0, 0).set_content("aa");
    grid.cell(0, 1).set_content("b");
    grid.cell(1, 0).set_content("c");
    grid.cell(1, 1).set_content("dddd");

    let out = grid.render();
    let lines: Vec<&str> = out.lines().collect();

    // First column block spans 4 characters (border + 2 wide + seam), the
    // second 5; every line is 9 characters and the shared seam sits at
    // index 3 on every line.
    for line in &lines {
        assert_eq!(line.len(), 9);
        let seam = line.as_bytes()[3];
        assert!(seam == b'|' || seam == b'+');
    }
    assert_eq!(lines[0], "+--+----+");
    assert_eq!(lines[1], "|aa| b  |");
}

#[test]
fn render_alignment_and_ident() {
    let mut grid = Grid::new(1, 1);
    grid.cell(0, 0)
        .set_content("x")
        .set_horizontal_ident(1)
        .set_vertical_ident(1);

    // The top padding adds a blank line; the bottom padding ends the content
    // with a line break, which does not open a further line.
    let expected = "+---+\n|   |\n| x |\n+---+\n";

    assert_eq!(expected, grid.render());
}

#[test]
fn render_left_and_right_alignment() {
    let mut wide = Grid::new(1, 2);
    wide.cell(0, 0).set_content("a\nxxx").set_alignment(Alignment::Left);
    wide.cell(0, 1).set_content("b\nyyy").set_alignment(Alignment::Right);

    let expected = "+---+---+\n|a  |  b|\n|xxx|yyy|\n+---+---+\n";

    assert_eq!(expected, wide.render());
}
