use papergrid::{concat_lines, concat_row};

#[test]
fn concat_lines_merges_line_by_line() {
    assert_eq!(concat_lines("a\nb", "c\nd"), "ac\nbd");
    assert_eq!(concat_lines("|x|", "y|"), "|x|y|");
    assert_eq!(concat_lines("", ""), "");
}

#[test]
fn concat_row_folds_left_to_right() {
    let row = vec!["1\n2".to_string(), "3\n4".to_string(), "5\n6".to_string()];
    assert_eq!(concat_row(&row), "135\n246");

    let empty: Vec<String> = vec![];
    assert_eq!(concat_row(&empty), "");

    let single = vec!["only".to_string()];
    assert_eq!(concat_row(&single), "only");
}
