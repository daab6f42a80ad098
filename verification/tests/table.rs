use hwgauge::table::{measure_columns, rows, sized_rows, split_row, uniform_cells};

fn owned(lines: &[&str]) -> Vec<String> {
    lines.iter().map(|line| line.to_string()).collect()
}

#[test]
fn rows_pads_each_column_to_its_longest_cell() {
    let lines = owned(&["a;bb", "ccc;d"]);
    assert_eq!(measure_columns(&lines), vec![3, 2]);
    assert_eq!(rows(&lines), "a   bb\nccc d\n");
}

#[test]
fn rows_of_nothing_is_empty() {
    assert_eq!(rows(&[]), "");
    assert_eq!(sized_rows(&[], &[]), "");
    assert_eq!(sized_rows(&[], &[4, 4]), "");
}

#[test]
fn rows_with_one_column_are_written_as_they_are() {
    let lines = owned(&["alpha", "b", ""]);
    assert_eq!(measure_columns(&lines), vec![5]);
    assert_eq!(rows(&lines), "alpha\nb\n\n");
}

#[test]
fn sized_rows_uses_the_given_widths() {
    let lines = owned(&["a;b;c", "dd;ee;ff"]);
    assert_eq!(sized_rows(&lines, &[4, 1, 9]), "a    b c\ndd   ee ff\n");
}

#[test]
fn sized_rows_writes_a_cell_longer_than_its_column_whole() {
    let lines = owned(&["abcdef;x"]);
    assert_eq!(sized_rows(&lines, &[2, 2]), "abcdef x\n");
}

#[test]
fn widths_count_colour_codes() {
    let lines = owned(&["\x1b[31mhot\x1b[0m;1", "cold;2"]);
    assert_eq!(measure_columns(&lines), vec![12, 1]);
    assert_eq!(rows(&lines), "\x1b[31mhot\x1b[0m 1\ncold         2\n");
}

#[test]
fn widths_count_characters_not_bytes() {
    let lines = owned(&["°C;1", "abc;2"]);
    assert_eq!(measure_columns(&lines), vec![3, 1]);
    assert_eq!(rows(&lines), "°C  1\nabc 2\n");
}

#[test]
fn split_row_keeps_empty_cells() {
    let cells: Vec<String> = split_row("a;;b;").iter().map(|c| c.iter().collect()).collect();
    assert_eq!(cells, vec!["a", "", "b", ""]);
    assert_eq!(split_row("").len(), 1);
    assert_eq!(split_row(";").len(), 2);
}

#[test]
fn uniform_cells_tells_tables_from_ragged_rows() {
    assert!(uniform_cells(&[]));
    assert!(uniform_cells(&owned(&["a;b", "c;d", ";"])));
    assert!(!uniform_cells(&owned(&["a;b", "c"])));
    assert!(!uniform_cells(&owned(&["a", "c;d"])));
}
