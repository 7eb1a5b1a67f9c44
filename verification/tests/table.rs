use psptool::table::{Align, Table};

fn strings(items: &[&str]) -> Vec<String> {
    items.iter().map(|s| s.to_string()).collect()
}

#[test]
fn renders_basic_table_with_centered_headers_and_left_body() {
    let mut t = Table::new(strings(&["A", "BB"]), Align::Left);
    t.add_row(strings(&["1", "two"]));
    t.add_row(strings(&["100", "x"]));
    let s = t.render();
    assert!(s.starts_with("+-----+-----+\n"), "{s}");
    assert!(s.contains("|  A  | BB  |"), "{s}");
    assert!(s.contains("| 1   | two |"), "{s}");
    assert!(s.ends_with("+-----+-----+\n"));
}

#[test]
fn right_alignment_pads_left() {
    let mut t = Table::new(strings(&["X"]), Align::Right);
    t.add_row(strings(&["12"]));
    t.add_row(strings(&["3456"]));
    let s = t.render();
    assert!(s.contains("|   12 |"), "{s}");
    assert!(s.contains("| 3456 |"), "{s}");
}

#[test]
fn empty_columns_returns_empty_string() {
    let t = Table::new(Vec::new(), Align::Left);
    assert_eq!(t.render(), "");
}

#[test]
fn short_rows_are_padded() {
    let mut t = Table::new(strings(&["a", "b", "c"]), Align::Left);
    t.add_row(strings(&["1"])); // only 1 cell
    let s = t.render();
    assert!(s.contains("| 1 |   |   |"), "{s}");
}

#[test]
fn long_rows_are_truncated() {
    let mut t = Table::new(strings(&["a"]), Align::Left);
    t.add_row(strings(&["1", "2", "3"])); // extra cells dropped
    let s = t.render();
    assert!(s.contains("| 1 |"), "{s}");
    assert!(!s.contains("| 2 |"), "{s}");
}

#[test]
fn lines_are_equally_long() {
    for align in [Align::Left, Align::Center, Align::Right] {
        let mut t = Table::new(strings(&["a", "much longer", ""]), align);
        t.add_row(strings(&["a cell that is wide", "b", "é"]));
        t.add_row(strings(&["", "", "x"]));
        let text = t.render();
        let first = text.lines().next().unwrap().chars().count();
        assert!(text.lines().all(|l| l.chars().count() == first), "{text}");
    }
}
