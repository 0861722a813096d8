use delta::utils::table::render_table;

#[test]
fn table_renders_borders() {
    let out = render_table(&["A", "B"], &[vec!["1".into(), "22".into()]]);
    assert!(out.contains("┌"));
    assert!(out.contains("└"));
    assert!(out.contains("22"));
}

#[test]
fn table_exact_layout() {
    let out = render_table(&["A", "B"], &[vec!["1".into(), "22".into()]]);
    let expected = "┌───┬────┐\n│ A │ B  │\n┼───┼────┼\n│ 1 │ 22 │\n└───┴────┘";
    assert_eq!(out, expected);
}

#[test]
fn table_without_rows_and_short_rows() {
    let out = render_table(&["Name"], &[]);
    assert_eq!(out, "┌──────┐\n│ Name │\n┼──────┼\n└──────┘");
    let out = render_table(&["X", "Y"], &[vec!["long".into()]]);
    assert_eq!(out, "┌──────┬───┐\n│ X    │ Y │\n┼──────┼───┼\n│ long │   │\n└──────┴───┘");
}
