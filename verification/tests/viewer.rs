use supabase_viewer::table::NumericKey;
use supabase_viewer::viewer::{row_number, truncate_cell, Bookmark, Rgb, Viewer};

fn strings(items: &[&str]) -> Vec<String> {
    items.iter().map(|s| s.to_string()).collect()
}

fn connected() -> Viewer {
    let mut v = Viewer::new();
    v.url = "https://x.supabase.co/".to_string();
    v.anon_key = "KEY".to_string();
    v.table = "users".to_string();
    v
}

fn text_keys(v: &Viewer) -> Vec<NumericKey> {
    vec![NumericKey::NotNumeric; v.rows.len()]
}

#[test]
fn new_viewer_starts_empty_and_dark() {
    let v = Viewer::new();
    assert!(v.url.is_empty() && v.anon_key.is_empty() && v.table.is_empty() && v.status.is_empty());
    assert!(v.columns.is_empty() && v.rows.is_empty() && v.bookmarks.is_empty());
    assert!(v.dark_mode && v.sort_asc);
    assert!(!v.loading && !v.show_error && !v.show_save_dialog && !v.show_edit_dialog);
    assert_eq!(v.sort_col, None);
    assert_eq!(v.selected_row, None);
    assert_eq!(v.editing_bookmark, None);
    let d = Viewer::default();
    assert!(d.dark_mode && d.rows.is_empty());
}

#[test]
fn theme_switch_twice_is_identity() {
    let mut v = Viewer::new();
    v.toggle_dark_mode();
    assert!(!v.dark_mode);
    assert_eq!(v.text_color(), Rgb { r: 30, g: 30, b: 30 });
    assert_eq!(v.theme_switch(), ("\u{263E}".to_string(), "Dark mode".to_string()));
    v.toggle_dark_mode();
    assert!(v.dark_mode);
    assert_eq!(v.text_color(), Rgb { r: 220, g: 220, b: 220 });
    assert_eq!(v.theme_switch(), ("\u{2600}".to_string(), "Light mode".to_string()));
}

#[test]
fn connect_needs_all_fields_and_no_request_under_way() {
    let mut v = Viewer::new();
    assert!(!v.can_connect());
    assert!(v.connect().is_none());
    assert!(!v.loading);
    let mut v = connected();
    v.sort_col = None;
    let req = v.connect().unwrap();
    assert_eq!(req.url, "https://x.supabase.co/rest/v1/users?select=*");
    assert_eq!(req.headers[1], ("Authorization".to_string(), "Bearer KEY".to_string()));
    assert!(v.loading);
    assert_eq!(v.status, "Connecting...");
    assert!(!v.can_connect());
    assert!(v.connect().is_none());
}

#[test]
fn received_array_becomes_a_sorted_table() {
    let mut v = connected();
    v.connect();
    let replaced = v.receive(Ok(r#"[{"name":"bob","id":2},{"id":1,"name":"al","extra":true},{"id":3}]"#.to_string()));
    assert!(replaced);
    assert!(!v.loading);
    assert_eq!(v.columns, strings(&["id", "name"]));
    assert_eq!(v.rows, vec![strings(&["2", "bob"]), strings(&["1", "al"]), strings(&["3", ""])]);
    assert_eq!(v.status, "3 rows");
    assert_eq!(v.sort_col, None);
    assert_eq!(v.selected_row, None);
}

#[test]
fn empty_array_clears_the_table() {
    let mut v = connected();
    v.parse_response(r#"[{"a":1}]"#);
    assert_eq!(v.rows.len(), 1);
    let replaced = v.parse_response("[]");
    assert!(replaced);
    assert!(v.columns.is_empty() && v.rows.is_empty());
    assert_eq!(v.status, "Table is empty");
}

#[test]
fn non_array_only_sets_the_status() {
    let mut v = connected();
    v.parse_response(r#"[{"a":1}]"#);
    let replaced = v.parse_response(r#"{"message":"hi"}"#);
    assert!(!replaced);
    assert_eq!(v.status, "Response is not an array");
    assert_eq!(v.rows, vec![strings(&["1"])]);
}

#[test]
fn first_record_not_an_object_gives_no_columns() {
    let mut v = connected();
    v.parse_response(r#"[1, {"a": 2}]"#);
    assert!(v.columns.is_empty());
    assert_eq!(v.rows, vec![Vec::<String>::new(), Vec::<String>::new()]);
    assert_eq!(v.status, "2 rows");
}

#[test]
fn invalid_json_opens_the_error_window() {
    let mut v = connected();
    let replaced = v.parse_response("oops");
    assert!(!replaced);
    let message = serde_json::from_str::<serde_json::Value>("oops").unwrap_err().to_string();
    assert_eq!(v.status, format!("JSON error: {}", message));
    assert_eq!(v.status, "JSON error: expected value at line 1 column 1");
    assert_eq!(v.error_msg, "oops");
    assert!(v.show_error);
    v.close_error();
    assert!(!v.show_error);
}

#[test]
fn failed_request_opens_the_error_window() {
    let mut v = connected();
    v.connect();
    let replaced = v.receive(Err("HTTP 401 Unauthorized: no".to_string()));
    assert!(!replaced);
    assert!(!v.loading);
    assert_eq!(v.status, "HTTP 401 Unauthorized: no");
    assert_eq!(v.error_msg, "HTTP 401 Unauthorized: no");
    assert!(v.show_error);
}

#[test]
fn header_click_sorts_and_second_click_reverses() {
    let mut v = connected();
    v.parse_response(r#"[{"n":"b","v":10},{"n":"a","v":9},{"n":"c","v":10}]"#);
    let keys = text_keys(&v);
    v.click_header(0, &keys);
    assert_eq!(v.sort_col, Some(0));
    assert!(v.sort_asc);
    assert_eq!(v.rows, vec![strings(&["a", "9"]), strings(&["b", "10"]), strings(&["c", "10"])]);
    let keys = text_keys(&v);
    v.click_header(0, &keys);
    assert!(!v.sort_asc);
    assert_eq!(v.rows, vec![strings(&["c", "10"]), strings(&["b", "10"]), strings(&["a", "9"])]);
    // Numeric reading of the second column: 9 < 10, ties keep their order.
    let keys = vec![NumericKey::Ordered(10), NumericKey::Ordered(10), NumericKey::Ordered(9)];
    v.click_header(1, &keys);
    assert!(v.sort_asc);
    assert_eq!(v.rows, vec![strings(&["a", "9"]), strings(&["c", "10"]), strings(&["b", "10"])]);
    assert_eq!(v.header_text(1), "v \u{25B2}");
    assert_eq!(v.header_text(0), "n");
    assert_eq!(v.header_color(1), Rgb { r: 100, g: 180, b: 255 });
    assert_eq!(v.header_color(0), Rgb { r: 220, g: 220, b: 220 });
}

#[test]
fn text_sort_of_numbers_without_numeric_reading() {
    let mut v = connected();
    v.parse_response(r#"[{"v":"10"},{"v":"9"}]"#);
    let keys = text_keys(&v);
    v.click_header(0, &keys);
    assert_eq!(v.rows, vec![strings(&["10"]), strings(&["9"])]);
}

#[test]
fn sort_without_column_changes_nothing() {
    let mut v = connected();
    v.parse_response(r#"[{"v":2},{"v":1}]"#);
    let keys = text_keys(&v);
    v.sort_rows(&keys);
    assert_eq!(v.rows, vec![strings(&["2"]), strings(&["1"])]);
}

#[test]
fn selecting_a_cell_copies_it() {
    let mut v = connected();
    v.parse_response(r#"[{"a":"x","b":"y"},{"a":"z","b":"w"}]"#);
    assert_eq!(v.row_position(), None);
    let copied = v.select_cell(1, 1);
    assert_eq!(copied, "w");
    assert_eq!(v.selected_row, Some(1));
    assert_eq!(v.row_position(), Some("Row 2 / 2".to_string()));
}

#[test]
fn saved_bookmark_loads_back() {
    let mut v = connected();
    v.open_save_dialog();
    assert!(v.show_save_dialog);
    assert_eq!(v.bookmark_name, "users");
    v.bookmark_name = "prod".to_string();
    v.save_bookmark();
    assert!(!v.show_save_dialog);
    assert_eq!(v.status, "Bookmark 'prod' saved");
    assert_eq!(v.bookmarks.len(), 1);
    assert_eq!(v.bookmark_label(0), "users / prod");
    assert_eq!(v.bookmark_hint(0), "URL: https://x.supabase.co/\nTable: users\nClick to load");
    v.url = "other".to_string();
    v.anon_key = "K2".to_string();
    v.table = "t2".to_string();
    v.load_bookmark(0);
    assert_eq!(v.url, "https://x.supabase.co/");
    assert_eq!(v.anon_key, "KEY");
    assert_eq!(v.table, "users");
}

#[test]
fn save_dialog_needs_a_connection() {
    let mut v = Viewer::new();
    v.url = "u".to_string();
    v.open_save_dialog();
    assert!(!v.show_save_dialog);
    let mut v = connected();
    v.open_save_dialog();
    v.cancel_save();
    assert!(!v.show_save_dialog);
    assert!(v.bookmarks.is_empty());
    assert_eq!(v.save_summary(), "https://x.supabase.co/ | KEY | users");
}

fn bookmark(name: &str) -> Bookmark {
    Bookmark { name: name.to_string(), url: format!("u-{}", name), anon_key: format!("k-{}", name), table: format!("t-{}", name) }
}

#[test]
fn edit_saves_the_dialog_fields() {
    let mut v = Viewer::new();
    v.bookmarks = vec![bookmark("a"), bookmark("b")];
    v.edit_bookmark(1);
    assert_eq!(v.editing_bookmark, Some(1));
    assert!(v.show_edit_dialog);
    assert_eq!(v.edit_name_buf, "b");
    assert_eq!(v.edit_url_buf, "u-b");
    v.edit_table_buf = "new".to_string();
    assert!(v.save_edit());
    assert_eq!(v.bookmarks[1].table, "new");
    assert_eq!(v.bookmarks[1].name, "b");
    assert_eq!(v.bookmarks[0].table, "t-a");
    assert_eq!(v.status, "Bookmark 'b' updated");
    assert!(!v.show_edit_dialog);
    assert_eq!(v.editing_bookmark, None);
    assert!(!v.save_edit());
}

#[test]
fn cancelled_edit_keeps_the_bookmark() {
    let mut v = Viewer::new();
    v.bookmarks = vec![bookmark("a")];
    v.edit_bookmark(0);
    v.edit_name_buf = "zzz".to_string();
    v.cancel_edit();
    assert_eq!(v.bookmarks[0].name, "a");
    assert!(!v.show_edit_dialog);
    assert_eq!(v.editing_bookmark, None);
}

#[test]
fn delete_keeps_the_others_in_order() {
    let mut v = Viewer::new();
    v.bookmarks = vec![bookmark("a"), bookmark("b"), bookmark("c")];
    v.delete_bookmark(1);
    let names: Vec<String> = v.bookmarks.iter().map(|b| b.name.clone()).collect();
    assert_eq!(names, strings(&["a", "c"]));
    let copy = v.bookmarks[0].duplicate();
    assert_eq!(copy.url, "u-a");
}

#[test]
fn cell_backgrounds_stripe_and_select() {
    let mut v = Viewer::new();
    assert_eq!(v.cell_bg(0, false), Rgb { r: 30, g: 30, b: 30 });
    assert_eq!(v.cell_bg(1, false), Rgb { r: 40, g: 40, b: 45 });
    assert_eq!(v.cell_bg(1, true), Rgb { r: 50, g: 100, b: 180 });
    v.toggle_dark_mode();
    assert_eq!(v.cell_bg(2, false), Rgb { r: 255, g: 255, b: 255 });
    assert_eq!(v.cell_bg(3, false), Rgb { r: 245, g: 245, b: 250 });
    assert_eq!(v.cell_text_color(true), Rgb { r: 255, g: 255, b: 255 });
    assert_eq!(v.cell_text_color(false), Rgb { r: 30, g: 30, b: 30 });
    assert_eq!(v.bookmark_fill(), Rgb { r: 230, g: 230, b: 240 });
}

#[test]
fn fitted_width_is_bounded() {
    let mut v = connected();
    v.parse_response(r#"[{"a":"","b":"abcde"},{"a":"x","b":"abc"}]"#);
    assert_eq!(v.fitted_width(0), 60);
    assert_eq!(v.fitted_width(1), 66);
    let long = "y".repeat(200);
    v.parse_response(&format!(r#"[{{"a":"{}"}}]"#, long));
    assert_eq!(v.fitted_width(0), 600);
}

#[test]
fn truncate_cell_keeps_a_hundred_bytes() {
    assert_eq!(truncate_cell("short"), "short");
    let exact = "a".repeat(100);
    assert_eq!(truncate_cell(&exact), exact);
    let long = "b".repeat(150);
    assert_eq!(truncate_cell(&long), format!("{}...", "b".repeat(100)));
    let wide = format!("{}é{}", "c".repeat(98), "d".repeat(10));
    assert_eq!(truncate_cell(&wide), format!("{}é...", "c".repeat(98)));
}

#[test]
fn export_names_and_text() {
    let mut v = connected();
    assert!(!v.can_export());
    v.parse_response(r#"[{"a":"1,2","b":"q"}]"#);
    assert!(v.can_export());
    assert_eq!(v.export_file_name(), "users.csv");
    assert_eq!(v.export_csv(), "a,b\n\"1,2\",q\n");
    v.exported("/tmp/users.csv");
    assert_eq!(v.status, "Exported to /tmp/users.csv");
}

#[test]
fn row_numbers_count_from_one() {
    assert_eq!(row_number(0), "1");
    assert_eq!(row_number(41), "42");
}

#[test]
fn unchanged_edit_keeps_every_bookmark() {
    let mut v = Viewer::new();
    v.bookmarks = vec![bookmark("a"), bookmark("b")];
    v.edit_bookmark(0);
    assert!(v.save_edit());
    let names: Vec<(String, String, String, String)> = v
        .bookmarks
        .iter()
        .map(|b| (b.name.clone(), b.url.clone(), b.anon_key.clone(), b.table.clone()))
        .collect();
    assert_eq!(
        names,
        vec![
            ("a".to_string(), "u-a".to_string(), "k-a".to_string(), "t-a".to_string()),
            ("b".to_string(), "u-b".to_string(), "k-b".to_string(), "t-b".to_string()),
        ]
    );
}

#[test]
fn short_rows_sort_as_empty_text() {
    let mut v = Viewer::new();
    v.rows = vec![strings(&["b", "x"]), strings(&["a"]), Vec::new()];
    v.sort_col = Some(1);
    let keys = text_keys(&v);
    v.sort_rows(&keys);
    assert_eq!(v.rows, vec![strings(&["a"]), Vec::<String>::new(), strings(&["b", "x"])]);
}

#[test]
fn nan_ties_with_numbers() {
    let mut v = Viewer::new();
    v.rows = vec![strings(&["3"]), strings(&["NaN"]), strings(&["1"])];
    let keys = vec![NumericKey::Ordered(3), NumericKey::Unordered, NumericKey::Ordered(1)];
    v.click_header(0, &keys);
    // NaN ties with both numbers, so 1 stops behind it: no row moves.
    assert_eq!(v.rows, vec![strings(&["3"]), strings(&["NaN"]), strings(&["1"])]);
}

#[test]
fn received_bad_json_reports_the_parser_message() {
    let mut v = connected();
    v.connect();
    assert!(!v.receive(Ok("[1,".to_string())));
    let message = serde_json::from_str::<serde_json::Value>("[1,").unwrap_err().to_string();
    assert_eq!(v.status, format!("JSON error: {}", message));
    assert_eq!(v.error_msg, "[1,");
    assert!(!v.loading);
}

#[test]
fn columns_come_out_strictly_increasing() {
    let mut v = connected();
    v.parse_response(r#"[{"b":1,"a":2,"c":3,"a":4}]"#);
    assert_eq!(v.columns, strings(&["a", "b", "c"]));
    assert_eq!(v.rows, vec![strings(&["4", "1", "3"])]);
    for w in v.columns.windows(2) {
        assert!(w[0] < w[1]);
    }
}

#[test]
fn sorting_again_changes_nothing() {
    let mut v = connected();
    v.parse_response(r#"[{"k":"b","i":1},{"k":"a","i":2},{"k":"b","i":3},{"k":"a","i":4}]"#);
    let keys = text_keys(&v);
    v.click_header(1, &keys);
    let once = v.rows.clone();
    let keys = text_keys(&v);
    v.sort_rows(&keys);
    assert_eq!(v.rows, once);
    assert_eq!(once, vec![strings(&["2", "a"]), strings(&["4", "a"]), strings(&["1", "b"]), strings(&["3", "b"])]);
}

#[test]
fn descending_reverses_ascending_without_ties() {
    let mut v = connected();
    v.parse_response(r#"[{"k":"c"},{"k":"a"},{"k":"d"},{"k":"b"}]"#);
    let keys = text_keys(&v);
    v.click_header(0, &keys);
    let up = v.rows.clone();
    let keys = text_keys(&v);
    v.click_header(0, &keys);
    assert!(!v.sort_asc);
    let mut reversed = up.clone();
    reversed.reverse();
    assert_eq!(v.rows, reversed);
}
