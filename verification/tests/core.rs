use supabase_viewer::csv::to_csv;
use supabase_viewer::json::{parse_document, render_cell, JsonCell, JsonDocument, JsonRecord};
use supabase_viewer::request::{api_url, fetch_request, outcome, request_headers, Reply};
use supabase_viewer::table::{build_rows, compare_cells, row_order, sort_texts, NumericKey};
use supabase_viewer::table::NumericKey::{NotNumeric, Ordered, Unordered};
use supabase_viewer::text::{chars_of, compare_text, decimal_string, Order};

fn strings(items: &[&str]) -> Vec<String> {
    items.iter().map(|s| s.to_string()).collect()
}

#[test]
fn text_order_is_lexicographic_by_code_point() {
    assert_eq!(compare_text("abc", "abd"), Order::Less);
    assert_eq!(compare_text("abc", "ab"), Order::Greater);
    assert_eq!(compare_text("ab", "ab"), Order::Equal);
    assert_eq!(compare_text("", "a"), Order::Less);
    assert_eq!(compare_text("Z", "a"), Order::Less);
    assert_eq!(compare_text("é", "z"), Order::Greater);
}

#[test]
fn text_order_agrees_with_str_order() {
    let samples = ["", "a", "ab", "b", "B", "ä", "日本", "10", "9", "-1"];
    for a in samples.iter() {
        for b in samples.iter() {
            let expected = match a.cmp(b) {
                std::cmp::Ordering::Less => Order::Less,
                std::cmp::Ordering::Equal => Order::Equal,
                std::cmp::Ordering::Greater => Order::Greater,
            };
            assert_eq!(compare_text(a, b), expected, "{} vs {}", a, b);
        }
    }
}

#[test]
fn decimal_rendering_matches_display() {
    for n in [0usize, 7, 10, 42, 305, 1000, 987654321, usize::MAX] {
        assert_eq!(decimal_string(n), n.to_string());
    }
}

#[test]
fn chars_of_collects_every_character() {
    assert_eq!(chars_of("añ日"), vec!['a', 'ñ', '日']);
    assert!(chars_of("").is_empty());
}

#[test]
fn api_url_drops_trailing_slashes() {
    assert_eq!(api_url("https://x.supabase.co", "users"), "https://x.supabase.co/rest/v1/users?select=*");
    assert_eq!(api_url("https://x.supabase.co///", "users"), "https://x.supabase.co/rest/v1/users?select=*");
    assert_eq!(api_url("", "t"), "/rest/v1/t?select=*");
    assert_eq!(api_url("///", "t"), "/rest/v1/t?select=*");
}

#[test]
fn request_headers_carry_the_key() {
    let h = request_headers("KEY");
    assert_eq!(
        h,
        vec![
            ("apikey".to_string(), "KEY".to_string()),
            ("Authorization".to_string(), "Bearer KEY".to_string()),
            ("Content-Type".to_string(), "application/json".to_string()),
            ("Prefer".to_string(), "return=representation".to_string()),
        ]
    );
    let req = fetch_request("https://h/", "KEY", "items");
    assert_eq!(req.url, "https://h/rest/v1/items?select=*");
    assert_eq!(req.headers, h);
}

#[test]
fn success_reply_hands_body_on() {
    let r = outcome(Reply::Received { status: 200, body: Ok("[]".to_string()) });
    assert_eq!(r, Ok("[]".to_string()));
    let r = outcome(Reply::Received { status: 299, body: Ok("x".to_string()) });
    assert_eq!(r, Ok("x".to_string()));
}

#[test]
fn failed_status_reports_code_and_reason() {
    let r = outcome(Reply::Received { status: 404, body: Ok("nope".to_string()) });
    assert_eq!(r, Err("HTTP 404 Not Found: nope".to_string()));
    let r = outcome(Reply::Received { status: 300, body: Ok("".to_string()) });
    assert_eq!(r, Err("HTTP 300 Multiple Choices: ".to_string()));
    let r = outcome(Reply::Received { status: 599, body: Ok("b".to_string()) });
    assert_eq!(r, Err("HTTP 599 <unknown status code>: b".to_string()));
    let r = outcome(Reply::Received { status: 199, body: Ok("b".to_string()) });
    assert!(r.is_err());
}

#[test]
fn unreadable_body_and_connection_errors() {
    let r = outcome(Reply::Received { status: 200, body: Err("decode".to_string()) });
    assert_eq!(r, Err("Error: decode".to_string()));
    let r = outcome(Reply::Unreachable("refused".to_string()));
    assert_eq!(r, Err("Connection error: refused".to_string()));
}

fn object(entries: &[(&str, JsonCell)]) -> Vec<(String, JsonCell)> {
    entries.iter().map(|(k, v)| (k.to_string(), clone_cell(v))).collect()
}

fn clone_cell(c: &JsonCell) -> JsonCell {
    match c {
        JsonCell::Null => JsonCell::Null,
        JsonCell::Bool(b) => JsonCell::Bool(*b),
        JsonCell::Number(t) => JsonCell::Number(t.clone()),
        JsonCell::Text(t) => JsonCell::Text(t.clone()),
        JsonCell::Nested(t) => JsonCell::Nested(t.clone()),
    }
}

fn cell_texts(doc: &JsonDocument) -> Vec<Vec<(String, String)>> {
    match doc {
        JsonDocument::Array(items) => items
            .iter()
            .map(|r| match r {
                JsonRecord::Object(es) => es.iter().map(|(k, v)| (k.clone(), render_cell(v))).collect(),
                JsonRecord::Other => vec![],
            })
            .collect(),
        JsonDocument::Other => panic!("not an array"),
    }
}

#[test]
fn parse_document_takes_an_array_apart() {
    let doc = parse_document(r#"[{"b": 1.5, "a": "x", "c": null, "d": true, "e": [1, 2], "f": {"k": "v"}}, 3]"#)
        .unwrap();
    let texts = cell_texts(&doc);
    assert_eq!(texts.len(), 2);
    assert_eq!(
        texts[0],
        vec![
            ("a".to_string(), "x".to_string()),
            ("b".to_string(), "1.5".to_string()),
            ("c".to_string(), "NULL".to_string()),
            ("d".to_string(), "true".to_string()),
            ("e".to_string(), "[1,2]".to_string()),
            ("f".to_string(), "{\"k\":\"v\"}".to_string()),
        ]
    );
    assert!(texts[1].is_empty());
}

#[test]
fn parse_document_other_values_and_errors() {
    assert!(matches!(parse_document("{\"a\": 1}"), Ok(JsonDocument::Other)));
    assert!(matches!(parse_document("42"), Ok(JsonDocument::Other)));
    let err = parse_document("not json").err().unwrap();
    assert!(err.contains("line 1"));
    assert!(parse_document("").is_err());
}

#[test]
fn sort_texts_orders_like_vec_sort() {
    let v = strings(&["id", "Name", "age", "b", "a"]);
    let mut expected = v.clone();
    expected.sort();
    assert_eq!(sort_texts(&v), expected);
    assert_eq!(sort_texts(&Vec::new()), Vec::<String>::new());
}

#[test]
fn build_rows_looks_up_each_column() {
    let items = vec![
        JsonRecord::Object(object(&[("a", JsonCell::Number("1".into())), ("b", JsonCell::Text("x".into()))])),
        JsonRecord::Object(object(&[("b", JsonCell::Bool(false))])),
        JsonRecord::Other,
    ];
    let rows = build_rows(&items, &strings(&["a", "b"]));
    assert_eq!(
        rows,
        vec![strings(&["1", "x"]), strings(&["", "false"]), strings(&["", ""])]
    );
}

#[test]
fn compare_cells_by_number_then_text() {
    assert_eq!(compare_cells("10", Ordered(10), "9", Ordered(9)), Order::Greater);
    assert_eq!(compare_cells("10", NotNumeric, "9", Ordered(9)), Order::Less);
    assert_eq!(compare_cells("NaN", Unordered, "9", Ordered(9)), Order::Equal);
    assert_eq!(compare_cells("NaN", Unordered, "x", NotNumeric), Order::Less);
    assert_eq!(compare_cells("a", NotNumeric, "a", NotNumeric), Order::Equal);
}

#[test]
fn row_order_is_stable_both_ways() {
    let rows = vec![strings(&["b", "1"]), strings(&["a", "2"]), strings(&["b", "3"]), strings(&["a", "4"])];
    let keys = vec![NotNumeric; 4];
    assert_eq!(row_order(&rows, &keys, 0, true), vec![1, 3, 0, 2]);
    assert_eq!(row_order(&rows, &keys, 0, false), vec![0, 2, 1, 3]);
    let keys = vec![Ordered(5), Ordered(1), Ordered(5), Ordered(0)];
    assert_eq!(row_order(&rows, &keys, 1, true), vec![3, 1, 0, 2]);
    assert_eq!(row_order(&rows, &keys, 1, false), vec![0, 2, 1, 3]);
}

#[test]
fn csv_quotes_only_where_needed() {
    let csv = to_csv(
        &strings(&["name", "note"]),
        &vec![strings(&["plain", "a,b"]), strings(&["say \"hi\"", "two\nlines"])],
    );
    assert_eq!(csv, "name,note\nplain,\"a,b\"\n\"say \"\"hi\"\"\",\"two\nlines\"\n");
    assert_eq!(to_csv(&strings(&["x"]), &vec![]), "x\n");
    assert_eq!(to_csv(&vec![], &vec![]), "\n");
}

/// Reads one line of comma-separated values, quoted fields included.
fn read_line(line: &str) -> Vec<String> {
    let mut fields = Vec::new();
    let mut cur = String::new();
    let mut quoted = false;
    let chars: Vec<char> = line.chars().collect();
    let mut i = 0;
    while i < chars.len() {
        let c = chars[i];
        if quoted {
            if c == '"' {
                if i + 1 < chars.len() && chars[i + 1] == '"' {
                    cur.push('"');
                    i += 1;
                } else {
                    quoted = false;
                }
            } else {
                cur.push(c);
            }
        } else if c == '"' {
            quoted = true;
        } else if c == ',' {
            fields.push(std::mem::take(&mut cur));
        } else {
            cur.push(c);
        }
        i += 1;
    }
    fields.push(cur);
    fields
}

#[test]
fn exported_cells_read_back() {
    let row = strings(&["plain", "a,b", "say \"hi\"", "\"", "x\"\"y", ""]);
    let csv = to_csv(&strings(&["h"]), &vec![row.clone()]);
    let body = csv.strip_prefix("h\n").unwrap().strip_suffix('\n').unwrap();
    assert_eq!(read_line(body), row);
}
