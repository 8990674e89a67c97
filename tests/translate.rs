use csv_translate::column::{CsvColumn, DenseCsvColumn, TranslatedDenseCsvColumn};
use csv_translate::densify::{densify_csv_columns, densify_values};
use csv_translate::mapping::ColumnMapping;
use csv_translate::table::{columns_from_records, parse_csv, TableError};
use csv_translate::text::{chars_of, text_less};
use csv_translate::translate::{build_mappings, translate_columns, TranslateError, TranslatedTable};

fn strings(v: &[&str]) -> Vec<String> {
    v.iter().map(|s| s.to_string()).collect()
}

fn column(header: &str, values: &[&str]) -> CsvColumn {
    CsvColumn { header: header.to_string(), values: strings(values) }
}

fn entry(header: &str, values: Option<&[&str]>, delete: bool) -> TranslatedDenseCsvColumn {
    TranslatedDenseCsvColumn { header: header.to_string(), values: values.map(strings), delete }
}

fn rows(t: &TranslatedTable) -> Vec<Vec<&str>> {
    t.rows.iter().map(|r| r.iter().map(|s| s.as_str()).collect()).collect()
}

fn verbatim(columns: &[CsvColumn]) -> Vec<TranslatedDenseCsvColumn> {
    densify_csv_columns(columns)
        .into_iter()
        .map(|d| TranslatedDenseCsvColumn { header: d.header, values: Some(d.values), delete: false })
        .collect()
}

#[test]
fn densify_drops_empties_and_duplicates() {
    assert_eq!(densify_values(&strings(&["b", "", "a", "b", "a"])), strings(&["a", "b"]));
}

#[test]
fn densify_empty_column() {
    assert_eq!(densify_values(&strings(&["", ""])), Vec::<String>::new());
    assert_eq!(densify_values(&Vec::new()), Vec::<String>::new());
}

#[test]
fn densify_orders_by_scalar_value() {
    let out = densify_values(&strings(&["b", "B", "ab", "a", "é", "z", "a"]));
    assert_eq!(out, strings(&["B", "a", "ab", "b", "z", "é"]));
}

#[test]
fn densify_keeps_columns_and_headers() {
    let cols = vec![column("x", &["2", "1"]), column("y", &["", "q"])];
    let dense: Vec<DenseCsvColumn> = densify_csv_columns(&cols);
    assert_eq!(dense.len(), 2);
    assert_eq!(dense[0].header, "x");
    assert_eq!(dense[0].values, strings(&["1", "2"]));
    assert_eq!(dense[1].header, "y");
    assert_eq!(dense[1].values, strings(&["q"]));
}

#[test]
fn text_order_exact() {
    assert!(text_less("a", "b"));
    assert!(!text_less("b", "a"));
    assert!(text_less("", "a"));
    assert!(!text_less("a", "a"));
    assert!(text_less("ab", "abc"));
    assert!(!text_less("abc", "ab"));
    assert!(text_less("Z", "a"));
    assert_eq!(chars_of("hé"), vec!['h', 'é']);
}

#[test]
fn records_zip_by_position() {
    let headers = strings(&["a", "b", "c"]);
    let records = vec![strings(&["1", "2", "3"]), strings(&["4"]), strings(&["5", "6", "7", "8"])];
    let cols = columns_from_records(&headers, &records);
    assert_eq!(cols.len(), 3);
    assert_eq!(cols[0].values, strings(&["1", "4", "5"]));
    assert_eq!(cols[1].values, strings(&["2", "6"]));
    assert_eq!(cols[2].header, "c");
    assert_eq!(cols[2].values, strings(&["3", "7"]));
}

#[test]
fn parse_csv_reads_columns() {
    let cols = parse_csv(b"name,color\nalice,red\nbob,\"blue, dark\"\n").unwrap();
    assert_eq!(cols.len(), 2);
    assert_eq!(cols[0].header, "name");
    assert_eq!(cols[0].values, strings(&["alice", "bob"]));
    assert_eq!(cols[1].header, "color");
    assert_eq!(cols[1].values, strings(&["red", "blue, dark"]));
}

#[test]
fn parse_csv_rejects_uneven_records() {
    assert!(matches!(parse_csv(b"a,b\n1,2\n3\n"), Err(TableError::Record { index: 1 })));
}

#[test]
fn parse_csv_locates_bad_first_record() {
    assert!(matches!(parse_csv(b"a,b\n1\n"), Err(TableError::Record { index: 0 })));
}

#[test]
fn parse_csv_rejects_bad_header() {
    assert!(matches!(parse_csv(b"\xff,b\n1,2\n"), Err(TableError::Header)));
}

#[test]
fn scenario_names_translated_colors_passed_through() {
    let cols = parse_csv(b"name,color\nalice,red\nbob,blue\ncarol,red\n").unwrap();
    let dense = densify_csv_columns(&cols);
    assert_eq!(dense[0].values, strings(&["alice", "bob", "carol"]));
    assert_eq!(dense[1].values, strings(&["blue", "red"]));
    let entries = vec![
        entry("name", Some(&["Alice", "Bob", "Carol"]), false),
        entry("color", None, false),
    ];
    let t = translate_columns(&cols, &entries).unwrap();
    assert_eq!(t.header, strings(&["name", "color"]));
    assert_eq!(rows(&t), vec![vec!["Alice", "red"], vec!["Bob", "blue"], vec!["Carol", "red"]]);
}

#[test]
fn round_trip_reproduces_table() {
    let cols = vec![
        column("k", &["x", "", "y", "x"]),
        column("v", &["1", "2", "", "1"]),
    ];
    let t = translate_columns(&cols, &verbatim(&cols)).unwrap();
    assert_eq!(t.header, strings(&["k", "v"]));
    assert_eq!(
        rows(&t),
        vec![vec!["x", "1"], vec!["", "2"], vec!["y", ""], vec!["x", "1"]]
    );
}

#[test]
fn pass_through_keeps_values_and_empties() {
    let cols = vec![column("a", &["p", "", "q"]), column("b", &["1", "2", "3"])];
    let entries = vec![entry("a", None, false), entry("b", Some(&["one", "two", "three"]), false)];
    let t = translate_columns(&cols, &entries).unwrap();
    assert_eq!(rows(&t), vec![vec!["p", "one"], vec!["", "two"], vec!["q", "three"]]);
}

#[test]
fn deleted_column_leaves_output() {
    let cols = vec![column("a", &["1", "2"]), column("b", &["x", "y"]), column("c", &["m", "n"])];
    let entries = vec![entry("a", None, true), entry("b", None, false), entry("c", Some(&["M", "N"]), false)];
    let t = translate_columns(&cols, &entries).unwrap();
    assert_eq!(t.header, strings(&["b", "c"]));
    assert_eq!(rows(&t), vec![vec!["x", "M"], vec!["y", "N"]]);
}

#[test]
fn header_comes_from_manifest() {
    let cols = vec![column("name", &["a"])];
    let entries = vec![entry("Name", None, false)];
    let t = translate_columns(&cols, &entries).unwrap();
    assert_eq!(t.header, strings(&["Name"]));
}

#[test]
fn empty_stays_empty_in_translated_column() {
    let cols = vec![column("a", &["", "u", ""])];
    let entries = vec![entry("a", Some(&["U"]), false)];
    let t = translate_columns(&cols, &entries).unwrap();
    assert_eq!(rows(&t), vec![vec![""], vec!["U"], vec![""]]);
}

#[test]
fn values_are_mapped_in_listed_order() {
    let cols = vec![column("a", &["b", "a", "b"])];
    let entries = vec![entry("a", Some(&["first", "second"]), false)];
    let t = translate_columns(&cols, &entries).unwrap();
    assert_eq!(rows(&t), vec![vec!["second"], vec!["first"], vec!["second"]]);
}

#[test]
fn one_entry_short_fails_column_count() {
    let cols = vec![column("a", &["1"]), column("b", &["2"])];
    let entries = vec![entry("a", None, false)];
    assert!(matches!(translate_columns(&cols, &entries), Err(TranslateError::ColumnCount)));
}

#[test]
fn wrong_value_count_names_header() {
    let cols = vec![column("a", &["1"]), column("b", &["2", "3", "2"])];
    let entries = vec![entry("a", None, false), entry("b", Some(&["x"]), false)];
    match translate_columns(&cols, &entries) {
        Err(TranslateError::ValuesCount { header }) => assert_eq!(header, "b"),
        other => panic!("unexpected {:?}", other),
    }
}

#[test]
fn deleted_with_values_conflicts() {
    let cols = vec![column("a", &["1", "2"])];
    let entries = vec![entry("a", Some(&["x", "y"]), true)];
    match translate_columns(&cols, &entries) {
        Err(TranslateError::Conflict { header }) => assert_eq!(header, "a"),
        other => panic!("unexpected {:?}", other),
    }
}

#[test]
fn value_count_checked_before_conflict() {
    let cols = vec![column("a", &["1", "2"])];
    let entries = vec![entry("a", Some(&["x"]), true)];
    assert!(matches!(translate_columns(&cols, &entries), Err(TranslateError::ValuesCount { .. })));
}

#[test]
fn short_kept_column_fails() {
    let cols = vec![column("a", &["1", "2"]), column("b", &["x"])];
    let entries = vec![entry("a", None, false), entry("b", None, false)];
    assert!(matches!(translate_columns(&cols, &entries), Err(TranslateError::ShortColumn)));
    let entries = vec![entry("a", None, false), entry("b", None, true)];
    let t = translate_columns(&cols, &entries).unwrap();
    assert_eq!(rows(&t), vec![vec!["1"], vec!["2"]]);
}

#[test]
fn no_columns_no_rows() {
    let t = translate_columns(&Vec::new(), &Vec::new()).unwrap();
    assert!(t.header.is_empty());
    assert!(t.rows.is_empty());
}

#[test]
fn mappings_pair_values_in_order() {
    let cols = vec![column("a", &["q", "p"]), column("b", &["z"])];
    let dense = densify_csv_columns(&cols);
    let entries = vec![entry("a", Some(&["P", "Q"]), false), entry("b", None, false)];
    let maps: Vec<ColumnMapping> = build_mappings(&dense, &entries).unwrap();
    assert_eq!(maps[0].translate_value(&"p".to_string()), Some("P".to_string()));
    assert_eq!(maps[0].translate_value(&"q".to_string()), Some("Q".to_string()));
    assert_eq!(maps[0].translate_value(&"r".to_string()), None);
    assert_eq!(maps[1].translate_value(&"z".to_string()), None);
}

#[test]
fn render_csv_quotes_and_orders_records() {
    let t = TranslatedTable {
        header: strings(&["name", "note"]),
        rows: vec![strings(&["Alice", "a, b"]), strings(&["Bob", ""])],
    };
    let text = csv_translate::output::render_csv(&t);
    assert_eq!(String::from_utf8(text).unwrap(), "name,note\nAlice,\"a, b\"\nBob,\n");
}

#[test]
fn extract_translate_scenario_as_text() {
    let cols = parse_csv(b"name,color\nalice,red\nbob,blue\ncarol,red\n").unwrap();
    let entries = vec![
        entry("name", Some(&["Alice", "Bob", "Carol"]), false),
        entry("color", None, false),
    ];
    let t = translate_columns(&cols, &entries).unwrap();
    let text = csv_translate::output::render_csv(&t);
    assert_eq!(String::from_utf8(text).unwrap(), "name,color\nAlice,red\nBob,blue\nCarol,red\n");
}
