use gdem::json::{Json, Record};
use gdem::style::{branch, show_table, show_tree, title_padding, Cell, Table, TreeLine};
use gdem::utils::{decimal, parse_u64};

fn text(s: &str) -> Json {
    Json::Text(s.to_string())
}

fn record(members: Vec<(&str, Json)>) -> Json {
    let mut rec = Record::new();
    for (name, value) in members {
        rec.insert(name.to_string(), value);
    }
    Json::Object(rec)
}

fn cell(s: &str) -> Cell {
    Cell::Text(s.to_string())
}

fn line(last: bool, active: bool, text: &str) -> TreeLine {
    TreeLine { last, active, text: text.to_string() }
}

#[test]
fn numbers_are_written_in_decimal() {
    assert_eq!(decimal(0), "0");
    assert_eq!(decimal(7), "7");
    assert_eq!(decimal(10), "10");
    assert_eq!(decimal(1234567890), "1234567890");
    assert_eq!(decimal(u64::MAX), "18446744073709551615");
}

#[test]
fn what_is_written_reads_back() {
    for n in [0u64, 1, 9, 10, 99, 100, 4096, u64::MAX - 1, u64::MAX] {
        assert_eq!(parse_u64(&decimal(n)), Some(n));
        assert_eq!(decimal(n), n.to_string());
    }
}

#[test]
fn no_table_of_nothing() {
    let table = show_table(&vec![]);
    assert_eq!(table, Table::Empty);
    assert_eq!(table.message(), Some("Empty data"));
}

#[test]
fn no_table_of_what_are_no_records() {
    let table = show_table(&vec![record(vec![("a", text("x"))]), text("stray")]);
    assert_eq!(table, Table::NotRecords);
    assert_eq!(table.message(), Some("Error: All items in data must be JSON objects"));
}

#[test]
fn columns_come_in_the_order_they_are_first_met() {
    let table = show_table(&vec![
        record(vec![("name", text("a.zip")), ("size", Json::Integer(5))]),
        record(vec![("updated_at", text("2025")), ("name", text("b.zip"))]),
        record(vec![("size", Json::Null), ("extra", Json::Bool(true))]),
    ]);
    assert_eq!(table.message(), None);
    assert_eq!(
        table,
        Table::Grid {
            columns: vec![
                "name".to_string(),
                "size".to_string(),
                "updated_at".to_string(),
                "extra".to_string(),
            ],
            rows: vec![
                vec![cell("a.zip"), Cell::Value(Json::Integer(5)), cell(""), cell("")],
                vec![cell("b.zip"), cell(""), cell("2025"), cell("")],
                vec![cell(""), cell(""), cell(""), Cell::Value(Json::Bool(true))],
            ],
        }
    );
}

#[test]
fn records_without_members_give_rows_without_cells() {
    let table = show_table(&vec![record(vec![]), record(vec![])]);
    assert_eq!(table, Table::Grid { columns: vec![], rows: vec![vec![], vec![]] });
}

#[test]
fn a_title_stands_in_the_middle() {
    assert_eq!(title_padding(20, 6), 7);
    assert_eq!(title_padding(21, 6), 7);
    assert_eq!(title_padding(6, 6), 0);
}

#[test]
fn tree_lines_are_numbered_and_the_active_one_is_marked() {
    let versions = vec!["4.4.1".to_string(), "4.4".to_string(), "4.3".to_string()];
    assert_eq!(
        show_tree(&versions, "4.4"),
        vec![
            line(false, false, " 1) 4.4.1"),
            line(false, true, "*2) 4.4"),
            line(true, false, " 3) 4.3"),
        ]
    );
    assert_eq!(show_tree(&vec![], "4.4"), vec![]);
    assert_eq!(show_tree(&vec!["only".to_string()], ""), vec![line(true, false, " 1) only")]);
}

#[test]
fn tree_lines_count_past_nine() {
    let versions: Vec<String> = (0..12).map(|i| format!("v{}", i)).collect();
    let lines = show_tree(&versions, "v9");
    assert_eq!(lines[9], line(false, true, "*10) v9"));
    assert_eq!(lines[11], line(true, false, " 12) v11"));
}

#[test]
fn strokes_of_the_tree() {
    assert_eq!(branch(true), "└──");
    assert_eq!(branch(false), "├──");
}
