use oxide::data::{cells_table, csv_cells, parse_int, type_cell, Cell};

#[test]
fn csv_fields_are_typed() {
    let t = csv_cells("name,age,ok,score\nann,42,true,1.5\nbob,-7,false,\n").unwrap();
    assert_eq!(t.headers, vec!["name", "age", "ok", "score"]);
    assert_eq!(t.rows.len(), 2);
    assert_eq!(
        t.rows[0],
        vec![Cell::Text("ann".to_string()), Cell::Int(42), Cell::Bool(true), Cell::Text("1.5".to_string())]
    );
    assert_eq!(t.rows[1], vec![Cell::Text("bob".to_string()), Cell::Int(-7), Cell::Bool(false), Cell::Null]);
}

#[test]
fn csv_quoted_fields() {
    let t = csv_cells("a,b\n\"x, y\",\"2\"\n").unwrap();
    assert_eq!(t.rows, vec![vec![Cell::Text("x, y".to_string()), Cell::Int(2)]]);
}

#[test]
fn csv_header_only_and_empty() {
    let t = csv_cells("a,b\n").unwrap();
    assert_eq!(t.headers, vec!["a", "b"]);
    assert!(t.rows.is_empty());
    let e = csv_cells("").unwrap();
    assert!(e.headers.is_empty());
    assert!(e.rows.is_empty());
}

#[test]
fn csv_ragged_record_is_an_error() {
    let e = match csv_cells("a,b\n1\n") {
        Ok(_) => panic!("a ragged record was accepted"),
        Err(e) => e,
    };
    assert!(e.starts_with("Failed to read CSV row: "), "{}", e);
}

#[test]
fn int_fields_match_std() {
    for s in [
        "0", "42", "-42", "+7", "-0", "", "-", "+", "+-1", "--1", "1a", " 1", "007",
        "9223372036854775807", "9223372036854775808", "-9223372036854775808",
        "-9223372036854775809", "18446744073709551616", "99999999999999999999999",
    ] {
        assert_eq!(parse_int(s), s.parse::<i64>().ok(), "{:?}", s);
    }
}

#[test]
fn cells_by_kind() {
    assert_eq!(type_cell(""), Cell::Null);
    assert_eq!(type_cell("-9223372036854775808"), Cell::Int(i64::MIN));
    assert_eq!(type_cell("true"), Cell::Bool(true));
    assert_eq!(type_cell("True"), Cell::Text("True".to_string()));
    assert_eq!(type_cell("9223372036854775808"), Cell::Text("9223372036854775808".to_string()));
}

#[test]
fn table_from_records() {
    let h = vec!["a".to_string(), "b".to_string()];
    let rows = vec![
        vec!["1".to_string(), "".to_string()],
        vec!["short".to_string()],
        vec!["false".to_string(), "x".to_string()],
    ];
    let t = cells_table(h, &rows);
    assert_eq!(t.headers, vec!["a", "b"]);
    assert_eq!(t.rows, vec![vec![Cell::Int(1), Cell::Null], vec![Cell::Bool(false), Cell::Text("x".to_string())]]);
}
