//! Scenarios that run the whole store: cursor traversal, a full
//! insert/select session, and closing and reopening the file image.

use persql::cursor::Cursor;
use persql::row::{string_from_serialized, Row};
use persql::table::{Table, ROWS_PER_PAGE};

fn scan(table: &mut Table) -> Vec<Row> {
    let mut rows = Vec::new();
    let mut cursor = Cursor::table_start(table);
    while !cursor.end_of_table {
        rows.push(cursor.cursor_value(table));
        cursor.advance();
    }
    rows
}

#[test]
fn cursor_on_empty_table_is_done() {
    let table = Table::db_open(Vec::new());
    let cursor = Cursor::table_start(&table);
    assert!(cursor.end_of_table);
    assert_eq!(cursor.row_num, 0);
}

#[test]
fn cursor_terminates_after_exactly_n_advances() {
    let mut table = Table::db_open(Vec::new());
    let n: u32 = 5;
    for i in 0..n {
        let row = Row::new(i, String::from("u"), String::from("e"));
        table.insert_row(row).unwrap();
    }

    let mut cursor = Cursor::table_start(&table);
    for _ in 0..n {
        assert!(!cursor.end_of_table);
        cursor.advance();
    }
    assert!(cursor.end_of_table);
}

#[test]
fn add_row_through_cursor_appends_at_end() {
    let mut table = Table::db_open(Vec::new());
    let mut cursor = Cursor::table_end(&table);
    assert!(cursor.end_of_table);

    let row = Row::new(3, String::from("carol"), String::from("carol@example.net"));
    cursor.add_row(&mut table, row).unwrap();
    assert_eq!(table.num_rows, 1);
    assert_eq!(cursor.row_num, 1);

    let rows = scan(&mut table);
    assert_eq!(rows.len(), 1);
    assert_eq!(rows[0].id, 3);
}

#[test]
fn insert_select_close_reopen() {
    let mut table = Table::db_open(Vec::new());

    let row = Row::new(1, String::from("john"), String::from("example@example.com"));
    let mut cursor = Cursor::table_end(&table);
    cursor.add_row(&mut table, row).unwrap();

    let rows = scan(&mut table);
    assert_eq!(rows.len(), 1);
    assert_eq!(rows[0].id, 1);
    assert_eq!("john", string_from_serialized(rows[0].username.clone()));
    assert_eq!(
        "example@example.com",
        string_from_serialized(rows[0].email.clone())
    );

    let image = table.db_close();

    let mut reopened = Table::db_open(image);
    // The row count is recovered from the file length alone, so the
    // written page counts for a full page of rows; the stored row is
    // the first, the rest read back as all-zero rows.
    assert_eq!(reopened.num_rows, ROWS_PER_PAGE);
    let rows = scan(&mut reopened);
    assert_eq!(rows[0].id, 1);
    assert_eq!("john", string_from_serialized(rows[0].username.clone()));
    assert_eq!(
        "example@example.com",
        string_from_serialized(rows[0].email.clone())
    );
    assert!(rows[1..].iter().all(|r| r.id == 0));
}

#[test]
fn persistence_keeps_rows_in_order() {
    let mut table = Table::db_open(Vec::new());
    let names = ["alice", "bob", "carol"];
    for (i, name) in names.iter().enumerate() {
        let row = Row::new(
            i as u32,
            String::from(*name),
            format!("{}@example.com", name),
        );
        table.insert_row(row).unwrap();
    }

    let image = table.db_close();
    let mut reopened = Table::db_open(image);
    let rows = scan(&mut reopened);

    assert!(rows.len() >= names.len());
    for (i, name) in names.iter().enumerate() {
        assert_eq!(rows[i].id, i as u32);
        assert_eq!(*name, string_from_serialized(rows[i].username.clone()));
        assert_eq!(
            format!("{}@example.com", name),
            string_from_serialized(rows[i].email.clone())
        );
    }
}

#[test]
fn reopen_twice_keeps_rows() {
    let mut table = Table::db_open(Vec::new());
    let row = Row::new(8, String::from("dave"), String::from("dave@example.com"));
    table.insert_row(row).unwrap();

    let image = table.db_close();
    let mut second = Table::db_open(image);
    let image = second.db_close();
    let mut third = Table::db_open(image);

    let rows = scan(&mut third);
    assert_eq!(rows[0].id, 8);
    assert_eq!("dave", string_from_serialized(rows[0].username.clone()));
}
