use persql::row::{Row, ROW_SIZE};
use persql::table::{Table, TableError, PAGE_SIZE, ROWS_PER_PAGE, TABLE_MAX_ROWS};

#[test]
fn add_row() {
    let row = Row::new(1, String::from(""), String::from(""));
    let mut table = Table::db_open(Vec::new());
    assert!(table.num_rows == 0);

    assert!(table.insert_row(row).is_ok());
    assert!(table.num_rows == 1);
}

#[test]
fn row_slot_addressing() {
    assert_eq!(Table::row_slot(0), (0, 0));
    assert_eq!(Table::row_slot(1), (0, ROW_SIZE));
    assert_eq!(
        Table::row_slot(ROWS_PER_PAGE - 1),
        (0, (ROWS_PER_PAGE - 1) * ROW_SIZE)
    );
    assert_eq!(Table::row_slot(ROWS_PER_PAGE), (1, 0));
}

#[test]
fn capacity_guard() {
    let mut table = Table::db_open(Vec::new());
    let mut i: u32 = 0;
    while (i as usize) < TABLE_MAX_ROWS - 1 {
        let row = Row::new(i, String::from("u"), String::from("e"));
        assert!(table.insert_row(row).is_ok());
        i += 1;
    }
    assert_eq!(table.num_rows, TABLE_MAX_ROWS - 1);

    let row = Row::new(i, String::from("u"), String::from("e"));
    assert!(matches!(table.insert_row(row), Err(TableError::TableFull)));
    assert_eq!(table.num_rows, TABLE_MAX_ROWS - 1);
}

#[test]
fn close_writes_whole_pages() {
    let mut table = Table::db_open(Vec::new());
    let row = Row::new(9, String::from("a"), String::from("b"));
    table.insert_row(row).unwrap();

    let image = table.db_close();
    assert_eq!(image.len(), PAGE_SIZE);

    let expected = Row::new(9, String::from("a"), String::from("b")).serialize_row();
    assert_eq!(&image[..ROW_SIZE], &expected[..]);
    assert!(image[ROW_SIZE..].iter().all(|b| *b == 0));
}
