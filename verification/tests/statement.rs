use persql::statement::{parse_u32, prepare_statement, split_fields, PrepareError, StatementType};

#[test]
fn simple_insert() {
    let res = prepare_statement("insert 1 asdf jkl;");

    assert!(res.is_ok());
}

#[test]
fn insert_too_short() {
    let res = prepare_statement("insert");

    assert!(res.is_err());
    assert_eq!(res.unwrap_err(), PrepareError::SyntaxErr);
}

#[test]
fn simple_select() {
    let res = prepare_statement("select");

    assert!(res.is_ok());
}

#[test]
fn unrecognized_statement() {
    let res = prepare_statement("asdf");

    assert!(res.is_err());
    assert_eq!(res.unwrap_err(), PrepareError::UnrecognizedStatement);
}

#[test]
fn insert_carries_the_row() {
    let st = prepare_statement("insert 42 ada ada@example.com").unwrap();
    assert_eq!(st.statement_type, StatementType::Insert);
    let row = st.row_to_insert.unwrap();
    assert_eq!(row.id, 42);
    assert_eq!(&row.username[..3], b"ada");
    assert!(row.username[3..].iter().all(|b| *b == 0));
    assert_eq!(&row.email[..15], b"ada@example.com");
}

#[test]
fn insert_with_too_long_name() {
    let long = "x".repeat(33);
    let res = prepare_statement(&format!("insert 1 {} a@b", long));
    assert_eq!(res.unwrap_err(), PrepareError::InsertError);
}

#[test]
fn select_carries_no_row() {
    let st = prepare_statement("select anything").unwrap();
    assert_eq!(st.statement_type, StatementType::Select);
    assert!(st.row_to_insert.is_none());
}

#[test]
fn split_keeps_empty_fields() {
    let fields = split_fields(&b"a  b".to_vec());
    assert_eq!(fields, vec![b"a".to_vec(), b"".to_vec(), b"b".to_vec()]);
}

#[test]
fn parse_u32_bounds() {
    assert_eq!(parse_u32(&b"0".to_vec()), Some(0));
    assert_eq!(parse_u32(&b"4294967295".to_vec()), Some(u32::MAX));
    assert_eq!(parse_u32(&b"4294967296".to_vec()), None);
    assert_eq!(parse_u32(&b"".to_vec()), None);
    assert_eq!(parse_u32(&b"12a".to_vec()), None);
}
