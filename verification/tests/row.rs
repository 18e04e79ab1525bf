use persql::row::{
    string_from_serialized, try_string_from_serialized, u32_to_u8, u8_to_u32, Row,
    EMAIL_OFFSET, ID_SIZE, ROW_SIZE, USERNAME_OFFSET,
};

#[test]
fn u32_to_u8_lower() {
    let mut expected: [u8; 4] = [0; ID_SIZE];
    expected[3] = 1;

    assert_eq!(u32_to_u8(1), expected);

    expected[2] = 1;

    assert_eq!(u32_to_u8(0x101), expected);

    expected[3] = 0;

    assert_eq!(u32_to_u8(std::u8::MAX as u32 + 1), expected);
}

#[test]
fn u32_to_u8_higher() {
    let expected: [u8; 4] = [std::u8::MAX; ID_SIZE];

    assert_eq!(u32_to_u8(std::u32::MAX), expected);

    let mut expected = expected;
    expected[0] = 0;
    expected[2] = 0;
    expected[3] = 0;

    assert_eq!(u32_to_u8(0x00ff0000), expected);
}

#[test]
fn u32_to_u8_and_back() {
    assert_eq!(1, u8_to_u32(u32_to_u8(1)));
    assert_eq!(255, u8_to_u32(u32_to_u8(255)));
    assert_eq!(256, u8_to_u32(u32_to_u8(256)));
    assert_eq!(0xff000000, u8_to_u32(u32_to_u8(0xff000000)));
    assert_eq!(0xffffffff, u8_to_u32(u32_to_u8(0xffffffff)));
    assert_eq!(0, u8_to_u32(u32_to_u8(0)));
}

#[test]
fn serialize() {
    let r = Row::new(1, String::from("ab"), String::from("cd"));

    let mut expected = vec![0; ROW_SIZE];
    expected[3] = 1; // the id to be 1, big-endian

    expected[USERNAME_OFFSET] = 97; // the first chars to be 97, 98
    expected[USERNAME_OFFSET + 1] = 98;

    expected[EMAIL_OFFSET] = 99; // the first chars to be 99, 100
    expected[EMAIL_OFFSET + 1] = 100;

    assert_eq!(r.serialize_row(), expected);
}

#[test]
fn deserialize() {
    let r = Row::new(1, String::from("ab"), String::from("cd"));

    let mut expected = vec![0; ROW_SIZE];
    expected[3] = 1; // the id to be 1

    expected[USERNAME_OFFSET] = 97; // the first chars to be 97, 98
    expected[USERNAME_OFFSET + 1] = 98;

    expected[EMAIL_OFFSET] = 99; // the first chars to be 99, 100
    expected[EMAIL_OFFSET + 1] = 100;

    assert_eq!(
        format!("{:?}", Row::deserialize_row(expected)),
        format!("{:?}", r)
    );
}

#[test]
fn simple_string_from_serialized() {
    let bytes: Vec<u8> = vec![97, 98];
    assert_eq!("ab", string_from_serialized(bytes));
}

#[test]
fn string_with_nulls_from_serialized() {
    let bytes: Vec<u8> = vec![99, 98, 0, 0];
    assert_eq!("cb", string_from_serialized(bytes));
}

#[test]
fn row_round_trip() {
    let r = Row::new(77, String::from("someone"), String::from("someone@example.org"));
    let back = Row::deserialize_row(r.serialize_row());
    assert_eq!(back.id, 77);
    assert_eq!(back.username, r.username);
    assert_eq!(back.email, r.email);
    assert_eq!("someone", string_from_serialized(back.username));
    assert_eq!("someone@example.org", string_from_serialized(back.email));
}

#[test]
fn multibyte_text_from_serialized() {
    let bytes: Vec<u8> = vec![0xc3, 0xa9, 0, 0];
    assert_eq!(Some(String::from("\u{e9}")), try_string_from_serialized(bytes));
}

#[test]
fn corrupt_text_from_serialized() {
    let bytes: Vec<u8> = vec![0xff, 97, 0];
    assert_eq!(None, try_string_from_serialized(bytes));
}
