use rusttc::cursor::Cursor;

#[test]
fn test_new_cursor() {
    let input = "Hello, world!";
    let cursor = Cursor::new(input);
    assert_eq!(cursor.input, input);
    assert_eq!(cursor.len, 0);
}

#[test]
fn test_bump() {
    let mut cursor = Cursor::new("abc");
    assert_eq!(cursor.bump(), 'a');
    assert_eq!(cursor.bump(), 'b');
    assert_eq!(cursor.bump(), 'c');
    assert_eq!(cursor.bump(), '\0'); // EOF
}

#[test]
fn test_peek() {
    let cursor = Cursor::new("abc");
    assert_eq!(cursor.first(), 'a');
    // `first` should not advance the position
    assert_eq!(cursor.len, 0);
}

#[test]
fn test_is_eof() {
    let mut cursor = Cursor::new("a");
    assert!(!cursor.is_eof());
    cursor.bump();
    assert!(cursor.is_eof());
}

#[test]
fn test_bump_advances_past_end() {
    let mut cursor = Cursor::new("a");
    assert_eq!(cursor.bump(), 'a');
    assert_eq!(cursor.len, 1);
    // At the end the sentinel comes back and the position still advances.
    assert_eq!(cursor.bump(), '\0');
    assert_eq!(cursor.len, 2);
    assert!(cursor.is_eof());
}

#[test]
fn test_second_lookahead() {
    let cursor = Cursor::new("abc");
    assert_eq!(cursor.second(), 'b');
    assert_eq!(cursor.len, 0);
    let short = Cursor::new("a");
    assert_eq!(short.second(), '\0');
    let empty = Cursor::new("");
    assert_eq!(empty.first(), '\0');
    assert_eq!(empty.second(), '\0');
}
