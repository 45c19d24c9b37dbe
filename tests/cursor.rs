use minilang::cursor::ToCursor;

#[test]
fn should_peek_items_and_return_next() {
    let mut cursor = "three".chars().collect::<Vec<char>>().to_cursor('\0');

    assert_eq!(cursor.peek_first(), 't');
    assert_eq!(cursor.peek_second(), 'h');
    assert_eq!(cursor.peek(4), 'e');
    assert_eq!(cursor.peek(5), '\0');

    assert_eq!(cursor.next_or_end(), 't');
    assert_eq!(cursor.next_or_end(), 'h');

    assert_eq!(cursor.peek(0), 'r');
    assert_eq!(cursor.peek(1), 'e');

    assert_eq!(cursor.next_or_end(), 'r');
    assert_eq!(cursor.next_or_end(), 'e');
    assert_eq!(cursor.next_or_end(), 'e');

    assert_eq!(cursor.peek(0), '\0');

    assert_eq!(cursor.next_or_end(), '\0');
}

#[test]
fn cursor_skips_and_matches() {
    let mut cursor = "aab=".chars().collect::<Vec<char>>().to_cursor('\0');
    cursor.skip_while(|c| c == 'a');
    assert_eq!(cursor.offset(), 2);
    assert!(!cursor.matches('='));
    assert_eq!(cursor.offset(), 2);
    assert_eq!(cursor.next_or_end(), 'b');
    assert!(cursor.matches('='));
    assert!(cursor.is_at_end());
    assert!(!cursor.matches('\u{1}'));
    assert_eq!(cursor.offset(), 4);
}
