use htop_win::edit::{utf8_len, TextInput};

fn input(text: &str, cursor: usize) -> TextInput {
    TextInput { buffer: text.to_string(), cursor }
}

#[test]
fn typing_inserts_at_the_cursor_and_moves_past_the_character() {
    let mut t = TextInput::new("chrom".to_string());
    assert_eq!(t.cursor, 5);
    t.input_char('e');
    assert_eq!((t.buffer.as_str(), t.cursor), ("chrome", 6));
    let mut t = input("ab", 1);
    t.input_char('é');
    assert_eq!((t.buffer.as_str(), t.cursor), ("aéb", 3));
}

#[test]
fn typing_clamps_a_cursor_past_the_end_or_inside_a_character() {
    let mut t = input("ab", 10);
    t.input_char('c');
    assert_eq!((t.buffer.as_str(), t.cursor), ("abc", 3));
    // Byte 2 is inside 'é' (bytes 1..3): the edit happens before it.
    let mut t = input("aéb", 2);
    t.input_char('x');
    assert_eq!((t.buffer.as_str(), t.cursor), ("axéb", 2));
}

#[test]
fn backspace_erases_the_whole_character_before_the_cursor() {
    let mut t = input("aéb", 3);
    t.input_backspace();
    assert_eq!((t.buffer.as_str(), t.cursor), ("ab", 1));
    let mut t = input("ab", 0);
    t.input_backspace();
    assert_eq!((t.buffer.as_str(), t.cursor), ("ab", 0));
}

#[test]
fn delete_erases_the_character_at_the_cursor() {
    let mut t = input("a\u{1F600}b", 1);
    t.input_delete();
    assert_eq!((t.buffer.as_str(), t.cursor), ("ab", 1));
    let mut t = input("ab", 2);
    t.input_delete();
    assert_eq!((t.buffer.as_str(), t.cursor), ("ab", 2));
}

#[test]
fn left_and_right_step_over_whole_characters() {
    let mut t = input("aéb", 0);
    t.input_right();
    assert_eq!(t.cursor, 1);
    t.input_right();
    assert_eq!(t.cursor, 3);
    t.input_left();
    assert_eq!(t.cursor, 1);
    t.input_left();
    t.input_left();
    assert_eq!(t.cursor, 0);
    assert_eq!(t.buffer, "aéb");
}

#[test]
fn typing_then_backspace_gives_the_text_back() {
    for (text, cursor, c) in [("abc", 1, 'x'), ("aéb", 2, '\u{1F600}'), ("", 0, 'z'), ("ab", 9, 'ß')] {
        let mut t = input(text, cursor);
        t.input_char(c);
        t.input_backspace();
        assert_eq!(t.buffer, text);
    }
}

#[test]
fn utf8_len_counts_encoded_bytes() {
    for c in ['a', 'é', '€', '\u{1F600}'] {
        assert_eq!(utf8_len(c), c.len_utf8());
    }
}
