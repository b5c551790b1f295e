use wcr::count;
use wcr::FileInfo;

#[test]
fn test_count() {
    let text = "I don't want the world.  I just want your half.\r\n";
    // The fixture is 49 bytes long: 47 visible characters and the trailing
    // carriage return + line feed, both of which the byte count includes.
    assert_eq!(text.len(), 49);
    let info = count(text.as_bytes());
    let expected = FileInfo { num_lines: 1, num_words: 10, num_chars: 49, num_bytes: 49 };
    assert_eq!(info, expected);
}

#[test]
fn test_count_48_byte_fixture() {
    let text = "I don't want the world. I just want your half.\r\n";
    assert_eq!(text.len(), 48);
    let info = count(text.as_bytes());
    let expected = FileInfo { num_lines: 1, num_words: 10, num_chars: 48, num_bytes: 48 };
    assert_eq!(info, expected);
}

#[test]
fn test_count_empty() {
    let info = count(b"");
    let expected = FileInfo { num_lines: 0, num_words: 0, num_chars: 0, num_bytes: 0 };
    assert_eq!(info, expected);
}

#[test]
fn test_count_trailing_fragment_is_a_line() {
    // No terminator at the end: the trailing bytes still count as one line.
    let info = count(b"one two");
    assert_eq!(info.num_lines, 1);
    assert_eq!(info.num_words, 2);
    assert_eq!(info.num_bytes, 7);

    let info = count(b"one two\n");
    assert_eq!(info.num_lines, 1);
    assert_eq!(info.num_bytes, 8);

    let info = count(b"a\nb");
    assert_eq!(info.num_lines, 2);

    let info = count(b"a\n\n");
    assert_eq!(info.num_lines, 2);
    assert_eq!(info.num_words, 1);
}

#[test]
fn test_count_crlf_bytes() {
    // The carriage return is part of the byte count even though the pair
    // terminates a single line.
    let info = count(b"x\r\n");
    assert_eq!(info.num_lines, 1);
    assert_eq!(info.num_words, 1);
    assert_eq!(info.num_bytes, 3);
    assert_eq!(info.num_chars, 3);
}

#[test]
fn test_count_multibyte_characters() {
    // Two-byte UTF-8 sequences count as one character each.
    let text = "héllo\n";
    assert_eq!(text.len(), 7);
    let info = count(text.as_bytes());
    assert_eq!(info.num_bytes, 7);
    assert_eq!(info.num_chars, 6);
    assert_eq!(info.num_words, 1);
    assert_eq!(info.num_lines, 1);
}

#[test]
fn test_count_collapsed_whitespace_same_words() {
    // Repeated whitespace delimits the same words as a single separator.
    let spread = count(b"alpha  \t beta");
    let tight = count(b"alpha beta");
    assert_eq!(spread.num_words, tight.num_words);
    assert_eq!(spread.num_words, 2);
}

#[test]
fn test_count_edge_whitespace_adds_no_words() {
    let info = count(b"  word  ");
    assert_eq!(info.num_words, 1);
    let info = count(b" \t \n ");
    assert_eq!(info.num_words, 0);
}
