use wcr::format_field;
use wcr::format_line;
use wcr::format_total_line;
use wcr::Config;
use wcr::FileInfo;

#[test]
fn test_format_field_shown() {
    assert_eq!(format_field(48, true), "      48");
    assert_eq!(format_field(0, true), "       0");
    assert_eq!(format_field(12345678, true), "12345678");
    // A value wider than the column is not truncated.
    assert_eq!(format_field(123456789, true), "123456789");
}

#[test]
fn test_format_field_hidden() {
    assert_eq!(format_field(48, false), "");
    assert_eq!(format_field(0, false), "");
}

#[test]
fn test_format_line_stdin_has_no_name() {
    let config = Config::new(vec![String::from("-")], false, false, false, false);
    let info = FileInfo { num_lines: 1, num_words: 10, num_bytes: 48, num_chars: 48 };
    let line = format_line(&info, &config, "-");
    assert_eq!(line, "       1      10      48");
}

#[test]
fn test_format_line_file_has_name_suffix() {
    let config = Config::new(vec![String::from("half.txt")], false, false, false, false);
    let info = FileInfo { num_lines: 1, num_words: 10, num_bytes: 48, num_chars: 48 };
    let line = format_line(&info, &config, "half.txt");
    assert_eq!(line, "       1      10      48 half.txt");
}

#[test]
fn test_format_line_chars_only() {
    let config = Config::new(vec![String::from("a.txt")], false, false, false, true);
    let info = FileInfo { num_lines: 2, num_words: 3, num_bytes: 20, num_chars: 17 };
    let line = format_line(&info, &config, "a.txt");
    assert_eq!(line, "      17 a.txt");
}

#[test]
fn test_format_total_line_suffix() {
    let config = Config::new(vec![String::from("a"), String::from("b")], true, false, false, false);
    let totals = FileInfo { num_lines: 7, num_words: 9, num_bytes: 99, num_chars: 99 };
    let line = format_total_line(&totals, &config);
    assert_eq!(line, "       7 total");
}

#[test]
fn test_config_defaults_when_no_flag_given() {
    let config = Config::new(vec![String::from("-")], false, false, false, false);
    assert!(config.lines);
    assert!(config.words);
    assert!(config.bytes);
    assert!(!config.chars);
}

#[test]
fn test_config_keeps_explicit_flags() {
    let config = Config::new(vec![String::from("-")], false, false, false, true);
    assert!(!config.lines);
    assert!(!config.words);
    assert!(!config.bytes);
    assert!(config.chars);

    let config = Config::new(vec![String::from("-")], true, false, true, false);
    assert!(config.lines);
    assert!(!config.words);
    assert!(config.bytes);
    assert!(!config.chars);
}
