use wcr::run_report;
use wcr::Config;

#[test]
fn test_report_skips_failed_input_but_totals_valid_one() {
    // Two inputs configured; the first could not be opened. The report has
    // one data line for the readable file and a totals line that reflects
    // only that file.
    let config = Config::new(
        vec![String::from("missing.txt"), String::from("ok.txt")],
        false,
        false,
        false,
        false,
    );
    let inputs = vec![None, Some(b"one two\n".to_vec())];
    let out = run_report(&config, &inputs);
    assert_eq!(out.len(), 2);
    assert_eq!(out[0], "       1       2       8 ok.txt");
    assert_eq!(out[1], "       1       2       8 total");
}

#[test]
fn test_report_single_input_has_no_totals() {
    let config = Config::new(vec![String::from("ok.txt")], false, false, false, false);
    let inputs = vec![Some(b"one two\n".to_vec())];
    let out = run_report(&config, &inputs);
    assert_eq!(out.len(), 1);
    assert_eq!(out[0], "       1       2       8 ok.txt");
}

#[test]
fn test_report_totals_line_even_when_every_input_failed() {
    // More than one input was configured, so the totals line appears even
    // though no input could be read.
    let config = Config::new(vec![String::from("a"), String::from("b")], false, false, false, false);
    let inputs = vec![None, None];
    let out = run_report(&config, &inputs);
    assert_eq!(out.len(), 1);
    assert_eq!(out[0], "       0       0       0 total");
}

#[test]
fn test_report_stdin_alone_has_no_name_suffix() {
    let config = Config::new(vec![String::from("-")], false, false, false, false);
    let inputs = vec![Some(b"hi\n".to_vec())];
    let out = run_report(&config, &inputs);
    assert_eq!(out.len(), 1);
    assert_eq!(out[0], "       1       1       3");
}

#[test]
fn test_report_totals_independent_of_input_order() {
    let first = b"one two\n".to_vec();
    let second = b"three four five\n\n".to_vec();

    let config_ab = Config::new(
        vec![String::from("a.txt"), String::from("b.txt")],
        false,
        false,
        false,
        false,
    );
    let out_ab = run_report(&config_ab, &vec![Some(first.clone()), Some(second.clone())]);

    let config_ba = Config::new(
        vec![String::from("b.txt"), String::from("a.txt")],
        false,
        false,
        false,
        false,
    );
    let out_ba = run_report(&config_ba, &vec![Some(second), Some(first)]);

    // The per-input lines trade places; the totals line is the same.
    assert_eq!(out_ab.len(), 3);
    assert_eq!(out_ba.len(), 3);
    assert_eq!(out_ab[2], out_ba[2]);
    assert_eq!(out_ab[2], "       3       5      25 total");
}

#[test]
fn test_report_empty_input_contributes_zeroes() {
    let config = Config::new(vec![String::from("empty"), String::from("full")], true, true, true, true);
    let inputs = vec![Some(Vec::new()), Some(b"a b\n".to_vec())];
    let out = run_report(&config, &inputs);
    assert_eq!(out.len(), 3);
    assert_eq!(out[0], "       0       0       0       0 empty");
    assert_eq!(out[1], "       1       2       4       4 full");
    assert_eq!(out[2], "       1       2       4       4 total");
}
