use meshwork::windows::{
    batch_rows, locate_digits, parse_args, parse_decimal, window_columns, window_count, ArgError, DigitsError,
    BATCH_ROWS, WINDOW,
};

fn strings(args: &[&str]) -> Vec<String> {
    args.iter().map(|s| s.to_string()).collect()
}

#[test]
fn digits_follow_the_prefix() {
    assert_eq!(locate_digits(b"3.14159265358979\n"), Ok(16));
    assert_eq!(locate_digits(b"3.141592653"), Ok(11));
    assert_eq!(locate_digits(b"3.141592653\r\n\n"), Ok(11));
}

#[test]
fn missing_prefix_is_refused() {
    assert_eq!(locate_digits(b"14159265358979"), Err(DigitsError::MissingPrefix));
    assert_eq!(locate_digits(b"3"), Err(DigitsError::MissingPrefix));
    assert_eq!(locate_digits(b""), Err(DigitsError::MissingPrefix));
    assert_eq!(locate_digits(b"3,14159265358"), Err(DigitsError::MissingPrefix));
}

#[test]
fn too_few_digits_are_refused() {
    assert_eq!(locate_digits(b"3.14159265\n"), Err(DigitsError::TooFewDigits));
    assert_eq!(locate_digits(b"3.\n"), Err(DigitsError::TooFewDigits));
}

#[test]
fn window_counts() {
    assert_eq!(WINDOW, 9);
    assert_eq!(window_count(9, None), 1);
    assert_eq!(window_count(14, None), 6);
    assert_eq!(window_count(14, Some(3)), 3);
    assert_eq!(window_count(14, Some(100)), 6);
    assert_eq!(window_count(14, Some(0)), 0);
}

#[test]
fn window_columns_layout() {
    let digits = b"14159265358979";
    let cols = window_columns(digits, 0, 3);
    assert_eq!(cols.values, b"141592653415926535159265358".to_vec());
    assert_eq!(cols.offsets, vec![0, 9, 18, 27]);
    assert_eq!(cols.ids, vec![1, 2, 3]);
    let cols = window_columns(digits, 5, 1);
    assert_eq!(cols.values, b"265358979".to_vec());
    assert_eq!(cols.offsets, vec![0, 9]);
    assert_eq!(cols.ids, vec![6]);
    let empty = window_columns(digits, 2, 0);
    assert!(empty.values.is_empty());
    assert_eq!(empty.offsets, vec![0]);
    assert!(empty.ids.is_empty());
    assert!(BATCH_ROWS * WINDOW <= i32::MAX as usize);
}

#[test]
fn default_args() {
    let a = parse_args(&vec![]).unwrap();
    assert_eq!(a.input, "pi-billion.txt");
    assert_eq!(a.output, "pi-windows.parquet");
    assert_eq!(a.limit, None);
}

#[test]
fn all_options() {
    let a = parse_args(&strings(&["--input", "in.txt", "-o", "out.parquet", "--limit", "1000"])).unwrap();
    assert_eq!(a.input, "in.txt");
    assert_eq!(a.output, "out.parquet");
    assert_eq!(a.limit, Some(1000));
    let b = parse_args(&strings(&["-i", "a", "-i", "b", "-n", "+7"])).unwrap();
    assert_eq!(b.input, "b");
    assert_eq!(b.limit, Some(7));
}

#[test]
fn refused_command_lines() {
    assert!(matches!(parse_args(&strings(&["--input"])), Err(ArgError::InputNeedsValue)));
    assert!(matches!(parse_args(&strings(&["-o"])), Err(ArgError::OutputNeedsValue)));
    assert!(matches!(parse_args(&strings(&["-n"])), Err(ArgError::LimitNeedsValue)));
    assert!(matches!(parse_args(&strings(&["-n", "ten"])), Err(ArgError::LimitNotInteger)));
    assert!(matches!(parse_args(&strings(&["-n", "-1"])), Err(ArgError::LimitNotInteger)));
    match parse_args(&strings(&["--verbose"])) {
        Err(e) => {
            assert!(matches!(&e, ArgError::UnknownArg(a) if a == "--verbose"));
            assert_eq!(e.message(), "unknown arg: --verbose");
        }
        Ok(_) => panic!("accepted"),
    }
}

#[test]
fn arg_error_messages() {
    assert_eq!(ArgError::InputNeedsValue.message(), "--input needs a value");
    assert_eq!(ArgError::OutputNeedsValue.message(), "--output needs a value");
    assert_eq!(ArgError::LimitNeedsValue.message(), "--limit needs a value");
    assert_eq!(ArgError::LimitNotInteger.message(), "--limit must be an integer");
}

#[test]
fn decimal_parsing_matches_std() {
    for s in ["0", "42", "+42", "007", "", "+", "-3", "1_000", " 1", "18446744073709551615",
              "18446744073709551616", "99999999999999999999999"] {
        assert_eq!(parse_decimal(&s.to_string()), s.parse::<usize>().ok(), "input {:?}", s);
    }
}

#[test]
fn batch_rows_fill_then_finish() {
    assert_eq!(batch_rows(0, 10), 10);
    assert_eq!(batch_rows(0, BATCH_ROWS * 2 + 5), BATCH_ROWS);
    assert_eq!(batch_rows(BATCH_ROWS * 2, BATCH_ROWS * 2 + 5), 5);
    assert_eq!(batch_rows(7, 7), 0);
}
