use rio::{
    count_at_least_in, fields_of, is_whitespace, parse_integer, read_line, read_list, read_one,
    read_pair, read_triple, testcase, tokens_of, Input, ReadError,
};

fn chars(s: &str) -> Vec<char> {
    s.chars().collect()
}

#[test]
fn list_of_integers_in_order() {
    let mut input = Input::from_text("2 -1 3 -5 4\n");
    let list = read_list::<i32>(&mut input).unwrap();
    assert_eq!(list, vec![2, -1, 3, -5, 4]);
}

#[test]
fn list_at_end_of_input_is_empty() {
    let mut input = Input::from_text("");
    assert!(input.is_at_end());
    assert_eq!(read_list::<i32>(&mut input), Ok(vec![]));
    let mut input = Input::from_text("7\n");
    assert_eq!(read_list::<i32>(&mut input), Ok(vec![7]));
    assert_eq!(read_list::<i32>(&mut input), Ok(vec![]));
}

#[test]
fn runs_of_spaces_collapse() {
    let mut input = Input::from_text("1   2");
    assert_eq!(read_list::<i32>(&mut input), Ok(vec![1, 2]));
}

#[test]
fn surrounding_whitespace_is_cut() {
    let mut input = Input::from_text("  \t 7 8 \r\n9");
    assert_eq!(read_list::<i64>(&mut input), Ok(vec![7, 8]));
    assert_eq!(read_list::<i64>(&mut input), Ok(vec![9]));
}

#[test]
fn list_parse_failure_names_first_bad_token() {
    let mut input = Input::from_text("1 x 3 y\n4\n");
    assert_eq!(read_list::<i32>(&mut input), Err(ReadError::ParseFailure { index: 1 }));
    assert_eq!(read_list::<i32>(&mut input), Ok(vec![4]));
}

#[test]
fn one_value() {
    let mut input = Input::from_text("5\n");
    assert_eq!(read_one::<i32>(&mut input), Ok(Some(5)));
    assert_eq!(read_one::<i32>(&mut input), Ok(None));
}

#[test]
fn one_value_at_end_is_none() {
    let mut input = Input::from_text("");
    assert_eq!(read_one::<i32>(&mut input), Ok(None));
}

#[test]
fn one_value_with_two_tokens_fails() {
    let mut input = Input::from_text("1 2\n");
    assert_eq!(
        read_one::<i32>(&mut input),
        Err(ReadError::TokenCountMismatch { expected: 1, found: 2 })
    );
}

#[test]
fn one_value_on_blank_line_is_none() {
    let mut input = Input::from_text("   \n6\n");
    assert_eq!(read_one::<u32>(&mut input), Ok(None));
    assert!(!input.is_at_end());
    assert_eq!(read_one::<u32>(&mut input), Ok(Some(6)));
}


#[test]
fn one_value_per_line_until_end() {
    let mut input = Input::from_text("3\n1\n2\n5\n4\n");
    let mut nums: Vec<u64> = Vec::new();
    while let Ok(Some(n)) = read_one::<u64>(&mut input) {
        nums.push(n);
    }
    assert_eq!(nums, vec![3u64, 1u64, 2u64, 5u64, 4u64]);
}

#[test]
fn pair_of_values() {
    let mut input = Input::from_text("5 3");
    assert_eq!(read_pair::<usize, i32>(&mut input), Ok(Some((5, 3))));
    assert_eq!(read_pair::<usize, i32>(&mut input), Ok(None));
}

#[test]
fn pair_missing_field() {
    let mut input = Input::from_text("5");
    assert_eq!(
        read_pair::<usize, i32>(&mut input),
        Err(ReadError::TokenCountMismatch { expected: 2, found: 1 })
    );
}

#[test]
fn pair_extra_field() {
    let mut input = Input::from_text("5 3 9");
    assert_eq!(
        read_pair::<usize, i32>(&mut input),
        Err(ReadError::TokenCountMismatch { expected: 2, found: 3 })
    );
}

#[test]
fn pair_wrong_type() {
    let mut input = Input::from_text("-5 3\n");
    assert_eq!(read_pair::<usize, i32>(&mut input), Err(ReadError::ParseFailure { index: 0 }));
    let mut input = Input::from_text("5 z 1\n");
    assert_eq!(read_pair::<usize, i32>(&mut input), Err(ReadError::ParseFailure { index: 1 }));
}

#[test]
fn pair_fields_keep_empty_positions() {
    let mut input = Input::from_text("5  3\n");
    assert_eq!(read_pair::<usize, i32>(&mut input), Err(ReadError::ParseFailure { index: 1 }));
    let mut input = Input::from_text(" \n");
    assert_eq!(
        read_pair::<String, String>(&mut input),
        Err(ReadError::TokenCountMismatch { expected: 2, found: 1 })
    );
}

#[test]
fn triple_of_values() {
    let mut input = Input::from_text("3 -5 aaa\n");
    let (a, b, c) = read_triple::<u64, i32, String>(&mut input).unwrap().unwrap();
    assert_eq!(a, 3u64);
    assert_eq!(b, -5);
    assert_eq!(c, "aaa");
    assert_eq!(read_triple::<u64, i32, String>(&mut input), Ok(None));
}

#[test]
fn line_is_trimmed() {
    let mut input = Input::from_text("  Hello, world!  \n");
    assert_eq!(read_line(&mut input), String::from("Hello, world!"));
    assert_eq!(read_line(&mut input), String::new());
}

#[test]
fn successive_reads_take_successive_lines() {
    let mut input = Input::from_text("a\nb b\n\nc");
    assert_eq!(read_line(&mut input), "a");
    assert_eq!(read_line(&mut input), "b b");
    assert!(!input.is_at_end());
    assert_eq!(read_line(&mut input), "");
    assert_eq!(read_line(&mut input), "c");
    assert!(input.is_at_end());
    assert_eq!(read_line(&mut input), "");
    assert!(input.is_at_end());
}

#[test]
fn example_testcase() {
    let mut input = Input::from_text("5 3\n1 2 3 4 5\nHello, Rust!\n");
    let (count, line) = testcase(&mut input).unwrap().unwrap();
    assert_eq!(count, 3);
    assert_eq!(line.len(), 12);
    assert_eq!(testcase(&mut input), Ok(None));
}

#[test]
fn example_length_mismatch() {
    let mut input = Input::from_text("3 0\n1 2\nx\n");
    assert_eq!(
        testcase(&mut input),
        Err(ReadError::TokenCountMismatch { expected: 3, found: 2 })
    );
}

#[test]
fn count_at_least_values() {
    assert_eq!(count_at_least_in(&vec![1, 2, 3, 4, 5], 3), 3);
    assert_eq!(count_at_least_in(&vec![], 0), 0);
    assert_eq!(count_at_least_in(&vec![-7, i32::MIN, i32::MAX], -7), 2);
}

#[test]
fn integer_bounds() {
    assert_eq!(parse_integer(&chars("2147483647"), true, i32::MIN as i128, i32::MAX as i128), Some(2147483647));
    assert_eq!(parse_integer(&chars("2147483648"), true, i32::MIN as i128, i32::MAX as i128), None);
    assert_eq!(parse_integer(&chars("-2147483648"), true, i32::MIN as i128, i32::MAX as i128), Some(-2147483648));
    assert_eq!(parse_integer(&chars("18446744073709551615"), false, 0, u64::MAX as i128), Some(u64::MAX as i128));
    assert_eq!(parse_integer(&chars("18446744073709551616"), false, 0, u64::MAX as i128), None);
    assert_eq!(parse_integer(&chars("-0"), false, 0, u64::MAX as i128), None);
    assert_eq!(parse_integer(&chars("-0"), true, i64::MIN as i128, i64::MAX as i128), Some(0));
    assert_eq!(parse_integer(&chars("+7"), false, 0, 10), Some(7));
    assert_eq!(parse_integer(&chars("+"), true, -10, 10), None);
    assert_eq!(parse_integer(&chars("-"), true, -10, 10), None);
    assert_eq!(parse_integer(&chars(""), true, -10, 10), None);
    assert_eq!(parse_integer(&chars("0099999999999999999999999"), true, -10, 10), None);
    assert_eq!(parse_integer(&chars("1_0"), true, -100, 100), None);
}

#[test]
fn integers_match_std_parsing() {
    for s in ["0", "-1", "+12", "007", "4294967295", "4294967296", "-5", " 1", "1a", ""] {
        let mut input = Input::from_text(s);
        let got = read_list::<u32>(&mut input);
        let want: Vec<u32> = s.trim().split(' ').filter(|t| !t.is_empty()).filter_map(|t| t.parse().ok()).collect();
        let all_ok = s.trim().split(' ').filter(|t| !t.is_empty()).all(|t| t.parse::<u32>().is_ok());
        if all_ok {
            assert_eq!(got, Ok(want));
        } else {
            assert!(got.is_err());
        }
    }
}

#[test]
fn fields_and_tokens() {
    let line = chars(" a  b\tc ");
    assert_eq!(fields_of(&line), vec![chars("a"), chars(""), chars("b\tc")]);
    assert_eq!(tokens_of(&line), vec![chars("a"), chars("b\tc")]);
    assert_eq!(fields_of(&chars("")), vec![chars("")]);
    assert_eq!(tokens_of(&chars("")), Vec::<Vec<char>>::new());
}

#[test]
fn whitespace_set() {
    for c in ['\t', '\n', '\u{b}', '\u{c}', '\r', ' ', '\u{85}', '\u{a0}', '\u{1680}', '\u{2000}', '\u{200a}', '\u{2028}', '\u{2029}', '\u{202f}', '\u{205f}', '\u{3000}'] {
        assert!(is_whitespace(c));
        assert!(c.is_whitespace());
    }
    for c in ['a', '0', '\u{200b}', '\u{1f}', '\u{feff}', '\u{180e}'] {
        assert_eq!(is_whitespace(c), c.is_whitespace());
    }
}

#[test]
fn non_ascii_text_is_kept() {
    let mut input = Input::from_text("\u{3000}héllo wörld\u{3000}\nα β\n");
    assert_eq!(read_line(&mut input), "héllo wörld");
    assert_eq!(read_list::<String>(&mut input), Ok(vec![String::from("α"), String::from("β")]));
}
