use intcode::program::{parse_program, parse_token, FormatError};

#[test]
fn parses_comma_separated_words() {
    assert_eq!(
        parse_program(b"1,9,10,3,2,3,11,0,99,30,40,50"),
        Ok(vec![1, 9, 10, 3, 2, 3, 11, 0, 99, 30, 40, 50])
    );
}

#[test]
fn tolerates_whitespace_around_tokens() {
    assert_eq!(parse_program(b" 3, -12 ,+4,99\n"), Ok(vec![3, -12, 4, 99]));
}

#[test]
fn reports_first_bad_token() {
    assert_eq!(parse_program(b"1,x,3,y"), Err(FormatError { token_index: 1 }));
    assert_eq!(parse_program(b"1,2,"), Err(FormatError { token_index: 2 }));
    assert_eq!(parse_program(b""), Err(FormatError { token_index: 0 }));
    assert_eq!(parse_program(b"1 2"), Err(FormatError { token_index: 0 }));
    assert_eq!(parse_program(b"-"), Err(FormatError { token_index: 0 }));
}

#[test]
fn token_range_is_a_word() {
    assert_eq!(parse_token(b"9223372036854775807", 0, 19), Some(i64::MAX));
    assert_eq!(parse_token(b"-9223372036854775808", 0, 20), Some(i64::MIN));
    assert_eq!(parse_token(b"9223372036854775808", 0, 19), None);
    assert_eq!(parse_token(b"-9223372036854775809", 0, 20), None);
    assert_eq!(parse_token(b"123456789012345678901234567890", 0, 30), None);
    assert_eq!(parse_token(b"a,17,b", 2, 4), Some(17));
}
