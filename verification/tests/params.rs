use matrix_warp::params::{
    char_is_space, check_count, parse_background, parse_dims, parse_list, parse_number,
    parse_offset, split_fields, ParamError, LIMIT,
};

fn text(field: &[char]) -> String {
    field.iter().collect()
}

fn split(s: &str) -> Vec<String> {
    split_fields(s).iter().map(|f| text(f)).collect()
}

#[test]
fn fields_are_cut_at_commas_and_trimmed() {
    assert_eq!(split("1,2"), vec!["1", "2"]);
    assert_eq!(split(" 1 ,\t2\n"), vec!["1", "2"]);
    assert_eq!(split("a b , c"), vec!["a b", "c"]);
    assert_eq!(split(""), vec![""]);
    assert_eq!(split(","), vec!["", ""]);
    assert_eq!(split("1,"), vec!["1", ""]);
    assert_eq!(split(",1"), vec!["", "1"]);
    assert_eq!(split("  "), vec![""]);
    assert_eq!(split("1,,2"), vec!["1", "", "2"]);
    assert_eq!(split("\u{a0}7\u{3000},\u{2003}8"), vec!["7", "8"]);
}

#[test]
fn fields_agree_with_split_and_trim() {
    let samples = [
        "", " ", ",", ",,", "1,2", " 1 , 2 ", "1.5,-2e3, 7 ,x", " , ", "a\u{85}, \u{1680}b \u{feff}",
        "\u{200b}1,2\u{200a}", "x,\r\n y ,z\u{b}", "é , ü,,",
    ];
    for s in samples {
        let expected: Vec<String> = s.split(',').map(|v| v.trim().to_string()).collect();
        assert_eq!(split(s), expected, "{:?}", s);
    }
}

#[test]
fn white_space_is_what_char_calls_it() {
    for u in 0..=0x10FFFFu32 {
        if let Some(c) = char::from_u32(u) {
            assert_eq!(char_is_space(c), c.is_whitespace(), "{:x}", u);
        }
    }
}

#[test]
fn offset_is_two_signed_integers() {
    assert_eq!(parse_offset("3,-4"), Ok([3, -4]));
    assert_eq!(parse_offset(" +3 , -0 "), Ok([3, 0]));
    assert_eq!(parse_offset("007,0"), Ok([7, 0]));
    assert_eq!(
        parse_offset("9223372036854775807,-9223372036854775808"),
        Ok([isize::MAX, isize::MIN])
    );
}

#[test]
fn offset_errors_name_the_piece_or_the_counts() {
    assert_eq!(parse_offset("3"), Err(ParamError::Count { expected: 2, found: 1 }));
    assert_eq!(parse_offset("1,2,3"), Err(ParamError::Count { expected: 2, found: 3 }));
    assert_eq!(parse_offset(""), Err(ParamError::Malformed { field: 0 }));
    assert_eq!(parse_offset("1,x"), Err(ParamError::Malformed { field: 1 }));
    assert_eq!(parse_offset("1,2,x"), Err(ParamError::Malformed { field: 2 }));
    assert_eq!(parse_offset("x,y,z"), Err(ParamError::Malformed { field: 0 }));
    assert_eq!(parse_offset("1,2,"), Err(ParamError::Malformed { field: 2 }));
    assert_eq!(parse_offset("1.5,2"), Err(ParamError::Malformed { field: 0 }));
    assert_eq!(parse_offset("1,- 2"), Err(ParamError::Malformed { field: 1 }));
    assert_eq!(parse_offset("9223372036854775808,0"), Err(ParamError::Malformed { field: 0 }));
    assert_eq!(parse_offset("0,-9223372036854775809"), Err(ParamError::Malformed { field: 1 }));
}

#[test]
fn dims_are_two_unsigned_integers() {
    assert_eq!(parse_dims("640,480"), Ok([640, 480]));
    assert_eq!(parse_dims("0, 0"), Ok([0, 0]));
    assert_eq!(parse_dims("+5,18446744073709551615"), Ok([5, usize::MAX]));
    assert_eq!(parse_dims("-1,2"), Err(ParamError::Malformed { field: 0 }));
    assert_eq!(parse_dims("-0,2"), Err(ParamError::Malformed { field: 0 }));
    assert_eq!(parse_dims("1,18446744073709551616"), Err(ParamError::Malformed { field: 1 }));
    assert_eq!(parse_dims("1"), Err(ParamError::Count { expected: 2, found: 1 }));
}

#[test]
fn background_is_four_bytes() {
    assert_eq!(parse_background("0,0,0,255"), Ok([0, 0, 0, 255]));
    assert_eq!(parse_background(" 1, 2 ,3 , 4 "), Ok([1, 2, 3, 4]));
    assert_eq!(parse_background("0,0,0,256"), Err(ParamError::Malformed { field: 3 }));
    assert_eq!(parse_background("0,-1,0,0"), Err(ParamError::Malformed { field: 1 }));
    assert_eq!(parse_background("0,0,0"), Err(ParamError::Count { expected: 4, found: 3 }));
    assert_eq!(parse_background("0,0,0,0,0"), Err(ParamError::Count { expected: 4, found: 5 }));
}

#[test]
fn numbers_agree_with_the_standard_parser() {
    let samples = [
        "", "0", "7", "-7", "+7", "--7", "+-7", "-+7", "+", "-", "00012", "-00012", "12a", "a12",
        "1 2", "1_000", "0x10", "1e3", "1.0", "255", "256", "-128", "-129", "127", "128",
        "9223372036854775807", "9223372036854775808", "-9223372036854775808",
        "-9223372036854775809", "18446744073709551615", "18446744073709551616",
        "99999999999999999999999999999999999999999999", "-99999999999999999999999999999999999999",
        "999999999999999999999999x", "\u{663}", "１２", "٣", " 1", "1 ",
    ];
    for s in samples {
        let field: Vec<char> = s.chars().collect();
        assert_eq!(
            parse_number(&field, true, isize::MIN as i128, isize::MAX as i128),
            s.parse::<isize>().ok().map(|v| v as i128),
            "{:?}",
            s
        );
        assert_eq!(
            parse_number(&field, false, 0, usize::MAX as i128),
            s.parse::<usize>().ok().map(|v| v as i128),
            "{:?}",
            s
        );
        assert_eq!(
            parse_number(&field, false, 0, 255),
            s.parse::<u8>().ok().map(|v| v as i128),
            "{:?}",
            s
        );
        assert_eq!(
            parse_number(&field, true, -128, 127),
            s.parse::<i8>().ok().map(|v| v as i128),
            "{:?}",
            s
        );
    }
}

#[test]
fn numbers_reach_the_limit_and_no_further() {
    let at: Vec<char> = "18446744073709551616".chars().collect();
    let past: Vec<char> = "18446744073709551617".chars().collect();
    let below: Vec<char> = "-18446744073709551616".chars().collect();
    assert_eq!(LIMIT, 18446744073709551616);
    assert_eq!(parse_number(&at, true, -LIMIT, LIMIT), Some(LIMIT));
    assert_eq!(parse_number(&below, true, -LIMIT, LIMIT), Some(-LIMIT));
    assert_eq!(parse_number(&past, true, -LIMIT, LIMIT), None);
    assert_eq!(parse_number(&below, false, -LIMIT, LIMIT), None);
}

#[test]
fn bad_piece_is_reported_before_a_wrong_count() {
    assert_eq!(parse_list("1,2,3", true, -10, 10, 3), Ok(vec![1, 2, 3]));
    assert_eq!(parse_list("1,2,3", true, -10, 10, 2), Err(ParamError::Count { expected: 2, found: 3 }));
    assert_eq!(parse_list("1,11,3", true, -10, 10, 2), Err(ParamError::Malformed { field: 1 }));
    assert_eq!(parse_list("", true, -10, 10, 0), Err(ParamError::Malformed { field: 0 }));
}

#[test]
fn count_is_checked_alone() {
    assert_eq!(check_count(4, 4), Ok(()));
    assert_eq!(check_count(3, 4), Err(ParamError::Count { expected: 4, found: 3 }));
    assert_eq!(check_count(5, 4), Err(ParamError::Count { expected: 4, found: 5 }));
}
