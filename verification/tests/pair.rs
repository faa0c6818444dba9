use mandelbrot::pair::{find_separator, pair_of, parse_pair, split_pair};

#[test]
fn test_parse_pair() {
    assert_eq!(parse_pair::<i32>("", ','), None);
    assert_eq!(parse_pair::<i32>("10,", ','), None);
    assert_eq!(parse_pair::<i32>(",10", ','), None);
    assert_eq!(parse_pair::<i32>("10,20", ','), Some((10, 20)));
    assert_eq!(parse_pair::<i32>("10,20xy", ','), None);
    assert_eq!(parse_pair::<f64>("0.5x", 'x'), None);
    assert_eq!(parse_pair::<f64>("0.5x1.5", 'x'), Some((0.5, 1.5)));
}

#[test]
fn parse_pair_reads_image_dimensions() {
    assert_eq!(parse_pair::<usize>("1000x750", 'x'), Some((1000, 750)));
    assert_eq!(parse_pair::<usize>("1000x-750", 'x'), None);
}

#[test]
fn parse_pair_without_separator_is_none() {
    assert_eq!(parse_pair::<i32>("1020", ','), None);
    assert_eq!(parse_pair::<String>("abc", ','), None);
}

#[test]
fn parse_pair_hands_each_half_to_the_parser_unchanged() {
    assert_eq!(
        parse_pair::<String>("left,right", ','),
        Some(("left".to_string(), "right".to_string()))
    );
    assert_eq!(
        parse_pair::<String>(",", ','),
        Some((String::new(), String::new()))
    );
}

#[test]
fn parse_pair_cuts_at_the_first_separator() {
    assert_eq!(
        parse_pair::<String>("a,b,c", ','),
        Some(("a".to_string(), "b,c".to_string()))
    );
    assert_eq!(parse_pair::<i32>("1,2,3", ','), None);
}

#[test]
fn find_separator_counts_characters() {
    assert_eq!(find_separator("10,20", ','), Some(2));
    assert_eq!(find_separator(",10", ','), Some(0));
    assert_eq!(find_separator("10,", ','), Some(2));
    assert_eq!(find_separator("a,b,c", ','), Some(1));
    assert_eq!(find_separator("", ','), None);
    assert_eq!(find_separator("1020", ','), None);
    assert_eq!(find_separator("é→ü", '→'), Some(1));
}

#[test]
fn split_pair_leaves_the_separator_out() {
    assert_eq!(split_pair("400x600", 'x'), Some(("400", "600")));
    assert_eq!(split_pair("x", 'x'), Some(("", "")));
    assert_eq!(split_pair("xx", 'x'), Some(("", "x")));
    assert_eq!(split_pair("400", 'x'), None);
    assert_eq!(split_pair("", 'x'), None);
}

#[test]
fn split_pair_takes_a_separator_of_several_bytes() {
    assert_eq!(split_pair("é→ü", '→'), Some(("é", "ü")));
    assert_eq!(parse_pair::<i32>("3→4", '→'), Some((3, 4)));
}

#[test]
fn pair_of_needs_both_halves() {
    assert_eq!(pair_of(Some(1), Some(2)), Some((1, 2)));
    assert_eq!(pair_of(Some(1), None), None);
    assert_eq!(pair_of(None, Some(2)), None);
    assert_eq!(pair_of::<i32>(None, None), None);
}
