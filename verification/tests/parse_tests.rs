use mandelbrot::parse::{parse_pair, separator_index};

#[test]
fn test_parse_pair() {
    assert_eq!(parse_pair::<i32>("10,10", ','), Some((10, 10)));

    assert_eq!(parse_pair::<i32>("10.,10", ','), None);
    assert_eq!(parse_pair::<i32>("10.", ','), None);
    assert_eq!(parse_pair::<i32>("10.,", ','), None);

    assert_eq!(parse_pair::<f64>("0.5x0.5", 'x'), Some((0.5, 0.5)));
}

#[test]
fn separator_index_finds_first_occurrence() {
    assert_eq!(separator_index("10,10", ','), Some(2));
    assert_eq!(separator_index(",10,10", ','), Some(0));
    assert_eq!(separator_index("1010", ','), None);
    assert_eq!(separator_index("", ','), None);
}

#[test]
fn parse_pair_splits_image_dimensions() {
    assert_eq!(parse_pair::<usize>("100x200", 'x'), Some((100, 200)));
    assert_eq!(parse_pair::<usize>("100x", 'x'), None);
    assert_eq!(parse_pair::<usize>("x200", 'x'), None);
    assert_eq!(parse_pair::<usize>("", 'x'), None);
}

#[test]
fn parse_pair_reads_coordinate_pairs() {
    assert_eq!(parse_pair::<f64>("1.25,10.42", ','), Some((1.25, 10.42)));
    assert_eq!(parse_pair::<f64>("2,10.42", ','), Some((2.0, 10.42)));
    assert_eq!(parse_pair::<f64>("-1.0,1.0", ','), Some((-1.0, 1.0)));
}
