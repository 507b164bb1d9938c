use mandelbrot::{analy_paire, pair_of, split_pair};

#[test]
fn test_analy_paire() {
    assert_eq!(analy_paire::<i32>("", ','), None);
    assert_eq!(analy_paire::<i32>("10", ','), None);
    assert_eq!(analy_paire::<i32>(",10", ','), None);
    assert_eq!(analy_paire::<i32>("10,20", ','), Some((10, 20)));
    assert_eq!(analy_paire::<i32>("10,20xy", ','), None);
    assert_eq!(analy_paire::<f64>("0.5x", 'x'), None);
    assert_eq!(analy_paire::<f64>("0.5x1.5", 'x'), Some((0.5, 1.5)));
}

#[test]
fn dimensions_parse_with_x() {
    assert_eq!(analy_paire::<usize>("1000x750", 'x'), Some((1000, 750)));
    assert_eq!(analy_paire::<usize>("1000X750", 'x'), None);
}

#[test]
fn complex_corner_parses_with_comma() {
    assert_eq!(analy_paire::<f64>("-1.20,0.35", ','), Some((-1.20, 0.35)));
    assert_eq!(analy_paire::<f64>("1.25,-0.0625", ','), Some((1.25, -0.0625)));
    assert_eq!(analy_paire::<f64>(",-0.0625", ','), None);
}

#[test]
fn split_at_first_separator_only() {
    assert_eq!(split_pair("1,2,3", ','), Some(("1", "2,3")));
    assert_eq!(analy_paire::<i32>("1,2,3", ','), None);
}

#[test]
fn split_edges() {
    assert_eq!(split_pair("", ','), None);
    assert_eq!(split_pair("abc", ','), None);
    assert_eq!(split_pair(",", ','), Some(("", "")));
    assert_eq!(split_pair("ab,", ','), Some(("ab", "")));
    assert_eq!(split_pair("é,ü", ','), Some(("é", "ü")));
}

#[test]
fn pair_needs_both_halves() {
    assert_eq!(pair_of(Some(1), Some(2)), Some((1, 2)));
    assert_eq!(pair_of::<i32>(None, Some(2)), None);
    assert_eq!(pair_of::<i32>(Some(1), None), None);
    assert_eq!(pair_of::<i32>(None, None), None);
}

#[test]
fn halves_must_parse_in_full() {
    assert_eq!(analy_paire::<i32>("10 ,20", ','), None);
    assert_eq!(analy_paire::<i32>("-10,+20", ','), Some((-10, 20)));
    assert_eq!(analy_paire::<u8>("10,256", ','), None);
}
