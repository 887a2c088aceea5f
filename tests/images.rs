use ff_eval_core::{parse_pgm_lines, tag_image, PgmError};

fn lines(text: &str) -> Vec<String> {
    text.lines().map(String::from).collect()
}

#[test]
fn parses_p2_pgm() {
    let pgm = "P2\n# t\n2 2\n255\n0 255 255 0\n";
    let img = parse_pgm_lines(&lines(pgm)).unwrap();
    assert_eq!((img.width, img.height, img.maxval), (2, 2, 255));
    assert_eq!(img.pixels.len(), 4);
    assert!(img.pixels.contains(&0) && img.pixels.contains(&255));
}

#[test]
fn pgm_pixels_span_lines_and_skip_junk() {
    let img = parse_pgm_lines(&lines("  P2 x\n\n  # c\n3 1 extra\n 9 \n1 x\n70000 2\n+3")).unwrap();
    assert_eq!((img.width, img.height, img.maxval), (3, 1, 9));
    assert_eq!(img.pixels, vec![1, 2, 3]);
}

#[test]
fn pgm_errors() {
    assert_eq!(parse_pgm_lines(&lines("P5\n1 1\n1\n0")).unwrap_err(), PgmError::NotP2);
    assert_eq!(parse_pgm_lines(&lines("")).unwrap_err(), PgmError::NotP2);
    assert_eq!(parse_pgm_lines(&lines("P2\n# only\n")).unwrap_err(), PgmError::MissingDimensions);
    assert_eq!(parse_pgm_lines(&lines("P2\n2\n1\n0 0")).unwrap_err(), PgmError::BadDimensions);
    assert_eq!(parse_pgm_lines(&lines("P2\n2 -1\n1\n0 0")).unwrap_err(), PgmError::BadDimensions);
    assert_eq!(parse_pgm_lines(&lines("P2\n1 1\n70000\n0")).unwrap_err(), PgmError::BadMaxval);
    assert_eq!(parse_pgm_lines(&lines("P2\n1 1")).unwrap_err(), PgmError::BadMaxval);
    assert_eq!(parse_pgm_lines(&lines("P2\n2 2\n1\n0 1 1")).unwrap_err(), PgmError::PixelCountMismatch);
}

#[test]
fn tags_follow_mean_and_contrast() {
    assert_eq!(tag_image(&vec![0, 10, 10, 0], 10), vec!["high_contrast".to_string()]);
    assert_eq!(tag_image(&vec![1, 2], 10), vec!["mostly_dark".to_string()]);
    assert_eq!(tag_image(&vec![9, 10], 10), vec!["mostly_bright".to_string()]);
    assert_eq!(tag_image(&vec![5, 5], 10), vec!["neutral".to_string()]);
    assert_eq!(tag_image(&vec![0, 1], 1), vec!["high_contrast".to_string()]);
    assert_eq!(tag_image(&vec![0, 0, 255], 255), vec!["mostly_dark".to_string(), "high_contrast".to_string()]);
    assert_eq!(tag_image(&vec![3], 0), vec!["mostly_dark".to_string()]);
    // a mean of exactly 0.4 of the maximum is not dark
    assert_eq!(tag_image(&vec![4], 10), vec!["neutral".to_string()]);
}
