use wordshape::args::{parse_shape_size, parse_tuple, parse_usize};
use wordshape::draw::{validate_config, ConfigError};
use wordshape::fill_ratio_ppm;
use wordshape::mask::{CanvasConfig, FontSize};

#[test]
fn parse_tuple_ok() {
    assert_eq!(parse_tuple("1920,1080"), Ok((1920, 1080)));
    assert_eq!(parse_tuple("0,0"), Ok((0, 0)));
}

#[test]
fn parse_tuple_bad_format() {
    assert_eq!(
        parse_tuple("1920"),
        Err("Size must be in the format WIDTH,HEIGHT".to_string())
    );
    assert_eq!(
        parse_tuple("1,2,3"),
        Err("Size must be in the format WIDTH,HEIGHT".to_string())
    );
    assert_eq!(
        parse_tuple(""),
        Err("Size must be in the format WIDTH,HEIGHT".to_string())
    );
}

#[test]
fn parse_tuple_bad_width() {
    assert_eq!(parse_tuple("a,10"), Err("Invalid width".to_string()));
    assert_eq!(parse_tuple(",10"), Err("Invalid width".to_string()));
}

#[test]
fn parse_tuple_bad_height() {
    assert_eq!(parse_tuple("10,a"), Err("Invalid height".to_string()));
    assert_eq!(parse_tuple("10,"), Err("Invalid height".to_string()));
}

#[test]
fn parse_usize_cases() {
    assert_eq!(parse_usize("0"), Some(0));
    assert_eq!(parse_usize("007"), Some(7));
    assert_eq!(parse_usize("1920"), Some(1920));
    assert_eq!(parse_usize(""), None);
    assert_eq!(parse_usize("12a"), None);
    assert_eq!(parse_usize("18446744073709551615"), Some(usize::MAX));
    assert_eq!(parse_usize("18446744073709551616"), None);
}

#[test]
fn parse_shape_size_autofit() {
    assert_eq!(parse_shape_size("AutoFit"), Ok(FontSize::AutoFit));
}

#[test]
fn parse_shape_size_fixed() {
    assert_eq!(parse_shape_size("100"), Ok(FontSize::Fixed(100)));
}

#[test]
fn parse_shape_size_invalid() {
    assert_eq!(
        parse_shape_size("abc"),
        Err("Invalid font size".to_string())
    );
    assert_eq!(
        parse_shape_size("autofit"),
        Err("Invalid font size".to_string())
    );
}

#[test]
fn font_size_from_number_is_fixed() {
    assert_eq!(FontSize::from(5usize), FontSize::Fixed(5));
}

#[test]
fn fill_ratio_exact_values() {
    assert_eq!(fill_ratio_ppm(100, 100), 0);
    assert_eq!(fill_ratio_ppm(50, 100), 500_000);
    assert_eq!(fill_ratio_ppm(0, 100), 1_000_000);
    assert_eq!(fill_ratio_ppm(1, 3), 666_666);
}

#[test]
fn fill_ratio_empty_total_counts_as_full() {
    assert_eq!(fill_ratio_ppm(0, 0), 1_000_000);
}

#[test]
fn validate_rejects_each_fault_in_order() {
    let canvas = CanvasConfig {
        width: 100,
        height: 100,
        margin: 10,
    };
    let words = vec!["a".to_string()];
    let colors = vec!["black".to_string()];
    let no_words: Vec<String> = Vec::new();
    let no_colors: Vec<String> = Vec::new();

    assert_eq!(
        validate_config(&canvas, &no_words, &colors, (1, 2)),
        Err(ConfigError::EmptyWordList)
    );
    assert_eq!(
        validate_config(&canvas, &words, &no_colors, (1, 2)),
        Err(ConfigError::EmptyColorList)
    );
    assert_eq!(
        validate_config(&canvas, &words, &colors, (3, 2)),
        Err(ConfigError::InvalidSizeRange)
    );
    let flat = CanvasConfig {
        width: 0,
        height: 100,
        margin: 0,
    };
    assert_eq!(
        validate_config(&flat, &words, &colors, (1, 2)),
        Err(ConfigError::NonPositiveCanvas)
    );
    let swallowed = CanvasConfig {
        width: 100,
        height: 100,
        margin: 50,
    };
    assert_eq!(
        validate_config(&swallowed, &words, &colors, (1, 2)),
        Err(ConfigError::MarginTooLarge)
    );
    assert_eq!(validate_config(&canvas, &words, &colors, (1, 2)), Ok(()));
}
