use animbg::config::{ConfigError, ConfigField, DisplayContext};

#[test]
fn parses_basic_configuration() {
    let ctx = DisplayContext::from_str("1920:1080:0:0:/tmp/pix:60").unwrap();
    assert_eq!(ctx.width, 1920);
    assert_eq!(ctx.height, 1080);
    assert_eq!(ctx.x, 0);
    assert_eq!(ctx.y, 0);
    assert_eq!(ctx.bitmap_dir, "/tmp/pix");
    assert_eq!(ctx.fps.num, 60);
    assert_eq!(ctx.fps.den, 1);
    assert_eq!(ctx.images.len(), 0);
}

#[test]
fn parses_negative_offsets_and_decimal_fps() {
    let ctx = DisplayContext::from_str("64:64:10:-20:~/frames:23.976").unwrap();
    assert_eq!(ctx.x, 10);
    assert_eq!(ctx.y, -20);
    assert_eq!(ctx.bitmap_dir, "~/frames");
    assert_eq!(ctx.fps.num, 23976);
    assert_eq!(ctx.fps.den, 1000);
}

#[test]
fn parses_fractional_fps_forms() {
    let a = DisplayContext::from_str("1:1:0:0:d:1.5").unwrap();
    assert_eq!((a.fps.num, a.fps.den), (15, 10));
    let b = DisplayContext::from_str("1:1:0:0:d:.5").unwrap();
    assert_eq!((b.fps.num, b.fps.den), (5, 10));
    let c = DisplayContext::from_str("1:1:0:0:d:2.").unwrap();
    assert_eq!((c.fps.num, c.fps.den), (2, 1));
}

#[test]
fn zero_fps_is_a_configuration_error() {
    let e = DisplayContext::from_str("1:1:0:0:d:0").unwrap_err();
    assert_eq!(e, ConfigError::NonPositiveRate);
    let e = DisplayContext::from_str("1:1:0:0:d:0.000").unwrap_err();
    assert_eq!(e, ConfigError::NonPositiveRate);
}

#[test]
fn negative_fps_is_malformed() {
    let e = DisplayContext::from_str("1:1:0:0:d:-1").unwrap_err();
    assert_eq!(e, ConfigError::MalformedField { field: ConfigField::Fps });
}

#[test]
fn fps_that_overflows_is_malformed() {
    let e = DisplayContext::from_str("1:1:0:0:d:99999999999").unwrap_err();
    assert_eq!(e, ConfigError::MalformedField { field: ConfigField::Fps });
    let e = DisplayContext::from_str("1:1:0:0:d:1.0000000001").unwrap_err();
    assert_eq!(e, ConfigError::MalformedField { field: ConfigField::Fps });
}

#[test]
fn missing_fields_name_the_first_absent_one() {
    let e = DisplayContext::from_str("1920").unwrap_err();
    assert_eq!(e, ConfigError::MissingField { field: ConfigField::Height });
    let e = DisplayContext::from_str("1:2:3").unwrap_err();
    assert_eq!(e, ConfigError::MissingField { field: ConfigField::OffsetY });
    let e = DisplayContext::from_str("1:2:3:4:dir").unwrap_err();
    assert_eq!(e, ConfigError::MissingField { field: ConfigField::Fps });
}

#[test]
fn malformed_integers_name_their_field() {
    let e = DisplayContext::from_str("wide:1:0:0:d:1").unwrap_err();
    assert_eq!(e, ConfigError::MalformedField { field: ConfigField::Width });
    let e = DisplayContext::from_str("1:1:zero:0:d:1").unwrap_err();
    assert_eq!(e, ConfigError::MalformedField { field: ConfigField::OffsetX });
    let e = DisplayContext::from_str("1:1:0:0.5:d:1").unwrap_err();
    assert_eq!(e, ConfigError::MalformedField { field: ConfigField::OffsetY });
}

#[test]
fn non_positive_dimensions_are_rejected() {
    let e = DisplayContext::from_str("0:100:0:0:d:1").unwrap_err();
    assert_eq!(e, ConfigError::NonPositiveDimension { field: ConfigField::Width });
    let e = DisplayContext::from_str("100:-5:0:0:d:1").unwrap_err();
    assert_eq!(e, ConfigError::NonPositiveDimension { field: ConfigField::Height });
}

#[test]
fn extra_fields_are_ignored() {
    let ctx = DisplayContext::from_str("1:2:3:4:dir:5:junk").unwrap();
    assert_eq!(ctx.bitmap_dir, "dir");
    assert_eq!((ctx.fps.num, ctx.fps.den), (5, 1));
}

#[test]
fn empty_directory_field_parses() {
    let ctx = DisplayContext::from_str("1:2:3:4::5").unwrap();
    assert_eq!(ctx.bitmap_dir, "");
}

#[test]
fn empty_string_misses_the_height() {
    // A lone field splits to one empty piece, so the width is present
    // but malformed only after the count check passes; with one field
    // the height is the first missing one.
    let e = DisplayContext::from_str("").unwrap_err();
    assert_eq!(e, ConfigError::MissingField { field: ConfigField::Height });
}
