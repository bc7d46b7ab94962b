use vyom::theme::{parse_hex, Theme, ThemeColor};

#[test]
fn hex_colors_parse_to_channels() {
    assert_eq!(parse_hex("#1e1e2e"), ThemeColor::Rgb { r: 30, g: 30, b: 46 });
    assert_eq!(parse_hex("ff0080"), ThemeColor::Rgb { r: 255, g: 0, b: 128 });
    assert_eq!(parse_hex("##ff0000"), ThemeColor::Rgb { r: 255, g: 0, b: 0 });
    assert_eq!(parse_hex("#AbCdEf"), ThemeColor::Rgb { r: 171, g: 205, b: 239 });
}

#[test]
fn wrong_length_hex_means_the_terminal_default() {
    assert_eq!(parse_hex(""), ThemeColor::Reset);
    assert_eq!(parse_hex("#fff"), ThemeColor::Reset);
    assert_eq!(parse_hex("#1234567"), ThemeColor::Reset);
}

#[test]
fn bad_hex_digits_fall_back_to_zero_per_channel() {
    assert_eq!(parse_hex("#zzff00"), ThemeColor::Rgb { r: 0, g: 255, b: 0 });
}

#[test]
fn theme_decodes_from_its_definition_value() {
    let value = "Night|#000000|#ffffff|#ff0000|#00ff00|#ffff00|#0000ff|#ff00ff|#00ffff|#111111|#222222|extra";
    let t = Theme::from_encoded(value).unwrap();
    assert_eq!(t.name, "Night");
    assert_eq!(t.base, ThemeColor::Rgb { r: 0, g: 0, b: 0 });
    assert_eq!(t.text, ThemeColor::Rgb { r: 255, g: 255, b: 255 });
    assert_eq!(t.red, ThemeColor::Rgb { r: 255, g: 0, b: 0 });
    assert_eq!(t.green, ThemeColor::Rgb { r: 0, g: 255, b: 0 });
    assert_eq!(t.yellow, ThemeColor::Rgb { r: 255, g: 255, b: 0 });
    assert_eq!(t.blue, ThemeColor::Rgb { r: 0, g: 0, b: 255 });
    assert_eq!(t.magenta, ThemeColor::Rgb { r: 255, g: 0, b: 255 });
    assert_eq!(t.cyan, ThemeColor::Rgb { r: 0, g: 255, b: 255 });
    assert_eq!(t.surface, ThemeColor::Rgb { r: 17, g: 17, b: 17 });
    assert_eq!(t.overlay, ThemeColor::Rgb { r: 34, g: 34, b: 34 });
}

#[test]
fn short_theme_values_are_rejected() {
    assert!(Theme::from_encoded("Name|#000000|#ffffff").is_none());
    assert!(Theme::from_encoded("").is_none());
}

#[test]
fn default_theme_is_catppuccin_mocha() {
    let t = Theme::default();
    assert_eq!(t.name, "Catppuccin Mocha");
    assert_eq!(t.base, ThemeColor::Rgb { r: 30, g: 30, b: 46 });
    assert_eq!(t.overlay, ThemeColor::Rgb { r: 108, g: 112, b: 134 });
}
