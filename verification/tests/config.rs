use asciigraph::color::{AnsiColor, COLOR_NAMES};
use asciigraph::options::{
    axis_color, caption, caption_color, configure, height, label_color, normalize_offset, offset,
    precision, series_colors, trim_string, width, Config,
};
use asciigraph::utility::EmptyInputError;

#[test]
fn color_names_table() {
    assert_eq!(COLOR_NAMES.len(), 5);
    let lookup = |name: &str| {
        COLOR_NAMES
            .iter()
            .find(|(n, _)| *n == name)
            .map(|(_, c)| *c)
    };
    assert_eq!(lookup("default"), Some(AnsiColor::Default));
    assert_eq!(lookup("aliceblue"), Some(AnsiColor::AliceBlue));
    assert_eq!(lookup("silver"), Some(AnsiColor::Silver));
    assert_eq!(lookup("black"), Some(AnsiColor::Black));
    assert_eq!(lookup("white"), Some(AnsiColor::White));
}

#[test]
fn offset_normalized_from_below() {
    assert_eq!(normalize_offset(0), 3);
    assert_eq!(normalize_offset(-7), 3);
    assert_eq!(normalize_offset(1), 1);
    assert_eq!(normalize_offset(5), 5);
}

#[test]
fn empty_input_error_is_plain() {
    assert_eq!(EmptyInputError, EmptyInputError.clone());
}

#[test]
fn default_config_values() {
    let c = Config::default();
    assert_eq!(c.width, 150);
    assert_eq!(c.height, 10);
    assert_eq!(c.offset, 3);
    assert_eq!(c.caption, "");
    assert_eq!(c.precision, 2);
    assert_eq!(c.caption_color, AnsiColor::White);
    assert_eq!(c.axis_color, AnsiColor::White);
    assert_eq!(c.label_color, AnsiColor::AliceBlue);
    assert_eq!(
        c.series_colors,
        vec![
            AnsiColor::AliceBlue,
            AnsiColor::Silver,
            AnsiColor::White,
            AnsiColor::Black
        ]
    );
}

#[test]
fn width_and_height_clamp_to_zero() {
    let c = configure(Config::default(), vec![width(-5), height(0)]);
    assert_eq!(c.width, 0);
    assert_eq!(c.height, 0);
}

#[test]
fn later_option_wins() {
    let c = configure(Config::default(), vec![width(10), width(20), height(7)]);
    assert_eq!(c.width, 20);
    assert_eq!(c.height, 7);
}

#[test]
fn caption_is_trimmed() {
    let c = configure(Config::default(), vec![caption("  hello chart \t".to_string())]);
    assert_eq!(c.caption, "hello chart");
}

#[test]
fn all_fields_settable() {
    let c = configure(
        Config::default(),
        vec![
            offset(5),
            precision(1),
            caption_color(AnsiColor::Black),
            axis_color(AnsiColor::Silver),
            label_color(AnsiColor::White),
            series_colors(vec![AnsiColor::Black]),
        ],
    );
    assert_eq!(c.offset, 5);
    assert_eq!(c.precision, 1);
    assert_eq!(c.caption_color, AnsiColor::Black);
    assert_eq!(c.axis_color, AnsiColor::Silver);
    assert_eq!(c.label_color, AnsiColor::White);
    assert_eq!(c.series_colors, vec![AnsiColor::Black]);
}

#[test]
fn trim_string_both_ends() {
    assert_eq!(trim_string(&"  x  ".to_string()), "x");
    assert_eq!(trim_string(&"\n\tx".to_string()), "x");
    assert_eq!(trim_string(&"   ".to_string()), "");
    assert_eq!(trim_string(&"a b".to_string()), "a b");
}
