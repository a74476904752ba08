use jukctl::cli::{LevelFilter, Verbosity};
use jukctl::logger::{level_color, level_enabled, Color, Level};
use jukctl::svg::Svg;

#[test]
fn default_filter_is_info() {
    assert_eq!(Verbosity::new(0, 0).filter(), LevelFilter::Info);
}

#[test]
fn verbose_raises_and_saturates() {
    assert_eq!(Verbosity::new(1, 0).filter(), LevelFilter::Debug);
    assert_eq!(Verbosity::new(2, 0).filter(), LevelFilter::Trace);
    assert_eq!(Verbosity::new(200, 0).filter(), LevelFilter::Trace);
}

#[test]
fn quiet_lowers_and_saturates() {
    assert_eq!(Verbosity::new(0, 1).filter(), LevelFilter::Warn);
    assert_eq!(Verbosity::new(0, 3).filter(), LevelFilter::Off);
    assert_eq!(Verbosity::new(0, 255).filter(), LevelFilter::Off);
}

#[test]
fn verbose_is_applied_before_quiet() {
    assert_eq!(Verbosity::new(5, 1).filter(), LevelFilter::Debug);
    assert_eq!(Verbosity::new(1, 1).filter(), LevelFilter::Info);
}

#[test]
fn level_colors() {
    assert_eq!(level_color(Level::Error), Color::Red);
    assert_eq!(level_color(Level::Warn), Color::Yellow);
    assert_eq!(level_color(Level::Info), Color::Green);
    assert_eq!(level_color(Level::Debug), Color::Blue);
    assert_eq!(level_color(Level::Trace), Color::White);
}

#[test]
fn level_enabled_by_filter() {
    assert!(level_enabled(Level::Error, LevelFilter::Error));
    assert!(!level_enabled(Level::Error, LevelFilter::Off));
    assert!(level_enabled(Level::Info, LevelFilter::Info));
    assert!(!level_enabled(Level::Debug, LevelFilter::Info));
    assert!(level_enabled(Level::Trace, LevelFilter::Trace));
}

#[test]
fn svg_keeps_text_and_parses_xml() {
    let svg = Svg::from_contents("<svg xmlns=\"http://www.w3.org/2000/svg\"/>".to_string());
    assert_eq!(svg.text(), "<svg xmlns=\"http://www.w3.org/2000/svg\"/>");
    assert!(svg.parse().is_ok());
}

#[test]
fn svg_refuses_non_xml() {
    let svg = Svg::from_contents("<svg".to_string());
    assert!(matches!(svg.parse(), Err(jukctl::Error::SvgError(_))));
}

#[test]
fn more_verbose_never_quieter() {
    let rank = |f: LevelFilter| f as u8;
    for q in 0..4u8 {
        for v in 0..5u8 {
            assert!(rank(Verbosity::new(v, q).filter()) <= rank(Verbosity::new(v + 1, q).filter()));
            assert!(rank(Verbosity::new(v, q + 1).filter()) <= rank(Verbosity::new(v, q).filter()));
        }
    }
}
