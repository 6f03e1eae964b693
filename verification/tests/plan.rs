use asciigraph::color::AnsiColor;
use asciigraph::utility::resample_positions;

/// Resampling a series to its own length puts every output point exactly
/// on its source index, with no fractional part.
#[test]
fn identity_plan() {
    let plan = resample_positions(5, 5);
    assert_eq!(plan.len(), 3);
    for (k, p) in plan.iter().enumerate() {
        assert_eq!(p.before, k + 1);
        assert_eq!(p.after, k + 1);
        assert_eq!(p.remainder, 0);
    }
}

/// Upsampling three points to five: interior points land between source
/// samples with the exact fractions 1/2, 1, 3/2 over denominator 4.
#[test]
fn upsample_plan() {
    let plan = resample_positions(3, 5);
    assert_eq!(plan.len(), 3);
    assert_eq!((plan[0].before, plan[0].after, plan[0].remainder), (0, 1, 2));
    assert_eq!((plan[1].before, plan[1].after, plan[1].remainder), (1, 1, 0));
    assert_eq!((plan[2].before, plan[2].after, plan[2].remainder), (1, 2, 2));
}

/// Downsampling keeps the virtual positions monotone and inside the source.
#[test]
fn downsample_plan_monotone() {
    let plan = resample_positions(100, 7);
    assert_eq!(plan.len(), 5);
    let mut prev = 0usize;
    for p in plan.iter() {
        assert!(p.before >= prev);
        assert!(p.after <= 99);
        assert!(p.after == p.before || p.after == p.before + 1);
        assert!(p.remainder < 6);
        prev = p.before;
    }
}

/// A configured width of fifty points asks for exactly forty-eight
/// interior samples, whatever the source length.
#[test]
fn plan_for_width_fifty() {
    assert_eq!(resample_positions(5, 50).len(), 48);
    assert_eq!(resample_positions(80, 50).len(), 48);
}

#[test]
fn color_bytes_alias() {
    assert_eq!(AnsiColor::Default.to_byte(), 0);
    assert_eq!(AnsiColor::Black.to_byte(), 1);
    assert_eq!(AnsiColor::AliceBlue.to_byte(), 7);
    assert_eq!(AnsiColor::Silver.to_byte(), 7);
    assert_eq!(AnsiColor::White.to_byte(), 8);
    assert_ne!(AnsiColor::AliceBlue, AnsiColor::Silver);
}

#[test]
fn color_escapes() {
    assert_eq!(AnsiColor::Default.escape(), "\u{1b}[0m");
    assert_eq!(AnsiColor::Black.escape(), "\u{1b}[30m");
    assert_eq!(AnsiColor::AliceBlue.escape(), "\u{1b}[37m");
    assert_eq!(AnsiColor::Silver.escape(), "\u{1b}[37m");
    assert_eq!(AnsiColor::White.escape(), "\u{1b}[37m");
}
