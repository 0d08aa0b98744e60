use ncho::axes::{nice_num_frac, Axes, Scale, Size};
use ncho::dec::{dec_parts, Dec};

/// The decimal `d` has the exact rational value `num / den`.
fn dec_is(d: &Dec, num: i128, den: i128) -> bool {
    let (n, dd) = dec_parts(d);
    (n as i128) * den == num * (dd as i128)
}

#[test]
fn test_axes_scale() {
    let a = Axes::new();
    assert!(dec_is(&a.scale_x_min(), 0, 1));
    assert!(dec_is(&a.scale_x_max(), 100, 1));
    assert!(dec_is(&a.tick_spacing(), 10, 1));
}

#[test]
fn nice_num_rounds_to_one_two_five_ten() {
    // 100/9 = 11.1: mantissa 1.11 < 1.5 rounds to 1, scaled to 10.
    assert_eq!(nice_num_frac(100, 9, true), Dec { m: 1, e: 1 });
    // 87: mantissa 8.7 > 5 snaps up to 10.
    assert_eq!(nice_num_frac(87, 1, false), Dec { m: 10, e: 1 });
    // 40: mantissa 4 <= 5 snaps to 5.
    assert_eq!(nice_num_frac(40, 1, false), Dec { m: 5, e: 1 });
    // 5/9 = 0.556: mantissa 5.56 in [3, 7) rounds to 5, scaled to 0.5.
    assert_eq!(nice_num_frac(5, 9, true), Dec { m: 5, e: -1 });
    assert!(dec_is(&nice_num_frac(5, 9, true), 1, 2));
    // Exact powers of ten keep mantissa 1.
    assert_eq!(nice_num_frac(1000, 1, false), Dec { m: 1, e: 3 });
}

#[test]
fn tick_spacing_divides_the_nice_range() {
    // Range 0..101 nices up to 200; with a three-tick budget the
    // spacing is the nice rounding of 200 / 2, which is 100.
    let a = Axes {
        x: Scale { label: "x".to_owned(), min: 0, max: 101 },
        y: Scale { label: "y".to_owned(), min: 0, max: 100 },
        view_size: Size { width: 0, height: 0 },
        max_ticks: 3,
    };
    assert!(dec_is(&a.tick_spacing(), 100, 1));
    // A fractional spacing: range 0..5 nices to 5, and 5 / 9 rounds
    // to the nice number 0.5.
    let b = Axes {
        x: Scale { label: "x".to_owned(), min: 0, max: 5 },
        y: Scale { label: "y".to_owned(), min: 0, max: 5 },
        view_size: Size { width: 0, height: 0 },
        max_ticks: 10,
    };
    assert!(dec_is(&b.tick_spacing(), 1, 2));
}

#[test]
fn scale_bounds_round_up_to_tick_multiples() {
    let a = Axes {
        x: Scale { label: "x".to_owned(), min: 0, max: 100 },
        y: Scale { label: "y".to_owned(), min: -35, max: 42 },
        view_size: Size { width: 0, height: 0 },
        max_ticks: 10,
    };
    // The x spacing is 10; the ceiling of -35 is -30, of 42 is 50.
    assert!(dec_is(&a.scale_y_min(), -30, 1));
    assert!(dec_is(&a.scale_y_max(), 50, 1));
}

#[test]
fn set_view_size_only_touches_the_viewport() {
    let mut a = Axes::new();
    a.set_view_size(800, 600);
    assert_eq!(a.view_size, Size { width: 800, height: 600 });
    assert_eq!(a.x.min, 0);
    assert_eq!(a.x.max, 100);
    assert_eq!(a.max_ticks, 10);
}
