use muninn::data::{DataSlice, Point};
use muninn::plotting::{
    color_index, extent, lift, plot_data_slice, resolve_range, settle, Axis, PlotRange,
    PlotSettings, COLOR_COUNT, LOG_FLOOR,
};
use muninn::rank::{DOUBLING, FINITE_LIMIT, RANK_LIMIT};
use muninn::rank::{bits_of_rank, rank_of_bits};

fn k(x: f64) -> i64 {
    rank_of_bits(x.to_bits()).expect("not a number")
}

fn v(r: i64) -> f64 {
    f64::from_bits(bits_of_rank(r).expect("not a rank"))
}

fn q(x: f64, y: f64) -> Point {
    (k(x), k(y))
}

fn margin(share: f64) -> impl Fn((i64, i64), Axis, bool) -> (i64, i64) {
    move |e: (i64, i64), _axis: Axis, logscale: bool| {
        let (lo, hi) = (v(e.0), v(e.1));
        if logscale {
            let d = hi.log10() - lo.log10();
            (k(10f64.powf(lo.log10() - share * d)), k(10f64.powf(hi.log10() + share * d)))
        } else {
            let d = hi - lo;
            (k(lo - share * d), k(hi + share * d))
        }
    }
}

fn by_axis(e: (i64, i64), axis: Axis, logscale: bool) -> (i64, i64) {
    match axis {
        Axis::X => margin(0.0)(e, axis, logscale),
        Axis::Y => margin(0.02)(e, axis, logscale),
    }
}

fn widen(r: (i64, i64), _logscale: bool) -> (i64, i64) {
    (k(v(r.0) - 0.05), k(v(r.1) + 0.05))
}

fn line_lerp(a0: i64, a1: i64, b: i64, c0: i64, c1: i64) -> i64 {
    let s = (v(b) - v(a0)) / (v(a1) - v(a0));
    k(v(c0) + s * (v(c1) - v(c0)))
}

fn sample() -> Vec<Vec<Point>> {
    vec![
        vec![q(-1.0, 10.0), q(0.0, 0.0), q(2.0, 1.0)],
        Vec::new(),
        vec![q(0.5, -3.0), q(4.0, -20.0)],
    ]
}

#[test]
fn settings_start_with_everything_drawn() {
    let s = PlotSettings::new();
    assert!(matches!(s.plot_range_x, PlotRange::Auto));
    assert!(matches!(s.plot_range_y, PlotRange::Auto));
    assert!(s.draw_lines && s.draw_points && s.use_color);
    assert!(!s.use_logscale_x && !s.use_logscale_y);
}

#[test]
fn extent_is_the_least_and_the_greatest_coordinate() {
    let data = sample();
    assert_eq!(extent(&data, Axis::X, None), (k(-1.0), k(4.0)));
    assert_eq!(extent(&data, Axis::Y, None), (k(-20.0), k(10.0)));
}

#[test]
fn extent_of_nothing_is_zero() {
    assert_eq!(extent(&Vec::new(), Axis::X, None), (0, 0));
    assert_eq!(extent(&vec![Vec::new(), Vec::new()], Axis::Y, None), (0, 0));
    assert_eq!(extent(&sample(), Axis::Y, Some((k(100.0), k(200.0)))), (0, 0));
    assert_eq!((0, 0), (k(0.0), k(0.0)));
}

#[test]
fn vertical_extent_counts_the_points_within_the_horizontal_range() {
    let data = sample();
    assert_eq!(extent(&data, Axis::Y, Some((k(0.0), k(2.0)))), (k(-3.0), k(1.0)));
    assert_eq!(extent(&data, Axis::Y, Some((k(-1.0), k(0.0)))), (k(0.0), k(10.0)));
    assert_eq!(extent(&data, Axis::Y, Some((k(0.5), k(0.5)))), (k(-3.0), k(-3.0)));
    assert_eq!(extent(&data, Axis::X, Some((k(0.0), k(2.0)))), (k(0.0), k(2.0)));
}

#[test]
fn vertical_extent_ignores_heights_outside_the_horizontal_range() {
    let within = Some((k(0.0), k(2.0)));
    let data = sample();
    let mut changed = sample();
    changed[0][0].1 = k(-1.0e9);
    changed[2][1].1 = k(7.0e12);
    assert_eq!(extent(&data, Axis::Y, within), extent(&changed, Axis::Y, within));
    assert_ne!(extent(&data, Axis::Y, None), extent(&changed, Axis::Y, None));
}

#[test]
fn fixed_range_is_returned_as_it_is() {
    let fixed = PlotRange::Fixed((k(-2.0), k(2.0)));
    assert_eq!(resolve_range(&fixed, &sample(), Axis::X, None, false, &margin(0.5), &widen), (k(-2.0), k(2.0)));
    let without_width = PlotRange::Fixed((k(3.0), k(3.0)));
    assert_eq!(
        resolve_range(&without_width, &sample(), Axis::Y, None, false, &margin(0.5), &widen),
        (k(3.0), k(3.0))
    );
    let upside_down = PlotRange::Fixed((k(3.0), k(-3.0)));
    assert_eq!(
        resolve_range(&upside_down, &sample(), Axis::Y, None, false, &margin(0.5), &widen),
        (k(3.0), k(-3.0))
    );
    // on a logarithmic axis too, where the axis can show it
    let decade = PlotRange::Fixed((k(1.0), k(10.0)));
    assert_eq!(
        resolve_range(&decade, &sample(), Axis::Y, None, true, &margin(0.5), &widen),
        (k(1.0), k(10.0))
    );
}

#[test]
fn auto_range_is_the_padded_extent() {
    let r = resolve_range(&PlotRange::Auto, &sample(), Axis::X, None, false, &margin(0.0), &widen);
    assert_eq!(r, (k(-1.0), k(4.0)));
    let r = resolve_range(&PlotRange::Auto, &sample(), Axis::Y, None, false, &margin(0.5), &widen);
    assert_eq!(r, (k(-35.0), k(25.0)));
    let r = resolve_range(
        &PlotRange::Auto,
        &sample(),
        Axis::Y,
        Some((k(0.5), k(0.5))),
        false,
        &margin(0.02),
        &widen,
    );
    assert_eq!(r, (k(-3.05), k(-2.95)));
    let r = resolve_range(&PlotRange::Auto, &Vec::new(), Axis::X, None, false, &margin(0.02), &widen);
    assert_eq!(r, (k(-0.05), k(0.05)));
}

#[test]
fn colours_are_taken_in_turn() {
    assert_eq!(COLOR_COUNT, 7);
    assert_eq!(color_index(0, true), 0);
    assert_eq!(color_index(6, true), 6);
    assert_eq!(color_index(7, true), 0);
    assert_eq!(color_index(23, true), 2);
    assert_eq!(color_index(23, false), 0);
    assert_eq!(color_index(usize::MAX, false), 0);
}

#[test]
fn drawing_resolves_the_horizontal_range_first() {
    let slice = DataSlice { time: 0, datalines: sample() };
    let mut settings = PlotSettings::new();
    settings.plot_range_x = PlotRange::Fixed((k(0.0), k(2.0)));
    let d = plot_data_slice(&slice, &settings, &margin(0.0), &widen, &line_lerp).unwrap();
    assert_eq!(d.x_range, (k(0.0), k(2.0)));
    assert_eq!(d.y_range, (k(-3.0), k(1.0)));
    assert_eq!(
        d.point_data,
        vec![vec![q(0.0, 0.0), q(2.0, 1.0)], Vec::new(), vec![q(0.5, -3.0)]]
    );
    assert_eq!(d.line_data.len(), 3);
    assert_eq!(d.line_data[0], vec![vec![q(0.0, 0.0), q(2.0, 1.0)]]);
    assert!(d.line_data[1].is_empty());
    // the second line leaves through its own lowest point, which is not repeated
    assert_eq!(d.line_data[2], vec![vec![q(0.5, -3.0)]]);
}

#[test]
fn drawing_leaves_out_what_is_not_drawn() {
    let slice = DataSlice { time: 0, datalines: sample() };
    let mut settings = PlotSettings::new();
    settings.draw_points = false;
    let d = plot_data_slice(&slice, &settings, &by_axis, &widen, &line_lerp).unwrap();
    assert!(d.point_data.is_empty());
    assert_eq!(d.line_data.len(), 3);
    assert_eq!(d.x_range, (k(-1.0), k(4.0)));
    assert_eq!(d.y_range, (k(-20.6), k(10.6)));
    assert_eq!(d.line_data[0], vec![sample()[0].clone()]);
    settings.draw_points = true;
    settings.draw_lines = false;
    let d = plot_data_slice(&slice, &settings, &by_axis, &widen, &line_lerp).unwrap();
    assert!(d.line_data.is_empty());
    assert_eq!(d.point_data, sample());
}

#[test]
fn drawing_of_a_slice_without_a_line_is_nothing() {
    let slice = DataSlice { time: 0, datalines: Vec::new() };
    assert!(plot_data_slice(&slice, &PlotSettings::new(), &by_axis, &widen, &line_lerp).is_none());
}

#[test]
fn drawing_of_empty_lines_has_the_widened_zero_range() {
    let slice = DataSlice { time: 0, datalines: vec![Vec::new(), Vec::new()] };
    let d = plot_data_slice(&slice, &PlotSettings::new(), &by_axis, &widen, &line_lerp).unwrap();
    assert_eq!(d.x_range, (k(-0.05), k(0.05)));
    assert_eq!(d.y_range, (k(-0.05), k(0.05)));
    assert_eq!(d.point_data, vec![Vec::new(), Vec::new()]);
    assert_eq!(d.line_data, vec![Vec::<Vec<Point>>::new(), Vec::new()]);
}

#[test]
fn log_floor_is_the_rank_of_its_number() {
    assert_eq!(LOG_FLOOR, k(1.0e-10));
}

#[test]
fn logarithmic_axis_starts_above_zero() {
    assert_eq!(lift((k(-3.0), k(5.0)), true), (LOG_FLOOR, k(5.0)));
    assert_eq!(lift((k(0.0), k(5.0)), true), (LOG_FLOOR, k(5.0)));
    assert_eq!(lift((k(-3.0), k(-1.0)), true), (LOG_FLOOR, LOG_FLOOR));
    assert_eq!(lift((k(0.0), k(1.0e-12)), true), (LOG_FLOOR, LOG_FLOOR));
    assert_eq!(lift((k(1.0e-12), k(5.0)), true), (k(1.0e-12), k(5.0)));
    assert_eq!(lift((k(-3.0), k(5.0)), false), (k(-3.0), k(5.0)));
}

#[test]
fn auto_range_of_a_logarithmic_axis_is_padded_in_its_scale() {
    let data = vec![vec![q(0.0, 1.0), q(10.0, 100.0), q(1000.0, 1.0e4)]];
    let r = resolve_range(&PlotRange::Auto, &data, Axis::Y, None, true, &margin(0.5), &widen);
    assert!((v(r.0) - 0.01).abs() < 1e-12);
    assert!((v(r.1) - 1.0e6).abs() < 1e-3);
    let r = resolve_range(&PlotRange::Auto, &data, Axis::X, None, true, &margin(0.0), &widen);
    assert_eq!(r.1, k(1000.0));
    assert!((v(r.0) - 1.0e-10).abs() < 1e-20);
    // all of the data at or below zero: the floor alone, widened
    let below = vec![vec![q(-5.0, -1.0), q(-1.0, 0.0)]];
    let r = resolve_range(&PlotRange::Auto, &below, Axis::X, None, true, &margin(0.0), &widen);
    assert_eq!(r, (LOG_FLOOR, k(1.0e-10 + 0.05)));
}

fn is_log_range(r: (i64, i64)) -> bool {
    LOG_FLOOR <= r.0 && r.0 < r.1 && r.1 < RANK_LIMIT && v(r.0) > 0.0 && v(r.1).is_finite()
}

#[test]
fn rank_constants_are_the_ranks_of_their_numbers() {
    assert_eq!(FINITE_LIMIT, k(f64::MAX));
    assert_eq!(FINITE_LIMIT + 1, RANK_LIMIT);
    for x in [1.0e-10, 3.0, 0.75, 1.0e100, 1.0e300] {
        assert_eq!(k(x) + DOUBLING, k(2.0 * x));
    }
    assert_eq!(FINITE_LIMIT - DOUBLING, k(f64::MAX / 2.0));
}

#[test]
fn linear_axis_shows_every_range() {
    for r in [(k(-5.0), k(-1.0)), (k(3.0), k(3.0)), (k(2.0), k(1.0)), (i64::MIN, i64::MAX)] {
        assert_eq!(settle(r, false), r);
    }
}

#[test]
fn logarithmic_axis_shows_what_it_can_as_it_is() {
    for r in [
        (k(1.0), k(10.0)),
        (LOG_FLOOR, k(1.0)),
        (k(1.0e-10), k(1.0e-10) + 1),
        (k(5.0), FINITE_LIMIT),
        (FINITE_LIMIT - 1, FINITE_LIMIT),
    ] {
        assert_eq!(settle(r, true), r);
    }
}

#[test]
fn logarithmic_axis_gets_bounds_above_zero() {
    // a fixed range at or below zero: from the least bound to its double
    assert_eq!(settle((k(-5.0), k(-1.0)), true), (k(1.0e-10), k(2.0e-10)));
    assert_eq!(settle((k(0.0), k(0.0)), true), (k(1.0e-10), k(2.0e-10)));
    // only the lower bound at or below zero
    assert_eq!(settle((k(-5.0), k(7.0)), true), (k(1.0e-10), k(7.0)));
    assert_eq!(settle((k(0.0), k(7.0)), true), (k(1.0e-10), k(7.0)));
    assert_eq!(settle((k(1.0e-12), k(7.0)), true), (k(1.0e-10), k(7.0)));
    // no width, or upside down: from the lower bound to its double
    assert_eq!(settle((k(3.0), k(3.0)), true), (k(3.0), k(6.0)));
    assert_eq!(settle((k(8.0), k(2.0)), true), (k(8.0), k(16.0)));
    // nothing infinite
    assert_eq!(settle((k(1.0), k(f64::INFINITY)), true), (k(1.0), k(f64::MAX)));
    assert_eq!(
        settle((k(f64::INFINITY), k(f64::INFINITY)), true),
        (k(f64::MAX / 2.0), k(f64::MAX))
    );
    assert_eq!(settle((k(f64::MAX), k(1.0)), true), (k(f64::MAX / 2.0), k(f64::MAX)));
    assert_eq!(settle((i64::MIN, i64::MIN), true), (k(1.0e-10), k(2.0e-10)));
    assert_eq!(settle((i64::MAX, i64::MAX), true), (k(f64::MAX / 2.0), k(f64::MAX)));
}

#[test]
fn fixed_range_at_or_below_zero_is_lifted_on_a_logarithmic_axis() {
    let fixed = PlotRange::Fixed((k(-5.0), k(-1.0)));
    let r = resolve_range(&fixed, &sample(), Axis::Y, None, true, &margin(0.02), &widen);
    assert_eq!(r, (k(1.0e-10), k(2.0e-10)));
    let fixed = PlotRange::Fixed((k(-5.0), k(100.0)));
    let r = resolve_range(&fixed, &sample(), Axis::X, None, true, &margin(0.02), &widen);
    assert_eq!(r, (k(1.0e-10), k(100.0)));
}

#[test]
fn logarithmic_range_is_sound_whatever_the_margin_is() {
    let answers: [(i64, i64); 6] = [
        (i64::MIN, i64::MAX),
        (i64::MAX, i64::MIN),
        (0, 0),
        (k(f64::NEG_INFINITY), k(f64::INFINITY)),
        (k(-1.0), k(-2.0)),
        (k(4.0), k(4.0)),
    ];
    let datasets = [sample(), Vec::new(), vec![vec![q(-5.0, -1.0), q(-1.0, 0.0)]]];
    for data in datasets.iter() {
        for a in answers {
            for b in answers {
                let pad = move |_e: (i64, i64), _axis: Axis, _log: bool| a;
                let wide = move |_r: (i64, i64), _log: bool| b;
                for mode in [PlotRange::Auto, PlotRange::Fixed(a), PlotRange::Fixed(b)] {
                    let r = resolve_range(&mode, data, Axis::Y, None, true, &pad, &wide);
                    assert!(is_log_range(r));
                }
            }
        }
    }
}

#[test]
fn drawing_on_logarithmic_axes_has_sound_ranges() {
    let mut settings = PlotSettings::new();
    settings.use_logscale_x = true;
    settings.use_logscale_y = true;
    let below = DataSlice { time: 0, datalines: vec![vec![q(-5.0, -1.0), q(-1.0, 0.0)]] };
    let d = plot_data_slice(&below, &settings, &by_axis, &widen, &line_lerp).unwrap();
    assert!(is_log_range(d.x_range));
    assert!(is_log_range(d.y_range));
    settings.plot_range_y = PlotRange::Fixed((k(-3.0), k(-1.0)));
    let d = plot_data_slice(&below, &settings, &by_axis, &widen, &line_lerp).unwrap();
    assert!(is_log_range(d.y_range));
    let mixed = DataSlice { time: 0, datalines: sample() };
    settings.plot_range_y = PlotRange::Auto;
    let d = plot_data_slice(&mixed, &settings, &by_axis, &widen, &line_lerp).unwrap();
    assert_eq!(d.x_range, (k(1.0e-10), k(4.0)));
    assert!(is_log_range(d.y_range));
}

#[test]
fn ranges_of_a_drawing_ignore_heights_outside_the_horizontal_range() {
    let mut settings = PlotSettings::new();
    settings.plot_range_x = PlotRange::Fixed((k(0.0), k(2.0)));
    let data = DataSlice { time: 0, datalines: sample() };
    let mut other = DataSlice { time: 0, datalines: sample() };
    other.datalines[0][0].1 = k(-1.0e9);
    other.datalines[2][1].1 = k(7.0e12);
    let a = plot_data_slice(&data, &settings, &by_axis, &widen, &line_lerp).unwrap();
    let b = plot_data_slice(&other, &settings, &by_axis, &widen, &line_lerp).unwrap();
    assert_eq!(a.x_range, b.x_range);
    assert_eq!(a.y_range, b.y_range);
    assert_eq!(a.point_data, b.point_data);
}

#[test]
fn plot_ranges_are_compared() {
    assert!(PlotRange::Auto.same(&PlotRange::Auto));
    assert!(PlotRange::Fixed((1, 2)).same(&PlotRange::Fixed((1, 2))));
    assert!(!PlotRange::Fixed((1, 2)).same(&PlotRange::Fixed((1, 3))));
    assert!(!PlotRange::Fixed((1, 2)).same(&PlotRange::Fixed((0, 2))));
    assert!(!PlotRange::Fixed((1, 2)).same(&PlotRange::Auto));
    assert!(!PlotRange::Auto.same(&PlotRange::Fixed((1, 2))));
}
