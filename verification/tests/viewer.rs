use ncho::axes::Axes;
use ncho::camera::{
    apply_zoom, crosshair_translation, fit_camera, frac_floor, pan, refit, viewport_to_world,
    world_to_viewport, zoom_factor, Frac,
};
use ncho::date::Date;
use ncho::response::{Color, GraphData};
use ncho::session::{Session, UiAction};

#[test]
fn fitting_centers_and_scales_to_the_viewport() {
    let cam = fit_camera(0, 100, -50, 50, 200, 100);
    assert_eq!(cam.center_x, Frac { num: 100, den: 2 });
    assert_eq!(cam.center_y, Frac { num: 0, den: 2 });
    assert_eq!(cam.scale_x, Frac { num: 100, den: 200 });
    assert_eq!(cam.scale_y, Frac { num: 100, den: 100 });
}

#[test]
fn wheel_zoom_scales_by_sixteenths() {
    assert_eq!(zoom_factor(4), Frac { num: 4, den: 16 });
    assert_eq!(zoom_factor(-4), Frac { num: 16, den: 4 });
    let mut cam = fit_camera(0, 100, 0, 100, 100, 100);
    apply_zoom(&mut cam, 8);
    assert_eq!(cam.scale_x, Frac { num: 100 * 8, den: 100 * 16 });
    assert_eq!(cam.center_x, Frac { num: 100, den: 2 });
}

#[test]
fn panning_moves_the_center_by_scaled_pixels() {
    let mut cam = fit_camera(0, 100, 0, 100, 100, 100);
    // One pixel is one data unit here; a drag of (10, -4) moves the
    // center by (-10, -4).
    pan(&mut cam, 10, -4);
    assert_eq!(frac_floor(cam.center_x), 50 - 10);
    assert_eq!(frac_floor(cam.center_y), 50 - 4);
}

#[test]
fn viewport_and_world_transforms_invert_each_other() {
    let cam = fit_camera(0, 100, 0, 100, 100, 100);
    let (wx, wy) = viewport_to_world(&cam, 60, 40, 100, 100);
    // Cursor (60, 40) on a 100-pixel window over 0..100: x is 10 right
    // of center 50, y is 10 above it.
    assert_eq!(wx.num * 1, 60 * wx.den);
    assert_eq!(wy.num * 1, 60 * wy.den);
    let small = Frac { num: wx.num / wx.den, den: 1 };
    let smally = Frac { num: wy.num / wy.den, den: 1 };
    let (vx, vy) = world_to_viewport(&cam, small, smally, 100, 100);
    assert_eq!(vx.num, 60 * vx.den);
    assert_eq!(vy.num, 40 * vy.den);
}

#[test]
fn crosshair_sits_relative_to_the_window_center() {
    let hx = Frac { num: 70, den: 1 };
    let hy = Frac { num: 30, den: 1 };
    let (tx, ty) = crosshair_translation(hx, hy, 100, 100);
    assert_eq!(tx.num, 2 * 70 - 100);
    assert_eq!(tx.den, 2);
    assert_eq!(ty.num, 100 - 2 * 30);
    assert_eq!(ty.den, 2);
}

#[test]
fn floors_round_toward_negative_infinity() {
    assert_eq!(frac_floor(Frac { num: 7, den: 2 }), 3);
    assert_eq!(frac_floor(Frac { num: -7, den: 2 }), -4);
    assert_eq!(frac_floor(Frac { num: -8, den: 2 }), -4);
}

#[test]
fn adding_a_graph_refits_axes_and_camera() {
    let mut axes = Axes::new();
    axes.set_view_size(100, 100);
    let g = GraphData {
        name: "Dev".to_owned(),
        color: Color { r: 0, g: 0, b: 0 },
        points: vec![
            (Date { year: 0, month: 1, day: 1 }, 0),
            (Date { year: 0, month: 1, day: 3 }, 2000),
        ],
    };
    let cam = refit(&mut axes, &g);
    assert_eq!(axes.x.min, 0);
    assert_eq!(axes.x.max, 2);
    assert_eq!(axes.y.min, 0);
    assert_eq!(axes.y.max, 2000);
    assert_eq!(cam.center_x, Frac { num: 2, den: 2 });
    assert_eq!(cam.center_y, Frac { num: 2000, den: 2 });
    assert_eq!(cam.scale_x, Frac { num: 2, den: 100 });
    assert_eq!(cam.scale_y, Frac { num: 2000, den: 100 });
}

#[test]
fn the_first_frame_fetches_the_legend_once() {
    let mut s = Session::new();
    assert!(matches!(s.begin_frame(), UiAction::FetchLegend));
    assert!(matches!(s.begin_frame(), UiAction::Idle));
}

#[test]
fn toggling_fetches_then_removes() {
    let mut s = Session::new();
    let name = "CSIRO".to_owned();
    let uri = "/api/graphs/CSIRO".to_owned();
    // First click: select and fetch.
    match s.toggle(&name, &uri) {
        UiAction::StartFetch(u) => assert_eq!(u, uri),
        _ => panic!("expected a fetch"),
    }
    assert!(s.is_selected(&name));
    assert!(s.is_fetching(&name));
    // While fetching, clicks do nothing.
    assert!(matches!(s.toggle(&name, &uri), UiAction::Idle));
    // The dataset arrives and is handed over to be shown.
    let g = GraphData { name: "CSIRO".to_owned(), color: Color { r: 0, g: 0, b: 0 }, points: vec![] };
    assert!(matches!(s.fetch_done(&name, g), UiAction::AddGraph(_)));
    assert!(!s.is_fetching(&name));
    // The next click unselects and removes the plot.
    match s.toggle(&name, &uri) {
        UiAction::RemoveGraph(n) => assert_eq!(n, name),
        _ => panic!("expected a removal"),
    }
    assert!(!s.is_selected(&name));
}

#[test]
fn a_failed_fetch_leaves_the_checkbox_disabled() {
    let mut s = Session::new();
    let name = "UHSLC".to_owned();
    let uri = "/api/graphs/UHSLC".to_owned();
    s.toggle(&name, &uri);
    s.fetch_failed(&name);
    assert!(s.is_fetching(&name));
    assert!(matches!(s.toggle(&name, &uri), UiAction::Idle));
}
