use ncho::points::{closer, closest_across, find_closest_point};
use ncho::store::{Coordinates, Dimensions, MouseButton, Msg, State, Store};

#[test]
fn closest_point_is_found_by_squared_distance() {
    let points = vec![(0i64, 0i64), (10, 0), (3, 4)];
    let r = find_closest_point((4, 4), &points).unwrap();
    // (3, 4) lies at squared distance 1; the others are farther.
    assert_eq!(r, (2, 1, (3, 4)));
}

#[test]
fn closest_point_keeps_the_first_of_equals() {
    let points = vec![(1i64, 0i64), (-1, 0)];
    let r = find_closest_point((0, 0), &points).unwrap();
    assert_eq!(r.0, 0);
    assert_eq!(r.1, 1);
}

#[test]
fn closest_point_of_nothing_is_none() {
    let points: Vec<(i64, i64)> = Vec::new();
    assert!(find_closest_point((0, 0), &points).is_none());
}

#[test]
fn closer_prefers_the_later_on_a_tie() {
    let a = (0usize, 5u128, (0i64, 0i64));
    let b = (1usize, 5u128, (9i64, 9i64));
    assert_eq!(closer(a, b), b);
    let c = (2usize, 4u128, (1i64, 1i64));
    assert_eq!(closer(c, b), c);
}

#[test]
fn crosshair_picks_the_globally_closest_point() {
    let graphs = vec![
        vec![(0i64, 0i64), (10, 10)],
        vec![],
        vec![(4, 4), (100, 100)],
    ];
    // The cursor sits on (4, 4) of the third polyline.
    let r = closest_across((4, 4), &graphs).unwrap();
    assert_eq!(r, (2, 0, 0, (4, 4)));
    // With nothing loaded there is nothing to pick.
    assert!(closest_across((4, 4), &vec![]).is_none());
    assert!(closest_across((4, 4), &vec![vec![], vec![]]).is_none());
    // On a tie between polylines the later one wins.
    let tied = vec![vec![(1i64, 0i64)], vec![(-1, 0)]];
    let r = closest_across((0, 0), &tied).unwrap();
    assert_eq!(r.0, 1);
}

#[test]
fn resize_message_replaces_the_canvas_size() {
    let mut store = Store::new();
    store.msg(&Msg::WindowResized(Dimensions { width: 640, height: 480 }));
    assert_eq!(store.state.state().canvas_dimensions, Dimensions { width: 640, height: 480 });
}

#[test]
fn mouse_message_moves_the_pointer_and_clears_buttons() {
    let mut state = State::default();
    state.msg(&Msg::MouseMoved((Coordinates { x: 7, y: -3 }, MouseButton::Main)));
    assert_eq!(state.mouse.position(), Coordinates { x: 7, y: -3 });
    assert_eq!(state.mouse.buttons_len(), 0);
    assert_eq!(state.canvas_dimensions, Dimensions { width: 0, height: 0 });
}

#[test]
fn mouse_buttons_follow_the_browser_codes() {
    assert_eq!(MouseButton::from(0), MouseButton::Main);
    assert_eq!(MouseButton::from(1), MouseButton::Auxiliary);
    assert_eq!(MouseButton::from(2), MouseButton::Secondary);
    assert_eq!(MouseButton::from(3), MouseButton::Fourth);
    assert_eq!(MouseButton::from(4), MouseButton::Fifth);
}
