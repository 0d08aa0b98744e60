use ncho::axes::{Axes, Scale, Size};
use ncho::mesh::{crosshair_vertices, line_vertices, Vertex};

#[test]
fn crosshair_is_two_crossing_segments() {
    let v = crosshair_vertices();
    assert_eq!(
        v,
        vec![
            Vertex { x: 0, y: -1000 },
            Vertex { x: 0, y: 1000 },
            Vertex { x: -1000, y: 0 },
            Vertex { x: 1000, y: 0 },
        ]
    );
}

#[test]
fn line_mesh_keeps_the_points() {
    let points = vec![(0i64, 5i64), (1, -3), (2, 7)];
    let v = line_vertices(&points);
    assert_eq!(
        v,
        vec![Vertex { x: 0, y: 5 }, Vertex { x: 1, y: -3 }, Vertex { x: 2, y: 7 }]
    );
}

#[test]
fn frame_spans_the_padded_viewport() {
    let mut a = Axes::new();
    a.set_view_size(800, 600);
    // Half-extents in hundredths of a pixel: 46 * 800 and 50 * 600 - 4 * 800.
    let v = a.frame_vertices();
    assert_eq!(
        v,
        vec![
            Vertex { x: -36800, y: 26800 },
            Vertex { x: -36800, y: -26800 },
            Vertex { x: 36800, y: -26800 },
        ]
    );
}

#[test]
fn tick_mesh_walks_both_axes() {
    let a = Axes {
        x: Scale { label: "x".to_owned(), min: 0, max: 100 },
        y: Scale { label: "y".to_owned(), min: 0, max: 100 },
        view_size: Size { width: 100, height: 100 },
        max_ticks: 10,
    };
    let v = a.tick_vertices();
    // Eleven ticks per axis, three vertices each, plus the three frame
    // corners between the runs.
    assert_eq!(v.len(), 1 + 33 + 1 + 33 + 1);
    // Half-extents are 4600; the drawing area is 9200 on each side.
    assert_eq!(v[0], Vertex { x: -4600, y: 4600 });
    // First y tick sits at the top frame edge and sticks out left.
    assert_eq!(v[1], Vertex { x: -4600, y: 4600 });
    assert_eq!(v[2], Vertex { x: -6100, y: 4600 });
    assert_eq!(v[3], Vertex { x: -4600, y: 4600 });
    // Second y tick moved a tenth of the area down: 920 hundredths.
    assert_eq!(v[4], Vertex { x: -4600, y: 3680 });
    // The corner between the runs.
    assert_eq!(v[34], Vertex { x: -4600, y: -4600 });
    // First x tick starts at the right frame edge and sticks out below.
    assert_eq!(v[35], Vertex { x: 4600, y: -4600 });
    assert_eq!(v[36], Vertex { x: 4600, y: -6100 });
    // The closing corner.
    assert_eq!(v[68], Vertex { x: 4600, y: -4600 });
}
