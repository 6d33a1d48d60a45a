use rusty_abacus::raster::line_pixels;

#[test]
fn shallow_line() {
    assert_eq!(line_pixels(0, 0, 3, 1, 10, 10), vec![(0, 0), (1, 0), (2, 1), (3, 1)]);
}

#[test]
fn steep_line_backwards() {
    assert_eq!(line_pixels(1, 3, 0, 0, 10, 10), vec![(1, 3), (1, 2), (0, 1), (0, 0)]);
}

#[test]
fn diagonal_and_single_point() {
    assert_eq!(line_pixels(2, 2, 5, 5, 10, 10), vec![(2, 2), (3, 3), (4, 4), (5, 5)]);
    assert_eq!(line_pixels(4, 7, 4, 7, 10, 10), vec![(4, 7)]);
}

#[test]
fn clipped_to_the_image() {
    assert_eq!(line_pixels(-2, 0, 2, 0, 2, 5), vec![(0, 0), (1, 0)]);
    assert_eq!(line_pixels(-5, -5, -1, -1, 10, 10), Vec::<(u32, u32)>::new());
}

#[test]
fn ends_at_the_second_point() {
    let px = line_pixels(0, 0, 37, 11, 100, 100);
    assert_eq!(px.len(), 38);
    assert_eq!(px[0], (0, 0));
    assert_eq!(*px.last().unwrap(), (37, 11));
    for w in px.windows(2) {
        let dx = (w[1].0 as i64 - w[0].0 as i64).abs();
        let dy = (w[1].1 as i64 - w[0].1 as i64).abs();
        assert!(dx <= 1 && dy <= 1);
    }
}

#[test]
fn points_stay_within_half_a_pixel() {
    for &(x1, y1) in &[(37i32, 11i32), (11, 37), (-20, 7), (5, -40), (9, 9)] {
        let (dx, dy) = (x1.abs() as i64, y1.abs() as i64);
        // the line starts at (50, 50), so that all of it lies in the image
        let all = line_pixels(50, 50, 50 + x1, 50 + y1, 100, 100);
        assert_eq!(all.len() as i64, dx.max(dy) + 1);
        for &(x, y) in &all {
            let a = (x as i64 - 50).abs();
            let b = (y as i64 - 50).abs();
            if dx >= dy {
                assert!((2 * (b * dx - a * dy)).abs() <= dx);
            } else {
                assert!((2 * (a * dy - b * dx)).abs() <= dy);
            }
        }
    }
}

#[test]
fn vertical_clip_and_far_point() {
    // a vertical line from the lowest to the highest row crosses the image
    let px = line_pixels(1, -3, 1, 2, 3, 3);
    assert_eq!(px, vec![(1, 0), (1, 1), (1, 2)]);
    let single = line_pixels(i32::MAX, i32::MIN, i32::MAX, i32::MIN, 3, 3);
    assert!(single.is_empty());
}
