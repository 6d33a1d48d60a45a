use rusty_abacus::export::{
    blank_export_image, draw_axes, draw_line, GraphImage, EXPORT_AXIS, EXPORT_BACKGROUND,
    EXPORT_HEIGHT, EXPORT_WIDTH,
};

/// The width, height and pixels of an image, each pixel read from the bytes row by row.
struct Pixels {
    width: u32,
    height: u32,
    bytes: Vec<u8>,
}

impl Pixels {
    fn of(img: GraphImage) -> Pixels {
        let (width, height, bytes) = img.into_rgb();
        Pixels { width, height, bytes }
    }

    fn at(&self, x: u32, y: u32) -> (u8, u8, u8) {
        assert!(x < self.width && y < self.height);
        let i = ((y as usize) * (self.width as usize) + x as usize) * 3;
        (self.bytes[i], self.bytes[i + 1], self.bytes[i + 2])
    }
}

#[test]
fn blank_image_has_the_background() {
    let px = Pixels::of(blank_export_image());
    assert_eq!(px.width, EXPORT_WIDTH);
    assert_eq!(px.height, EXPORT_HEIGHT);
    assert_eq!(px.width, 800);
    assert_eq!(px.height, 600);
    assert_eq!(px.bytes.len(), 800 * 600 * 3);
    assert_eq!(px.at(0, 0), EXPORT_BACKGROUND);
    assert_eq!(px.at(799, 599), (26, 26, 26));
    assert!(px.bytes.iter().all(|b| *b == 26));
}

#[test]
fn image_bytes_are_row_major_rgb() {
    let mut img = blank_export_image();
    draw_line(&mut img, 1, 0, 1, 0, (1, 2, 3));
    draw_line(&mut img, 0, 1, 0, 1, (4, 5, 6));
    let px = Pixels::of(img);
    assert_eq!(&px.bytes[0..3], &[26, 26, 26]);
    assert_eq!(&px.bytes[3..6], &[1, 2, 3]);
    assert_eq!(&px.bytes[800 * 3..800 * 3 + 3], &[4, 5, 6]);
}

#[test]
fn line_is_painted_and_clipped() {
    let mut img = blank_export_image();
    let red = (200, 10, 10);
    draw_line(&mut img, -2, 5, 3, 5, red);
    draw_line(&mut img, 10, 10, 13, 11, red);

    let mut same = blank_export_image();
    draw_line(&mut same, -2, 5, 3, 5, red);
    draw_line(&mut same, 10, 10, 13, 11, red);
    // a line that lies wholly outside paints nothing
    draw_line(&mut same, 900, 700, 1000, 800, red);

    let px = Pixels::of(img);
    for x in 0..=3 {
        assert_eq!(px.at(x, 5), red);
    }
    assert_eq!(px.at(4, 5), EXPORT_BACKGROUND);
    assert_eq!(px.at(0, 4), EXPORT_BACKGROUND);

    assert_eq!(px.at(10, 10), red);
    assert_eq!(px.at(11, 10), red);
    assert_eq!(px.at(12, 11), red);
    assert_eq!(px.at(13, 11), red);
    assert_eq!(px.at(12, 10), EXPORT_BACKGROUND);

    assert_eq!(Pixels::of(same).bytes, px.bytes);
}

#[test]
fn axes_cross_at_the_origin() {
    let mut img = blank_export_image();
    draw_axes(&mut img, 400, 300, EXPORT_AXIS);
    let px = Pixels::of(img);
    assert_eq!(px.at(0, 300), (255, 255, 255));
    assert_eq!(px.at(799, 300), EXPORT_AXIS);
    assert_eq!(px.at(400, 0), EXPORT_AXIS);
    assert_eq!(px.at(400, 599), EXPORT_AXIS);
    assert_eq!(px.at(399, 299), EXPORT_BACKGROUND);
}

#[test]
fn axes_outside_are_left_out() {
    let mut img = blank_export_image();
    draw_axes(&mut img, -1, 600, EXPORT_AXIS);
    let px = Pixels::of(img);
    assert!(px.bytes.iter().all(|b| *b == 26));

    let mut img = blank_export_image();
    draw_axes(&mut img, 800, 10, EXPORT_AXIS);
    let px = Pixels::of(img);
    assert_eq!(px.at(0, 10), EXPORT_AXIS);
    assert_eq!(px.at(799, 11), EXPORT_BACKGROUND);
}
