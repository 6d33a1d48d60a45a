use vstd::prelude::*;

use image::{ImageBuffer, Rgb};

use crate::raster::{line_pixels, line_points, visible};

verus! {

/// An RGB image that graphs are drawn into, held in the image crate's buffer, which the
/// library reads and writes through the functions below only.
#[verifier::external_body]
pub struct GraphImage {
    buffer: ImageBuffer<Rgb<u8>, Vec<u8>>,
}

/// The colour of each pixel of an RGB image, keyed by `(x, y)`.
pub uninterp spec fn image_pixels(img: GraphImage) -> Map<
    (u32, u32),
    (u8, u8, u8),
>;

/// The width an RGB image was made with.
pub uninterp spec fn image_width(img: GraphImage) -> u32;

/// The height an RGB image was made with.
pub uninterp spec fn image_height(img: GraphImage) -> u32;

/// Calls `ImageBuffer::from_fn` with a function that gives every pixel the colour
/// `color`. The contract claims the image has the given size and that each of its
/// pixels has that colour; `ImageBuffer::new` panics when the buffer length overflows
/// `usize`, which the `requires` leaves out.
#[verifier::external_body]
fn image_filled(width: u32, height: u32, color: (u8, u8, u8)) -> (img: GraphImage)
    requires
        width as int * height as int * 3 <= usize::MAX,
    ensures
        image_width(img) == width,
        image_height(img) == height,
        image_pixels(img) == Map::new(
            |p: (u32, u32)| p.0 < width && p.1 < height,
            |p: (u32, u32)| color,
        ),
{
    GraphImage { buffer: ImageBuffer::from_fn(width, height, |_, _| Rgb([color.0, color.1, color.2])) }
}

/// Calls `ImageBuffer::width`: the width the image was made with.
#[verifier::external_body]
fn width_of(img: &GraphImage) -> (r: u32)
    ensures
        r == image_width(*img),
{
    img.buffer.width()
}

/// Calls `ImageBuffer::height`: the height the image was made with.
#[verifier::external_body]
fn height_of(img: &GraphImage) -> (r: u32)
    ensures
        r == image_height(*img),
{
    img.buffer.height()
}

/// Calls `ImageBuffer::put_pixel`: the pixel at `(x, y)` takes the colour `color`, the
/// other pixels and the size stay. It panics outside the image, which the `requires`
/// leaves out.
#[verifier::external_body]
fn put_pixel(img: &mut GraphImage, x: u32, y: u32, color: (u8, u8, u8))
    requires
        x < image_width(*old(img)),
        y < image_height(*old(img)),
    ensures
        image_width(*final(img)) == image_width(*old(img)),
        image_height(*final(img)) == image_height(*old(img)),
        image_pixels(*final(img)) == image_pixels(*old(img)).insert((x, y), color),
{
    img.buffer.put_pixel(x, y, Rgb([color.0, color.1, color.2]));
}

/// The bytes of an RGB image of size `width` by `height` whose pixels are `pixels`: rows
/// from the top, pixels from the left, and the red, green and blue byte of each.
pub open spec fn rgb_bytes(pixels: Map<(u32, u32), (u8, u8, u8)>, width: u32, height: u32) -> Seq<
    u8,
> {
    Seq::new(
        (width * height * 3) as nat,
        |i: int|
            {
                let c = pixels[(((i / 3) % width as int) as u32, ((i / 3) / width as int) as u32)];
                if i % 3 == 0 {
                    c.0
                } else if i % 3 == 1 {
                    c.1
                } else {
                    c.2
                }
            },
    )
}

/// Calls `ImageBuffer::into_raw`, which hands out the buffer's bytes: for an RGB image
/// made by `ImageBuffer::from_fn`, its pixels row by row, three bytes each.
#[verifier::external_body]
fn raw_bytes(img: GraphImage) -> (r: Vec<u8>)
    ensures
        r@ == rgb_bytes(image_pixels(img), image_width(img), image_height(img)),
{
    img.buffer.into_raw()
}

impl GraphImage {
    /// The image's width, height and bytes (rows from the top, three bytes a pixel), to
    /// be saved or shown.
    pub fn into_rgb(self) -> (r: (u32, u32, Vec<u8>))
        ensures
            r.0 == image_width(self),
            r.1 == image_height(self),
            r.2@ == rgb_bytes(image_pixels(self), r.0, r.1),
    {
        let w: u32 = width_of(&self);
        let h: u32 = height_of(&self);
        (w, h, raw_bytes(self))
    }
}


/// Width of an exported graph image, in pixels.
pub const EXPORT_WIDTH: u32 = 800;

/// Height of an exported graph image, in pixels.
pub const EXPORT_HEIGHT: u32 = 600;

/// Background colour of an exported graph image.
pub const EXPORT_BACKGROUND: (u8, u8, u8) = (26, 26, 26);

/// An export image of the fixed size, filled with the background colour.
pub fn blank_export_image() -> (img: GraphImage)
    ensures
        image_width(img) == EXPORT_WIDTH,
        image_height(img) == EXPORT_HEIGHT,
        image_pixels(img) == Map::new(
            |p: (u32, u32)| p.0 < EXPORT_WIDTH && p.1 < EXPORT_HEIGHT,
            |p: (u32, u32)| EXPORT_BACKGROUND,
        ),
        image_width(img) == 800 && image_height(img) == 600,
        forall|x: u32, y: u32|
            x < 800 && y < 600 ==> image_pixels(img).dom().contains((x, y)) && #[trigger] image_pixels(
                img,
            )[(x, y)] == (26u8, 26u8, 26u8),
{
    assert(800int * 600int * 3 <= usize::MAX);
    image_filled(EXPORT_WIDTH, EXPORT_HEIGHT, EXPORT_BACKGROUND)
}

/// `m` with each pixel of `ps`, in order, set to `color`.
pub open spec fn paint(m: Map<(u32, u32), (u8, u8, u8)>, ps: Seq<(u32, u32)>, color: (u8, u8, u8)) -> Map<
    (u32, u32),
    (u8, u8, u8),
>
    decreases ps.len(),
{
    if ps.len() == 0 {
        m
    } else {
        paint(m, ps.drop_last(), color).insert(ps.last(), color)
    }
}

/// Painting a list of pixels gives each of them the colour and leaves every other pixel
/// as it was.
pub proof fn law_paint(m: Map<(u32, u32), (u8, u8, u8)>, ps: Seq<(u32, u32)>, color: (u8, u8, u8))
    ensures
        forall|k: int|
            0 <= k < ps.len() ==> paint(m, ps, color).dom().contains(#[trigger] ps[k]) && paint(
                m,
                ps,
                color,
            )[ps[k]] == color,
        forall|p: (u32, u32)|
            !ps.contains(p) ==> (#[trigger] paint(m, ps, color).dom().contains(p) == m.dom().contains(
                p,
            ) && (m.dom().contains(p) ==> paint(m, ps, color)[p] == m[p])),
    decreases ps.len(),
{
    if ps.len() > 0 {
        let init = ps.drop_last();
        law_paint(m, init, color);
        assert forall|k: int| 0 <= k < ps.len() implies paint(m, ps, color).dom().contains(
            #[trigger] ps[k],
        ) && paint(m, ps, color)[ps[k]] == color by {
            if k < ps.len() - 1 {
                assert(init[k] == ps[k]);
            }
        }
        assert forall|p: (u32, u32)| !ps.contains(p) implies (#[trigger] paint(
            m,
            ps,
            color,
        ).dom().contains(p) == m.dom().contains(p) && (m.dom().contains(p) ==> paint(m, ps, color)[p]
            == m[p])) by {
            assert(p != ps.last()) by {
                if p == ps.last() {
                    assert(ps[ps.len() - 1] == p);
                }
            }
            assert(!init.contains(p)) by {
                if init.contains(p) {
                    let k = choose|k: int| 0 <= k < init.len() && init[k] == p;
                    assert(ps[k] == p);
                }
            }
            assert(paint(m, ps, color) == paint(m, init, color).insert(ps.last(), color));
            assert(paint(m, init, color).dom().contains(p) == m.dom().contains(p));
        }
    }
}

/// Draw Bresenham's line from `(x0, y0)` to `(x1, y1)` in `color`, clipped to the image.
/// The image's sides are read as `i32`.
pub fn draw_line(img: &mut GraphImage, x0: i32, y0: i32, x1: i32, y1: i32, color: (u8, u8, u8))
    ensures
        image_width(*final(img)) == image_width(*old(img)),
        image_height(*final(img)) == image_height(*old(img)),
        image_pixels(*final(img)) == paint(
            image_pixels(*old(img)),
            visible(
                line_points(x0 as int, y0 as int, x1 as int, y1 as int),
                (image_width(*old(img)) as i32) as int,
                (image_height(*old(img)) as i32) as int,
            ),
            color,
        ),
{
    let w: u32 = width_of(img);
    let h: u32 = height_of(img);
    let width: i32 = w as i32;
    let height: i32 = h as i32;
    let pixels = line_pixels(x0, y0, x1, y1, width, height);
    proof {
        lemma_visible_inside(
            line_points(x0 as int, y0 as int, x1 as int, y1 as int),
            width as int,
            height as int,
        );
        assert(w < 0x8000_0000 ==> width == w) by (bit_vector)
            requires
                width == w as i32,
        ;
        assert(w >= 0x8000_0000 ==> width < 0) by (bit_vector)
            requires
                width == w as i32,
        ;
        assert(h < 0x8000_0000 ==> height == h) by (bit_vector)
            requires
                height == h as i32,
        ;
        assert(h >= 0x8000_0000 ==> height < 0) by (bit_vector)
            requires
                height == h as i32,
        ;
    }
    let mut k: usize = 0;
    while k < pixels.len()
        invariant
            k <= pixels@.len(),
            image_width(*img) == w,
            image_height(*img) == h,
            w < 0x8000_0000 ==> width as int == w as int,
            w >= 0x8000_0000 ==> (width as int) < 0,
            h < 0x8000_0000 ==> height as int == h as int,
            h >= 0x8000_0000 ==> (height as int) < 0,
            forall|i: int|
                0 <= i < pixels@.len() ==> (#[trigger] pixels@[i]).0 < width && pixels@[i].1
                    < height,
            image_pixels(*img) == paint(image_pixels(*old(img)), pixels@.take(k as int), color),
        decreases pixels.len() - k,
    {
        let (x, y) = pixels[k];
        put_pixel(img, x, y, color);
        proof {
            assert(pixels@.take(k + 1).drop_last() =~= pixels@.take(k as int));
        }
        k += 1;
    }
    proof {
        assert(pixels@.take(pixels@.len() as int) =~= pixels@);
    }
}

proof fn lemma_visible_inside(ps: Seq<(int, int)>, width: int, height: int)
    ensures
        forall|i: int|
            0 <= i < visible(ps, width, height).len() ==> (#[trigger] visible(
                ps,
                width,
                height,
            )[i]).0 < width && visible(ps, width, height)[i].1 < height,
    decreases ps.len(),
{
    if ps.len() > 0 {
        lemma_visible_inside(ps.drop_first(), width, height);
        let rest = visible(ps.drop_first(), width, height);
        let v = visible(ps, width, height);
        if crate::raster::in_image(ps[0], width, height) {
            assert forall|i: int| 0 <= i < v.len() implies (#[trigger] v[i]).0 < width && v[i].1
                < height by {
                if i > 0 {
                    assert(v[i] == rest[i - 1]);
                }
            }
        }
    }
}

/// Colour of the axes in an exported graph image.
pub const EXPORT_AXIS: (u8, u8, u8) = (255, 255, 255);

/// Whether a pixel lies on the axes through `(origin_x, origin_y)` that fall in a
/// `width` x `height` image.
pub open spec fn on_axes(p: (u32, u32), width: u32, height: u32, origin_x: i32, origin_y: i32) -> bool {
    &&& p.0 < width
    &&& p.1 < height
    &&& ((0 <= origin_y < height as i32 && p.1 == origin_y) || (0 <= origin_x < width as i32
        && p.0 == origin_x))
}

/// Draw the horizontal axis through `origin_y` and the vertical axis through `origin_x`,
/// each when it falls inside the image (its sides read as `i32`), whether or not the
/// other one does. Pixels on neither line keep their colour.
pub fn draw_axes(img: &mut GraphImage, origin_x: i32, origin_y: i32, color: (u8, u8, u8))
    ensures
        image_width(*final(img)) == image_width(*old(img)),
        image_height(*final(img)) == image_height(*old(img)),
        image_pixels(*final(img)) == image_pixels(*old(img)).union_prefer_right(
            Map::new(
                |p: (u32, u32)|
                    on_axes(p, image_width(*old(img)), image_height(*old(img)), origin_x, origin_y),
                |p: (u32, u32)| color,
            ),
        ),
        forall|y: u32|
            0 <= origin_x < (image_width(*old(img)) as i32) && y < image_height(*old(img))
                ==> image_pixels(*final(img)).dom().contains((origin_x as u32, y))
                && #[trigger] image_pixels(*final(img))[(origin_x as u32, y)] == color,
        forall|x: u32|
            0 <= origin_y < (image_height(*old(img)) as i32) && x < image_width(*old(img))
                ==> image_pixels(*final(img)).dom().contains((x, origin_y as u32))
                && #[trigger] image_pixels(*final(img))[(x, origin_y as u32)] == color,
        forall|p: (u32, u32)|
            p.0 as int != origin_x as int && p.1 as int != origin_y as int ==> (
            #[trigger] image_pixels(*final(img)).dom().contains(p) == image_pixels(
                *old(img),
            ).dom().contains(p) && (image_pixels(*old(img)).dom().contains(p) ==> image_pixels(
                *final(img),
            )[p] == image_pixels(*old(img))[p])),
{
    let width: u32 = width_of(img);
    let height: u32 = height_of(img);
    let ghost m0 = image_pixels(*img);
    let row = origin_y >= 0 && origin_y < height as i32;
    let col = origin_x >= 0 && origin_x < width as i32;
    if row {
        let mut x: u32 = 0;
        proof {
            assert(image_pixels(*img) =~= m0.union_prefer_right(
                Map::new(
                    |p: (u32, u32)| p.0 < x && p.1 == origin_y as u32,
                    |p: (u32, u32)| color,
                ),
            ));
        }
        while x < width
            invariant
                x <= width,
                row,
                0 <= origin_y < height as i32,
                image_width(*img) == width,
                image_height(*img) == height,
                image_pixels(*img) == m0.union_prefer_right(
                    Map::new(
                        |p: (u32, u32)| p.0 < x && p.1 == origin_y as u32,
                        |p: (u32, u32)| color,
                    ),
                ),
            decreases width - x,
        {
            assert((origin_y as u32) < height) by (bit_vector)
                requires
                    0 <= origin_y < height as i32,
            ;
            put_pixel(img, x, origin_y as u32, color);
            x += 1;
            proof {
                assert(image_pixels(*img) =~= m0.union_prefer_right(
                    Map::new(
                        |p: (u32, u32)| p.0 < x && p.1 == origin_y as u32,
                        |p: (u32, u32)| color,
                    ),
                ));
            }
        }
    }
    let ghost m1 = image_pixels(*img);
    if col {
        let mut y: u32 = 0;
        proof {
            assert(image_pixels(*img) =~= m1.union_prefer_right(
                Map::new(
                    |p: (u32, u32)| p.1 < y && p.0 == origin_x as u32,
                    |p: (u32, u32)| color,
                ),
            ));
        }
        while y < height
            invariant
                y <= height,
                0 <= origin_x < width as i32,
                image_width(*img) == width,
                image_height(*img) == height,
                image_pixels(*img) == m1.union_prefer_right(
                    Map::new(
                        |p: (u32, u32)| p.1 < y && p.0 == origin_x as u32,
                        |p: (u32, u32)| color,
                    ),
                ),
            decreases height - y,
        {
            assert((origin_x as u32) < width) by (bit_vector)
                requires
                    0 <= origin_x < width as i32,
            ;
            put_pixel(img, origin_x as u32, y, color);
            y += 1;
            proof {
                assert(image_pixels(*img) =~= m1.union_prefer_right(
                    Map::new(
                        |p: (u32, u32)| p.1 < y && p.0 == origin_x as u32,
                        |p: (u32, u32)| color,
                    ),
                ));
            }
        }
    }
    proof {
        let target = m0.union_prefer_right(
            Map::new(
                |p: (u32, u32)| on_axes(p, width, height, origin_x, origin_y),
                |p: (u32, u32)| color,
            ),
        );
        assert(image_pixels(*img) =~= target);
        assert forall|y: u32|
            0 <= origin_x < (width as i32) && y < height implies image_pixels(*img).dom().contains(
            (origin_x as u32, y),
        ) && #[trigger] image_pixels(*img)[(origin_x as u32, y)] == color by {
            assert((origin_x as u32) < width) by (bit_vector)
                requires
                    0 <= origin_x < width as i32,
            ;
            assert(on_axes((origin_x as u32, y), width, height, origin_x, origin_y));
        }
        assert forall|x: u32|
            0 <= origin_y < (height as i32) && x < width implies image_pixels(*img).dom().contains(
            (x, origin_y as u32),
        ) && #[trigger] image_pixels(*img)[(x, origin_y as u32)] == color by {
            assert((origin_y as u32) < height) by (bit_vector)
                requires
                    0 <= origin_y < height as i32,
            ;
            assert(on_axes((x, origin_y as u32), width, height, origin_x, origin_y));
        }
        assert forall|p: (u32, u32)|
            p.0 as int != origin_x as int && p.1 as int != origin_y as int implies (
            #[trigger] image_pixels(*img).dom().contains(p) == m0.dom().contains(p)
                && (m0.dom().contains(p) ==> image_pixels(*img)[p] == m0[p])) by {
            let axes = Map::new(
                |q: (u32, u32)| on_axes(q, width, height, origin_x, origin_y),
                |q: (u32, u32)| color,
            );
            assert(!on_axes(p, width, height, origin_x, origin_y));
            assert(!axes.dom().contains(p));
            assert(target == m0.union_prefer_right(axes));
            assert(target.dom().contains(p) == m0.dom().contains(p));
        }
    }
}

} // verus!
