use vstd::prelude::*;
use crate::grid::EscapeGrid;
use crate::palette::{color_at, det_px_col, PaletteEntry, Rgb8};

verus! {

/// An image of eight-bit red, green and blue pixels, kept in an `image::RgbImage`.
///
/// Proofs see nothing inside it. What it holds is known to them through
/// `raster_size` and `raster_pixels` alone, as far as the contracts of the three
/// functions below that call into the `image` crate state it.
#[verifier::external_body]
pub struct Raster {
    inner: image::RgbImage,
}

/// The width and the height of an image, in pixels.
pub uninterp spec fn raster_size(img: Raster) -> (u32, u32);

/// The pixels of an image: the red, green and blue value at each column and row.
pub uninterp spec fn raster_pixels(img: Raster) -> Map<(int, int), (u8, u8, u8)>;

/// The three channel values of a colour.
pub open spec fn channels(color: Rgb8) -> (u8, u8, u8) {
    (color.r, color.g, color.b)
}

/// The place of the first byte of the pixel in column `x` and row `y`, in an image
/// of width `width` stored row by row with three bytes to the pixel.
pub open spec fn byte_offset(width: u32, x: int, y: int) -> int {
    3 * (y * width + x)
}

/// Calls `image::ImageBuffer::new`, which allocates an image of the given size in
/// which every channel of every pixel is zero.
///
/// It computes the length of its buffer in two steps, three times the width and
/// then that times the height, and panics where either step exceeds what the
/// machine can count; the vector it then allocates panics where it would be longer
/// than a vector can be. The precondition rules out all three.
#[verifier::external_body]
fn blank_image(width: u32, height: u32) -> (img: Raster)
    requires
        3 * width <= usize::MAX,
        3 * (width * height) <= isize::MAX,
    ensures
        raster_size(img) == (width, height),
        raster_pixels(img) == Map::new(
            |p: (int, int)| 0 <= p.0 < width && 0 <= p.1 < height,
            |p: (int, int)| (0u8, 0u8, 0u8),
        ),
{
    Raster { inner: image::RgbImage::new(width, height) }
}

/// Calls `image::ImageBuffer::put_pixel`, which replaces the pixel in column `x` and
/// row `y` and leaves the size and every other pixel as they were. It panics outside
/// the image, which the precondition rules out.
#[verifier::external_body]
fn put_pixel(img: &mut Raster, x: u32, y: u32, color: Rgb8)
    requires
        x < raster_size(*old(img)).0,
        y < raster_size(*old(img)).1,
    ensures
        raster_size(*final(img)) == raster_size(*old(img)),
        raster_pixels(*final(img)) == raster_pixels(*old(img)).insert(
            (x as int, y as int),
            channels(color),
        ),
{
    img.inner.put_pixel(x, y, image::Rgb([color.r, color.g, color.b]));
}

/// Whether `bytes` stores the pixels `pixels` of an image of the size `size`: row by
/// row from the top, each pixel as its red, green and blue byte.
pub open spec fn stores(bytes: Seq<u8>, size: (u32, u32), pixels: Map<(int, int), (u8, u8, u8)>) -> bool {
    &&& bytes.len() == 3 * (size.0 * size.1)
    &&& forall|x: int, y: int|
        0 <= x < size.0 && 0 <= y < size.1 ==> {
            let at = byte_offset(size.0, x, y);
            let pixel = #[trigger] pixels[(x, y)];
            &&& bytes[at] == pixel.0
            &&& bytes[at + 1] == pixel.1
            &&& bytes[at + 2] == pixel.2
        }
}

/// Calls `image::ImageBuffer::into_raw`, which hands out the buffer of the image:
/// its pixels row by row from the top, each as its red, green and blue byte.
#[verifier::external_body]
fn raw_bytes(img: Raster) -> (bytes: Vec<u8>)
    ensures
        stores(bytes@, raster_size(img), raster_pixels(img)),
{
    img.inner.into_raw()
}

/// Whether `bytes` are the picture of `cells` under the colour stops `stops`: one
/// pixel for each cell, row by row from the top, each pixel as the red, green and
/// blue byte of the colour that the stops give to the value of its cell.
pub open spec fn pictures(
    bytes: Seq<u8>,
    cells: Seq<Seq<u32>>,
    rows: u32,
    cols: u32,
    stops: Seq<PaletteEntry>,
) -> bool {
    &&& bytes.len() == 3 * (rows * cols)
    &&& forall|x: int, y: int|
        0 <= x < cols && 0 <= y < rows ==> {
            let at = #[trigger] byte_offset(cols, x, y);
            let color = color_at(stops, cells[y][x]);
            &&& bytes[at] == color.r
            &&& bytes[at + 1] == color.g
            &&& bytes[at + 2] == color.b
        }
}

/// The pixels of an image of `cols` by `rows` pixels lie side by side in its bytes:
/// each has three bytes of its own within them.
pub proof fn lemma_byte_offset(rows: u32, cols: u32, x: int, y: int)
    requires
        0 <= x < cols,
        0 <= y < rows,
    ensures
        0 <= byte_offset(cols, x, y),
        byte_offset(cols, x, y) + 3 <= 3 * (rows * cols),
        x + 1 < cols ==> byte_offset(cols, x + 1, y) == byte_offset(cols, x, y) + 3,
        x + 1 == cols ==> byte_offset(cols, 0, y + 1) == byte_offset(cols, x, y) + 3,
{
    assert(0 <= y * cols && y * cols + cols <= rows * cols && (y + 1) * cols == y * cols + cols)
        by (nonlinear_arith)
        requires
            0 <= y < rows,
            0 <= cols,
    ;
}

/// Whether `img` is the picture of `cells` under the colour stops `stops`: as wide
/// as the grid has columns, as high as it has rows, and each pixel in the colour
/// that the stops give to the value of its cell.
pub open spec fn depicts(
    img: Raster,
    cells: Seq<Seq<u32>>,
    rows: u32,
    cols: u32,
    stops: Seq<PaletteEntry>,
) -> bool {
    &&& raster_size(img) == (cols, rows)
    &&& forall|x: int, y: int|
        0 <= x < cols && 0 <= y < rows <==> #[trigger] raster_pixels(img).dom().contains((x, y))
    &&& forall|x: int, y: int|
        0 <= x < cols && 0 <= y < rows ==> #[trigger] raster_pixels(img)[(x, y)] == channels(
            color_at(stops, cells[y][x]),
        )
}

/// Draws a grid: one pixel for each cell, in the colour that the stops give to the
/// cell's value. The picture is handed out as its bytes: the pixels row by row from
/// the top, each as its red, green and blue byte.
pub fn paint(grid: &EscapeGrid, stops: &Vec<PaletteEntry>) -> (bytes: Vec<u8>)
    ensures
        pictures(bytes@, grid@, grid.spec_rows(), grid.spec_cols(), stops@),
{
    let rows: u32 = grid.rows();
    let cols: u32 = grid.cols();
    let img = draw(grid, stops);
    let bytes = raw_bytes(img);
    proof {
        assert(cols * rows == rows * cols) by (nonlinear_arith);
        assert forall|x: int, y: int| 0 <= x < cols && 0 <= y < rows implies {
            let at = #[trigger] byte_offset(cols, x, y);
            let color = color_at(stops@, grid@[y][x]);
            &&& bytes@[at] == color.r
            &&& bytes@[at + 1] == color.g
            &&& bytes@[at + 2] == color.b
        } by {
            lemma_byte_offset(rows, cols, x, y);
            let pixel = raster_pixels(img)[(x, y)];
            assert(pixel == channels(color_at(stops@, grid@[y][x])));
        }
    }
    bytes
}

/// Fills an image with the picture of a grid.
fn draw(grid: &EscapeGrid, stops: &Vec<PaletteEntry>) -> (img: Raster)
    ensures
        depicts(img, grid@, grid.spec_rows(), grid.spec_cols(), stops@),
{
    let rows: u32 = grid.rows();
    let cols: u32 = grid.cols();
    let mut img = blank_image(cols, rows);
    let mut y: u32 = 0;
    while y < rows
        invariant
            grid.well_formed(),
            rows == grid.spec_rows(),
            cols == grid.spec_cols(),
            y <= rows,
            raster_size(img) == (cols, rows),
            forall|i: int, j: int|
                0 <= i < cols && 0 <= j < rows <==> #[trigger] raster_pixels(img).dom().contains(
                    (i, j),
                ),
            forall|i: int, j: int|
                0 <= i < cols && 0 <= j < y ==> #[trigger] raster_pixels(img)[(i, j)] == channels(
                    color_at(stops@, grid@[j][i]),
                ),
        decreases rows - y,
    {
        let mut x: u32 = 0;
        while x < cols
            invariant
                grid.well_formed(),
                rows == grid.spec_rows(),
                cols == grid.spec_cols(),
                y < rows,
                x <= cols,
                raster_size(img) == (cols, rows),
                forall|i: int, j: int|
                    0 <= i < cols && 0 <= j < rows <==> #[trigger] raster_pixels(
                        img,
                    ).dom().contains((i, j)),
                forall|i: int, j: int|
                    0 <= i < cols && 0 <= j < y ==> #[trigger] raster_pixels(img)[(i, j)]
                        == channels(color_at(stops@, grid@[j][i])),
                forall|i: int|
                    0 <= i < x ==> #[trigger] raster_pixels(img)[(i, y as int)] == channels(
                        color_at(stops@, grid@[y as int][i]),
                    ),
            decreases cols - x,
        {
            let pt_its: u32 = match grid.get(y, x) {
                Some(value) => value,
                None => 0,
            };
            let px_col: Rgb8 = det_px_col(pt_its, stops);
            put_pixel(&mut img, x, y, px_col);
            x = x + 1;
        }
        y = y + 1;
    }
    img
}

} // verus!
