//! The artwork rasterizer: downsamples a decoded bitmap into a character
//! grid, two colors per cell, so one half-block glyph shows two vertically
//! stacked source pixels. Resampling is done by the image crate behind
//! trusted wrappers; the folding of pixel rows into cells is verified.
use vstd::prelude::*;

verus! {

/// A color as red, green and blue channels.
#[derive(Debug, Clone, Copy, PartialEq, Eq, Structural)]
pub struct Rgb {
    pub r: u8,
    pub g: u8,
    pub b: u8,
}

/// One character cell of rendered artwork: the foreground colors the top
/// half of the glyph, the background its bottom half.
#[derive(Debug, Clone, Copy, PartialEq, Eq, Structural)]
pub struct ArtworkCell {
    pub fg: Rgb,
    pub bg: Rgb,
}

// ---------------------------------------------------------------------------
// Trusted view of the image crate
// ---------------------------------------------------------------------------

#[verifier::external_type_specification]
#[verifier::external_body]
pub struct ExDynamicImage(image::DynamicImage);

/// The pixel grid a decoded image holds: rows top to bottom, each row left
/// to right, each pixel its red, green and blue channels.
pub uninterp spec fn pixels_of(img: image::DynamicImage) -> Seq<Seq<(u8, u8, u8)>>;

/// What resampling an 8-bit pixel grid to `w` columns and `h` rows with the
/// image crate's triangle filter yields; a function of its arguments alone.
pub uninterp spec fn triangle_resize(src: Seq<Seq<(u8, u8, u8)>>, w: u32, h: u32) -> Seq<
    Seq<(u8, u8, u8)>,
>;

/// Relies on image::DynamicImage::to_rgba8 and resize_exact with the
/// Triangle filter: a new image of exactly `w` by `h` pixels. The bitmap is
/// first brought to 8-bit RGBA, so the resampling arithmetic runs on the
/// very channel values `pixels_of` names — a deeper image with the same
/// 8-bit view resizes the same — and the filter works per channel, so the
/// red, green and blue results depend on those channels and the target
/// size alone.
#[verifier::external_body]
fn resize_exact_triangle(img: &image::DynamicImage, w: u32, h: u32) -> (r: image::DynamicImage)
    requires
        1 <= w,
        1 <= h,
    ensures
        pixels_of(r) == triangle_resize(pixels_of(*img), w, h),
        pixels_of(r).len() == h as int,
        forall|y: int|
            0 <= y < pixels_of(r).len() ==> (#[trigger] pixels_of(r)[y]).len() == w as int,
{
    let rgba = image::DynamicImage::ImageRgba8(img.to_rgba8());
    rgba.resize_exact(w, h, image::imageops::FilterType::Triangle)
}

/// Relies on image::GenericImageView::get_pixel on DynamicImage: the red,
/// green and blue channels of the pixel at column `x` of row `y`; the call
/// panics out of bounds, so bounds are required here.
#[verifier::external_body]
fn pixel_rgb(img: &image::DynamicImage, x: u32, y: u32) -> (r: (u8, u8, u8))
    requires
        (y as int) < pixels_of(*img).len(),
        (x as int) < pixels_of(*img)[y as int].len(),
    ensures
        r == pixels_of(*img)[y as int][x as int],
{
    let p = image::GenericImageView::get_pixel(img, x, y);
    (p[0], p[1], p[2])
}

// ---------------------------------------------------------------------------
// The grid and its mathematical shape
// ---------------------------------------------------------------------------

/// The cell at grid row `r`, column `c` of a resampled pixel grid: the
/// pixel of source row `2r` on top, the pixel of row `2r+1` below.
pub open spec fn spec_cell(resized: Seq<Seq<(u8, u8, u8)>>, r: int, c: int) -> ArtworkCell {
    ArtworkCell {
        fg: Rgb { r: resized[2 * r][c].0, g: resized[2 * r][c].1, b: resized[2 * r][c].2 },
        bg: Rgb {
            r: resized[2 * r + 1][c].0,
            g: resized[2 * r + 1][c].1,
            b: resized[2 * r + 1][c].2,
        },
    }
}

/// What rasterizing a pixel grid yields: nothing for a degenerate request,
/// else `height_rows` rows of `width` cells read off the grid resampled to
/// `width` by `2 * height_rows` pixels.
pub open spec fn spec_rasterize(src: Seq<Seq<(u8, u8, u8)>>, width: u32, height_rows: u32) -> Seq<
    Seq<ArtworkCell>,
> {
    if width == 0 || height_rows == 0 {
        Seq::empty()
    } else {
        let resized = triangle_resize(src, width, (2 * height_rows) as u32);
        Seq::new(
            height_rows as nat,
            |r: int| Seq::new(width as nat, |c: int| spec_cell(resized, r, c)),
        )
    }
}

/// Rendered artwork: rows of two-color cells, rebuilt only when the source
/// bitmap or the requested size changes, reused across render ticks
/// otherwise. Its mathematical view is the sequence of rows.
#[derive(Debug, Clone, PartialEq)]
pub struct ArtworkGrid {
    cells: Vec<Vec<ArtworkCell>>,
}

impl View for ArtworkGrid {
    type V = Seq<Seq<ArtworkCell>>;

    closed spec fn view(&self) -> Seq<Seq<ArtworkCell>> {
        Seq::new(self.cells@.len(), |i: int| self.cells@[i]@)
    }
}

impl ArtworkGrid {
    /// How many rows the grid holds.
    pub fn height(&self) -> (r: usize)
        ensures
            r == self@.len(),
    {
        self.cells.len()
    }

    /// The row at index `r`.
    pub fn row(&self, r: usize) -> (row: &Vec<ArtworkCell>)
        requires
            r < self@.len(),
        ensures
            row@ == self@[r as int],
    {
        &self.cells[r]
    }

    /// The cell at row `r`, column `c`.
    pub fn cell(&self, r: usize, c: usize) -> (cell: ArtworkCell)
        requires
            r < self@.len(),
            c < self@[r as int].len(),
        ensures
            cell == self@[r as int][c as int],
    {
        self.cells[r][c]
    }
}

// ---------------------------------------------------------------------------
// The rasterizer
// ---------------------------------------------------------------------------

/// Rasterizes a bitmap into `height_rows` rows of `width` two-color cells,
/// exactly as `spec_rasterize` describes: the bitmap is resampled to
/// `width` by `2 * height_rows` pixels and consecutive pixel-row pairs fold
/// into one cell each. Degenerate dimensions yield an empty grid, never an
/// error.
pub fn rasterize(img: &image::DynamicImage, width: u32, height_rows: u32) -> (g: ArtworkGrid)
    requires
        height_rows <= u32::MAX / 2,
    ensures
        g@ == spec_rasterize(pixels_of(*img), width, height_rows),
{
    if width == 0 || height_rows == 0 {
        let g = ArtworkGrid { cells: Vec::new() };
        proof {
            assert(g@ =~= spec_rasterize(pixels_of(*img), width, height_rows));
        }
        return g;
    }
    let resized = resize_exact_triangle(img, width, 2 * height_rows);
    let ghost rp = pixels_of(resized);
    let mut cells: Vec<Vec<ArtworkCell>> = Vec::new();
    let mut r: u32 = 0;
    while r < height_rows
        invariant
            0 <= r <= height_rows,
            0 < width,
            0 < height_rows <= u32::MAX / 2,
            rp == triangle_resize(pixels_of(*img), width, (2 * height_rows) as u32),
            rp.len() == 2 * height_rows,
            forall|y: int| 0 <= y < rp.len() ==> (#[trigger] rp[y]).len() == width as int,
            rp == pixels_of(resized),
            cells@.len() == r,
            forall|i: int| 0 <= i < r ==> (#[trigger] cells@[i])@ =~= Seq::new(
                width as nat,
                |c: int| spec_cell(rp, i, c),
            ),
        decreases height_rows - r,
    {
        let mut row: Vec<ArtworkCell> = Vec::new();
        let mut c: u32 = 0;
        while c < width
            invariant
                0 <= c <= width,
                0 <= r < height_rows <= u32::MAX / 2,
                rp.len() == 2 * height_rows,
                forall|y: int| 0 <= y < rp.len() ==> (#[trigger] rp[y]).len() == width as int,
                rp == pixels_of(resized),
                row@.len() == c,
                forall|j: int| 0 <= j < c ==> #[trigger] row@[j] == spec_cell(rp, r as int, j),
            decreases width - c,
        {
            let top = pixel_rgb(&resized, c, 2 * r);
            let bottom = pixel_rgb(&resized, c, 2 * r + 1);
            row.push(
                ArtworkCell {
                    fg: Rgb { r: top.0, g: top.1, b: top.2 },
                    bg: Rgb { r: bottom.0, g: bottom.1, b: bottom.2 },
                },
            );
            c = c + 1;
        }
        proof {
            assert(row@ =~= Seq::new(width as nat, |j: int| spec_cell(rp, r as int, j)));
        }
        cells.push(row);
        r = r + 1;
    }
    let g = ArtworkGrid { cells };
    proof {
        assert(g@ =~= spec_rasterize(pixels_of(*img), width, height_rows));
    }
    g
}

/// Upgrades an iTunes artwork URL from its 100-pixel thumbnail rendition to
/// the 600-pixel one by rewriting the size segment of the path.
pub fn upgrade_artwork_url(url: &str) -> (r: String)
    ensures
        r@ == crate::text::spec_replace_sub(url@, "100x100bb"@, "600x600bb"@),
{
    proof {
        reveal_strlit("100x100bb");
    }
    crate::text::replace_str(url, "100x100bb", "600x600bb")
}

// ---------------------------------------------------------------------------
// Laws of the rasterizer
// ---------------------------------------------------------------------------

/// Law: rasterization is deterministic — the same pixels at the same
/// requested size always yield identical grid contents, which is what lets
/// a grid be cached and reused across render ticks.
pub proof fn lemma_rasterize_deterministic(
    g1: Seq<Seq<ArtworkCell>>,
    g2: Seq<Seq<ArtworkCell>>,
    src: Seq<Seq<(u8, u8, u8)>>,
    width: u32,
    height_rows: u32,
)
    requires
        g1 == spec_rasterize(src, width, height_rows),
        g2 == spec_rasterize(src, width, height_rows),
    ensures
        g1 == g2,
{
}

/// Law: the grid's shape is exactly the requested one — `height_rows` rows
/// of `width` cells each, and an empty grid when either dimension is zero.
pub proof fn lemma_rasterize_shape(src: Seq<Seq<(u8, u8, u8)>>, width: u32, height_rows: u32)
    ensures
        width == 0 || height_rows == 0 ==> spec_rasterize(src, width, height_rows).len() == 0,
        width > 0 && height_rows > 0 ==> spec_rasterize(src, width, height_rows).len()
            == height_rows,
        forall|r: int|
            0 <= r < spec_rasterize(src, width, height_rows).len() ==> (#[trigger] spec_rasterize(
                src,
                width,
                height_rows,
            )[r]).len() == width,
{
}

} // verus!
