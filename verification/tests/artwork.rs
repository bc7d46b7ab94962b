use image::{DynamicImage, Rgb, RgbImage};
use vyom::artwork::{rasterize, upgrade_artwork_url};

fn gradient(width: u32, height: u32) -> DynamicImage {
    DynamicImage::ImageRgb8(RgbImage::from_fn(width, height, |x, y| {
        Rgb([(x * 13 % 256) as u8, (y * 29 % 256) as u8, ((x + y) * 7 % 256) as u8])
    }))
}

#[test]
fn rasterize_has_the_requested_shape() {
    let img = gradient(8, 8);
    let g = rasterize(&img, 10, 5);
    assert_eq!(g.height(), 5);
    for r in 0..5 {
        assert_eq!(g.row(r).len(), 10);
    }
}

#[test]
fn rasterize_is_deterministic() {
    let img = gradient(8, 8);
    let g1 = rasterize(&img, 10, 5);
    let g2 = rasterize(&img, 10, 5);
    assert_eq!(g1, g2);
}

#[test]
fn rasterize_folds_two_pixel_rows_into_each_cell() {
    // the source already has the target size, so resampling copies it and
    // every cell shows its two source pixels exactly
    let img = gradient(2, 4);
    let g = rasterize(&img, 2, 2);
    assert_eq!(g.height(), 2);
    for r in 0..2u32 {
        for c in 0..2u32 {
            let cell = g.cell(r as usize, c as usize);
            let top = image::GenericImageView::get_pixel(&img, c, 2 * r);
            let bottom = image::GenericImageView::get_pixel(&img, c, 2 * r + 1);
            assert_eq!((cell.fg.r, cell.fg.g, cell.fg.b), (top[0], top[1], top[2]));
            assert_eq!((cell.bg.r, cell.bg.g, cell.bg.b), (bottom[0], bottom[1], bottom[2]));
        }
    }
}

#[test]
fn rasterize_really_resamples_the_source() {
    // a single colored pixel blown up to a 3x2 cell grid: every cell shows
    // that color, and reads past the 1x1 source would panic unresampled
    let img = DynamicImage::ImageRgb8(RgbImage::from_fn(1, 1, |_, _| Rgb([10, 20, 30])));
    let g = rasterize(&img, 3, 2);
    assert_eq!(g.height(), 2);
    for r in 0..2 {
        assert_eq!(g.row(r).len(), 3);
        for c in 0..3 {
            let cell = g.cell(r, c);
            assert_eq!((cell.fg.r, cell.fg.g, cell.fg.b), (10, 20, 30));
            assert_eq!((cell.bg.r, cell.bg.g, cell.bg.b), (10, 20, 30));
        }
    }
}

#[test]
fn rasterize_agrees_across_bit_depths_with_equal_8_bit_views() {
    // a 16-bit channel v shows as (v + 128) / 257 in 8 bits, so these two
    // images have identical 8-bit views and must yield identical grids
    let img8 = DynamicImage::ImageRgb8(RgbImage::from_fn(2, 2, |x, _| Rgb([(1 + x) as u8; 3])));
    let buf16: image::ImageBuffer<Rgb<u16>, Vec<u16>> =
        image::ImageBuffer::from_fn(2, 2, |x, _| Rgb([(129 + 257 * x) as u16; 3]));
    let img16 = DynamicImage::ImageRgb16(buf16);
    assert_eq!(rasterize(&img8, 1, 1), rasterize(&img16, 1, 1));
}

#[test]
fn rasterize_degenerate_dimensions_yield_an_empty_grid() {
    let img = gradient(4, 4);
    assert_eq!(rasterize(&img, 0, 5).height(), 0);
    assert_eq!(rasterize(&img, 3, 0).height(), 0);
}

#[test]
fn artwork_url_upgrade_rewrites_the_size_segment() {
    assert_eq!(
        upgrade_artwork_url("https://is1.example/image/thumb/x/100x100bb.jpg"),
        "https://is1.example/image/thumb/x/600x600bb.jpg"
    );
    assert_eq!(upgrade_artwork_url("no size here"), "no size here");
    assert_eq!(upgrade_artwork_url("100x100bb/100x100bb"), "600x600bb/600x600bb");
}
