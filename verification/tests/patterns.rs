use pixelgen::pattern::eval_pixel;
use pixelgen::render::{render_range, RenderError};

/// Evaluating the same inputs twice yields the identical pixel value.
#[test]
fn evaluation_is_deterministic() {
    for id in 0..22u64 {
        let a = eval_pixel(id, 3, 5, 64, 48);
        let b = eval_pixel(id, 3, 5, 64, 48);
        assert_eq!(a, b);
    }
}

/// Ids 5 and 6 share a formula, as do ids 9, 10 and 11: their images are
/// pixel-identical.
#[test]
fn duplicate_formulas_match() {
    for y in 0..16u64 {
        for x in 0..16u64 {
            let five = eval_pixel(5, x, y, 16, 16);
            let six = eval_pixel(6, x, y, 16, 16);
            assert_eq!(five, six);
            let nine = eval_pixel(9, x, y, 16, 16);
            let ten = eval_pixel(10, x, y, 16, 16);
            let eleven = eval_pixel(11, x, y, 16, 16);
            assert_eq!(nine, ten);
            assert_eq!(ten, eleven);
        }
    }
}

#[test]
fn formula_values_are_exact() {
    assert_eq!(eval_pixel(0, 3, 5, 8, 8), 0xff0000);
    assert_eq!(eval_pixel(1, 3, 7, 8, 8), 45);
    assert_eq!(eval_pixel(2, 6, 3, 8, 8), 36);
    assert_eq!(eval_pixel(3, 1, 9, 16, 16), 4);
    assert_eq!(eval_pixel(4, 5, 3, 8, 8), 4);
    assert_eq!(eval_pixel(5, 5, 3, 8, 8), 2);
    assert_eq!(eval_pixel(7, 1, 2, 4, 4), 12);
    assert_eq!(eval_pixel(8, 3, 2, 8, 8), 240);
    assert_eq!(eval_pixel(9, 1, 2, 4, 4), 105);
    assert_eq!(eval_pixel(12, 2, 3, 4, 4), 9);
    assert_eq!(eval_pixel(13, 3, 2, 8, 8), 36);
    assert_eq!(eval_pixel(14, 5, 4, 8, 8), 144);
    assert_eq!(eval_pixel(15, 5, 3, 8, 8), 5);
    assert_eq!(eval_pixel(16, 3, 5, 8, 8), 5);
    assert_eq!(eval_pixel(17, 3, 5, 8, 8), 14);
    assert_eq!(eval_pixel(18, 3, 5, 8, 8), 0);
    assert_eq!(eval_pixel(19, 2, 3, 4, 4), 16);
}

/// Formula results wider than 32 bits wrap around instead of saturating.
#[test]
fn wide_results_are_truncated() {
    // 65535^2 * 65535^2 mod 2^32
    assert_eq!(eval_pixel(13, 65535, 65535, 65536, 65536), 4294705153);
}

/// Every pixel of the filled-circle pattern: red inside the disc of radius
/// `width/2` around the canvas center, black outside.
#[test]
fn disc_pattern_pixels() {
    let (w, h) = (16u64, 16u64);
    for y in 0..h {
        for x in 0..w {
            let dx = (x as i64) - (w / 2) as i64;
            let dy = (y as i64) - (h / 2) as i64;
            let inside = dx * dx + dy * dy <= ((w / 2) * (w / 2)) as i64;
            let expected = if inside { 0xFF0000 } else { 0 };
            assert_eq!(eval_pixel(20, x, y, w, h), expected);
        }
    }
    assert_eq!(eval_pixel(20, 8, 8, 16, 16), 0xFF0000);
    assert_eq!(eval_pixel(20, 0, 0, 16, 16), 0);
}

/// Every pixel of the ring pattern: red between the inner disc of radius
/// `width/2 - width/16` and the outer disc of radius `width/2`, black
/// elsewhere (inner disc included).
#[test]
fn ring_pattern_pixels() {
    let (w, h) = (16u64, 16u64);
    let router = (w / 2) as i64;
    let rinner = (w / 2 - w / 16) as i64;
    for y in 0..h {
        for x in 0..w {
            let dx = (x as i64) - (w / 2) as i64;
            let dy = (y as i64) - (h / 2) as i64;
            let sq = dx * dx + dy * dy;
            let on_ring = sq <= router * router && !(sq <= rinner * rinner);
            let expected = if on_ring { 0xFF0000 } else { 0 };
            assert_eq!(eval_pixel(21, x, y, w, h), expected);
        }
    }
    // the center lies in the carved-out inner disc
    assert_eq!(eval_pixel(21, 8, 8, 16, 16), 0);
    // the topmost point of the circle lies on the ring
    assert_eq!(eval_pixel(21, 8, 0, 16, 16), 0xFF0000);
}

/// A 4x4 canvas, pattern id 12: the pixel at (x=2, y=3) is y^2 = 9.
#[test]
fn concrete_parabola_pixel() {
    let buf = render_range(4, 4, 12, 13).unwrap();
    assert_eq!(buf.len(), 16);
    assert_eq!(buf[3 * 4 + 2], 9);
}

/// Any id at or past the catalog size is rejected before evaluation.
#[test]
fn out_of_catalog_ids_are_rejected() {
    assert_eq!(render_range(4, 4, 22, 23), Err(RenderError::InvalidPatternId));
    assert_eq!(render_range(4, 4, 0, 23), Err(RenderError::InvalidPatternId));
    assert_eq!(render_range(512, 512, 100, 101), Err(RenderError::InvalidPatternId));
}

/// A zero-sized canvas is rejected.
#[test]
fn zero_dimensions_are_rejected() {
    assert_eq!(render_range(0, 4, 0, 1), Err(RenderError::InvalidDimensions));
    assert_eq!(render_range(4, 0, 0, 1), Err(RenderError::InvalidDimensions));
}

/// An empty id range renders an empty buffer.
#[test]
fn empty_range_renders_nothing() {
    assert_eq!(render_range(4, 4, 3, 3), Ok(vec![]));
}

/// The buffer holds the images of the range back to back, each pixel at
/// `image * width * height + y * width + x`.
#[test]
fn buffer_layout_is_flat() {
    let (w, h) = (5usize, 3usize);
    let buf = render_range(w, h, 7, 9).unwrap();
    assert_eq!(buf.len(), w * h * 2);
    for (i, id) in (7u64..9).enumerate() {
        for y in 0..h {
            for x in 0..w {
                let expected = eval_pixel(id, x as u64, y as u64, w as u64, h as u64);
                assert_eq!(buf[i * w * h + y * w + x], expected);
            }
        }
    }
}
