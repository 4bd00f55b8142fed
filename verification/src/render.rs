//! The renderer: fills one flat pixel buffer with every image of a
//! requested range of pattern ids.
//!
//! The buffer is logically a 3D array indexed by `(image, y, x)` and
//! flattened as `image * width * height + y * width + x`; all images of one
//! invocation share the canvas dimensions.

use vstd::prelude::*;

use crate::pattern::{eval_pixel, lemma_duplicate_patterns, pattern_value, COORD_LIMIT,
    PATTERN_COUNT};

verus! {

/// Why a render request was rejected.
#[derive(Clone, Copy, PartialEq, Eq, Structural, Debug)]
pub enum RenderError {
    /// The canvas width or height is zero.
    InvalidDimensions,
    /// The id range reaches past the pattern catalog.
    InvalidPatternId,
}

/// Position of pixel `(x, y)` of image number `img` in the flat buffer.
pub open spec fn flat_index(img: int, y: int, x: int, width: int, height: int) -> int {
    img * (width * height) + y * width + x
}

/// The first `ncols` pixels of row `y` of image `img` hold the pattern
/// values of id `from + img`.
pub open spec fn row_rendered(
    buf: Seq<u32>,
    width: u64,
    height: u64,
    from: u64,
    img: int,
    y: int,
    ncols: int,
) -> bool {
    forall|x: int|
        0 <= x < ncols ==> buf[#[trigger] flat_index(img, y, x, width as int, height as int)]
            == pattern_value((from + img) as u64, x as u64, y as u64, width, height)
}

/// The first `nrows` rows of image `img` are fully rendered.
pub open spec fn image_rendered(
    buf: Seq<u32>,
    width: u64,
    height: u64,
    from: u64,
    img: int,
    nrows: int,
) -> bool {
    forall|y: int|
        0 <= y < nrows ==> #[trigger] row_rendered(buf, width, height, from, img, y, width as int)
}

/// The first `count` images of the buffer are fully rendered.
pub open spec fn images_rendered(
    buf: Seq<u32>,
    width: u64,
    height: u64,
    from: u64,
    count: int,
) -> bool {
    forall|img: int|
        0 <= img < count ==> #[trigger] image_rendered(
            buf,
            width,
            height,
            from,
            img,
            height as int,
        )
}

/// The buffer holds exactly the images of pattern ids `from .. from + count`,
/// one after the other, each pixel the value of its pattern's formula.
pub open spec fn buffer_renders(
    buf: Seq<u32>,
    width: u64,
    height: u64,
    from: u64,
    count: int,
) -> bool {
    &&& buf.len() == count * (width as int * height as int)
    &&& images_rendered(buf, width, height, from, count)
}

/// Both canvas dimensions are positive; a zero dimension is a degenerate
/// canvas and is rejected.
pub open spec fn dims_valid(width: usize, height: usize) -> bool {
    width > 0 && height > 0
}

/// Every id of the range `from .. to` lies in the pattern catalog (an empty
/// range trivially does).
pub open spec fn range_in_catalog(from: usize, to: usize) -> bool {
    to <= from || to <= PATTERN_COUNT
}

proof fn lemma_flat_index_fits(img: int, y: int, x: int, width: int, height: int, count: int)
    by (nonlinear_arith)
    requires
        0 <= img < count,
        0 <= y < height,
        0 <= x < width,
    ensures
        0 <= img * (width * height) + y * width + x,
        img * (width * height) + y * width + x < count * (width * height),
{
}

/// Appending the pixel of `(x, y)` of image `i` to a buffer that holds
/// everything up to that pixel extends the rendered region by exactly that
/// pixel and disturbs nothing already rendered.
proof fn lemma_push_extends_render(
    buf: Seq<u32>,
    px: u32,
    width: u64,
    height: u64,
    from: u64,
    i: int,
    y: int,
    x: int,
)
    requires
        0 < width,
        0 < height,
        0 <= i,
        0 <= y < height,
        0 <= x < width,
        buf.len() == i * (width as int * height as int) + y * width + x,
        images_rendered(buf, width, height, from, i),
        image_rendered(buf, width, height, from, i, y),
        row_rendered(buf, width, height, from, i, y, x),
        px == pattern_value((from + i) as u64, x as u64, y as u64, width, height),
    ensures
        images_rendered(buf.push(px), width, height, from, i),
        image_rendered(buf.push(px), width, height, from, i, y),
        row_rendered(buf.push(px), width, height, from, i, y, x + 1),
{
    let wi = width as int;
    let hi = height as int;
    let newbuf = buf.push(px);
    assert(y * wi + x >= 0) by (nonlinear_arith)
        requires
            0 <= y && 0 <= x && 0 < wi,
    ;
    assert forall|i2: int, y2: int, x2: int|
        0 <= i2 < i && 0 <= y2 < hi && 0 <= x2 < wi implies #[trigger] flat_index(
        i2,
        y2,
        x2,
        wi,
        hi,
    ) < buf.len() && flat_index(i2, y2, x2, wi, hi) >= 0 by {
        lemma_flat_index_fits(i2, y2, x2, wi, hi, i);
    }
    assert forall|y2: int, x2: int| 0 <= y2 < y && 0 <= x2 < wi implies #[trigger] flat_index(
        i,
        y2,
        x2,
        wi,
        hi,
    ) < buf.len() && flat_index(i, y2, x2, wi, hi) >= 0 by {
        assert(i * (wi * hi) + y2 * wi + x2 < i * (wi * hi) + y * wi && i * (wi * hi) + y2 * wi + x2
            >= i * (wi * hi) >= 0) by (nonlinear_arith)
            requires
                0 <= i && 0 <= y2 < y && 0 <= x2 < wi && 0 < wi && 0 < hi,
        ;
    }
    assert forall|x2: int| 0 <= x2 <= x implies #[trigger] flat_index(i, y, x2, wi, hi)
        <= buf.len() && flat_index(i, y, x2, wi, hi) >= 0 by {
        assert(i * (wi * hi) + y * wi >= 0) by (nonlinear_arith)
            requires
                0 <= i && 0 <= y && 0 < wi && 0 < hi,
        ;
    }
    assert(newbuf[flat_index(i, y, x, wi, hi)] == px);
    assert forall|img: int| 0 <= img < i implies #[trigger] image_rendered(
        newbuf,
        width,
        height,
        from,
        img,
        hi,
    ) by {
        assert(image_rendered(buf, width, height, from, img, hi));
        assert forall|y2: int| 0 <= y2 < hi implies #[trigger] row_rendered(
            newbuf,
            width,
            height,
            from,
            img,
            y2,
            wi,
        ) by {
            assert(row_rendered(buf, width, height, from, img, y2, wi));
            assert forall|x2: int| 0 <= x2 < wi implies newbuf[#[trigger] flat_index(
                img,
                y2,
                x2,
                wi,
                hi,
            )] == pattern_value((from + img) as u64, x2 as u64, y2 as u64, width, height) by {
                assert(buf[flat_index(img, y2, x2, wi, hi)] == pattern_value(
                    (from + img) as u64,
                    x2 as u64,
                    y2 as u64,
                    width,
                    height,
                ));
            }
        }
    }
    assert forall|y2: int| 0 <= y2 < y implies #[trigger] row_rendered(
        newbuf,
        width,
        height,
        from,
        i,
        y2,
        wi,
    ) by {
        assert(row_rendered(buf, width, height, from, i, y2, wi));
        assert forall|x2: int| 0 <= x2 < wi implies newbuf[#[trigger] flat_index(
            i,
            y2,
            x2,
            wi,
            hi,
        )] == pattern_value((from + i) as u64, x2 as u64, y2 as u64, width, height) by {
            assert(buf[flat_index(i, y2, x2, wi, hi)] == pattern_value(
                (from + i) as u64,
                x2 as u64,
                y2 as u64,
                width,
                height,
            ));
        }
    }
    assert forall|x2: int| 0 <= x2 < x + 1 implies newbuf[#[trigger] flat_index(i, y, x2, wi, hi)]
        == pattern_value((from + i) as u64, x2 as u64, y as u64, width, height) by {
        if x2 < x {
            assert(buf[flat_index(i, y, x2, wi, hi)] == pattern_value(
                (from + i) as u64,
                x2 as u64,
                y as u64,
                width,
                height,
            ));
        }
    }
}

/// In one rendered buffer, the images of the duplicate-formula ids are
/// pixel-identical: images `a` and `b` of the buffer are equal pixel for
/// pixel whenever their pattern ids both come from `{5, 6}` or both from
/// `{9, 10, 11}`.
pub proof fn lemma_duplicate_images(
    buf: Seq<u32>,
    width: u64,
    height: u64,
    from: u64,
    count: int,
    a: int,
    b: int,
)
    requires
        buffer_renders(buf, width, height, from, count),
        0 <= a < count,
        0 <= b < count,
        (5 <= from + a <= 6 && 5 <= from + b <= 6) || (9 <= from + a <= 11 && 9 <= from + b <= 11),
    ensures
        forall|y: int, x: int|
            0 <= y < height && 0 <= x < width ==> buf[#[trigger] flat_index(
                a,
                y,
                x,
                width as int,
                height as int,
            )] == buf[flat_index(b, y, x, width as int, height as int)],
{
    let wi = width as int;
    let hi = height as int;
    assert forall|y: int, x: int| 0 <= y < hi && 0 <= x < wi implies buf[#[trigger] flat_index(
        a,
        y,
        x,
        wi,
        hi,
    )] == buf[flat_index(b, y, x, wi, hi)] by {
        assert(image_rendered(buf, width, height, from, a, hi));
        assert(image_rendered(buf, width, height, from, b, hi));
        assert(row_rendered(buf, width, height, from, a, y, wi));
        assert(row_rendered(buf, width, height, from, b, y, wi));
        assert(buf[flat_index(a, y, x, wi, hi)] == pattern_value(
            (from + a) as u64,
            x as u64,
            y as u64,
            width,
            height,
        ));
        assert(buf[flat_index(b, y, x, wi, hi)] == pattern_value(
            (from + b) as u64,
            x as u64,
            y as u64,
            width,
            height,
        ));
        lemma_duplicate_patterns(x as u64, y as u64, width, height);
    }
}

/// Renders every pattern of the id range `from .. to` into one flat pixel
/// buffer, image after image. Requests with a zero-sized canvas or with an
/// id range reaching past the catalog are rejected before any pixel is
/// evaluated; the dimension bound keeps the formulas' intermediate products
/// within their arithmetic width, and the size bound is what the buffer
/// itself forces.
#[verifier::loop_isolation(false)]
pub fn render_range(width: usize, height: usize, from: usize, to: usize) -> (r: Result<
    Vec<u32>,
    RenderError,
>)
    requires
        from <= to,
        width < COORD_LIMIT,
        height < COORD_LIMIT,
        width * height * (to - from) <= usize::MAX,
    ensures
        r is Ok <==> dims_valid(width, height) && range_in_catalog(from, to),
        match r {
            Ok(buf) => buffer_renders(
                buf@,
                width as u64,
                height as u64,
                from as u64,
                to - from,
            ),
            Err(e) => {
                &&& (e is InvalidDimensions <==> !dims_valid(width, height))
                &&& (e is InvalidPatternId <==> dims_valid(width, height) && !range_in_catalog(
                    from,
                    to,
                ))
            },
        },
{
    if width == 0 || height == 0 {
        return Err(RenderError::InvalidDimensions);
    }
    if to > from && to as u64 > PATTERN_COUNT {
        return Err(RenderError::InvalidPatternId);
    }
    let count: usize = to - from;
    if count == 0 {
        return Ok(Vec::new());
    }
    let mut buf: Vec<u32> = Vec::new();
    let mut i: usize = 0;
    while i < count
        invariant
            i <= count,
            buf@.len() == i * (width as int * height as int),
            images_rendered(buf@, width as u64, height as u64, from as u64, i as int),
        decreases count - i,
    {
        let mut y: usize = 0;
        while y < height
            invariant
                y <= height,
                i < count,
                buf@.len() == i * (width as int * height as int) + y * width,
                images_rendered(buf@, width as u64, height as u64, from as u64, i as int),
                image_rendered(buf@, width as u64, height as u64, from as u64, i as int, y as int),
            decreases height - y,
        {
            let mut x: usize = 0;
            while x < width
                invariant
                    x <= width,
                    y < height,
                    i < count,
                    buf@.len() == i * (width as int * height as int) + y * width + x,
                    images_rendered(buf@, width as u64, height as u64, from as u64, i as int),
                    image_rendered(
                        buf@,
                        width as u64,
                        height as u64,
                        from as u64,
                        i as int,
                        y as int,
                    ),
                    row_rendered(
                        buf@,
                        width as u64,
                        height as u64,
                        from as u64,
                        i as int,
                        y as int,
                        x as int,
                    ),
                decreases width - x,
            {
                proof {
                    lemma_flat_index_fits(
                        i as int,
                        y as int,
                        x as int,
                        width as int,
                        height as int,
                        count as int,
                    );
                }
                let ghost old_buf = buf@;
                let px: u32 = eval_pixel(
                    (from + i) as u64,
                    x as u64,
                    y as u64,
                    width as u64,
                    height as u64,
                );
                buf.push(px);
                proof {
                    lemma_push_extends_render(
                        old_buf,
                        px,
                        width as u64,
                        height as u64,
                        from as u64,
                        i as int,
                        y as int,
                        x as int,
                    );
                }
                x = x + 1;
            }
            proof {
                assert((y + 1) * (width as int) == y * (width as int) + width) by (nonlinear_arith);
                assert forall|y2: int| 0 <= y2 < y + 1 implies #[trigger] row_rendered(
                    buf@,
                    width as u64,
                    height as u64,
                    from as u64,
                    i as int,
                    y2,
                    width as int,
                ) by {
                    if y2 < y {
                        assert(image_rendered(
                            buf@,
                            width as u64,
                            height as u64,
                            from as u64,
                            i as int,
                            y as int,
                        ));
                    }
                }
            }
            y = y + 1;
        }
        proof {
            assert(buf@.len() == (i + 1) * (width as int * height as int)) by (nonlinear_arith)
                requires
                    buf@.len() == i * (width as int * height as int) + height * width,
            ;
            assert forall|img: int| 0 <= img < i + 1 implies #[trigger] image_rendered(
                buf@,
                width as u64,
                height as u64,
                from as u64,
                img,
                height as int,
            ) by {
                if img < i {
                    assert(images_rendered(buf@, width as u64, height as u64, from as u64, i as int));
                }
            }
        }
        i = i + 1;
    }
    Ok(buf)
}

} // verus!
