//! The pattern evaluator: a fixed catalog of closed-form integer formulas,
//! each mapping canvas coordinates `(x, y)` and the canvas dimensions to a
//! packed RGB pixel value.
//!
//! A packed pixel holds three 8-bit channels: red in bits 16..24, green in
//! bits 8..16, blue in bits 0..8. Formula results wider than 32 bits are
//! truncated (wrapped) to 32 bits; the wraparound is an intentional visual
//! property of several formulas.

use vstd::prelude::*;

verus! {

/// Number of formulas in the catalog; valid pattern ids are `0 .. PATTERN_COUNT`.
pub const PATTERN_COUNT: u64 = 22;

/// Coordinates and dimensions handed to the evaluator must stay below this
/// bound so that every intermediate product of the formulas (at worst a
/// product of two squares) fits in the 128-bit arithmetic width.
pub const COORD_LIMIT: u64 = 0x1_0000_0000;

/// One formula of the catalog. Several pattern ids share a formula, so the
/// catalog maps ids onto these kinds; the kind (together with the id itself,
/// which one formula reuses as a coefficient) determines the pixel value.
#[derive(Clone, Copy, PartialEq, Eq, Structural, Debug)]
pub enum PatternKind {
    /// `(x & y) * 0xff0000`
    MaskRed,
    /// `(x & y) * 0xf`
    MaskDim,
    /// `(x & y) * y * x`
    MaskProduct,
    /// `(x & y) * (y / (x + 1))`
    MaskQuotient,
    /// `(x/(y+1) + y/(x+1)) * (x%(y+1) + y%(x+1))`
    CrossProduct,
    /// `(x%(y+1) + y%(x+1)) / (x/(y+1) + y/(x+1) + 1)`
    CrossQuotient,
    /// `y*width + x*height`
    Lattice,
    /// `((y*width) & (x*height)) * 0xf`
    LatticeMask,
    /// `((y | width) | (x | height)) * 0xf`
    OrField,
    /// `y^2`
    SquareY,
    /// `x^2 * y^2`
    SquareProduct,
    /// `x^2 * y^2 % 256`
    SquareProductMod,
    /// `x^2 % (y^2 + 1)`
    SquareXModY,
    /// `y^2 % (x^2 + 1)`
    SquareYModX,
    /// `(y^2 % (x^2 + 1)) + (x^2 % (y^2 + 1))`
    SquareModSum,
    /// `(y^2 % (x^2 + 1)) / ((x^2 % (y^2 + 1)) + 1)`
    SquareModQuotient,
    /// `(y*width + x*id) / (x + 1)`
    ShearQuotient,
    /// Filled circle of radius `width/2` centered at `(width/2, height/2)`.
    Disc,
    /// Same circle with an inner circle of radius `width/2 - width/16`
    /// carved out, leaving a hollow ring.
    Ring,
}

/// The catalog: which formula a pattern id selects. `None` for ids outside
/// the catalog.
pub open spec fn kind_of(id: u64) -> Option<PatternKind> {
    if id == 0 {
        Some(PatternKind::MaskRed)
    } else if id == 1 {
        Some(PatternKind::MaskDim)
    } else if id == 2 {
        Some(PatternKind::MaskProduct)
    } else if id == 3 {
        Some(PatternKind::MaskQuotient)
    } else if id == 4 {
        Some(PatternKind::CrossProduct)
    } else if id == 5 || id == 6 {
        Some(PatternKind::CrossQuotient)
    } else if id == 7 {
        Some(PatternKind::Lattice)
    } else if id == 8 {
        Some(PatternKind::LatticeMask)
    } else if id == 9 || id == 10 || id == 11 {
        Some(PatternKind::OrField)
    } else if id == 12 {
        Some(PatternKind::SquareY)
    } else if id == 13 {
        Some(PatternKind::SquareProduct)
    } else if id == 14 {
        Some(PatternKind::SquareProductMod)
    } else if id == 15 {
        Some(PatternKind::SquareXModY)
    } else if id == 16 {
        Some(PatternKind::SquareYModX)
    } else if id == 17 {
        Some(PatternKind::SquareModSum)
    } else if id == 18 {
        Some(PatternKind::SquareModQuotient)
    } else if id == 19 {
        Some(PatternKind::ShearQuotient)
    } else if id == 20 {
        Some(PatternKind::Disc)
    } else if id == 21 {
        Some(PatternKind::Ring)
    } else {
        None
    }
}

/// Squared distance from `(x, y)` to the circle center `(width/2, height/2)`.
pub open spec fn sq_dist(x: u64, y: u64, width: u64, height: u64) -> int {
    let cx = width as int / 2;
    let cy = height as int / 2;
    let dx = if x as int >= cx { x as int - cx } else { cx - x as int };
    let dy = if y as int >= cy { y as int - cy } else { cy - y as int };
    dx * dx + dy * dy
}

/// Whether `(x, y)` lies in the disc of radius `width/2` around the canvas
/// center (boundary included).
pub open spec fn in_disc(x: u64, y: u64, width: u64, height: u64) -> bool {
    sq_dist(x, y, width, height) <= (width as int / 2) * (width as int / 2)
}

/// Whether `(x, y)` lies in the inner disc of radius `width/2 - width/16`
/// around the canvas center (boundary included).
pub open spec fn in_inner_disc(x: u64, y: u64, width: u64, height: u64) -> bool {
    let ri = width as int / 2 - width as int / 16;
    sq_dist(x, y, width, height) <= ri * ri
}

/// The untruncated formula value for one pattern kind. `id` enters only for
/// `ShearQuotient`, whose formula multiplies by the pattern id itself.
pub open spec fn kind_raw(k: PatternKind, id: u64, x: u64, y: u64, width: u64, height: u64) -> int {
    let xi = x as int;
    let yi = y as int;
    let wi = width as int;
    let hi = height as int;
    match k {
        PatternKind::MaskRed => (x & y) * 0xff0000,
        PatternKind::MaskDim => (x & y) * 0xf,
        PatternKind::MaskProduct => (x & y) * yi * xi,
        PatternKind::MaskQuotient => (x & y) * (yi / (xi + 1)),
        PatternKind::CrossProduct => (xi / (yi + 1) + yi / (xi + 1)) * (xi % (yi + 1) + yi % (xi + 1)),
        PatternKind::CrossQuotient => (xi % (yi + 1) + yi % (xi + 1)) / (xi / (yi + 1) + yi / (xi + 1) + 1),
        PatternKind::Lattice => yi * wi + xi * hi,
        PatternKind::LatticeMask => (((yi * wi) as u128) & ((xi * hi) as u128)) * 0xf,
        PatternKind::OrField => ((y | width) | (x | height)) * 0xf,
        PatternKind::SquareY => yi * yi,
        PatternKind::SquareProduct => (xi * xi) * (yi * yi),
        PatternKind::SquareProductMod => (xi * xi) * (yi * yi) % 256,
        PatternKind::SquareXModY => (xi * xi) % (yi * yi + 1),
        PatternKind::SquareYModX => (yi * yi) % (xi * xi + 1),
        PatternKind::SquareModSum => (yi * yi) % (xi * xi + 1) + (xi * xi) % (yi * yi + 1),
        PatternKind::SquareModQuotient => ((yi * yi) % (xi * xi + 1)) / ((xi * xi) % (yi * yi + 1) + 1),
        PatternKind::ShearQuotient => (yi * wi + xi * (id as int)) / (xi + 1),
        PatternKind::Disc => if in_disc(x, y, width, height) {
            0xFF0000
        } else {
            0
        },
        PatternKind::Ring => if in_disc(x, y, width, height) && !in_inner_disc(
            x,
            y,
            width,
            height,
        ) {
            0xFF0000
        } else {
            0
        },
    }
}

/// The packed 32-bit pixel value a pattern id produces at `(x, y)`: the
/// formula value truncated to 32 bits. Ids outside the catalog map to 0;
/// the renderer rejects them before evaluation.
pub open spec fn pattern_value(id: u64, x: u64, y: u64, width: u64, height: u64) -> u32 {
    match kind_of(id) {
        Some(k) => (kind_raw(k, id, x, y, width, height) % 0x1_0000_0000) as u32,
        None => 0u32,
    }
}

proof fn lemma_mul_lt(a: int, b: int, ca: int, cb: int)
    by (nonlinear_arith)
    requires
        0 <= a < ca,
        0 <= b < cb,
    ensures
        a * b < ca * cb,
{
}

proof fn lemma_div_le(a: int, d: int)
    by (nonlinear_arith)
    requires
        0 <= a,
        1 <= d,
    ensures
        0 <= a / d <= a,
{
}

/// Looks a pattern id up in the catalog.
pub fn pattern_kind(id: u64) -> (r: Option<PatternKind>)
    ensures
        r == kind_of(id),
        r is Some <==> id < PATTERN_COUNT,
{
    if id == 0 {
        Some(PatternKind::MaskRed)
    } else if id == 1 {
        Some(PatternKind::MaskDim)
    } else if id == 2 {
        Some(PatternKind::MaskProduct)
    } else if id == 3 {
        Some(PatternKind::MaskQuotient)
    } else if id == 4 {
        Some(PatternKind::CrossProduct)
    } else if id == 5 || id == 6 {
        Some(PatternKind::CrossQuotient)
    } else if id == 7 {
        Some(PatternKind::Lattice)
    } else if id == 8 {
        Some(PatternKind::LatticeMask)
    } else if id == 9 || id == 10 || id == 11 {
        Some(PatternKind::OrField)
    } else if id == 12 {
        Some(PatternKind::SquareY)
    } else if id == 13 {
        Some(PatternKind::SquareProduct)
    } else if id == 14 {
        Some(PatternKind::SquareProductMod)
    } else if id == 15 {
        Some(PatternKind::SquareXModY)
    } else if id == 16 {
        Some(PatternKind::SquareYModX)
    } else if id == 17 {
        Some(PatternKind::SquareModSum)
    } else if id == 18 {
        Some(PatternKind::SquareModQuotient)
    } else if id == 19 {
        Some(PatternKind::ShearQuotient)
    } else if id == 20 {
        Some(PatternKind::Disc)
    } else if id == 21 {
        Some(PatternKind::Ring)
    } else {
        None
    }
}

/// Evaluates one formula of the catalog at `(x, y)`, truncating the result
/// to the packed 32-bit pixel representation. The coordinate and dimension
/// bounds keep every intermediate product within the 128-bit arithmetic
/// width, as the formulas square and multiply their inputs.
pub fn eval_kind(k: PatternKind, id: u64, x: u64, y: u64, width: u64, height: u64) -> (r: u32)
    requires
        id < PATTERN_COUNT,
        x < COORD_LIMIT,
        y < COORD_LIMIT,
        width < COORD_LIMIT,
        height < COORD_LIMIT,
    ensures
        r == (kind_raw(k, id, x, y, width, height) % 0x1_0000_0000) as u32,
{
    let xl: u128 = x as u128;
    let yl: u128 = y as u128;
    let wl: u128 = width as u128;
    let hl: u128 = height as u128;
    let il: u128 = id as u128;
    let v: u128 = match k {
        PatternKind::MaskRed => {
            let m: u128 = xl & yl;
            proof {
                assert((x as u128) & (y as u128) == ((x & y) as u128)) by (bit_vector);
                assert(xl & yl <= xl) by (bit_vector);
            }
            m * 0xff0000
        },
        PatternKind::MaskDim => {
            let m: u128 = xl & yl;
            proof {
                assert((x as u128) & (y as u128) == ((x & y) as u128)) by (bit_vector);
                assert(xl & yl <= xl) by (bit_vector);
            }
            m * 0xf
        },
        PatternKind::MaskProduct => {
            let m: u128 = xl & yl;
            proof {
                assert((x as u128) & (y as u128) == ((x & y) as u128)) by (bit_vector);
                assert(xl & yl <= xl) by (bit_vector);
                lemma_mul_lt(m as int, yl as int, 0x1_0000_0000, 0x1_0000_0000);
                lemma_mul_lt((m * yl) as int, xl as int, 0x1_0000_0000_0000_0000, 0x1_0000_0000);
            }
            m * yl * xl
        },
        PatternKind::MaskQuotient => {
            let m: u128 = xl & yl;
            let q: u128 = yl / (xl + 1);
            proof {
                assert((x as u128) & (y as u128) == ((x & y) as u128)) by (bit_vector);
                assert(xl & yl <= xl) by (bit_vector);
                lemma_div_le(yl as int, xl as int + 1);
                lemma_mul_lt(m as int, q as int, 0x1_0000_0000, 0x1_0000_0000);
            }
            m * q
        },
        PatternKind::CrossProduct => {
            let a: u128 = xl / (yl + 1);
            let b: u128 = yl / (xl + 1);
            let c: u128 = xl % (yl + 1);
            let d: u128 = yl % (xl + 1);
            proof {
                lemma_div_le(xl as int, yl as int + 1);
                lemma_div_le(yl as int, xl as int + 1);
                lemma_mul_lt((a + b) as int, (c + d) as int, 0x2_0000_0000, 0x2_0000_0001);
            }
            (a + b) * (c + d)
        },
        PatternKind::CrossQuotient => {
            let a: u128 = xl / (yl + 1);
            let b: u128 = yl / (xl + 1);
            let c: u128 = xl % (yl + 1);
            let d: u128 = yl % (xl + 1);
            proof {
                lemma_div_le(xl as int, yl as int + 1);
                lemma_div_le(yl as int, xl as int + 1);
            }
            (c + d) / (a + b + 1)
        },
        PatternKind::Lattice => {
            proof {
                lemma_mul_lt(yl as int, wl as int, 0x1_0000_0000, 0x1_0000_0000);
                lemma_mul_lt(xl as int, hl as int, 0x1_0000_0000, 0x1_0000_0000);
            }
            yl * wl + xl * hl
        },
        PatternKind::LatticeMask => {
            proof {
                lemma_mul_lt(yl as int, wl as int, 0x1_0000_0000, 0x1_0000_0000);
                lemma_mul_lt(xl as int, hl as int, 0x1_0000_0000, 0x1_0000_0000);
            }
            let p1: u128 = yl * wl;
            let p2: u128 = xl * hl;
            let m: u128 = p1 & p2;
            proof {
                assert(p1 & p2 <= p1) by (bit_vector);
            }
            m * 0xf
        },
        PatternKind::OrField => {
            let o: u128 = (yl | wl) | (xl | hl);
            proof {
                assert(((y as u128) | (width as u128)) | ((x as u128) | (height as u128)) == (((y
                    | width) | (x | height)) as u128)) by (bit_vector);
                assert(yl < 0x1_0000_0000 && wl < 0x1_0000_0000 && xl < 0x1_0000_0000 && hl
                    < 0x1_0000_0000 ==> ((yl | wl) | (xl | hl)) < 0x1_0000_0000) by (bit_vector);
            }
            o * 0xf
        },
        PatternKind::SquareY => {
            proof {
                lemma_mul_lt(yl as int, yl as int, 0x1_0000_0000, 0x1_0000_0000);
            }
            yl * yl
        },
        PatternKind::SquareProduct => {
            proof {
                lemma_mul_lt(xl as int, xl as int, 0x1_0000_0000, 0x1_0000_0000);
                lemma_mul_lt(yl as int, yl as int, 0x1_0000_0000, 0x1_0000_0000);
                lemma_mul_lt(
                    (xl * xl) as int,
                    (yl * yl) as int,
                    0x1_0000_0000_0000_0000,
                    0x1_0000_0000_0000_0000,
                );
            }
            (xl * xl) * (yl * yl)
        },
        PatternKind::SquareProductMod => {
            proof {
                lemma_mul_lt(xl as int, xl as int, 0x1_0000_0000, 0x1_0000_0000);
                lemma_mul_lt(yl as int, yl as int, 0x1_0000_0000, 0x1_0000_0000);
                lemma_mul_lt(
                    (xl * xl) as int,
                    (yl * yl) as int,
                    0x1_0000_0000_0000_0000,
                    0x1_0000_0000_0000_0000,
                );
            }
            (xl * xl) * (yl * yl) % 256
        },
        PatternKind::SquareXModY => {
            proof {
                lemma_mul_lt(xl as int, xl as int, 0x1_0000_0000, 0x1_0000_0000);
                lemma_mul_lt(yl as int, yl as int, 0x1_0000_0000, 0x1_0000_0000);
            }
            (xl * xl) % (yl * yl + 1)
        },
        PatternKind::SquareYModX => {
            proof {
                lemma_mul_lt(xl as int, xl as int, 0x1_0000_0000, 0x1_0000_0000);
                lemma_mul_lt(yl as int, yl as int, 0x1_0000_0000, 0x1_0000_0000);
            }
            (yl * yl) % (xl * xl + 1)
        },
        PatternKind::SquareModSum => {
            proof {
                lemma_mul_lt(xl as int, xl as int, 0x1_0000_0000, 0x1_0000_0000);
                lemma_mul_lt(yl as int, yl as int, 0x1_0000_0000, 0x1_0000_0000);
            }
            (yl * yl) % (xl * xl + 1) + (xl * xl) % (yl * yl + 1)
        },
        PatternKind::SquareModQuotient => {
            proof {
                lemma_mul_lt(xl as int, xl as int, 0x1_0000_0000, 0x1_0000_0000);
                lemma_mul_lt(yl as int, yl as int, 0x1_0000_0000, 0x1_0000_0000);
            }
            ((yl * yl) % (xl * xl + 1)) / ((xl * xl) % (yl * yl + 1) + 1)
        },
        PatternKind::ShearQuotient => {
            proof {
                lemma_mul_lt(yl as int, wl as int, 0x1_0000_0000, 0x1_0000_0000);
                lemma_mul_lt(xl as int, il as int, 0x1_0000_0000, 22);
            }
            (yl * wl + xl * il) / (xl + 1)
        },
        PatternKind::Disc => {
            let cx: u128 = wl / 2;
            let cy: u128 = hl / 2;
            let dx: u128 = if xl >= cx {
                xl - cx
            } else {
                cx - xl
            };
            let dy: u128 = if yl >= cy {
                yl - cy
            } else {
                cy - yl
            };
            proof {
                lemma_mul_lt(dx as int, dx as int, 0x1_0000_0000, 0x1_0000_0000);
                lemma_mul_lt(dy as int, dy as int, 0x1_0000_0000, 0x1_0000_0000);
                lemma_mul_lt(cx as int, cx as int, 0x1_0000_0000, 0x1_0000_0000);
            }
            if dx * dx + dy * dy <= cx * cx {
                0xFF0000
            } else {
                0
            }
        },
        PatternKind::Ring => {
            let cx: u128 = wl / 2;
            let cy: u128 = hl / 2;
            let dx: u128 = if xl >= cx {
                xl - cx
            } else {
                cx - xl
            };
            let dy: u128 = if yl >= cy {
                yl - cy
            } else {
                cy - yl
            };
            let ri: u128 = wl / 2 - wl / 16;
            proof {
                lemma_mul_lt(dx as int, dx as int, 0x1_0000_0000, 0x1_0000_0000);
                lemma_mul_lt(dy as int, dy as int, 0x1_0000_0000, 0x1_0000_0000);
                lemma_mul_lt(cx as int, cx as int, 0x1_0000_0000, 0x1_0000_0000);
                lemma_mul_lt(ri as int, ri as int, 0x1_0000_0000, 0x1_0000_0000);
                lemma_div_le(wl as int, 16);
            }
            if dx * dx + dy * dy <= cx * cx && !(dx * dx + dy * dy <= ri * ri) {
                0xFF0000
            } else {
                0
            }
        },
    };
    proof {
        assert(v as u32 == v % 0x1_0000_0000) by (bit_vector);
    }
    #[verifier::truncate] (v as u32)
}

/// Evaluation is deterministic: any two pixel values obtained for the same
/// `(id, x, y, width, height)` are equal, because `eval_pixel` returns
/// `pattern_value` of its arguments and nothing else enters the result.
pub proof fn lemma_eval_deterministic(
    r1: u32,
    r2: u32,
    id: u64,
    x: u64,
    y: u64,
    width: u64,
    height: u64,
)
    requires
        r1 == pattern_value(id, x, y, width, height),
        r2 == pattern_value(id, x, y, width, height),
    ensures
        r1 == r2,
{
}

/// Pattern ids 5 and 6 share one formula, and ids 9, 10 and 11 share
/// another: the images they produce are pixel-identical.
pub proof fn lemma_duplicate_patterns(x: u64, y: u64, width: u64, height: u64)
    ensures
        pattern_value(5, x, y, width, height) == pattern_value(6, x, y, width, height),
        pattern_value(9, x, y, width, height) == pattern_value(10, x, y, width, height),
        pattern_value(10, x, y, width, height) == pattern_value(11, x, y, width, height),
{
}

/// Pattern id 20 paints the disc of radius `width/2` around the canvas
/// center red and everything else black: every pixel inside the disc
/// (boundary included) is `0xFF0000`, every pixel outside is `0`.
pub proof fn lemma_disc_pattern(x: u64, y: u64, width: u64, height: u64)
    ensures
        in_disc(x, y, width, height) ==> pattern_value(20, x, y, width, height) == 0xFF0000,
        !in_disc(x, y, width, height) ==> pattern_value(20, x, y, width, height) == 0,
{
}

/// Pattern id 21 paints the ring between the inner disc of radius
/// `width/2 - width/16` and the outer disc of radius `width/2` red: every
/// pixel inside the outer disc but outside the inner disc is `0xFF0000`,
/// while pixels inside the inner disc, and pixels outside the outer disc,
/// are `0`.
pub proof fn lemma_ring_pattern(x: u64, y: u64, width: u64, height: u64)
    ensures
        in_disc(x, y, width, height) && !in_inner_disc(x, y, width, height) ==> pattern_value(
            21,
            x,
            y,
            width,
            height,
        ) == 0xFF0000,
        in_inner_disc(x, y, width, height) ==> pattern_value(21, x, y, width, height) == 0,
        !in_disc(x, y, width, height) ==> pattern_value(21, x, y, width, height) == 0,
{
}

/// Evaluates the pattern with the given id at `(x, y)` on a
/// `width` x `height` canvas: the pure, deterministic core of the
/// renderer. The result is a function of the arguments alone.
pub fn eval_pixel(id: u64, x: u64, y: u64, width: u64, height: u64) -> (r: u32)
    requires
        id < PATTERN_COUNT,
        x < COORD_LIMIT,
        y < COORD_LIMIT,
        width < COORD_LIMIT,
        height < COORD_LIMIT,
    ensures
        r == pattern_value(id, x, y, width, height),
{
    match pattern_kind(id) {
        Some(k) => eval_kind(k, id, x, y, width, height),
        None => 0,
    }
}

} // verus!
