//! The raster codec: serializes one image of a pixel buffer to the binary
//! portable-pixmap format, and parses such headers back.
//!
//! A file is the ASCII header `"P6\n{width} {height} 255\n"` followed by
//! `width * height * 3` raw bytes, one pixel as three consecutive bytes
//! (red, green, blue), row-major, top row first, with no padding.

use vstd::prelude::*;
use vstd::string::StringExecFns;

verus! {

/// The decimal digits of `n`, most significant first, as ASCII bytes.
pub open spec fn dec_bytes(n: nat) -> Seq<u8>
    decreases n,
{
    if n < 10 {
        seq![(48 + n) as u8]
    } else {
        dec_bytes(n / 10).push((48 + n % 10) as u8)
    }
}

/// The ASCII header `"P6\n{width} {height} 255\n"`.
pub open spec fn ppm_header(width: nat, height: nat) -> Seq<u8> {
    seq![80u8, 54u8, 10u8] + dec_bytes(width) + seq![32u8] + dec_bytes(height) + seq![
        32u8,
        50u8,
        53u8,
        53u8,
        10u8,
    ]
}

/// The three bytes of one packed pixel: red from bits 16..24, green from
/// bits 8..16, blue from bits 0..8, in that order.
pub open spec fn pixel_bytes(px: u32) -> Seq<u8> {
    seq![((px >> 16) & 0xff) as u8, ((px >> 8) & 0xff) as u8, (px & 0xff) as u8]
}

/// The raw pixel data of an image: three bytes per pixel, in buffer order.
pub open spec fn body_bytes(pxs: Seq<u32>) -> Seq<u8>
    decreases pxs.len(),
{
    if pxs.len() == 0 {
        Seq::empty()
    } else {
        body_bytes(pxs.drop_last()) + pixel_bytes(pxs.last())
    }
}

/// The pixel data is exactly three bytes per pixel.
pub proof fn lemma_body_bytes_len(pxs: Seq<u32>)
    ensures
        body_bytes(pxs).len() == 3 * pxs.len(),
    decreases pxs.len(),
{
    if pxs.len() > 0 {
        lemma_body_bytes_len(pxs.drop_last());
    }
}

/// Appends the decimal digits of `n`, most significant first.
fn push_dec(out: &mut Vec<u8>, n: u64)
    ensures
        final(out)@ == old(out)@ + dec_bytes(n as nat),
    decreases n,
{
    if n >= 10 {
        push_dec(out, n / 10);
    }
    out.push(48 + (n % 10) as u8);
    proof {
        assert(out@ =~= old(out)@ + dec_bytes(n as nat));
    }
}

/// Serializes one image of the shared pixel buffer: the header for the
/// canvas dimensions, then the image's `width * height` pixels (starting at
/// `start`, row-major) as three bytes each.
#[verifier::loop_isolation(false)]
pub fn encode_image(pixels: &Vec<u32>, start: usize, width: usize, height: usize) -> (out: Vec<u8>)
    requires
        start + width * height <= pixels@.len(),
    ensures
        out@ == ppm_header(width as nat, height as nat) + body_bytes(
            pixels@.subrange(start as int, start + width * height),
        ),
        out@.len() == ppm_header(width as nat, height as nat).len() + 3 * (width * height),
{
    // binding the length keeps the buffer's size bound in scope for the
    // product below
    let len: usize = pixels.len();
    let n: usize = width * height;
    let ghost slice = pixels@.subrange(start as int, start + n);
    let mut out: Vec<u8> = Vec::new();
    out.push(80);
    out.push(54);
    out.push(10);
    push_dec(&mut out, width as u64);
    out.push(32);
    push_dec(&mut out, height as u64);
    out.push(32);
    out.push(50);
    out.push(53);
    out.push(53);
    out.push(10);
    proof {
        assert(out@ =~= ppm_header(width as nat, height as nat));
        assert(out@ =~= ppm_header(width as nat, height as nat) + body_bytes(slice.take(0)));
    }
    let mut j: usize = 0;
    while j < n
        invariant
            j <= n,
            out@ == ppm_header(width as nat, height as nat) + body_bytes(slice.take(j as int)),
        decreases n - j,
    {
        let px: u32 = pixels[start + j];
        proof {
            assert((px >> 16) & 0xff < 256 && (px >> 8) & 0xff < 256 && px & 0xff < 256)
                by (bit_vector);
        }
        out.push(((px >> 16) & 0xff) as u8);
        out.push(((px >> 8) & 0xff) as u8);
        out.push((px & 0xff) as u8);
        proof {
            assert(slice.take(j + 1).drop_last() =~= slice.take(j as int));
            assert(slice.take(j + 1).last() == slice[j as int]);
            assert(slice[j as int] == pixels@[start + j]);
            assert(out@ =~= ppm_header(width as nat, height as nat) + body_bytes(
                slice.take(j + 1),
            ));
        }
        j = j + 1;
    }
    proof {
        assert(slice.take(n as int) =~= slice);
        lemma_body_bytes_len(slice);
    }
    out
}

/// Whether a byte is an ASCII decimal digit.
pub open spec fn is_digit(b: u8) -> bool {
    48 <= b && b <= 57
}

/// Length of the maximal run of digit bytes starting at position `i`.
pub open spec fn digits_run(s: Seq<u8>, i: int) -> int
    decreases s.len() - i when 0 <= i <= s.len()
{
    if 0 <= i < s.len() && is_digit(s[i]) {
        1 + digits_run(s, i + 1)
    } else {
        0
    }
}

/// The number a sequence of digit bytes denotes, most significant first.
pub open spec fn digits_val(s: Seq<u8>) -> int
    decreases s.len(),
{
    if s.len() == 0 {
        0
    } else {
        digits_val(s.drop_last()) * 10 + (s.last() - 48)
    }
}

/// Parses the header `"P6\n{width} {height} 255\n"` from the start of a
/// file: `Some((width, height, data_offset))` when the bytes begin with a
/// well-formed header, `None` otherwise. Both numbers are read with maximal
/// munch, so a well-formed header parses in exactly one way.
pub open spec fn spec_parse_header(s: Seq<u8>) -> Option<(int, int, int)> {
    let n1 = digits_run(s, 3);
    let p1 = 3 + n1;
    let n2 = digits_run(s, p1 + 1);
    let p2 = p1 + 1 + n2;
    if s.len() >= 3 && s[0] == 80 && s[1] == 54 && s[2] == 10 && n1 >= 1 && p1 < s.len() && s[p1]
        == 32 && n2 >= 1 && p2 + 5 <= s.len() && s[p2] == 32 && s[p2 + 1] == 50 && s[p2 + 2] == 53
        && s[p2 + 3] == 53 && s[p2 + 4] == 10 {
        Some((digits_val(s.subrange(3, p1)), digits_val(s.subrange(p1 + 1, p2)), p2 + 5))
    } else {
        None
    }
}

/// Every byte of a decimal representation is a digit.
proof fn lemma_dec_bytes_digits(n: nat)
    ensures
        forall|j: int| 0 <= j < dec_bytes(n).len() ==> is_digit(#[trigger] dec_bytes(n)[j]),
        dec_bytes(n).len() >= 1,
    decreases n,
{
    if n >= 10 {
        lemma_dec_bytes_digits(n / 10);
    }
}

/// A decimal representation denotes the number it was made from.
proof fn lemma_dec_bytes_val(n: nat)
    ensures
        digits_val(dec_bytes(n)) == n,
    decreases n,
{
    if n >= 10 {
        lemma_dec_bytes_val(n / 10);
        assert(dec_bytes(n).drop_last() =~= dec_bytes(n / 10));
        assert(n == (n / 10) * 10 + n % 10) by {
            vstd::arithmetic::div_mod::lemma_fundamental_div_mod(n as int, 10);
        }
        assert(digits_val(dec_bytes(n)) == n);
    } else {
        let s = dec_bytes(n);
        assert(s.len() == 1);
        assert(s.last() == (48 + n) as u8);
        assert(digits_val(s) == digits_val(s.drop_last()) * 10 + (s.last() - 48));
        assert(s.drop_last().len() == 0);
        assert(digits_val(s.drop_last()) == 0);
        assert(digits_val(s) == n);
    }
}

/// A run of `k` digits bounded by a non-digit (or the end) is maximal.
proof fn lemma_digits_run_of(s: Seq<u8>, start: int, k: int)
    requires
        0 <= start,
        0 <= k,
        start + k <= s.len(),
        forall|j: int| start <= j < start + k ==> is_digit(#[trigger] s[j]),
        start + k == s.len() || !is_digit(s[start + k]),
    ensures
        digits_run(s, start) == k,
    decreases k,
{
    if k > 0 {
        assert(is_digit(s[start]));
        lemma_digits_run_of(s, start + 1, k - 1);
    }
}

/// The value of a digit sequence is nonnegative.
proof fn lemma_digits_val_nonneg(s: Seq<u8>)
    requires
        forall|j: int| 0 <= j < s.len() ==> is_digit(#[trigger] s[j]),
    ensures
        digits_val(s) >= 0,
    decreases s.len(),
{
    if s.len() > 0 {
        assert(forall|j: int|
            0 <= j < s.drop_last().len() ==> is_digit(#[trigger] s.drop_last()[j]));
        lemma_digits_val_nonneg(s.drop_last());
    }
}

/// Scans the maximal run of digit bytes starting at `start` and accumulates
/// its value: returns the position after the run, the value, and whether the
/// value exceeds `u64::MAX` (in which case the returned value is unusable).
#[verifier::loop_isolation(false)]
fn scan_number(data: &Vec<u8>, start: usize) -> (r: (usize, u64, bool))
    requires
        start <= data@.len(),
    ensures
        ({
            let (end, val, over) = r;
            &&& start <= end <= data@.len()
            &&& digits_run(data@, start as int) == end - start
            &&& (!over ==> val == digits_val(data@.subrange(start as int, end as int)))
            &&& (over ==> digits_val(data@.subrange(start as int, end as int)) > u64::MAX)
        }),
{
    let len: usize = data.len();
    let mut i: usize = start;
    let mut val: u64 = 0;
    let mut over: bool = false;
    while i < len && data[i] >= 48 && data[i] <= 57
        invariant
            start <= i <= len,
            forall|j: int| start <= j < i ==> is_digit(#[trigger] data@[j]),
            !over ==> val == digits_val(data@.subrange(start as int, i as int)),
            over ==> digits_val(data@.subrange(start as int, i as int)) > u64::MAX,
        decreases len - i,
    {
        let d: u64 = (data[i] - 48) as u64;
        proof {
            let prefix = data@.subrange(start as int, i as int);
            let extended = data@.subrange(start as int, i + 1);
            assert(extended.drop_last() =~= prefix);
            assert(extended.last() == data@[i as int]);
            assert(digits_val(extended) == digits_val(prefix) * 10 + d);
            assert(forall|j: int| 0 <= j < prefix.len() ==> is_digit(#[trigger] prefix[j]));
            lemma_digits_val_nonneg(prefix);
        }
        if !over {
            match val.checked_mul(10) {
                Some(t) => {
                    match t.checked_add(d) {
                        Some(v) => {
                            val = v;
                        },
                        None => {
                            over = true;
                        },
                    }
                },
                None => {
                    over = true;
                },
            }
        }
        i = i + 1;
    }
    proof {
        lemma_digits_run_of(data@, start as int, i - start);
    }
    (i, val, over)
}

/// Parses the header `"P6\n{width} {height} 255\n"` from the start of a
/// byte buffer. Returns the dimensions and the offset of the pixel data
/// whenever the buffer begins with a well-formed header whose numbers fit in
/// 64 bits; returns `None` exactly on buffers that begin with no well-formed
/// header, or whose width or height overflows 64 bits.
pub fn parse_ppm_header(data: &Vec<u8>) -> (r: Option<(u64, u64, usize)>)
    ensures
        match r {
            Some(t) => spec_parse_header(data@) == Some((t.0 as int, t.1 as int, t.2 as int)),
            None => match spec_parse_header(data@) {
                Some(t) => t.0 > u64::MAX || t.1 > u64::MAX,
                None => true,
            },
        },
{
    let len: usize = data.len();
    if len < 3 || data[0] != 80 || data[1] != 54 || data[2] != 10 {
        return None;
    }
    let (p1, w, w_over) = scan_number(data, 3);
    if p1 == 3 || p1 >= len || data[p1] != 32 {
        return None;
    }
    let (p2, h, h_over) = scan_number(data, p1 + 1);
    if p2 == p1 + 1 || len - p2 < 5 {
        return None;
    }
    if data[p2] != 32 || data[p2 + 1] != 50 || data[p2 + 2] != 53 || data[p2 + 3] != 53 || data[p2
        + 4] != 10 {
        return None;
    }
    if w_over || h_over {
        return None;
    }
    Some((w, h, p2 + 5))
}

/// Writing a header for given dimensions and parsing it back recovers the
/// dimensions exactly, and places the pixel data right after the header,
/// whatever follows it.
pub proof fn lemma_header_round_trip(width: nat, height: nat, rest: Seq<u8>)
    ensures
        spec_parse_header(ppm_header(width, height) + rest) == Some(
            (width as int, height as int, ppm_header(width, height).len() as int),
        ),
{
    let s = ppm_header(width, height) + rest;
    let dw = dec_bytes(width);
    let dh = dec_bytes(height);
    let k1 = dw.len() as int;
    let k2 = dh.len() as int;
    lemma_dec_bytes_digits(width);
    lemma_dec_bytes_digits(height);
    lemma_dec_bytes_val(width);
    lemma_dec_bytes_val(height);
    assert forall|j: int| 3 <= j < 3 + k1 implies is_digit(#[trigger] s[j]) by {
        assert(s[j] == dw[j - 3]);
    }
    assert(s[3 + k1] == 32);
    lemma_digits_run_of(s, 3, k1);
    let p1 = 3 + k1;
    assert forall|j: int| p1 + 1 <= j < p1 + 1 + k2 implies is_digit(#[trigger] s[j]) by {
        assert(s[j] == dh[j - (p1 + 1)]);
    }
    assert(s[p1 + 1 + k2] == 32);
    lemma_digits_run_of(s, p1 + 1, k2);
    let p2 = p1 + 1 + k2;
    assert(s.subrange(3, p1) =~= dw);
    assert(s.subrange(p1 + 1, p2) =~= dh);
    assert(s[p2] == 32 && s[p2 + 1] == 50 && s[p2 + 2] == 53 && s[p2 + 3] == 53 && s[p2 + 4]
        == 10);
    assert(ppm_header(width, height).len() == p2 + 5);
}

/// Round trip for a whole encoded file: parsing the encoding of any pixel
/// sequence recovers the dimensions exactly, and the bytes after the header
/// are the pixel data, three bytes per pixel.
pub proof fn lemma_encoding_round_trip(width: nat, height: nat, pxs: Seq<u32>)
    ensures
        spec_parse_header(ppm_header(width, height) + body_bytes(pxs)) == Some(
            (width as int, height as int, ppm_header(width, height).len() as int),
        ),
        (ppm_header(width, height) + body_bytes(pxs)).len() - ppm_header(width, height).len() == 3
            * pxs.len(),
{
    lemma_header_round_trip(width, height, body_bytes(pxs));
    lemma_body_bytes_len(pxs);
}

/// The character for one decimal digit.
pub open spec fn digit_char(d: nat) -> char {
    if d == 0 {
        '0'
    } else if d == 1 {
        '1'
    } else if d == 2 {
        '2'
    } else if d == 3 {
        '3'
    } else if d == 4 {
        '4'
    } else if d == 5 {
        '5'
    } else if d == 6 {
        '6'
    } else if d == 7 {
        '7'
    } else if d == 8 {
        '8'
    } else {
        '9'
    }
}

/// The decimal digits of `n` as characters, most significant first.
pub open spec fn dec_chars(n: nat) -> Seq<char>
    decreases n,
{
    if n < 10 {
        seq![digit_char(n)]
    } else {
        dec_chars(n / 10).push(digit_char(n % 10))
    }
}

fn digit_str(d: u64) -> (r: &'static str)
    requires
        d < 10,
    ensures
        r@ == seq![digit_char(d as nat)],
{
    match d {
        0 => {
            proof {
                reveal_strlit("0");
            }
            "0"
        },
        1 => {
            proof {
                reveal_strlit("1");
            }
            "1"
        },
        2 => {
            proof {
                reveal_strlit("2");
            }
            "2"
        },
        3 => {
            proof {
                reveal_strlit("3");
            }
            "3"
        },
        4 => {
            proof {
                reveal_strlit("4");
            }
            "4"
        },
        5 => {
            proof {
                reveal_strlit("5");
            }
            "5"
        },
        6 => {
            proof {
                reveal_strlit("6");
            }
            "6"
        },
        7 => {
            proof {
                reveal_strlit("7");
            }
            "7"
        },
        8 => {
            proof {
                reveal_strlit("8");
            }
            "8"
        },
        _ => {
            proof {
                reveal_strlit("9");
            }
            "9"
        },
    }
}

fn push_dec_chars(out: &mut String, n: u64)
    ensures
        final(out)@ == old(out)@ + dec_chars(n as nat),
    decreases n,
{
    if n >= 10 {
        push_dec_chars(out, n / 10);
    }
    let digit = digit_str(n % 10);
    out.append(digit);
    proof {
        assert(out@ =~= old(out)@ + dec_chars(n as nat));
    }
}

/// The deterministic output file name for one pattern id: the id in
/// decimal, then the `.ppm` suffix.
pub fn ppm_file_name(id: u64) -> (r: String)
    ensures
        r@ == dec_chars(id as nat) + seq!['.', 'p', 'p', 'm'],
{
    let mut s = String::new();
    push_dec_chars(&mut s, id);
    s.append(".ppm");
    proof {
        reveal_strlit(".ppm");
        assert(s@ =~= dec_chars(id as nat) + seq!['.', 'p', 'p', 'm']);
    }
    s
}

} // verus!
