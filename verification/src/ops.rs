//! The pixel-buffer operators: demosaic, white balance, the base
//! tone curve, fixed rotations, cropping, and downscaling.
//!
//! Every operator is a pure function from one buffer to a new one;
//! none mutates its input.  Each is built on one verified filling
//! loop, [`remap`], and its contract pins the output shape and the
//! exact sample mapping.

use vstd::prelude::*;

use crate::buffer::DIM_MAX;
use crate::buffer::PixelBuffer;
use crate::buffer::SAMPLE_ABS;
use crate::curve::CurveFunction;
use crate::curve::curve_value;
use crate::numeric::floor_div_i64;

verus! {

/// The color-filter-array tile: which color each sensor pixel saw.
/// The four patterns are the 2x2 Bayer tiles, named by their row-major
/// cell order.
#[derive(Clone, Copy, Debug, PartialEq, Eq, Structural)]
pub enum CfaPattern {
    Rggb,
    Bggr,
    Grbg,
    Gbrg,
}

/// The fixed rotations an image can undergo.
#[derive(Clone, Copy, Debug, PartialEq, Eq, Structural)]
pub enum Rotation {
    Normal,
    Rotate90,
    Rotate180,
    Rotate270,
}

/// The flat index of channel `c` at `(x, y)` in a buffer of width
/// `w` with `ch` channels.
pub open spec fn idx(w: int, ch: int, x: int, y: int, c: int) -> int {
    (y * w + x) * ch + c
}

/// A pixel index lies inside the sample vector and inside `usize`.
pub(crate) proof fn lemma_idx_fits(w: int, h: int, ch: int, x: int, y: int, c: int)
    requires
        1 <= w <= DIM_MAX,
        1 <= h <= DIM_MAX,
        1 <= ch <= 4,
        0 <= x < w,
        0 <= y < h,
        0 <= c < ch,
    ensures
        0 <= idx(w, ch, x, y, c) < w * h * ch,
        w * h * ch <= 16384 * 16384 * 4,
        0 <= y * w + x < w * h,
        w * h <= 16384 * 16384,
{
    assert((y * w + x) * ch + c < w * h * ch && 0 <= (y * w + x) * ch + c && w * h * ch <= 16384
        * 16384 * 4 && 0 <= y * w + x < w * h && w * h <= 16384 * 16384) by (nonlinear_arith)
        requires
            1 <= w <= 16384,
            1 <= h <= 16384,
            1 <= ch <= 4,
            0 <= x < w,
            0 <= y < h,
            0 <= c < ch,
    ;
}

/// The sample at `(xx, yy, cc)` has been written and equals the
/// map's value there.
pub open spec fn filled(
    data: Seq<i64>,
    tw: int,
    ch: int,
    m: spec_fn(int, int, int) -> int,
    xx: int,
    yy: int,
    cc: int,
) -> bool {
    &&& 0 <= idx(tw, ch, xx, yy, cc) < data.len()
    &&& data[idx(tw, ch, xx, yy, cc)] as int == m(xx, yy, cc)
}

/// Fills a buffer of the given shape, one sample per call of `f`;
/// the ghost map `m` names the value `f` returns at each position.
#[verifier::rlimit(60)]
pub(crate) fn remap<F: Fn(usize, usize, usize) -> i64>(
    tw: usize,
    th: usize,
    ch: usize,
    f: F,
    Ghost(m): Ghost<spec_fn(int, int, int) -> int>,
) -> (r: PixelBuffer)
    requires
        1 <= tw <= DIM_MAX,
        1 <= th <= DIM_MAX,
        1 <= ch <= 4,
        forall|x: usize, y: usize, c: usize|
            x < tw && y < th && c < ch ==> #[trigger] call_requires(f, (x, y, c)),
        forall|x: usize, y: usize, c: usize, ret: i64|
            x < tw && y < th && c < ch && #[trigger] call_ensures(f, (x, y, c), ret) ==> ret as int
                == m(x as int, y as int, c as int) && -SAMPLE_ABS <= ret <= SAMPLE_ABS,
    ensures
        r.wf(),
        r.spec_width() == tw,
        r.spec_height() == th,
        r.spec_channels() == ch,
        forall|x: int, y: int, c: int|
            0 <= x < tw && 0 <= y < th && 0 <= c < ch ==> #[trigger] r.at(x, y, c) == m(x, y, c),
{
    let ghost twi = tw as int;
    let ghost chi = ch as int;
    let mut data: Vec<i64> = Vec::new();
    let mut y: usize = 0;
    while y < th
        invariant
            1 <= tw <= DIM_MAX,
            1 <= th <= DIM_MAX,
            1 <= ch <= 4,
            twi == tw as int,
            chi == ch as int,
            0 <= y <= th,
            forall|x: usize, yy: usize, c: usize|
                x < tw && yy < th && c < ch ==> #[trigger] call_requires(f, (x, yy, c)),
            forall|x: usize, yy: usize, c: usize, ret: i64|
                x < tw && yy < th && c < ch && #[trigger] call_ensures(f, (x, yy, c), ret)
                    ==> ret as int == m(x as int, yy as int, c as int) && -SAMPLE_ABS <= ret
                    <= SAMPLE_ABS,
            data@.len() == (y * tw) * ch,
            forall|xx: int, yy: int, cc: int|
                0 <= xx < tw && 0 <= yy < y && 0 <= cc < ch ==> #[trigger] filled(
                    data@,
                    twi,
                    chi,
                    m,
                    xx,
                    yy,
                    cc,
                ),
            forall|i: int| 0 <= i < data@.len() ==> -SAMPLE_ABS <= #[trigger] data@[i] <= SAMPLE_ABS,
        decreases th - y,
    {
        let mut x: usize = 0;
        while x < tw
            invariant
                1 <= tw <= DIM_MAX,
                1 <= th <= DIM_MAX,
                1 <= ch <= 4,
                twi == tw as int,
                chi == ch as int,
                0 <= y < th,
                0 <= x <= tw,
                forall|xx: usize, yy: usize, c: usize|
                    xx < tw && yy < th && c < ch ==> #[trigger] call_requires(f, (xx, yy, c)),
                forall|xx: usize, yy: usize, c: usize, ret: i64|
                    xx < tw && yy < th && c < ch && #[trigger] call_ensures(f, (xx, yy, c), ret)
                        ==> ret as int == m(xx as int, yy as int, c as int) && -SAMPLE_ABS <= ret
                        <= SAMPLE_ABS,
                data@.len() == (y * tw + x) * ch,
                forall|xx: int, yy: int, cc: int|
                    0 <= xx < tw && 0 <= yy < y && 0 <= cc < ch ==> #[trigger] filled(
                        data@,
                        twi,
                        chi,
                        m,
                        xx,
                        yy,
                        cc,
                    ),
                forall|xx: int, cc: int|
                    0 <= xx < x && 0 <= cc < ch ==> #[trigger] filled(
                        data@,
                        twi,
                        chi,
                        m,
                        xx,
                        y as int,
                        cc,
                    ),
                forall|i: int|
                    0 <= i < data@.len() ==> -SAMPLE_ABS <= #[trigger] data@[i] <= SAMPLE_ABS,
            decreases tw - x,
        {
            let mut c: usize = 0;
            while c < ch
                invariant
                    1 <= tw <= DIM_MAX,
                    1 <= th <= DIM_MAX,
                    1 <= ch <= 4,
                    twi == tw as int,
                    chi == ch as int,
                    0 <= y < th,
                    0 <= x < tw,
                    0 <= c <= ch,
                    forall|xx: usize, yy: usize, cc: usize|
                        xx < tw && yy < th && cc < ch ==> #[trigger] call_requires(f, (xx, yy, cc)),
                    forall|xx: usize, yy: usize, cc: usize, ret: i64|
                        xx < tw && yy < th && cc < ch && #[trigger] call_ensures(
                            f,
                            (xx, yy, cc),
                            ret,
                        ) ==> ret as int == m(xx as int, yy as int, cc as int) && -SAMPLE_ABS <= ret
                            <= SAMPLE_ABS,
                    data@.len() == (y * tw + x) * ch + c,
                    forall|xx: int, yy: int, cc: int|
                        0 <= xx < tw && 0 <= yy < y && 0 <= cc < ch ==> #[trigger] filled(
                            data@,
                            twi,
                            chi,
                            m,
                            xx,
                            yy,
                            cc,
                        ),
                    forall|xx: int, cc: int|
                        0 <= xx < x && 0 <= cc < ch ==> #[trigger] filled(
                            data@,
                            twi,
                            chi,
                            m,
                            xx,
                            y as int,
                            cc,
                        ),
                    forall|cc: int|
                        0 <= cc < c ==> #[trigger] filled(data@, twi, chi, m, x as int, y as int, cc),
                    forall|i: int|
                        0 <= i < data@.len() ==> -SAMPLE_ABS <= #[trigger] data@[i] <= SAMPLE_ABS,
                decreases ch - c,
            {
                let v = f(x, y, c);
                let ghost pre = data@;
                data.push(v);
                proof {
                    assert(data@ == pre.push(v));
                    assert(pre.len() == idx(twi, chi, x as int, y as int, c as int));
                    assert(filled(data@, twi, chi, m, x as int, y as int, c as int));
                    assert forall|xx: int, yy: int, cc: int|
                        0 <= xx < tw && 0 <= yy < y && 0 <= cc < ch implies #[trigger] filled(
                        data@,
                        twi,
                        chi,
                        m,
                        xx,
                        yy,
                        cc,
                    ) by {
                        assert(filled(pre, twi, chi, m, xx, yy, cc));
                        assert(pre.push(v)[idx(twi, chi, xx, yy, cc)] == pre[idx(twi, chi, xx, yy, cc)]);
                    }
                    assert forall|xx: int, cc: int| 0 <= xx < x && 0 <= cc < ch implies #[trigger] filled(
                        data@,
                        twi,
                        chi,
                        m,
                        xx,
                        y as int,
                        cc,
                    ) by {
                        assert(filled(pre, twi, chi, m, xx, y as int, cc));
                        assert(pre.push(v)[idx(twi, chi, xx, y as int, cc)] == pre[idx(twi, chi, xx, y as int, cc)]);
                    }
                    assert forall|cc: int| 0 <= cc < c + 1 implies #[trigger] filled(
                        data@,
                        twi,
                        chi,
                        m,
                        x as int,
                        y as int,
                        cc,
                    ) by {
                        if cc < c {
                            assert(filled(pre, twi, chi, m, x as int, y as int, cc));
                            assert(pre.push(v)[idx(twi, chi, x as int, y as int, cc)] == pre[idx(
                                twi,
                                chi,
                                x as int,
                                y as int,
                                cc,
                            )]);
                        }
                    }
                }
                c += 1;
            }
            proof {
                assert((y * tw + x) * ch + ch == (y * tw + (x + 1)) * ch) by (nonlinear_arith);
            }
            x += 1;
        }
        proof {
            assert((y * tw + tw) * ch == ((y + 1) * tw) * ch) by (nonlinear_arith);
            assert forall|xx: int, yy: int, cc: int|
                0 <= xx < tw && 0 <= yy < y + 1 && 0 <= cc < ch implies #[trigger] filled(
                data@,
                twi,
                chi,
                m,
                xx,
                yy,
                cc,
            ) by {
                if yy == y as int {
                    assert(filled(data@, twi, chi, m, xx, y as int, cc));
                }
            }
        }
        y += 1;
    }
    proof {
        assert((th * tw) * ch == tw * th * ch) by (nonlinear_arith);
    }
    let b = match PixelBuffer::new(tw, th, ch, data) {
        Ok(b) => b,
        Err(_) => vstd::pervasive::unreached(),
    };
    proof {
        assert forall|x: int, y: int, c: int|
            0 <= x < tw && 0 <= y < th && 0 <= c < ch implies #[trigger] b.at(x, y, c) == m(
            x,
            y,
            c,
        ) by {
            assert(filled(b.samples(), twi, chi, m, x, y, c));
        }
    }
    b
}


/// Source coordinate used by nearest-neighbour downscaling.
pub open spec fn scale_src(p: int, in_dim: int, out_dim: int) -> int {
    (p * in_dim) / out_dim
}

/// The scaled source coordinate stays inside the input.
pub(crate) proof fn lemma_scale_src_in_range(p: int, in_dim: int, out_dim: int)
    requires
        0 <= p < out_dim,
        1 <= out_dim <= in_dim,
        in_dim <= DIM_MAX,
    ensures
        0 <= scale_src(p, in_dim, out_dim) < in_dim,
        0 <= p * in_dim <= 16384 * 16384,
{
    assert(p * in_dim >= 0 && p * in_dim <= (out_dim - 1) * in_dim && (out_dim - 1) * in_dim
        <= 16384 * 16384) by (nonlinear_arith)
        requires
            0 <= p <= out_dim - 1,
            1 <= in_dim <= 16384,
            out_dim <= 16384,
    ;
    vstd::arithmetic::div_mod::lemma_div_pos_is_pos(p * in_dim, out_dim);
    vstd::arithmetic::div_mod::lemma_div_is_ordered(p * in_dim, (out_dim - 1) * in_dim, out_dim);
    vstd::arithmetic::div_mod::lemma_fundamental_div_mod((out_dim - 1) * in_dim, out_dim);
    vstd::arithmetic::div_mod::lemma_mod_bound((out_dim - 1) * in_dim, out_dim);
    assert((out_dim - 1) * in_dim / out_dim < in_dim) by (nonlinear_arith)
        requires
            1 <= out_dim,
            1 <= in_dim,
            (out_dim - 1) * in_dim == out_dim * ((out_dim - 1) * in_dim / out_dim) + ((out_dim - 1)
                * in_dim) % out_dim,
            0 <= ((out_dim - 1) * in_dim) % out_dim < out_dim,
    ;
}

/// Downscales by nearest-neighbour sampling: output pixel `(x, y)`
/// reads the input pixel at the proportionally scaled coordinates.
pub fn scale_to(input: &PixelBuffer, tw: usize, th: usize) -> (r: PixelBuffer)
    requires
        input.wf(),
        1 <= tw <= input.spec_width(),
        1 <= th <= input.spec_height(),
    ensures
        r.wf(),
        r.spec_width() == tw,
        r.spec_height() == th,
        r.spec_channels() == input.spec_channels(),
        forall|x: int, y: int, c: int|
            0 <= x < tw && 0 <= y < th && 0 <= c < input.spec_channels() ==> #[trigger] r.at(
                x,
                y,
                c,
            ) == input.at(
                scale_src(x, input.spec_width(), tw as int),
                scale_src(y, input.spec_height(), th as int),
                c,
            ),
{
    let w = input.width();
    let h = input.height();
    let ch = input.channels();
    let f = |x: usize, y: usize, c: usize| -> (res: i64)
        requires
            input.wf(),
            1 <= tw <= input.spec_width(),
            1 <= th <= input.spec_height(),
            x < tw,
            y < th,
            c < input.spec_channels(),
        ensures
            -SAMPLE_ABS <= res <= SAMPLE_ABS,
            res as int == input.at(
                scale_src(x as int, input.spec_width(), tw as int),
                scale_src(y as int, input.spec_height(), th as int),
                c as int,
            ),
        {
            let w = input.width();
            let h = input.height();
            let ch = input.channels();
            proof {
                lemma_scale_src_in_range(x as int, w as int, tw as int);
                lemma_scale_src_in_range(y as int, h as int, th as int);
            }
            let sx = x * w / tw;
            let sy = y * h / th;
            proof {
                lemma_idx_fits(w as int, h as int, ch as int, sx as int, sy as int, c as int);
            }
            input.get((sy * w + sx) * ch + c)
        };
    remap(
        tw,
        th,
        ch,
        f,
        Ghost(
            |x: int, y: int, c: int|
                input.at(
                    scale_src(x, input.spec_width(), tw as int),
                    scale_src(y, input.spec_height(), th as int),
                    c,
                ),
        ),
    )
}

/// Width after a fixed rotation.
pub open spec fn rot_w(w: int, h: int, rot: Rotation) -> int {
    match rot {
        Rotation::Normal => w,
        Rotation::Rotate180 => w,
        Rotation::Rotate90 => h,
        Rotation::Rotate270 => h,
    }
}

/// Height after a fixed rotation.
pub open spec fn rot_h(w: int, h: int, rot: Rotation) -> int {
    match rot {
        Rotation::Normal => h,
        Rotation::Rotate180 => h,
        Rotation::Rotate90 => w,
        Rotation::Rotate270 => w,
    }
}

/// The input abscissa that lands at output `(x, y)` of a rotation,
/// for input of width `w` and height `h`.
pub open spec fn rot_src_x(rot: Rotation, x: int, y: int, w: int, h: int) -> int {
    match rot {
        Rotation::Normal => x,
        Rotation::Rotate90 => y,
        Rotation::Rotate180 => w - 1 - x,
        Rotation::Rotate270 => w - 1 - y,
    }
}

/// The input ordinate that lands at output `(x, y)` of a rotation.
pub open spec fn rot_src_y(rot: Rotation, x: int, y: int, w: int, h: int) -> int {
    match rot {
        Rotation::Normal => y,
        Rotation::Rotate90 => h - 1 - x,
        Rotation::Rotate180 => h - 1 - y,
        Rotation::Rotate270 => x,
    }
}

/// Rotates the image by a fixed multiple of a quarter turn, turning
/// clockwise; width and height swap for the quarter turns.
pub fn transform_rotate(input: &PixelBuffer, rot: Rotation) -> (r: PixelBuffer)
    requires
        input.wf(),
    ensures
        r.wf(),
        r.spec_width() == rot_w(input.spec_width(), input.spec_height(), rot),
        r.spec_height() == rot_h(input.spec_width(), input.spec_height(), rot),
        r.spec_channels() == input.spec_channels(),
        forall|x: int, y: int, c: int|
            0 <= x < r.spec_width() && 0 <= y < r.spec_height() && 0 <= c < input.spec_channels()
                ==> #[trigger] r.at(x, y, c) == input.at(
                rot_src_x(rot, x, y, input.spec_width(), input.spec_height()),
                rot_src_y(rot, x, y, input.spec_width(), input.spec_height()),
                c,
            ),
{
    let w = input.width();
    let h = input.height();
    let ch = input.channels();
    let (tw, th) = match rot {
        Rotation::Normal => (w, h),
        Rotation::Rotate180 => (w, h),
        Rotation::Rotate90 => (h, w),
        Rotation::Rotate270 => (h, w),
    };
    let f = |x: usize, y: usize, c: usize| -> (res: i64)
        requires
            input.wf(),
            x < rot_w(input.spec_width(), input.spec_height(), rot),
            y < rot_h(input.spec_width(), input.spec_height(), rot),
            c < input.spec_channels(),
        ensures
            -SAMPLE_ABS <= res <= SAMPLE_ABS,
            res as int == input.at(
                rot_src_x(rot, x as int, y as int, input.spec_width(), input.spec_height()),
                rot_src_y(rot, x as int, y as int, input.spec_width(), input.spec_height()),
                c as int,
            ),
        {
            let w = input.width();
            let h = input.height();
            let ch = input.channels();
            let (sx, sy) = match rot {
                Rotation::Normal => (x, y),
                Rotation::Rotate90 => (y, h - 1 - x),
                Rotation::Rotate180 => (w - 1 - x, h - 1 - y),
                Rotation::Rotate270 => (w - 1 - y, x),
            };
            proof {
                lemma_idx_fits(w as int, h as int, ch as int, sx as int, sy as int, c as int);
            }
            input.get((sy * w + sx) * ch + c)
        };
    remap(
        tw,
        th,
        ch,
        f,
        Ghost(
            |x: int, y: int, c: int|
                input.at(
                    rot_src_x(rot, x, y, input.spec_width(), input.spec_height()),
                    rot_src_y(rot, x, y, input.spec_width(), input.spec_height()),
                    c,
                ),
        ),
    )
}


/// The rotation's source coordinates stay inside the input frame.
pub(crate) proof fn lemma_rot_src_in_range(rot: Rotation, x: int, y: int, w: int, h: int)
    requires
        1 <= w,
        1 <= h,
        0 <= x < rot_w(w, h, rot),
        0 <= y < rot_h(w, h, rot),
    ensures
        0 <= rot_src_x(rot, x, y, w, h) < w,
        0 <= rot_src_y(rot, x, y, w, h) < h,
{
}

/// Cuts the axis-aligned rectangle of shape `tw` by `th` whose
/// top-left corner is `(left, top)`.
pub fn crop_rect(input: &PixelBuffer, left: usize, top: usize, tw: usize, th: usize) -> (r:
    PixelBuffer)
    requires
        input.wf(),
        1 <= tw,
        1 <= th,
        left + tw <= input.spec_width(),
        top + th <= input.spec_height(),
    ensures
        r.wf(),
        r.spec_width() == tw,
        r.spec_height() == th,
        r.spec_channels() == input.spec_channels(),
        forall|x: int, y: int, c: int|
            0 <= x < tw && 0 <= y < th && 0 <= c < input.spec_channels() ==> #[trigger] r.at(
                x,
                y,
                c,
            ) == input.at(x + left, y + top, c),
{
    let ch = input.channels();
    let f = |x: usize, y: usize, c: usize| -> (res: i64)
        requires
            input.wf(),
            x < tw,
            y < th,
            left + tw <= input.spec_width(),
            top + th <= input.spec_height(),
            c < input.spec_channels(),
        ensures
            -SAMPLE_ABS <= res <= SAMPLE_ABS,
            res as int == input.at(x + left, y + top, c as int),
        {
            let w = input.width();
            let h = input.height();
            let ch = input.channels();
            let sx = x + left;
            let sy = y + top;
            proof {
                lemma_idx_fits(w as int, h as int, ch as int, sx as int, sy as int, c as int);
            }
            input.get((sy * w + sx) * ch + c)
        };
    remap(tw, th, ch, f, Ghost(|x: int, y: int, c: int| input.at(x + left, y + top, c)))
}

/// One sample through a white-balance gain in thousandths, saturated
/// at the sample-magnitude bound.
pub open spec fn wb_sample(v: int, g: int) -> int {
    let s = (v * g) / 1000;
    if s > SAMPLE_ABS {
        SAMPLE_ABS as int
    } else if s < -SAMPLE_ABS {
        -SAMPLE_ABS as int
    } else {
        s
    }
}

/// The gain applied to channel `c`.
pub open spec fn wb_gain(c: int, wr: i64, wg: i64, wb: i64) -> int {
    if c == 0 {
        wr as int
    } else if c == 1 {
        wg as int
    } else {
        wb as int
    }
}

/// Scales each channel by its white-balance gain, in thousandths.
pub fn white_balance(input: &PixelBuffer, wr: i64, wg: i64, wb: i64) -> (r: PixelBuffer)
    requires
        input.wf(),
        0 <= wr <= 16000,
        0 <= wg <= 16000,
        0 <= wb <= 16000,
    ensures
        r.wf(),
        r.spec_width() == input.spec_width(),
        r.spec_height() == input.spec_height(),
        r.spec_channels() == input.spec_channels(),
        forall|x: int, y: int, c: int|
            0 <= x < input.spec_width() && 0 <= y < input.spec_height() && 0 <= c
                < input.spec_channels() ==> #[trigger] r.at(x, y, c) == wb_sample(
                input.at(x, y, c),
                wb_gain(c, wr, wg, wb),
            ),
{
    let w = input.width();
    let h = input.height();
    let ch = input.channels();
    let f = |x: usize, y: usize, c: usize| -> (res: i64)
        requires
            input.wf(),
            0 <= wr <= 16000,
            0 <= wg <= 16000,
            0 <= wb <= 16000,
            x < input.spec_width(),
            y < input.spec_height(),
            c < input.spec_channels(),
        ensures
            -SAMPLE_ABS <= res <= SAMPLE_ABS,
            res as int == wb_sample(input.at(x as int, y as int, c as int), wb_gain(c as int, wr, wg, wb)),
        {
            let w = input.width();
            let h = input.height();
            let ch = input.channels();
            proof {
                lemma_idx_fits(w as int, h as int, ch as int, x as int, y as int, c as int);
            }
            let v = input.get((y * w + x) * ch + c);
            let g = if c == 0 {
                wr
            } else if c == 1 {
                wg
            } else {
                wb
            };
            proof {
                assert(-(16_000_000_000_000int) <= (v as int) * (g as int) <= 16_000_000_000_000int)
                    by (nonlinear_arith)
                    requires
                        -1_000_000_000 <= v as int <= 1_000_000_000,
                        0 <= g as int <= 16000,
                ;
            }
            let s = floor_div_i64(v * g, 1000);
            if s > SAMPLE_ABS {
                SAMPLE_ABS
            } else if s < -SAMPLE_ABS {
                -SAMPLE_ABS
            } else {
                s
            }
        };
    remap(
        w,
        h,
        ch,
        f,
        Ghost(
            |x: int, y: int, c: int| wb_sample(input.at(x, y, c), wb_gain(c, wr, wg, wb)),
        ),
    )
}

/// Applies a tone curve to the first channel; other channels pass
/// through unchanged.
pub fn apply_base_curve(input: &PixelBuffer, curve: &CurveFunction) -> (r: PixelBuffer)
    requires
        input.wf(),
        curve.wf(),
    ensures
        r.wf(),
        r.spec_width() == input.spec_width(),
        r.spec_height() == input.spec_height(),
        r.spec_channels() == input.spec_channels(),
        forall|x: int, y: int, c: int|
            0 <= x < input.spec_width() && 0 <= y < input.spec_height() && 0 <= c
                < input.spec_channels() ==> #[trigger] r.at(x, y, c) == (if c == 0 {
                curve_value(curve.pts(), input.at(x, y, 0))
            } else {
                input.at(x, y, c)
            }),
{
    let w = input.width();
    let h = input.height();
    let ch = input.channels();
    let f = |x: usize, y: usize, c: usize| -> (res: i64)
        requires
            input.wf(),
            curve.wf(),
            x < input.spec_width(),
            y < input.spec_height(),
            c < input.spec_channels(),
        ensures
            -SAMPLE_ABS <= res <= SAMPLE_ABS,
            res as int == (if c == 0 {
                curve_value(curve.pts(), input.at(x as int, y as int, 0))
            } else {
                input.at(x as int, y as int, c as int)
            }),
        {
            let w = input.width();
            let h = input.height();
            let ch = input.channels();
            proof {
                lemma_idx_fits(w as int, h as int, ch as int, x as int, y as int, c as int);
            }
            let v = input.get((y * w + x) * ch + c);
            if c == 0 {
                curve.interpolate(v)
            } else {
                v
            }
        };
    remap(
        w,
        h,
        ch,
        f,
        Ghost(
            |x: int, y: int, c: int|
                if c == 0 {
                    curve_value(curve.pts(), input.at(x, y, 0))
                } else {
                    input.at(x, y, c)
                },
        ),
    )
}


/// Clamps a site coordinate at the far edge of the frame.
pub open spec fn site(v: int, lim: int) -> int {
    if v < lim {
        v
    } else {
        lim - 1
    }
}

/// Column within the 2x2 tile holding the red-filtered cell.
pub open spec fn cfa_red_dx(p: CfaPattern) -> int {
    match p {
        CfaPattern::Rggb => 0,
        CfaPattern::Bggr => 1,
        CfaPattern::Grbg => 1,
        CfaPattern::Gbrg => 0,
    }
}

/// Row within the 2x2 tile holding the red-filtered cell.
pub open spec fn cfa_red_dy(p: CfaPattern) -> int {
    match p {
        CfaPattern::Rggb => 0,
        CfaPattern::Bggr => 1,
        CfaPattern::Grbg => 0,
        CfaPattern::Gbrg => 1,
    }
}

/// The horizontally nearest green cell: green cells sit on the odd
/// diagonal of every Bayer tile.
pub open spec fn green_x(x: int, y: int, w: int) -> int {
    if (x + y) % 2 == 1 {
        x
    } else if x + 1 < w {
        x + 1
    } else {
        x - 1
    }
}

/// The vertically nearest green cell.
pub open spec fn green_y(x: int, y: int, h: int) -> int {
    if (x + y) % 2 == 1 {
        y
    } else if y + 1 < h {
        y + 1
    } else {
        y - 1
    }
}

/// The demosaiced sample of channel `c` at `(x, y)`, reading the
/// mosaic through the lookup `m` over a frame of the given shape:
/// red and blue read the tile's red and blue cells (clamped at the
/// far edges); green reads the nearest green cell on the fast path
/// and averages the horizontal and vertical neighbours otherwise.
pub open spec fn demosaic_from(
    m: spec_fn(int, int) -> int,
    w: int,
    h: int,
    p: CfaPattern,
    fast: bool,
    x: int,
    y: int,
    c: int,
) -> int {
    if c == 0 {
        m(site(2 * (x / 2) + cfa_red_dx(p), w), site(2 * (y / 2) + cfa_red_dy(p), h))
    } else if c == 2 {
        m(site(2 * (x / 2) + 1 - cfa_red_dx(p), w), site(2 * (y / 2) + 1 - cfa_red_dy(p), h))
    } else if fast {
        m(green_x(x, y, w), y)
    } else {
        (m(green_x(x, y, w), y) + m(x, green_y(x, y, h))) / 2
    }
}

/// The demosaiced sample of channel `c` at `(x, y)` of a mosaic
/// buffer.
pub open spec fn demosaic_at(b: &PixelBuffer, p: CfaPattern, fast: bool, x: int, y: int, c: int) -> int {
    demosaic_from(
        |xx: int, yy: int| b.at(xx, yy, 0),
        b.spec_width(),
        b.spec_height(),
        p,
        fast,
        x,
        y,
        c,
    )
}


/// Two lookups that agree on the frame give the same demosaiced
/// sample.
pub proof fn lemma_demosaic_from_agrees(
    m1: spec_fn(int, int) -> int,
    m2: spec_fn(int, int) -> int,
    w: int,
    h: int,
    p: CfaPattern,
    fast: bool,
    x: int,
    y: int,
    c: int,
)
    requires
        2 <= w,
        2 <= h,
        0 <= x < w,
        0 <= y < h,
        0 <= c < 3,
        forall|xx: int, yy: int| 0 <= xx < w && 0 <= yy < h ==> #[trigger] m1(xx, yy) == m2(xx, yy),
    ensures
        demosaic_from(m1, w, h, p, fast, x, y, c) == demosaic_from(m2, w, h, p, fast, x, y, c),
{
    vstd::arithmetic::div_mod::lemma_div_pos_is_pos(x, 2);
    vstd::arithmetic::div_mod::lemma_div_pos_is_pos(y, 2);
    assert(0 <= 2 * (x / 2) && 0 <= 2 * (y / 2));
    assert(0 <= site(2 * (x / 2) + cfa_red_dx(p), w) < w);
    assert(0 <= site(2 * (y / 2) + cfa_red_dy(p), h) < h);
    assert(0 <= site(2 * (x / 2) + 1 - cfa_red_dx(p), w) < w);
    assert(0 <= site(2 * (y / 2) + 1 - cfa_red_dy(p), h) < h);
    assert(0 <= green_x(x, y, w) < w);
    assert(0 <= green_y(x, y, h) < h);
}

/// Reconstructs three channels from a single-channel mosaic frame.
#[verifier::rlimit(100)]
pub fn demosaic(input: &PixelBuffer, pattern: CfaPattern, fast: bool) -> (r: PixelBuffer)
    requires
        input.wf(),
        input.spec_channels() == 1,
        input.spec_width() >= 2,
        input.spec_height() >= 2,
    ensures
        r.wf(),
        r.spec_width() == input.spec_width(),
        r.spec_height() == input.spec_height(),
        r.spec_channels() == 3,
        forall|x: int, y: int, c: int|
            0 <= x < input.spec_width() && 0 <= y < input.spec_height() && 0 <= c < 3
                ==> #[trigger] r.at(x, y, c) == demosaic_at(input, pattern, fast, x, y, c),
{
    let w = input.width();
    let h = input.height();
    let f = |x: usize, y: usize, c: usize| -> (res: i64)
        requires
            input.wf(),
            input.spec_channels() == 1,
            input.spec_width() >= 2,
            input.spec_height() >= 2,
            x < input.spec_width(),
            y < input.spec_height(),
            c < 3,
        ensures
            -SAMPLE_ABS <= res <= SAMPLE_ABS,
            res as int == demosaic_at(input, pattern, fast, x as int, y as int, c as int),
        {
            let w = input.width();
            let h = input.height();
            let (rdx, rdy) = match pattern {
                CfaPattern::Rggb => (0usize, 0usize),
                CfaPattern::Bggr => (1usize, 1usize),
                CfaPattern::Grbg => (1usize, 0usize),
                CfaPattern::Gbrg => (0usize, 1usize),
            };
            if c == 0 {
                let sx0 = 2 * (x / 2) + rdx;
                let sy0 = 2 * (y / 2) + rdy;
                let sx = if sx0 < w { sx0 } else { w - 1 };
                let sy = if sy0 < h { sy0 } else { h - 1 };
                proof {
                    lemma_idx_fits(w as int, h as int, 1, sx as int, sy as int, 0);
                }
                input.get(sy * w + sx)
            } else if c == 2 {
                let sx0 = 2 * (x / 2) + (1 - rdx);
                let sy0 = 2 * (y / 2) + (1 - rdy);
                let sx = if sx0 < w { sx0 } else { w - 1 };
                let sy = if sy0 < h { sy0 } else { h - 1 };
                proof {
                    lemma_idx_fits(w as int, h as int, 1, sx as int, sy as int, 0);
                }
                input.get(sy * w + sx)
            } else {
                let gx = if (x + y) % 2 == 1 {
                    x
                } else if x + 1 < w {
                    x + 1
                } else {
                    x - 1
                };
                proof {
                    lemma_idx_fits(w as int, h as int, 1, gx as int, y as int, 0);
                }
                let v1 = input.get(y * w + gx);
                if fast {
                    v1
                } else {
                    let gy = if (x + y) % 2 == 1 {
                        y
                    } else if y + 1 < h {
                        y + 1
                    } else {
                        y - 1
                    };
                    proof {
                        lemma_idx_fits(w as int, h as int, 1, x as int, gy as int, 0);
                    }
                    let v2 = input.get(gy * w + x);
                    let a = floor_div_i64(v1 + v2, 2);
                    proof {
                        vstd::arithmetic::div_mod::lemma_div_is_ordered(
                            (v1 + v2) as int,
                            2_000_000_000,
                            2,
                        );
                        vstd::arithmetic::div_mod::lemma_div_is_ordered(
                            -2_000_000_000,
                            (v1 + v2) as int,
                            2,
                        );
                    }
                    a
                }
            }
        };
    remap(
        w,
        h,
        3,
        f,
        Ghost(|x: int, y: int, c: int| demosaic_at(input, pattern, fast, x, y, c)),
    )
}


/// An ordinate scaled by the exposure factor `2^(e / 1000)`.
pub open spec fn exposure_scaled(y: int, exposure: int) -> int {
    (y * crate::numeric::spec_exp2_milli(exposure)) / 1000
}

/// The exposure pre-scale of the base curve: every ordinate is
/// multiplied by `2^exposure` before the interpolant is built, so a
/// positive exposure lifts the whole curve.  Ordinates stay within
/// the headroom the curve accepts.
pub fn scaled_curve_points(points: &Vec<(i64, i64)>, exposure: i64) -> (r: Vec<(i64, i64)>)
    requires
        -4000 <= exposure <= 4000,
        forall|i: int|
            0 <= i < points@.len() ==> 0 <= (#[trigger] points@[i]).0 <= 1000 && 0 <= points@[i].1
                <= 1000,
    ensures
        r@.len() == points@.len(),
        forall|i: int|
            0 <= i < r@.len() ==> (#[trigger] r@[i]).0 == points@[i].0 && r@[i].1 as int
                == exposure_scaled(points@[i].1 as int, exposure as int),
        forall|i: int| 0 <= i < r@.len() ==> 0 <= (#[trigger] r@[i]).1 <= 16000,
{
    let factor = crate::numeric::exp2_milli(exposure);
    let n = points.len();
    let mut out: Vec<(i64, i64)> = Vec::new();
    let mut i: usize = 0;
    while i < n
        invariant
            0 <= i <= n,
            n == points@.len(),
            out@.len() == i,
            factor as int == crate::numeric::spec_exp2_milli(exposure as int),
            62 <= factor <= 16000,
            forall|j: int|
                0 <= j < points@.len() ==> 0 <= (#[trigger] points@[j]).0 <= 1000 && 0
                    <= points@[j].1 <= 1000,
            forall|j: int|
                0 <= j < i ==> (#[trigger] out@[j]).0 == points@[j].0 && out@[j].1 as int
                    == exposure_scaled(points@[j].1 as int, exposure as int),
            forall|j: int| 0 <= j < i ==> 0 <= (#[trigger] out@[j]).1 <= 16000,
        decreases n - i,
    {
        let (x, y) = points[i];
        proof {
            assert(0 <= y * factor <= 16_000_000) by (nonlinear_arith)
                requires
                    0 <= y <= 1000,
                    0 <= factor <= 16000,
            ;
            crate::numeric::lemma_div_mag((y * factor) as int, 1000);
            vstd::arithmetic::div_mod::lemma_div_is_ordered((y * factor) as int, 16_000_000, 1000);
        }
        let sy = (y * factor) / 1000;
        out.push((x, sy));
        i += 1;
    }
    out
}

} // verus!
