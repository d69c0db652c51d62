//! The staged pipeline from a decoded source to a finished buffer.
//!
//! A source is either raw sensor data (a single-channel mosaic with
//! calibration levels and white balance) or an already-decoded RGB
//! image.  A run normalizes the source to float with integer
//! cropping, demosaics and white-balances raw data, applies the base
//! tone curve, rotates, applies the fractional crop, and downscales
//! to the requested bounds, never upscaling.  The finished buffer is
//! cached under the settings that produced it, so re-running with
//! identical settings recomputes nothing.

use vstd::prelude::*;

use crate::PipeError;
use crate::buffer::DIM_MAX;
use crate::buffer::PixelBuffer;
use crate::curve::CurveFunction;
use crate::curve::input_pts_ok;
use crate::numeric::spec_clamp_unit;
use crate::numeric::clamp_unit;
use crate::numeric::floor_div_i64;
use crate::ops::CfaPattern;
use crate::ops::Rotation;
use crate::ops::apply_base_curve;
use crate::ops::crop_rect;
use crate::ops::demosaic;
use crate::ops::rot_h;
use crate::ops::rot_w;
use crate::ops::scale_to;
use crate::ops::transform_rotate;
use crate::ops::white_balance;
use crate::ops::idx;

verus! {

/// An already-decoded RGB image: row-major, channel-interleaved
/// integer samples up to `max_value`.
pub struct GenericRgb {
    pub width: usize,
    pub height: usize,
    pub max_value: u16,
    pub data: Vec<u16>,
}

/// Raw sensor data: one mosaic sample per pixel, with the filter
/// pattern, calibration levels, white balance, and the orientation
/// recorded by the camera.
pub struct RawSensorData {
    pub width: usize,
    pub height: usize,
    pub data: Vec<u16>,
    pub pattern: CfaPattern,
    pub black_level: u16,
    pub white_level: u16,
    pub wb_red: i64,
    pub wb_green: i64,
    pub wb_blue: i64,
    pub orientation: Rotation,
}

/// What a pipeline consumes: raw sensor data or a decoded image.
pub enum ImageSource {
    Raw(RawSensorData),
    Other(GenericRgb),
}

/// A decoded image the pipeline can accept.
pub open spec fn rgb_ok(img: &GenericRgb) -> bool {
    &&& 1 <= img.width <= DIM_MAX
    &&& 1 <= img.height <= DIM_MAX
    &&& img.max_value >= 1
    &&& img.data@.len() == img.width * img.height * 3
}

/// Raw sensor data the pipeline can accept.
pub open spec fn raw_ok(raw: &RawSensorData) -> bool {
    &&& 2 <= raw.width <= DIM_MAX
    &&& 2 <= raw.height <= DIM_MAX
    &&& raw.data@.len() == raw.width * raw.height
    &&& raw.black_level < raw.white_level
    &&& 0 <= raw.wb_red <= 16000
    &&& 0 <= raw.wb_green <= 16000
    &&& 0 <= raw.wb_blue <= 16000
}

/// A source the pipeline can accept.
pub open spec fn source_ok(src: &ImageSource) -> bool {
    match src {
        ImageSource::Raw(raw) => raw_ok(raw),
        ImageSource::Other(img) => rgb_ok(img),
    }
}

/// Width of the source frame.
pub open spec fn src_width(src: &ImageSource) -> int {
    match src {
        ImageSource::Raw(raw) => raw.width as int,
        ImageSource::Other(img) => img.width as int,
    }
}

/// Height of the source frame.
pub open spec fn src_height(src: &ImageSource) -> int {
    match src {
        ImageSource::Raw(raw) => raw.height as int,
        ImageSource::Other(img) => img.height as int,
    }
}

/// Everything one run honours: downscale bounds (zero meaning
/// unbounded, never upscaling), the cheap execution path, integer
/// crop margins applied before any geometry, fractional crop margins
/// in thousandths applied after rotation, and the rotation itself.
#[derive(Clone, Copy, PartialEq, Eq, Structural, Debug)]
pub struct Settings {
    pub max_width: usize,
    pub max_height: usize,
    pub use_fastpath: bool,
    pub crop_top: usize,
    pub crop_bottom: usize,
    pub crop_left: usize,
    pub crop_right: usize,
    pub rotate_crop_top: i64,
    pub rotate_crop_bottom: i64,
    pub rotate_crop_left: i64,
    pub rotate_crop_right: i64,
    pub rotation: Rotation,
}

impl Default for Settings {
    /// No bounds, no crop, no rotation, full-quality path.
    fn default() -> (r: Self)
        ensures
            r == (Settings {
                max_width: 0usize,
                max_height: 0usize,
                use_fastpath: false,
                crop_top: 0usize,
                crop_bottom: 0usize,
                crop_left: 0usize,
                crop_right: 0usize,
                rotate_crop_top: 0i64,
                rotate_crop_bottom: 0i64,
                rotate_crop_left: 0i64,
                rotate_crop_right: 0i64,
                rotation: Rotation::Normal,
            }),
    {
        Settings {
            max_width: 0,
            max_height: 0,
            use_fastpath: false,
            crop_top: 0,
            crop_bottom: 0,
            crop_left: 0,
            crop_right: 0,
            rotate_crop_top: 0,
            rotate_crop_bottom: 0,
            rotate_crop_left: 0,
            rotate_crop_right: 0,
            rotation: Rotation::Normal,
        }
    }
}

/// `a / b` rounded to the nearest integer, halves rounding up.
pub open spec fn round_div(a: int, b: int) -> int {
    (2 * a + b) / (2 * b)
}

/// How many pixels a fractional crop removes from an axis: the
/// rounded fraction of the whole axis, both margins combined.
pub open spec fn rc_cut(d: int, a: int, b: int) -> int {
    (d * (a + b) + 500) / 1000
}

/// The effective bound for one axis: zero or anything at or above
/// the size means unbounded.
pub open spec fn eff_bound(m: int, d: int) -> int {
    if m == 0 || m > d {
        d
    } else {
        m
    }
}

/// The output shape of the downscale stage: unchanged if within
/// bounds, else bounded on the tighter axis with the other axis
/// scaled to preserve the aspect ratio to within rounding.
pub open spec fn scaled_dims(w: int, h: int, mw: int, mh: int) -> (int, int) {
    let ew = eff_bound(mw, w);
    let eh = eff_bound(mh, h);
    if ew == w && eh == h {
        (w, h)
    } else if ew * h <= eh * w {
        let fh = round_div(h * ew, w);
        (ew, if fh < 1 {
            1
        } else {
            fh
        })
    } else {
        let fw = round_div(w * eh, h);
        ((if fw < 1 {
            1
        } else {
            fw
        }), eh)
    }
}

/// Frame shape after the integer crop.
pub open spec fn cropped_dims(src: &ImageSource, s: &Settings) -> (int, int) {
    (src_width(src) - s.crop_left - s.crop_right, src_height(src) - s.crop_top - s.crop_bottom)
}

/// Frame shape after rotation and the fractional crop.
pub open spec fn viewport_dims(src: &ImageSource, s: &Settings) -> (int, int) {
    let (cw, ch) = cropped_dims(src, s);
    let rw = rot_w(cw, ch, s.rotation);
    let rh = rot_h(cw, ch, s.rotation);
    (rw - rc_cut(rw, s.rotate_crop_left as int, s.rotate_crop_right as int), rh - rc_cut(
        rh,
        s.rotate_crop_top as int,
        s.rotate_crop_bottom as int,
    ))
}

/// The finished frame shape of a run: crop, rotate, fractional crop,
/// then downscale.
pub open spec fn final_dims(src: &ImageSource, s: &Settings) -> (int, int) {
    let (vw, vh) = viewport_dims(src, s);
    scaled_dims(vw, vh, s.max_width as int, s.max_height as int)
}

/// The settings a run accepts against a given source: the integer
/// crop must leave a frame (at least two pixels each way for raw
/// sources, which are demosaiced), and each fractional margin must
/// be a fraction of one, jointly leaving at least a pixel.
pub open spec fn settings_ok(src: &ImageSource, s: &Settings) -> bool {
    let (cw, ch) = cropped_dims(src, s);
    let rw = rot_w(cw, ch, s.rotation);
    let rh = rot_h(cw, ch, s.rotation);
    let lo: int = match src {
        ImageSource::Raw(_) => 2,
        ImageSource::Other(_) => 1,
    };
    &&& cw >= lo
    &&& ch >= lo
    &&& 0 <= s.rotate_crop_top <= 1000
    &&& 0 <= s.rotate_crop_bottom <= 1000
    &&& 0 <= s.rotate_crop_left <= 1000
    &&& 0 <= s.rotate_crop_right <= 1000
    &&& rc_cut(rw, s.rotate_crop_left as int, s.rotate_crop_right as int) < rw
    &&& rc_cut(rh, s.rotate_crop_top as int, s.rotate_crop_bottom as int) < rh
}

/// Downscaling never upscales and never empties an axis: the final
/// shape is between one pixel and the pre-scale shape on both axes.
pub proof fn lemma_never_upscale(w: int, h: int, mw: int, mh: int)
    requires
        1 <= w <= DIM_MAX,
        1 <= h <= DIM_MAX,
        0 <= mw,
        0 <= mh,
    ensures
        1 <= scaled_dims(w, h, mw, mh).0 <= w,
        1 <= scaled_dims(w, h, mw, mh).1 <= h,
{
    let ew = eff_bound(mw, w);
    let eh = eff_bound(mh, h);
    if ew == w && eh == h {
    } else if ew * h <= eh * w {
        let fh = round_div(h * ew, w);
        assert(0 <= 2 * (h * ew) + w) by (nonlinear_arith)
            requires
                1 <= w,
                1 <= h,
                1 <= ew,
        ;
        assert(2 * (h * ew) + w <= h * (2 * w) + 2 * w - 1) by (nonlinear_arith)
            requires
                1 <= w,
                1 <= ew <= w,
                1 <= h,
        ;
        vstd::arithmetic::div_mod::lemma_div_is_ordered(
            2 * (h * ew) + w,
            h * (2 * w) + 2 * w - 1,
            2 * w,
        );
        vstd::arithmetic::div_mod::lemma_fundamental_div_mod(h * (2 * w) + 2 * w - 1, 2 * w);
        vstd::arithmetic::div_mod::lemma_mod_bound(h * (2 * w) + 2 * w - 1, 2 * w);
        assert((h * (2 * w) + 2 * w - 1) / (2 * w) == h) by (nonlinear_arith)
            requires
                1 <= w,
                1 <= h,
                h * (2 * w) + 2 * w - 1 == (2 * w) * ((h * (2 * w) + 2 * w - 1) / (2 * w)) + (h * (2
                    * w) + 2 * w - 1) % (2 * w),
                0 <= (h * (2 * w) + 2 * w - 1) % (2 * w) < 2 * w,
        ;
    } else {
        let fw = round_div(w * eh, h);
        assert(0 <= 2 * (w * eh) + h) by (nonlinear_arith)
            requires
                1 <= w,
                1 <= h,
                1 <= eh,
        ;
        assert(2 * (w * eh) + h <= w * (2 * h) + 2 * h - 1) by (nonlinear_arith)
            requires
                1 <= h,
                1 <= eh <= h,
                1 <= w,
        ;
        vstd::arithmetic::div_mod::lemma_div_is_ordered(
            2 * (w * eh) + h,
            w * (2 * h) + 2 * h - 1,
            2 * h,
        );
        vstd::arithmetic::div_mod::lemma_fundamental_div_mod(w * (2 * h) + 2 * h - 1, 2 * h);
        vstd::arithmetic::div_mod::lemma_mod_bound(w * (2 * h) + 2 * h - 1, 2 * h);
        assert((w * (2 * h) + 2 * h - 1) / (2 * h) == w) by (nonlinear_arith)
            requires
                1 <= h,
                1 <= w,
                w * (2 * h) + 2 * h - 1 == (2 * h) * ((w * (2 * h) + 2 * h - 1) / (2 * h)) + (w * (2
                    * h) + 2 * h - 1) % (2 * h),
                0 <= (w * (2 * h) + 2 * h - 1) % (2 * h) < 2 * h,
        ;
    }
}

/// The finished shape of a run does not depend on the execution
/// path: two settings that differ only in `use_fastpath` produce the
/// same shape.
pub proof fn lemma_dims_ignore_fastpath(src: &ImageSource, a: &Settings, b: &Settings)
    requires
        a.max_width == b.max_width,
        a.max_height == b.max_height,
        a.crop_top == b.crop_top,
        a.crop_bottom == b.crop_bottom,
        a.crop_left == b.crop_left,
        a.crop_right == b.crop_right,
        a.rotate_crop_top == b.rotate_crop_top,
        a.rotate_crop_bottom == b.rotate_crop_bottom,
        a.rotate_crop_left == b.rotate_crop_left,
        a.rotate_crop_right == b.rotate_crop_right,
        a.rotation == b.rotation,
    ensures
        final_dims(src, a) == final_dims(src, b),
        settings_ok(src, a) == settings_ok(src, b),
{
}


/// A decoded RGB sample normalized to thousandths of its bit depth.
pub open spec fn rgb_norm(img: &GenericRgb, x: int, y: int, c: int) -> int {
    (img.data@[idx(img.width as int, 3, x, y, c)] * 1000) / (img.max_value as int)
}

/// A raw sensor sample normalized to thousandths of the calibrated
/// black-to-white range; values below black come out negative.
pub open spec fn raw_norm(raw: &RawSensorData, x: int, y: int) -> int {
    ((raw.data@[y * (raw.width as int) + x] - raw.black_level) * 1000) / (
    raw.white_level - raw.black_level)
}

/// Converts a decoded image to float samples, cutting the rectangle
/// of shape `tw` by `th` at `(left, top)`.
fn go_float_rgb(img: &GenericRgb, left: usize, top: usize, tw: usize, th: usize) -> (r: PixelBuffer)
    requires
        rgb_ok(img),
        1 <= tw,
        1 <= th,
        left + tw <= img.width,
        top + th <= img.height,
    ensures
        r.wf(),
        r.spec_width() == tw,
        r.spec_height() == th,
        r.spec_channels() == 3,
        forall|x: int, y: int, c: int|
            0 <= x < tw && 0 <= y < th && 0 <= c < 3 ==> #[trigger] r.at(x, y, c) == rgb_norm(
                img,
                x + left,
                y + top,
                c,
            ),
{
    let f = |x: usize, y: usize, c: usize| -> (res: i64)
        requires
            rgb_ok(img),
            x < tw,
            y < th,
            c < 3,
            left + tw <= img.width,
            top + th <= img.height,
        ensures
            0 <= res <= 66_000_000,
            res as int == rgb_norm(img, x + left, y + top, c as int),
        {
            let w = img.width;
            let h = img.height;
            let sx = x + left;
            let sy = y + top;
            proof {
                crate::ops::lemma_idx_fits(w as int, h as int, 3, sx as int, sy as int, c as int);
            }
            let v = img.data[(sy * w + sx) * 3 + c] as i64;
            let n = v * 1000 / (img.max_value as i64);
            proof {
                crate::numeric::lemma_div_mag((v * 1000) as int, img.max_value as int);
            }
            n
        };
    crate::ops::remap(tw, th, 3, f, Ghost(|x: int, y: int, c: int| rgb_norm(img, x + left, y + top, c)))
}

/// Converts raw sensor data to float samples, cutting the rectangle
/// of shape `tw` by `th` at `(left, top)`.
fn go_float_raw(raw: &RawSensorData, left: usize, top: usize, tw: usize, th: usize) -> (r:
    PixelBuffer)
    requires
        raw_ok(raw),
        1 <= tw,
        1 <= th,
        left + tw <= raw.width,
        top + th <= raw.height,
    ensures
        r.wf(),
        r.spec_width() == tw,
        r.spec_height() == th,
        r.spec_channels() == 1,
        forall|x: int, y: int, c: int|
            0 <= x < tw && 0 <= y < th && 0 <= c < 1 ==> #[trigger] r.at(x, y, c) == raw_norm(
                raw,
                x + left,
                y + top,
            ),
{
    let f = |x: usize, y: usize, c: usize| -> (res: i64)
        requires
            raw_ok(raw),
            x < tw,
            y < th,
            c < 1,
            left + tw <= raw.width,
            top + th <= raw.height,
        ensures
            -66_000_000 <= res <= 66_000_000,
            res as int == raw_norm(raw, x + left, y + top),
        {
            let w = raw.width;
            let h = raw.height;
            let sx = x + left;
            let sy = y + top;
            proof {
                crate::ops::lemma_idx_fits(w as int, h as int, 1, sx as int, sy as int, 0);
            }
            let v = raw.data[sy * w + sx] as i64;
            let d = raw.white_level as i64 - raw.black_level as i64;
            let n = floor_div_i64((v - raw.black_level as i64) * 1000, d);
            proof {
                crate::numeric::lemma_div_mag(
                    ((v - raw.black_level as i64) * 1000) as int,
                    d as int,
                );
            }
            n
        };
    crate::ops::remap(tw, th, 1, f, Ghost(|x: int, y: int, c: int| raw_norm(raw, x + left, y + top)))
}

/// An 8-bit sample quantized from a float sample: clamped to the
/// unit range and rounded to 255ths.
pub open spec fn spec_q8(v: int) -> int {
    (spec_clamp_unit(v) * 255 + 500) / 1000
}

/// A 16-bit sample quantized from a float sample.
pub open spec fn spec_q16(v: int) -> int {
    (spec_clamp_unit(v) * 65535 + 500) / 1000
}

/// A finished frame quantized to 8 bits per sample.
pub struct Image8 {
    pub width: usize,
    pub height: usize,
    pub data: Vec<u8>,
}

/// A finished frame quantized to 16 bits per sample.
pub struct Image16 {
    pub width: usize,
    pub height: usize,
    pub data: Vec<u16>,
}

/// Quantizes every sample to 8 bits.
fn quantize8(buf: &PixelBuffer) -> (r: Vec<u8>)
    requires
        buf.wf(),
    ensures
        r@.len() == buf.samples().len(),
        forall|i: int| 0 <= i < r@.len() ==> (#[trigger] r@[i]) as int == spec_q8(
            buf.samples()[i] as int,
        ),
{
    let total = buf.len();
    let mut out: Vec<u8> = Vec::new();
    let mut i: usize = 0;
    while i < total
        invariant
            buf.wf(),
            total == buf.samples().len(),
            0 <= i <= total,
            out@.len() == i,
            forall|j: int| 0 <= j < i ==> (#[trigger] out@[j]) as int == spec_q8(
                buf.samples()[j] as int,
            ),
        decreases total - i,
    {
        let v = clamp_unit(buf.get(i));
        let q = ((v * 255 + 500) / 1000) as u8;
        out.push(q);
        i += 1;
    }
    out
}

/// Quantizes every sample to 16 bits.
fn quantize16(buf: &PixelBuffer) -> (r: Vec<u16>)
    requires
        buf.wf(),
    ensures
        r@.len() == buf.samples().len(),
        forall|i: int| 0 <= i < r@.len() ==> (#[trigger] r@[i]) as int == spec_q16(
            buf.samples()[i] as int,
        ),
{
    let total = buf.len();
    let mut out: Vec<u16> = Vec::new();
    let mut i: usize = 0;
    while i < total
        invariant
            buf.wf(),
            total == buf.samples().len(),
            0 <= i <= total,
            out@.len() == i,
            forall|j: int| 0 <= j < i ==> (#[trigger] out@[j]) as int == spec_q16(
                buf.samples()[j] as int,
            ),
        decreases total - i,
    {
        let v = clamp_unit(buf.get(i));
        let q = ((v * 65535 + 500) / 1000) as u16;
        out.push(q);
        i += 1;
    }
    out
}

/// Checks a settings value against the source, mirroring
/// [`settings_ok`] without overflowing.
fn validate_settings(src: &ImageSource, s: &Settings) -> (b: bool)
    requires
        source_ok(src),
    ensures
        b == settings_ok(src, s),
{
    let (w0, h0) = match src {
        ImageSource::Raw(raw) => (raw.width, raw.height),
        ImageSource::Other(img) => (img.width, img.height),
    };
    let lo: usize = match src {
        ImageSource::Raw(_) => 2,
        ImageSource::Other(_) => 1,
    };
    if s.crop_left > w0 || s.crop_right > w0 - s.crop_left {
        return false;
    }
    let cw = w0 - s.crop_left - s.crop_right;
    if s.crop_top > h0 || s.crop_bottom > h0 - s.crop_top {
        return false;
    }
    let ch = h0 - s.crop_top - s.crop_bottom;
    if cw < lo || ch < lo {
        return false;
    }
    if !(0 <= s.rotate_crop_top && s.rotate_crop_top <= 1000 && 0 <= s.rotate_crop_bottom
        && s.rotate_crop_bottom <= 1000 && 0 <= s.rotate_crop_left && s.rotate_crop_left <= 1000 && 0
        <= s.rotate_crop_right && s.rotate_crop_right <= 1000) {
        return false;
    }
    let (rw, rh) = match s.rotation {
        Rotation::Normal => (cw, ch),
        Rotation::Rotate180 => (cw, ch),
        Rotation::Rotate90 => (ch, cw),
        Rotation::Rotate270 => (ch, cw),
    };
    proof {
        assert(0 <= (rw as i64) * (s.rotate_crop_left + s.rotate_crop_right) <= 33_000_000
            && 0 <= (rh as i64) * (s.rotate_crop_top + s.rotate_crop_bottom) <= 33_000_000)
            by (nonlinear_arith)
            requires
                0 <= rw <= 16384,
                0 <= rh <= 16384,
                0 <= s.rotate_crop_left + s.rotate_crop_right <= 2000,
                0 <= s.rotate_crop_top + s.rotate_crop_bottom <= 2000,
        ;
    }
    let cut_w = ((rw as i64) * (s.rotate_crop_left + s.rotate_crop_right) + 500) / 1000;
    let cut_h = ((rh as i64) * (s.rotate_crop_top + s.rotate_crop_bottom) + 500) / 1000;
    cut_w < rw as i64 && cut_h < rh as i64
}

/// The staged pipeline: a source, the fixed operator chain, and a
/// cache of the most recent finished buffer, keyed by the settings
/// that produced it.
pub struct Pipeline {
    source: ImageSource,
    cache: Option<(Settings, PixelBuffer)>,
}

impl Pipeline {
    /// The source the pipeline owns.
    pub closed spec fn spec_source(&self) -> &ImageSource {
        &self.source
    }

    /// Whether a finished buffer is cached for exactly these settings.
    pub closed spec fn has_result_for(&self, s: Settings) -> bool {
        match self.cache {
            Some((cs, _)) => cs == s,
            None => false,
        }
    }

    /// The source is acceptable and any cached buffer matches the
    /// settings it is filed under.
    pub closed spec fn wf(&self) -> bool {
        &&& source_ok(&self.source)
        &&& match self.cache {
            Some((cs, buf)) => {
                &&& settings_ok(&self.source, &cs)
                &&& buf.wf()
                &&& buf.spec_channels() == 3
                &&& buf.spec_width() == final_dims(&self.source, &cs).0
                &&& buf.spec_height() == final_dims(&self.source, &cs).1
                &&& match self.source {
                    ImageSource::Other(img) => forall|x: int, y: int, c: int|
                        0 <= x < buf.spec_width() && 0 <= y < buf.spec_height() && 0 <= c < 3
                            ==> #[trigger] buf.at(x, y, c) == other_sample(&img, &cs, x, y, c),
                    ImageSource::Raw(raw) => forall|x: int, y: int, c: int|
                        0 <= x < buf.spec_width() && 0 <= y < buf.spec_height() && 0 <= c < 3
                            ==> #[trigger] buf.at(x, y, c) == raw_sample(&raw, &cs, x, y, c),
                }
            },
            None => true,
        }
    }

    /// Takes ownership of a source after checking it.  An empty
    /// calibration or sample range is an `UnsupportedColorDepth`;
    /// any other rejection is a shape mismatch, a `DecodeFailure`.
    pub fn new_from_source(source: ImageSource) -> (r: Result<Pipeline, PipeError>)
        ensures
            r is Ok <==> source_ok(&source),
            match r {
                Ok(p) => {
                    &&& p.wf()
                    &&& *p.spec_source() == source
                    &&& (forall|cs: Settings| !p.has_result_for(cs))
                },
                Err(e) => {
                    &&& (e == PipeError::UnsupportedColorDepth <==> match source {
                        ImageSource::Raw(raw) => raw.white_level <= raw.black_level,
                        ImageSource::Other(img) => img.max_value == 0,
                    })
                    &&& (e == PipeError::DecodeFailure || e == PipeError::UnsupportedColorDepth)
                },
            },
    {
        match &source {
            ImageSource::Raw(raw) => {
                if !(raw.white_level > raw.black_level) {
                    return Err(PipeError::UnsupportedColorDepth);
                }
                if !(2 <= raw.width && raw.width <= DIM_MAX && 2 <= raw.height && raw.height
                    <= DIM_MAX) {
                    return Err(PipeError::DecodeFailure);
                }
                proof {
                    assert(raw.width * raw.height <= 16384 * 16384) by (nonlinear_arith)
                        requires
                            raw.width <= 16384,
                            raw.height <= 16384,
                    ;
                }
                if !(raw.data.len() == raw.width * raw.height && 0 <= raw.wb_red && raw.wb_red
                    <= 16000 && 0 <= raw.wb_green && raw.wb_green <= 16000 && 0 <= raw.wb_blue
                    && raw.wb_blue <= 16000) {
                    return Err(PipeError::DecodeFailure);
                }
            },
            ImageSource::Other(img) => {
                if !(img.max_value >= 1) {
                    return Err(PipeError::UnsupportedColorDepth);
                }
                if !(1 <= img.width && img.width <= DIM_MAX && 1 <= img.height && img.height
                    <= DIM_MAX) {
                    return Err(PipeError::DecodeFailure);
                }
                proof {
                    assert(img.width * img.height * 3 <= 16384int * 16384 * 3) by (nonlinear_arith)
                        requires
                            1 <= img.width <= 16384,
                            1 <= img.height <= 16384,
                    ;
                }
                if !(img.data.len() == img.width * img.height * 3) {
                    return Err(PipeError::DecodeFailure);
                }
            },
        };
        Ok(Pipeline { source, cache: None })
    }

    /// Executes the operator chain for these settings and caches the
    /// finished buffer.  Settings the source cannot honour are
    /// rejected as `DimensionLimitExceeded`; a cached result for the
    /// same settings short-circuits the whole computation.
    pub fn run(&mut self, s: &Settings) -> (r: Result<(), PipeError>)
        requires
            old(self).wf(),
        ensures
            final (self).wf(),
            final (self).spec_source() == old(self).spec_source(),
            r is Ok <==> settings_ok(old(self).spec_source(), s),
            r is Ok ==> final (self).has_result_for(*s),
            r is Err ==> r == Err::<(), PipeError>(PipeError::DimensionLimitExceeded),
    {
        if !validate_settings(&self.source, s) {
            return Err(PipeError::DimensionLimitExceeded);
        }
        match &self.cache {
            Some((cs, _)) => {
                if *cs == *s {
                    return Ok(());
                }
            },
            None => {},
        }
        let buf = compute(&self.source, s);
        self.cache = Some((*s, buf));
        Ok(())
    }

    /// The finished frame quantized to 8 bits, computing it first if
    /// these settings are not already cached.
    pub fn output_8bit(&mut self, s: &Settings) -> (r: Result<Image8, PipeError>)
        requires
            old(self).wf(),
        ensures
            final (self).wf(),
            final (self).spec_source() == old(self).spec_source(),
            r is Ok <==> settings_ok(old(self).spec_source(), s),
            match r {
                Ok(out) => {
                    &&& out.width as int == final_dims(old(self).spec_source(), s).0
                    &&& out.height as int == final_dims(old(self).spec_source(), s).1
                    &&& out.data@.len() == out.width * out.height * 3
                    &&& match old(self).spec_source() {
                        ImageSource::Other(img) => forall|x: int, y: int, c: int|
                            0 <= x < out.width && 0 <= y < out.height && 0 <= c < 3
                                ==> #[trigger] out.data@[idx(out.width as int, 3, x, y, c)] as int
                                == spec_q8(other_sample(img, s, x, y, c)),
                        ImageSource::Raw(raw) => forall|x: int, y: int, c: int|
                            0 <= x < out.width && 0 <= y < out.height && 0 <= c < 3
                                ==> #[trigger] out.data@[idx(out.width as int, 3, x, y, c)] as int
                                == spec_q8(raw_sample(raw, s, x, y, c)),
                    }
                },
                Err(e) => e == PipeError::DimensionLimitExceeded,
            },
    {
        match self.run(s) {
            Err(e) => Err(e),
            Ok(()) => {
                match &self.cache {
                    Some((cs, buf)) => {
                        let data = quantize8(buf);
                        proof {
                            let w = buf.spec_width();
                            let h = buf.spec_height();
                            assert forall|x: int, y: int, c: int|
                                0 <= x < w && 0 <= y < h && 0 <= c < 3 implies #[trigger] data@[idx(
                                w,
                                3,
                                x,
                                y,
                                c,
                            )] as int == spec_q8(buf.at(x, y, c)) by {
                                crate::ops::lemma_idx_fits(w, h, 3, x, y, c);
                            }
                        }
                        Ok(Image8 { width: buf.width(), height: buf.height(), data })
                    },
                    None => {
                        proof {
                            assert(false);
                        }
                        Err(PipeError::DimensionLimitExceeded)
                    },
                }
            },
        }
    }

    /// The finished frame quantized to 16 bits, computing it first if
    /// these settings are not already cached.
    pub fn output_16bit(&mut self, s: &Settings) -> (r: Result<Image16, PipeError>)
        requires
            old(self).wf(),
        ensures
            final (self).wf(),
            final (self).spec_source() == old(self).spec_source(),
            r is Ok <==> settings_ok(old(self).spec_source(), s),
            match r {
                Ok(out) => {
                    &&& out.width as int == final_dims(old(self).spec_source(), s).0
                    &&& out.height as int == final_dims(old(self).spec_source(), s).1
                    &&& out.data@.len() == out.width * out.height * 3
                    &&& match old(self).spec_source() {
                        ImageSource::Other(img) => forall|x: int, y: int, c: int|
                            0 <= x < out.width && 0 <= y < out.height && 0 <= c < 3
                                ==> #[trigger] out.data@[idx(out.width as int, 3, x, y, c)] as int
                                == spec_q16(other_sample(img, s, x, y, c)),
                        ImageSource::Raw(raw) => forall|x: int, y: int, c: int|
                            0 <= x < out.width && 0 <= y < out.height && 0 <= c < 3
                                ==> #[trigger] out.data@[idx(out.width as int, 3, x, y, c)] as int
                                == spec_q16(raw_sample(raw, s, x, y, c)),
                    }
                },
                Err(e) => e == PipeError::DimensionLimitExceeded,
            },
    {
        match self.run(s) {
            Err(e) => Err(e),
            Ok(()) => {
                match &self.cache {
                    Some((cs, buf)) => {
                        let data = quantize16(buf);
                        proof {
                            let w = buf.spec_width();
                            let h = buf.spec_height();
                            assert forall|x: int, y: int, c: int|
                                0 <= x < w && 0 <= y < h && 0 <= c < 3 implies #[trigger] data@[idx(
                                w,
                                3,
                                x,
                                y,
                                c,
                            )] as int == spec_q16(buf.at(x, y, c)) by {
                                crate::ops::lemma_idx_fits(w, h, 3, x, y, c);
                            }
                        }
                        Ok(Image16 { width: buf.width(), height: buf.height(), data })
                    },
                    None => {
                        proof {
                            assert(false);
                        }
                        Err(PipeError::DimensionLimitExceeded)
                    },
                }
            },
        }
    }
}


/// The finished sample of a run over a decoded image, before output
/// quantization: the output coordinate is scaled up into the
/// viewport, offset by the fractional crop, mapped back through the
/// rotation, offset by the integer crop, and read from the source,
/// normalized to thousandths.
pub open spec fn other_sample(img: &GenericRgb, s: &Settings, x: int, y: int, c: int) -> int {
    let cw = img.width - s.crop_left - s.crop_right;
    let ch = img.height - s.crop_top - s.crop_bottom;
    let rw = rot_w(cw, ch, s.rotation);
    let rh = rot_h(cw, ch, s.rotation);
    let vw = rw - rc_cut(rw, s.rotate_crop_left as int, s.rotate_crop_right as int);
    let vh = rh - rc_cut(rh, s.rotate_crop_top as int, s.rotate_crop_bottom as int);
    let dims = scaled_dims(vw, vh, s.max_width as int, s.max_height as int);
    let vx = crate::ops::scale_src(x, vw, dims.0) + (rw * s.rotate_crop_left) / 1000;
    let vy = crate::ops::scale_src(y, vh, dims.1) + (rh * s.rotate_crop_top) / 1000;
    let sx = crate::ops::rot_src_x(s.rotation, vx, vy, cw, ch);
    let sy = crate::ops::rot_src_y(s.rotation, vx, vy, cw, ch);
    rgb_norm(img, sx + s.crop_left, sy + s.crop_top, c)
}


/// The control points the raw base curve interpolates.
pub open spec fn raw_base_curve_pts() -> Seq<(i64, i64)> {
    crate::curve::spec_normalize(seq![(500i64, 600i64)])
}

/// The finished flat sample of the raw chain at `(x, y, c)` of the
/// cropped frame: the normalized mosaic is demosaiced, white
/// balanced, and tone-curved on the first channel.
pub open spec fn raw_flat_sample(raw: &RawSensorData, s: &Settings, x: int, y: int, c: int) -> int {
    let cw = raw.width - s.crop_left - s.crop_right;
    let ch = raw.height - s.crop_top - s.crop_bottom;
    let d = crate::ops::demosaic_from(
        |xx: int, yy: int| raw_norm(raw, xx + s.crop_left, yy + s.crop_top),
        cw,
        ch,
        raw.pattern,
        s.use_fastpath,
        x,
        y,
        c,
    );
    let b = crate::ops::wb_sample(
        d,
        crate::ops::wb_gain(c, raw.wb_red, raw.wb_green, raw.wb_blue),
    );
    if c == 0 {
        crate::curve::curve_value(
            raw_base_curve_pts(),
            crate::ops::wb_sample(
                crate::ops::demosaic_from(
                    |xx: int, yy: int| raw_norm(raw, xx + s.crop_left, yy + s.crop_top),
                    cw,
                    ch,
                    raw.pattern,
                    s.use_fastpath,
                    x,
                    y,
                    0,
                ),
                crate::ops::wb_gain(0, raw.wb_red, raw.wb_green, raw.wb_blue),
            ),
        )
    } else {
        b
    }
}

/// The finished sample of a run over raw sensor data, before output
/// quantization: the raw chain's flat frame followed by the same
/// geometry as a decoded image.
pub open spec fn raw_sample(raw: &RawSensorData, s: &Settings, x: int, y: int, c: int) -> int {
    let cw = raw.width - s.crop_left - s.crop_right;
    let ch = raw.height - s.crop_top - s.crop_bottom;
    let rw = rot_w(cw, ch, s.rotation);
    let rh = rot_h(cw, ch, s.rotation);
    let vw = rw - rc_cut(rw, s.rotate_crop_left as int, s.rotate_crop_right as int);
    let vh = rh - rc_cut(rh, s.rotate_crop_top as int, s.rotate_crop_bottom as int);
    let dims = scaled_dims(vw, vh, s.max_width as int, s.max_height as int);
    let vx = crate::ops::scale_src(x, vw, dims.0) + (rw * s.rotate_crop_left) / 1000;
    let vy = crate::ops::scale_src(y, vh, dims.1) + (rh * s.rotate_crop_top) / 1000;
    let sx = crate::ops::rot_src_x(s.rotation, vx, vy, cw, ch);
    let sy = crate::ops::rot_src_y(s.rotation, vx, vy, cw, ch);
    raw_flat_sample(raw, s, sx, sy, c)
}

/// Runs the whole operator chain once: normalize and crop, demosaic
/// and white-balance raw data, tone-curve the first channel of raw
/// frames, rotate, apply the fractional crop, and downscale.
#[verifier::rlimit(100)]
fn compute(src: &ImageSource, s: &Settings) -> (r: PixelBuffer)
    requires
        source_ok(src),
        settings_ok(src, s),
    ensures
        r.wf(),
        r.spec_channels() == 3,
        r.spec_width() == final_dims(src, s).0,
        r.spec_height() == final_dims(src, s).1,
        match src {
            ImageSource::Other(img) => forall|x: int, y: int, c: int|
                0 <= x < r.spec_width() && 0 <= y < r.spec_height() && 0 <= c < 3
                    ==> #[trigger] r.at(x, y, c) == other_sample(img, s, x, y, c),
            ImageSource::Raw(raw) => forall|x: int, y: int, c: int|
                0 <= x < r.spec_width() && 0 <= y < r.spec_height() && 0 <= c < 3
                    ==> #[trigger] r.at(x, y, c) == raw_sample(raw, s, x, y, c),
        },
{
    let (w0, h0) = match src {
        ImageSource::Raw(raw) => (raw.width, raw.height),
        ImageSource::Other(img) => (img.width, img.height),
    };
    let cw = w0 - s.crop_left - s.crop_right;
    let ch = h0 - s.crop_top - s.crop_bottom;
    let flat = match src {
        ImageSource::Raw(raw) => {
            let mosaic = go_float_raw(raw, s.crop_left, s.crop_top, cw, ch);
            let rgb = demosaic(&mosaic, raw.pattern, s.use_fastpath);
            let balanced = white_balance(&rgb, raw.wb_red, raw.wb_green, raw.wb_blue);
            let mut pts: Vec<(i64, i64)> = Vec::new();
            pts.push((500i64, 600i64));
            proof {
                assert(crate::curve::spec_normalize(pts@).len() == 3);
                assert(input_pts_ok(pts@));
            }
            let curve = CurveFunction::new(pts.as_slice());
            let curved = apply_base_curve(&balanced, &curve);
            proof {
                assert(pts@ =~= seq![(500i64, 600i64)]);
                assert(curve.pts() == raw_base_curve_pts());
                let look_m = |xx: int, yy: int| mosaic.at(xx, yy, 0);
                let look_s = |xx: int, yy: int| raw_norm(raw, xx + s.crop_left, yy + s.crop_top);
                assert forall|x: int, y: int, c: int|
                    0 <= x < cw && 0 <= y < ch && 0 <= c < 3 implies #[trigger] curved.at(x, y, c)
                    == raw_flat_sample(raw, s, x, y, c) by {
                    assert(forall|xx: int, yy: int|
                        0 <= xx < cw && 0 <= yy < ch ==> #[trigger] look_m(xx, yy) == look_s(
                            xx,
                            yy,
                        ));
                    crate::ops::lemma_demosaic_from_agrees(
                        look_m,
                        look_s,
                        cw as int,
                        ch as int,
                        raw.pattern,
                        s.use_fastpath,
                        x,
                        y,
                        c,
                    );
                    assert(crate::ops::demosaic_at(&mosaic, raw.pattern, s.use_fastpath, x, y, c)
                        == crate::ops::demosaic_from(
                        look_s,
                        cw as int,
                        ch as int,
                        raw.pattern,
                        s.use_fastpath,
                        x,
                        y,
                        c,
                    ));
                    if c == 0 {
                        crate::ops::lemma_demosaic_from_agrees(
                            look_m,
                            look_s,
                            cw as int,
                            ch as int,
                            raw.pattern,
                            s.use_fastpath,
                            x,
                            y,
                            0,
                        );
                    }
                }
            }
            curved
        },
        ImageSource::Other(img) => {
            // The base curve is empty for decoded images and the
            // exposure is zero, so that stage is skipped entirely.
            go_float_rgb(img, s.crop_left, s.crop_top, cw, ch)
        },
    };
    let rotated = transform_rotate(&flat, s.rotation);
    let rw = rotated.width();
    let rh = rotated.height();
    proof {
        assert(0 <= (rw as i64) * (s.rotate_crop_left + s.rotate_crop_right) <= 33_000_000 && 0 <= (
        rh as i64) * (s.rotate_crop_top + s.rotate_crop_bottom) <= 33_000_000 && 0 <= (rw as i64)
            * s.rotate_crop_left <= 16_400_000 && 0 <= (rh as i64) * s.rotate_crop_top
            <= 16_400_000) by (nonlinear_arith)
            requires
                0 <= rw <= 16384,
                0 <= rh <= 16384,
                0 <= s.rotate_crop_left <= 1000,
                0 <= s.rotate_crop_right <= 1000,
                0 <= s.rotate_crop_top <= 1000,
                0 <= s.rotate_crop_bottom <= 1000,
        ;
    }
    let cut_w = (((rw as i64) * (s.rotate_crop_left + s.rotate_crop_right) + 500) / 1000) as usize;
    let cut_h = (((rh as i64) * (s.rotate_crop_top + s.rotate_crop_bottom) + 500) / 1000) as usize;
    let off_l = (((rw as i64) * s.rotate_crop_left) / 1000) as usize;
    let off_t = (((rh as i64) * s.rotate_crop_top) / 1000) as usize;
    let vw = rw - cut_w;
    let vh = rh - cut_h;
    proof {
        lemma_rc_offsets(rw as int, s.rotate_crop_left as int, s.rotate_crop_right as int);
        lemma_rc_offsets(rh as int, s.rotate_crop_top as int, s.rotate_crop_bottom as int);
    }
    let viewport = crop_rect(&rotated, off_l, off_t, vw, vh);
    let ew = if s.max_width == 0 || s.max_width > vw {
        vw
    } else {
        s.max_width
    };
    let eh = if s.max_height == 0 || s.max_height > vh {
        vh
    } else {
        s.max_height
    };
    proof {
        lemma_never_upscale(vw as int, vh as int, s.max_width as int, s.max_height as int);
        crate::ops::lemma_idx_fits(vw as int, vh as int, 1, 0, 0, 0);
    }
    proof {
        assert(ew * vh <= 16384 * 16384 && eh * vw <= 16384 * 16384 && vh * ew <= 16384 * 16384
            && vw * eh <= 16384 * 16384 && 2 * (vh * ew) + vw <= 16384int * 16384 * 2 + 16384 && 2
            * (vw * eh) + vh <= 16384int * 16384 * 2 + 16384) by (nonlinear_arith)
            requires
                0 <= ew <= 16384,
                0 <= eh <= 16384,
                0 <= vw <= 16384,
                0 <= vh <= 16384,
        ;
    }
    let ghost gview = viewport;
    let result = if ew == vw && eh == vh {
        viewport
    } else if ew * vh <= eh * vw {
        let fh0 = (2 * (vh * ew) + vw) / (2 * vw);
        let fh = if fh0 < 1 {
            1
        } else {
            fh0
        };
        scale_to(&viewport, ew, fh)
    } else {
        let fw0 = (2 * (vw * eh) + vh) / (2 * vh);
        let fw = if fw0 < 1 {
            1
        } else {
            fw0
        };
        scale_to(&viewport, fw, eh)
    };
    proof {
        match src {
            ImageSource::Other(img) => {
                let cwi = cw as int;
                let chi = ch as int;
                let rwi = rw as int;
                let rhi = rh as int;
                let vwi = vw as int;
                let vhi = vh as int;
                let fd = final_dims(src, s);
                let oli = off_l as int;
                let oti = off_t as int;
                assert forall|x: int, y: int, c: int|
                    0 <= x < result.spec_width() && 0 <= y < result.spec_height() && 0 <= c
                        < 3 implies #[trigger] result.at(x, y, c) == other_sample(
                    img,
                    s,
                    x,
                    y,
                    c,
                ) by {
                    let vx = crate::ops::scale_src(x, vwi, fd.0);
                    let vy = crate::ops::scale_src(y, vhi, fd.1);
                    crate::ops::lemma_scale_src_in_range(x, vwi, fd.0);
                    crate::ops::lemma_scale_src_in_range(y, vhi, fd.1);
                    if ew == vw && eh == vh {
                        vstd::arithmetic::div_mod::lemma_div_by_multiple(x, vwi);
                        vstd::arithmetic::div_mod::lemma_div_by_multiple(y, vhi);
                        assert(vx == x && vy == y);
                        assert(result.at(x, y, c) == gview.at(vx, vy, c));
                    } else {
                        assert(result.at(x, y, c) == gview.at(vx, vy, c));
                    }
                    assert(gview.at(vx, vy, c) == rotated.at(vx + oli, vy + oti, c));
                    let rx = vx + oli;
                    let ry = vy + oti;
                    crate::ops::lemma_rot_src_in_range(s.rotation, rx, ry, cwi, chi);
                    let sx = crate::ops::rot_src_x(s.rotation, rx, ry, cwi, chi);
                    let sy = crate::ops::rot_src_y(s.rotation, rx, ry, cwi, chi);
                    assert(rotated.at(rx, ry, c) == flat.at(sx, sy, c));
                    assert(flat.at(sx, sy, c) == rgb_norm(
                        img,
                        sx + s.crop_left,
                        sy + s.crop_top,
                        c,
                    ));
                }
            },
            ImageSource::Raw(raw) => {
                let cwi = cw as int;
                let chi = ch as int;
                let vwi = vw as int;
                let vhi = vh as int;
                let fd = final_dims(src, s);
                let oli = off_l as int;
                let oti = off_t as int;
                assert forall|x: int, y: int, c: int|
                    0 <= x < result.spec_width() && 0 <= y < result.spec_height() && 0 <= c
                        < 3 implies #[trigger] result.at(x, y, c) == raw_sample(raw, s, x, y, c) by {
                    let vx = crate::ops::scale_src(x, vwi, fd.0);
                    let vy = crate::ops::scale_src(y, vhi, fd.1);
                    crate::ops::lemma_scale_src_in_range(x, vwi, fd.0);
                    crate::ops::lemma_scale_src_in_range(y, vhi, fd.1);
                    if ew == vw && eh == vh {
                        vstd::arithmetic::div_mod::lemma_div_by_multiple(x, vwi);
                        vstd::arithmetic::div_mod::lemma_div_by_multiple(y, vhi);
                        assert(vx == x && vy == y);
                        assert(result.at(x, y, c) == gview.at(vx, vy, c));
                    } else {
                        assert(result.at(x, y, c) == gview.at(vx, vy, c));
                    }
                    assert(gview.at(vx, vy, c) == rotated.at(vx + oli, vy + oti, c));
                    let rx = vx + oli;
                    let ry = vy + oti;
                    crate::ops::lemma_rot_src_in_range(s.rotation, rx, ry, cwi, chi);
                    let sx = crate::ops::rot_src_x(s.rotation, rx, ry, cwi, chi);
                    let sy = crate::ops::rot_src_y(s.rotation, rx, ry, cwi, chi);
                    assert(rotated.at(rx, ry, c) == flat.at(sx, sy, c));
                    assert(flat.at(sx, sy, c) == raw_flat_sample(raw, s, sx, sy, c));
                }
            },
        }
    }
    result
}

/// The per-side offset of the fractional crop never exceeds the
/// total cut, and the cut leaves the frame inside the rotated one.
proof fn lemma_rc_offsets(d: int, a: int, b: int)
    requires
        1 <= d <= DIM_MAX,
        0 <= a <= 1000,
        0 <= b <= 1000,
    ensures
        0 <= (d * a) / 1000 <= (d * (a + b) + 500) / 1000,
        0 <= (d * (a + b) + 500) / 1000,
        (d * a) / 1000 + (d - (d * (a + b) + 500) / 1000) <= d,
        d * (a + b) + 500 <= 33_000_000,
        d * a <= 16_400_000,
{
    assert(0 <= d * a <= d * (a + b) && d * (a + b) + 500 <= 33_000_000 && d * a <= 16_400_000)
        by (nonlinear_arith)
        requires
            1 <= d <= 16384,
            0 <= a <= 1000,
            0 <= b <= 1000,
    ;
    vstd::arithmetic::div_mod::lemma_div_pos_is_pos(d * a, 1000);
    vstd::arithmetic::div_mod::lemma_div_pos_is_pos(d * (a + b) + 500, 1000);
    vstd::arithmetic::div_mod::lemma_div_is_ordered(d * a, d * (a + b) + 500, 1000);
}

} // verus!
