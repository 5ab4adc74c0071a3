//! The color pipeline: scene-referred linear values to display-referred
//! 8-bit values.
//!
//! Unless a data pass is requested, each color channel goes through a
//! deterministic perceptual tonemap (`x / (x + 1)`, compressing unbounded
//! HDR radiance into the displayable range while preserving order), then
//! gamma encoding (a square root: gamma two), then 8-bit quantization. In a
//! data pass (channels already bounded utility data such as normals) the
//! value is scaled directly to 8 bits with no tonemapping. Alpha is scaled
//! directly in both modes.

use vstd::prelude::*;
use crate::fixed::{
    tdiv, tdiv_i128, sqrt_floor, sqrt_fp, SCALE, lemma_tdiv_mag, lemma_sqrt_floor_bounds,
    lemma_sqrt_floor_unique, lemma_sqrt_floor_monotone,
};
use vstd::arithmetic::div_mod::{
    lemma_div_is_ordered, lemma_div_multiples_vanish, lemma_multiply_divide_lt, lemma_div_of0,
    lemma_fundamental_div_mod,
};
use crate::render::{AppError, RenderTask};

verus! {

/// The tonemap operator `x / (x + 1)`: zero and negative radiance map to
/// zero, order is preserved, and the result always lies in `[0, 1)`.
pub open spec fn tonemap_s(x: int) -> int {
    if x <= 0 {
        0
    } else {
        tdiv(x * SCALE, x + SCALE)
    }
}

/// Gamma encoding with gamma two: the fixed-point square root.
pub open spec fn encode_s(x: int) -> int {
    sqrt_floor(x * SCALE)
}

/// 8-bit quantization of a fixed-point value, saturating at the ends.
pub open spec fn quantize_s(x: int) -> int {
    let q = tdiv(x * 255, SCALE as int);
    if q < 0 {
        0
    } else if q > 255 {
        255
    } else {
        q
    }
}

/// The full display transform of one color channel: tonemap, then encode,
/// then quantize.
pub open spec fn display_of(x: int) -> int {
    quantize_s(encode_s(tonemap_s(x)))
}

/// The data-pass transform: a direct linear scale to 8 bits, no
/// tonemapping. Alpha takes this path in both modes.
pub open spec fn data_of(x: int) -> int {
    quantize_s(x)
}

/// One output byte of the display conversion: alpha channels and data
/// passes are scaled directly; color channels are tonemapped and encoded.
pub open spec fn pixel_byte_s(x: int, is_alpha: bool, is_data_pass: bool) -> int {
    if is_alpha || is_data_pass {
        data_of(x)
    } else {
        display_of(x)
    }
}

/// The tonemap: exactly `tonemap_s`, always in `[0, 1)`.
pub fn tonemap_channel(x: i64) -> (r: i64)
    ensures
        r == tonemap_s(x as int),
        0 <= r < SCALE,
{
    if x <= 0 {
        0
    } else {
        proof {
            lemma_tdiv_mag((x as int) * 65536, x as int + 65536);
            assert((x as int) * 65536 < (x as int + 65536) * 65536) by (nonlinear_arith)
                requires
                    x as int > 0,
            ;
            lemma_multiply_divide_lt((x as int) * 65536, x as int + 65536, 65536);
        }
        let q: i128 = tdiv_i128((x as i128) * 65536, x as i128 + 65536);
        q as i64
    }
}

/// Gamma encoding: exactly `encode_s`; values in `[0, 1]` stay in `[0, 1]`.
pub fn encode_channel(x: i64) -> (r: i64)
    requires
        0 <= x <= SCALE,
    ensures
        r == encode_s(x as int),
        0 <= r <= SCALE,
{
    proof {
        lemma_sqrt_floor_monotone((x as int) * 65536, 65536int * 65536);
        lemma_sqrt_floor_unique(65536int * 65536, 65536);
        lemma_sqrt_floor_bounds((x as int) * 65536);
    }
    sqrt_fp(x)
}

/// 8-bit quantization: exactly `quantize_s`.
pub fn quantize_channel(x: i64) -> (r: u8)
    ensures
        r == quantize_s(x as int),
{
    proof {
        lemma_tdiv_mag((x as int) * 255, SCALE as int);
    }
    let q: i128 = tdiv_i128((x as i128) * 255, 65536);
    if q < 0 {
        0
    } else if q > 255 {
        255
    } else {
        q as u8
    }
}

/// The full display transform of one color channel.
pub fn display_channel(x: i64) -> (r: u8)
    ensures
        r == display_of(x as int),
{
    let t: i64 = tonemap_channel(x);
    let e: i64 = encode_channel(t);
    quantize_channel(e)
}

/// The data-pass transform of one channel.
pub fn data_channel(x: i64) -> (r: u8)
    ensures
        r == data_of(x as int),
{
    quantize_channel(x)
}

impl RenderTask {
    /// Converts the scene-referred linear buffer into a display-referred
    /// 8-bit buffer of the same length, pixel by pixel, exactly as
    /// `pixel_byte_s` states for every index of each whole RGBA chunk; a
    /// trailing partial chunk is left zero. If `is_data_pass` is true no
    /// color management is applied, only the direct 8-bit scale. The
    /// conversion itself cannot fail: the result is always `Ok`.
    pub fn convert_to_display_buffer(render_buffer: Vec<i64>, is_data_pass: bool) -> (r: Result<
        Vec<u8>,
        AppError,
    >)
        ensures
            r is Ok,
            r matches Ok(out) ==> {
                &&& out@.len() == render_buffer@.len()
                &&& forall|i: int|
                    0 <= i < out@.len() - out@.len() % 4 ==> #[trigger] out@[i] == pixel_byte_s(
                        render_buffer@[i] as int,
                        i % 4 == 3,
                        is_data_pass,
                    )
                &&& forall|i: int|
                    out@.len() - out@.len() % 4 <= i < out@.len() ==> #[trigger] out@[i] == 0
            },
    {
        let len: usize = render_buffer.len();
        let main: usize = len - len % 4;
        let mut display_buffer: Vec<u8> = Vec::new();
        let mut i: usize = 0;
        while i < main
            invariant
                main == len - len % 4,
                len == render_buffer@.len(),
                i <= main,
                display_buffer@.len() == i,
                forall|k: int|
                    0 <= k < i ==> #[trigger] display_buffer@[k] == pixel_byte_s(
                        render_buffer@[k] as int,
                        k % 4 == 3,
                        is_data_pass,
                    ),
            decreases main - i,
        {
            let c: usize = i % 4;
            let value: i64 = render_buffer[i];
            let byte: u8 = if c == 3 || is_data_pass {
                data_channel(value)
            } else {
                display_channel(value)
            };
            display_buffer.push(byte);
            i = i + 1;
        }
        while i < len
            invariant
                main == len - len % 4,
                len == render_buffer@.len(),
                main <= i <= len,
                display_buffer@.len() == i,
                forall|k: int|
                    0 <= k < main ==> #[trigger] display_buffer@[k] == pixel_byte_s(
                        render_buffer@[k] as int,
                        k % 4 == 3,
                        is_data_pass,
                    ),
                forall|k: int| main <= k < i ==> #[trigger] display_buffer@[k] == 0,
            decreases len - i,
        {
            display_buffer.push(0);
            i = i + 1;
        }
        Ok(display_buffer)
    }
}

/// Splits the linear buffer into its R, G and B channel planes, one value
/// per pixel, dropping alpha: the form the image writer takes.
pub fn split_channels(render_buffer: &Vec<i64>) -> (r: (Vec<i64>, Vec<i64>, Vec<i64>))
    ensures
        r.0@.len() == render_buffer@.len() / 4,
        r.1@.len() == render_buffer@.len() / 4,
        r.2@.len() == render_buffer@.len() / 4,
        forall|p: int|
            0 <= p < render_buffer@.len() / 4 ==> {
                &&& #[trigger] r.0@[p] == render_buffer@[4 * p]
                &&& r.1@[p] == render_buffer@[4 * p + 1]
                &&& r.2@[p] == render_buffer@[4 * p + 2]
            },
{
    let len: usize = render_buffer.len();
    let pixels: usize = len / 4;
    let mut r_vec: Vec<i64> = Vec::new();
    let mut g_vec: Vec<i64> = Vec::new();
    let mut b_vec: Vec<i64> = Vec::new();
    let mut p: usize = 0;
    proof {
        lemma_fundamental_div_mod(len as int, 4);
    }
    while p < pixels
        invariant
            len == render_buffer@.len(),
            pixels == len as int / 4,
            4 * pixels <= len,
            p <= pixels,
            r_vec@.len() == p,
            g_vec@.len() == p,
            b_vec@.len() == p,
            forall|k: int|
                0 <= k < p ==> {
                    &&& #[trigger] r_vec@[k] == render_buffer@[4 * k]
                    &&& g_vec@[k] == render_buffer@[4 * k + 1]
                    &&& b_vec@[k] == render_buffer@[4 * k + 2]
                },
        decreases pixels - p,
    {
        r_vec.push(render_buffer[4 * p]);
        g_vec.push(render_buffer[4 * p + 1]);
        b_vec.push(render_buffer[4 * p + 2]);
        p = p + 1;
    }
    (r_vec, g_vec, b_vec)
}

/// The display transform maps black to black and full alpha to 255: a
/// buffer of black pixels with alpha one converts to black display pixels
/// with alpha 255, in either mode.
pub proof fn lemma_black_maps_to_black()
    ensures
        display_of(0) == 0,
        data_of(0) == 0,
        data_of(SCALE as int) == 255,
        pixel_byte_s(0, false, false) == 0,
        pixel_byte_s(0, false, true) == 0,
        pixel_byte_s(SCALE as int, true, false) == 255,
        pixel_byte_s(SCALE as int, true, true) == 255,
{
    lemma_div_of0(65536);
    assert(tonemap_s(0) == 0);
    assert(encode_s(0) == 0);
    assert(quantize_s(0) == 0);
    lemma_div_multiples_vanish(255, 65536);
    assert(tdiv(65536int * 255, 65536) == 255);
    assert(quantize_s(SCALE as int) == 255);
}

/// Color-pipeline idempotence on black input: a buffer of all-black pixels
/// with alpha one converts, in either mode, to a display buffer of
/// all-black pixels with alpha 255.
pub proof fn lemma_black_buffer_displays_black(
    linear: Seq<i64>,
    display: Seq<u8>,
    is_data_pass: bool,
)
    requires
        linear.len() % 4 == 0,
        display.len() == linear.len(),
        forall|i: int|
            0 <= i < linear.len() ==> #[trigger] linear[i] == if i % 4 == 3 {
                SCALE
            } else {
                0
            },
        forall|i: int|
            0 <= i < display.len() ==> #[trigger] display[i] == pixel_byte_s(
                linear[i] as int,
                i % 4 == 3,
                is_data_pass,
            ),
    ensures
        forall|i: int|
            0 <= i < display.len() ==> #[trigger] display[i] == if i % 4 == 3 {
                255int
            } else {
                0int
            },
{
    lemma_black_maps_to_black();
    assert forall|i: int| 0 <= i < display.len() implies #[trigger] display[i] == if i % 4 == 3 {
        255int
    } else {
        0int
    } by {
        assert(linear[i] == if i % 4 == 3 {
            SCALE
        } else {
            0
        });
    }
}

/// Quotients with positive denominators respect the cross-multiplied
/// ordering of their fractions.
proof fn lemma_div_cross_monotone(n1: int, d1: int, n2: int, d2: int)
    requires
        0 <= n1,
        0 <= n2,
        0 < d1,
        0 < d2,
        n1 * d2 <= n2 * d1,
    ensures
        n1 / d1 <= n2 / d2,
{
    let q1 = n1 / d1;
    let q2 = n2 / d2;
    lemma_fundamental_div_mod(n1, d1);
    lemma_fundamental_div_mod(n2, d2);
    vstd::arithmetic::div_mod::lemma_mod_division_less_than_divisor(n1, d1);
    vstd::arithmetic::div_mod::lemma_mod_division_less_than_divisor(n2, d2);
    vstd::arithmetic::div_mod::lemma_div_pos_is_pos(n1, d1);
    vstd::arithmetic::div_mod::lemma_div_pos_is_pos(n2, d2);
    if q1 > q2 {
        assert(false) by (nonlinear_arith)
            requires
                n1 == d1 * q1 + n1 % d1,
                n2 == d2 * q2 + n2 % d2,
                0 <= n1 % d1 < d1,
                0 <= n2 % d2 < d2,
                n1 * d2 <= n2 * d1,
                q1 >= q2 + 1,
                q2 >= 0,
                0 < d1,
                0 < d2,
        ;
    }
}

/// The tonemap preserves order.
proof fn lemma_tonemap_monotone(v1: int, v2: int)
    requires
        v1 <= v2,
    ensures
        0 <= tonemap_s(v1) <= tonemap_s(v2) < SCALE,
{
    if v2 > 0 {
        lemma_tdiv_mag(v2 * 65536, v2 + 65536);
        assert(v2 * 65536 >= 0) by (nonlinear_arith)
            requires
                v2 > 0,
        ;
        assert(v2 * 65536 < (v2 + 65536) * 65536) by (nonlinear_arith)
            requires
                v2 > 0,
        ;
        lemma_multiply_divide_lt(v2 * 65536, v2 + 65536, 65536);
        if v1 > 0 {
            lemma_tdiv_mag(v1 * 65536, v1 + 65536);
            assert(v1 * 65536 >= 0) by (nonlinear_arith)
                requires
                    v1 > 0,
            ;
            assert((v1 * 65536) * (v2 + 65536) <= (v2 * 65536) * (v1 + 65536))
                by (nonlinear_arith)
                requires
                    0 < v1 <= v2,
            ;
            lemma_div_cross_monotone(v1 * 65536, v1 + 65536, v2 * 65536, v2 + 65536);
        } else {
            vstd::arithmetic::div_mod::lemma_div_pos_is_pos(v2 * 65536, v2 + 65536);
        }
    }
}

/// The gamma encoding preserves order on `[0, 1]` values.
proof fn lemma_encode_monotone(t1: int, t2: int)
    requires
        0 <= t1 <= t2,
    ensures
        0 <= encode_s(t1) <= encode_s(t2),
{
    lemma_sqrt_floor_monotone(t1 * 65536, t2 * 65536);
    lemma_sqrt_floor_bounds(t1 * 65536);
}

/// The quantization preserves order.
proof fn lemma_quantize_monotone(e1: int, e2: int)
    requires
        e1 <= e2,
    ensures
        quantize_s(e1) <= quantize_s(e2),
{
    if e1 >= 0 {
        lemma_tdiv_mag(e1 * 255, 65536);
        lemma_tdiv_mag(e2 * 255, 65536);
        assert(e1 * 255 <= e2 * 255);
        assert(e1 * 255 >= 0);
        lemma_div_is_ordered(e1 * 255, e2 * 255, 65536);
    } else {
        lemma_tdiv_mag(e1 * 255, 65536);
        if e2 >= 0 {
            lemma_tdiv_mag(e2 * 255, 65536);
        } else {
            lemma_tdiv_mag(e2 * 255, 65536);
            assert(e1 * 255 <= e2 * 255);
            lemma_div_is_ordered(-(e2 * 255), -(e1 * 255), 65536);
        }
    }
}

/// Quantization monotonicity through the whole pipeline: for two linear
/// values `v1 <= v2` on the same channel, the encoded 8-bit outputs satisfy
/// `display_of(v1) <= display_of(v2)`, and likewise on the data-pass path.
pub proof fn lemma_display_monotone(v1: int, v2: int)
    requires
        v1 <= v2,
    ensures
        display_of(v1) <= display_of(v2),
        data_of(v1) <= data_of(v2),
{
    lemma_tonemap_monotone(v1, v2);
    lemma_encode_monotone(tonemap_s(v1), tonemap_s(v2));
    lemma_quantize_monotone(encode_s(tonemap_s(v1)), encode_s(tonemap_s(v2)));
    lemma_quantize_monotone(v1, v2);
}

} // verus!
