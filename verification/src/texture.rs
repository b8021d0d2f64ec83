//! Preparation of a texture's mip chain for upload: decoding, the chain of
//! halved levels, and the row padding that GPU copies require.
use vstd::prelude::*;
use vstd::arithmetic::div_mod::lemma_fundamental_div_mod_converse;
use vstd::arithmetic::mul::lemma_mul_inequality;

verus! {

/// The error type of the image decoder.
#[verifier::external_type_specification]
#[verifier::external_body]
pub struct ExImageError(image::ImageError);

/// Why a texture could not be prepared.
#[derive(Debug)]
pub enum TextureError {
    /// The bytes are not an image the decoder reads.
    Decode(image::ImageError),
    /// The decoder gave a pixel buffer longer than its width and height
    /// account for.
    PixelData,
    /// A level's padded size does not fit in a `u32`, or a level's pixels,
    /// or the resampling that produces them, do not fit in memory.
    TooLarge,
}

/// What resampling the RGBA image `pixels` of `width` × `height` to
/// `new_width` × `new_height` with a triangle (bilinear) filter gives.
pub uninterp spec fn rgba_resized(pixels: Seq<u8>, width: u32, height: u32, new_width: u32, new_height: u32) -> Seq<u8>;

/// Whether decoding `bytes` can give the RGBA image `pixels` of `width` ×
/// `height`: a relation, not a function, since the outcome also depends on
/// the decoding hooks registered in the process.
pub uninterp spec fn decodes_to(bytes: Seq<u8>, width: u32, height: u32, pixels: Seq<u8>) -> bool;

/// Whether decoding `bytes` can fail: a relation over the bytes, since the
/// outcome also depends on the decoding hooks registered in the process.
pub uninterp spec fn decode_fails(bytes: Seq<u8>) -> bool;

/// Decodes `bytes` with `image::load_from_memory` (format guessed from the
/// content) and converts the result to 8-bit RGBA with
/// `DynamicImage::to_rgba8`, giving width, height and the pixel buffer.
///
/// The contract claims that a result is one that `bytes` decode to
/// (`decodes_to`), that an error is a failure to decode `bytes`
/// (`decode_fails`), and that its buffer holds at least `4 * w * h` bytes:
/// `to_rgba8` either converts into a buffer of exactly that length or
/// clones a decoded RGBA buffer, which `ImageBuffer::from_raw` accepted
/// only if it was at least that long. It says nothing of which pixels come
/// back nor of when decoding fails: the outcome also depends on the
/// format-detection and decoding hooks registered in the process
/// (`image::hooks`), and a decoder from such a hook may make the buffer
/// longer.
#[verifier::external_body]
fn decode_rgba(bytes: &[u8]) -> (r: Result<(u32, u32, Vec<u8>), image::ImageError>)
    ensures
        r matches Ok((w, h, px)) ==> decodes_to(bytes@, w, h, px@) && 4 * w * h <= px@.len(),
        r is Err ==> decode_fails(bytes@),
{
    let rgba = image::load_from_memory(bytes)?.to_rgba8();
    let (w, h) = rgba.dimensions();
    Ok((w, h, rgba.into_raw()))
}

/// Resamples an RGBA image with `image::imageops::resize` and the
/// `Triangle` filter.
///
/// `RgbaImage::from_raw` accepts the buffer since its length is exactly
/// `4 * width * height`. For a non-empty source, `resize` first resamples
/// the columns into an `f32` RGBA buffer of `width` × `new_height`
/// (`16 * width * new_height` bytes), then the rows into the result, built
/// with `ImageBuffer::new(new_width, new_height)` and holding exactly
/// `4 * new_width * new_height` bytes; an empty source gives such a buffer
/// directly. The preconditions keep both allocations within `isize::MAX`
/// bytes, beyond which they panic.
#[verifier::external_body]
fn resize_rgba(pixels: &Vec<u8>, width: u32, height: u32, new_width: u32, new_height: u32) -> (r: Vec<u8>)
    requires
        pixels@.len() == 4 * width * height,
        4 * new_width * new_height <= isize::MAX,
        width > 0 && height > 0 ==> 16 * width * new_height <= isize::MAX,
    ensures
        r@ == rgba_resized(pixels@, width, height, new_width, new_height),
        r@.len() == 4 * new_width * new_height,
{
    let img = image::RgbaImage::from_raw(width, height, pixels.clone()).unwrap();
    image::imageops::resize(&img, new_width, new_height, image::imageops::FilterType::Triangle).into_raw()
}


// ------------------------------------------------------------ mip count --

/// Number of binary digits of `m` (`0` for `0`).
pub open spec fn bit_length(m: nat) -> nat
    decreases m,
{
    if m == 0 {
        0
    } else {
        1 + bit_length(m / 2)
    }
}

pub open spec fn max_u32(a: u32, b: u32) -> u32 {
    if a >= b {
        a
    } else {
        b
    }
}

/// Number of mip levels of a `width` × `height` texture:
/// `floor(log2(max(width, height))) + 1`, and `1` for an empty image.
pub open spec fn mip_count(width: u32, height: u32) -> nat {
    let m = max_u32(width, height);
    if m == 0 {
        1
    } else {
        bit_length(m as nat)
    }
}

proof fn lemma_bit_length_bound(m: nat, k: nat)
    requires
        m < vstd::arithmetic::power2::pow2(k),
    ensures
        bit_length(m) <= k,
    decreases k,
{
    if m > 0 {
        if k == 0 {
            vstd::arithmetic::power2::lemma2_to64();
        } else {
            vstd::arithmetic::power2::lemma_pow2_unfold(k);
            lemma_bit_length_bound(m / 2, (k - 1) as nat);
        }
    }
}

/// Number of mip levels of a `width` × `height` texture: one per halving of
/// the longer side down to a single pixel.
pub fn mip_level_count(width: u32, height: u32) -> (r: u32)
    ensures
        r as nat == mip_count(width, height),
{
    let mut m: u32 = if width >= height { width } else { height };
    if m == 0 {
        return 1;
    }
    proof {
        vstd::arithmetic::power2::lemma2_to64();
        lemma_bit_length_bound(m as nat, 32);
    }
    let ghost m0 = m;
    let mut count: u32 = 0;
    while m > 0
        invariant
            count + bit_length(m as nat) == bit_length(m0 as nat),
            bit_length(m0 as nat) <= 32,
        decreases m,
    {
        m = m / 2;
        count = count + 1;
    }
    count
}


// ------------------------------------------------------------ row pitch --

/// `ceil(v / a)`.
pub open spec fn ceil_div(v: int, a: int) -> int {
    v / a + if v % a == 0 {
        0int
    } else {
        1int
    }
}

/// `v` rounded up to a multiple of `a`.
pub open spec fn align_up(v: int, a: int) -> int {
    ceil_div(v, a) * a
}

proof fn lemma_align_up_bounds(v: int, a: int)
    requires
        0 <= v,
        0 < a,
    ensures
        v <= align_up(v, a) < v + a,
        align_up(v, a) <= v * a || v == 0,
        v == 0 ==> align_up(v, a) == 0,
{
    vstd::arithmetic::div_mod::lemma_fundamental_div_mod(v, a);
    let q = v / a;
    let r = v % a;
    assert(v == a * q + r);
    assert(0 <= r < a);
    if r == 0 {
        assert(align_up(v, a) == q * a);
        assert(q * a == v) by (nonlinear_arith)
            requires
                v == a * q + r,
                r == 0,
        ;
        assert(v <= v * a || v == 0) by (nonlinear_arith)
            requires
                0 <= v,
                0 < a,
        ;
    } else {
        assert(align_up(v, a) == (q + 1) * a);
        assert((q + 1) * a == v - r + a) by (nonlinear_arith)
            requires
                v == a * q + r,
        ;
        assert(v - r + a <= v * a) by (nonlinear_arith)
            requires
                0 < r < a,
                r <= v,
        ;
    }
}

/// `value` rounded up to a multiple of `alignment`.
pub fn align_to(value: u32, alignment: u32) -> (r: u32)
    requires
        alignment > 0,
        align_up(value as int, alignment as int) <= u32::MAX,
    ensures
        r as int == align_up(value as int, alignment as int),
{
    proof {
        let q = ceil_div(value as int, alignment as int);
        vstd::arithmetic::div_mod::lemma_fundamental_div_mod(value as int, alignment as int);
        assert(q >= 0);
        assert(q <= q * alignment) by (nonlinear_arith)
            requires
                q >= 0,
                alignment >= 1,
        ;
    }
    let whole: u32 = value / alignment;
    let q: u32 = if value % alignment == 0 {
        whole
    } else {
        whole + 1
    };
    q * alignment
}

/// Bytes per padded row of an RGBA image `width` pixels wide: the pixel
/// bytes rounded up to the copy alignment.
pub open spec fn row_pitch(width: u32, alignment: u32) -> int {
    align_up(4 * width, alignment as int)
}

/// The padded row length, when it and the unpadded one fit in a `u32`.
fn checked_row_pitch(width: u32, alignment: u32) -> (r: Option<u32>)
    requires
        alignment > 0,
    ensures
        match r {
            Some(p) => p == row_pitch(width, alignment) && 4 * width <= u32::MAX,
            None => 4 * width > u32::MAX || row_pitch(width, alignment) > u32::MAX,
        },
{
    let w4: u64 = (width as u64) * 4;
    if w4 > u32::MAX as u64 {
        return None;
    }
    let a: u64 = alignment as u64;
    let whole: u64 = w4 / a;
    let q: u64 = if w4 % a == 0 {
        whole
    } else {
        whole + 1
    };
    proof {
        vstd::arithmetic::div_mod::lemma_fundamental_div_mod(w4 as int, a as int);
        assert(q <= w4 + 1);
        assert(q * a <= (w4 + 1) * a) by (nonlinear_arith)
            requires
                q <= w4 + 1,
                a >= 1,
        ;
        assert((w4 + 1) * a <= 0x1_0000_0000 * 0xFFFF_FFFF) by (nonlinear_arith)
            requires
                w4 + 1 <= 0x1_0000_0000,
                a <= 0xFFFF_FFFF,
        ;
        assert(q as int == ceil_div(w4 as int, a as int));
    }
    let p: u64 = q * a;
    if p > u32::MAX as u64 {
        return None;
    }
    Some(align_to(w4 as u32, alignment))
}

// -------------------------------------------------------------- padding --

/// Byte `i` of a padded image: the pixel byte at the same row and offset
/// when the offset falls inside the row's pixels, zero in the padding.
pub open spec fn padded_byte(pixels: Seq<u8>, width: u32, pitch: int, i: int) -> u8 {
    let row = i / pitch;
    let off = i % pitch;
    if off < 4 * width {
        pixels[row * (4 * width) + off]
    } else {
        0
    }
}

/// The RGBA image `pixels` (`width` × `height`) with every row padded with
/// zeros to `pitch` bytes.
pub open spec fn padded_rows(pixels: Seq<u8>, width: u32, height: u32, pitch: int) -> Seq<u8> {
    Seq::new((pitch * height) as nat, |i: int| padded_byte(pixels, width, pitch, i))
}

/// Copies the rows of an RGBA image into a buffer whose rows are `pitch`
/// bytes long, padding each row with zeros.
pub fn pad_rows(pixels: &Vec<u8>, width: u32, height: u32, pitch: u32) -> (r: Vec<u8>)
    requires
        pixels@.len() == 4 * width * height,
        4 * width <= pitch,
        pitch * height <= u32::MAX,
    ensures
        r@ == padded_rows(pixels@, width, height, pitch as int),
{
    let row_len: usize = (width as usize) * 4;
    let n_pixels = pixels.len();
    let mut out: Vec<u8> = Vec::new();
    let mut row: u32 = 0;
    let mut src: usize = 0;
    while row < height
        invariant
            pixels@.len() == 4 * width * height,
            pixels@.len() <= usize::MAX,
            row_len == 4 * width,
            row_len <= pitch,
            pitch * height <= u32::MAX,
            row <= height,
            src == row * row_len,
            out@.len() == row * pitch,
            forall|i: int| 0 <= i < out@.len() ==> #[trigger] out@[i] == padded_byte(pixels@, width, pitch as int, i),
        decreases height - row,
    {
        proof {
            lemma_mul_inequality(row as int + 1, height as int, row_len as int);
            lemma_mul_inequality(row as int + 1, height as int, pitch as int);
            assert((row as int + 1) * row_len == row * row_len + row_len) by (nonlinear_arith);
            assert((row as int + 1) * pitch == row * pitch + pitch) by (nonlinear_arith);
            assert(height * row_len == 4 * width * height) by (nonlinear_arith)
                requires
                    row_len == 4 * width,
            ;
            assert(pitch * height == height * pitch) by (nonlinear_arith);
        }
        let mut j: u32 = 0;
        while j < pitch
            invariant
                pixels@.len() == 4 * width * height,
                pixels@.len() <= usize::MAX,
                row_len == 4 * width,
                row_len <= pitch,
                row < height,
                src == row * row_len,
                src + row_len <= pixels@.len(),
                row * pitch + pitch <= u32::MAX,
                j <= pitch,
                out@.len() == row * pitch + j,
                forall|i: int| 0 <= i < out@.len() ==> #[trigger] out@[i] == padded_byte(pixels@, width, pitch as int, i),
            decreases pitch - j,
        {
            let b: u8 = if (j as usize) < row_len {
                pixels[src + j as usize]
            } else {
                0
            };
            proof {
                let i = row * pitch + j;
                lemma_fundamental_div_mod_converse(i, pitch as int, row as int, j as int);
                assert(b == padded_byte(pixels@, width, pitch as int, i));
            }
            out.push(b);
            j = j + 1;
        }
        src = src + row_len;
        row = row + 1;
    }
    proof {
        assert(pitch * height == height * pitch) by (nonlinear_arith);
    }
    assert(out@ =~= padded_rows(pixels@, width, height, pitch as int));
    out
}


// ------------------------------------------------------------ mip chain --

/// The side of the next mip level: half, rounded down, but at least one.
pub open spec fn half_side(d: u32) -> u32 {
    if d / 2 == 0 {
        1u32
    } else {
        (d / 2) as u32
    }
}

/// Whether a level of `w` × `h` is followed by a smaller one.
pub open spec fn shrinks(w: u32, h: u32) -> bool {
    w > 1 || h > 1
}

/// Width and height of mip level `k` of a `width` × `height` texture: each
/// level halves the previous one until it is a single pixel.
pub open spec fn level_dims(width: u32, height: u32, k: nat) -> (u32, u32)
    decreases k,
{
    if k == 0 {
        (width, height)
    } else {
        let (pw, ph) = level_dims(width, height, (k - 1) as nat);
        if shrinks(pw, ph) {
            (half_side(pw), half_side(ph))
        } else {
            (pw, ph)
        }
    }
}

/// The RGBA pixels of mip level `k`: the image itself, then each level
/// resampled from the previous one.
pub open spec fn level_pixels(pixels: Seq<u8>, width: u32, height: u32, k: nat) -> Seq<u8>
    decreases k,
{
    if k == 0 {
        pixels
    } else {
        let prev = level_pixels(pixels, width, height, (k - 1) as nat);
        let (pw, ph) = level_dims(width, height, (k - 1) as nat);
        if shrinks(pw, ph) {
            rgba_resized(prev, pw, ph, half_side(pw), half_side(ph))
        } else {
            prev
        }
    }
}

/// Resampling level `k - 1` into level `k` fits in memory: the resampler's
/// intermediate `f32` buffer (previous width × new height, four channels)
/// stays within `isize::MAX` bytes.
pub open spec fn resample_fits(width: u32, height: u32, k: nat) -> bool {
    k == 0 || {
        let (pw, ph) = level_dims(width, height, (k - 1) as nat);
        let (lw, lh) = level_dims(width, height, k);
        shrinks(pw, ph) && pw > 0 && ph > 0 ==> 16 * pw * lh <= isize::MAX
    }
}

/// Mip level `k` can be prepared: its padded rows and their total fit in a
/// `u32`, and its pixel buffer and the resampling that produces it fit in
/// memory.
pub open spec fn level_fits(width: u32, height: u32, alignment: u32, k: nat) -> bool {
    let (lw, lh) = level_dims(width, height, k);
    &&& 4 * lw <= u32::MAX
    &&& row_pitch(lw, alignment) <= u32::MAX
    &&& row_pitch(lw, alignment) * lh <= u32::MAX
    &&& 4 * lw * lh <= isize::MAX
    &&& resample_fits(width, height, k)
}

/// One mip level, ready for upload: its size, the length of its padded
/// rows, and the padded pixel data.
#[derive(Debug)]
pub struct MipLevel {
    pub width: u32,
    pub height: u32,
    pub bytes_per_row: u32,
    pub data: Vec<u8>,
}

/// `lv` is mip level `k` of the RGBA image `pixels`.
pub open spec fn is_mip_level(lv: MipLevel, pixels: Seq<u8>, width: u32, height: u32, alignment: u32, k: nat) -> bool {
    let (lw, lh) = level_dims(width, height, k);
    &&& lv.width == lw
    &&& lv.height == lh
    &&& lv.bytes_per_row == row_pitch(lw, alignment)
    &&& lv.data@ == padded_rows(level_pixels(pixels, width, height, k), lw, lh, row_pitch(lw, alignment))
}

/// The levels are the whole mip chain of the RGBA image `pixels`.
pub open spec fn is_mip_chain(levels: Seq<MipLevel>, pixels: Seq<u8>, width: u32, height: u32, alignment: u32) -> bool {
    &&& levels.len() == mip_count(width, height)
    &&& forall|k: int| 0 <= k < levels.len() ==> is_mip_level(#[trigger] levels[k], pixels, width, height, alignment, k as nat)
}

/// Every level of the chain fits.
pub open spec fn chain_fits(width: u32, height: u32, alignment: u32) -> bool {
    forall|k: nat| k < mip_count(width, height) ==> #[trigger] level_fits(width, height, alignment, k)
}

/// Builds the mip chain of an RGBA image, each level with its rows padded
/// to a multiple of `alignment` bytes. Fails with `TooLarge` exactly when
/// some level does not fit.
pub fn mip_levels(width: u32, height: u32, pixels: Vec<u8>, alignment: u32) -> (r: Result<Vec<MipLevel>, TextureError>)
    requires
        alignment > 0,
        pixels@.len() == 4 * width * height,
    ensures
        match r {
            Ok(levels) => chain_fits(width, height, alignment) && is_mip_chain(levels@, pixels@, width, height, alignment),
            Err(e) => e is TooLarge && !chain_fits(width, height, alignment),
        },
{
    let ghost px0 = pixels@;
    let mips = mip_level_count(width, height);
    let mut levels: Vec<MipLevel> = Vec::new();
    let mut lw = width;
    let mut lh = height;
    let mut px = pixels;
    let mut k: u32 = 0;
    while k < mips
        invariant
            alignment > 0,
            mips as nat == mip_count(width, height),
            k <= mips,
            k < mips ==> (lw, lh) == level_dims(width, height, k as nat),
            k < mips ==> px@ == level_pixels(px0, width, height, k as nat),
            k < mips ==> px@.len() == 4 * lw * lh,
            k < mips ==> resample_fits(width, height, k as nat),
            levels@.len() == k,
            forall|j: nat| j < k ==> #[trigger] level_fits(width, height, alignment, j),
            forall|j: int| 0 <= j < k ==> is_mip_level(#[trigger] levels@[j], px0, width, height, alignment, j as nat),
        decreases mips - k,
    {
        proof {
            assert((lw as int) * (lh as int) <= 0xFFFF_FFFF * 0xFFFF_FFFF) by (nonlinear_arith)
                requires
                    lw <= 0xFFFF_FFFFu32,
                    lh <= 0xFFFF_FFFFu32,
            ;
            assert(4 * lw * lh == 4 * (lw * lh)) by (nonlinear_arith);
        }
        if (lw as u64) * (lh as u64) > (isize::MAX as u64) / 4 {
            assert(!level_fits(width, height, alignment, k as nat));
            return Err(TextureError::TooLarge);
        }
        let pitch = match checked_row_pitch(lw, alignment) {
            Some(p) => p,
            None => {
                assert(!level_fits(width, height, alignment, k as nat));
                return Err(TextureError::TooLarge);
            },
        };
        proof {
            assert((pitch as int) * (lh as int) <= 0xFFFF_FFFF * 0xFFFF_FFFF) by (nonlinear_arith)
                requires
                    pitch <= 0xFFFF_FFFFu32,
                    lh <= 0xFFFF_FFFFu32,
            ;
        }
        if (pitch as u64) * (lh as u64) > u32::MAX as u64 {
            assert(!level_fits(width, height, alignment, k as nat));
            return Err(TextureError::TooLarge);
        }
        assert(level_fits(width, height, alignment, k as nat));
        proof {
            lemma_align_up_bounds(4 * lw, alignment as int);
        }
        let data = pad_rows(&px, lw, lh, pitch);
        levels.push(MipLevel { width: lw, height: lh, bytes_per_row: pitch, data });
        if k + 1 < mips && (lw > 1 || lh > 1) {
            let nw: u32 = if lw / 2 == 0 { 1 } else { lw / 2 };
            let nh: u32 = if lh / 2 == 0 { 1 } else { lh / 2 };
            assert((nw, nh) == level_dims(width, height, (k + 1) as nat));
            proof {
                assert((nw as int) * (nh as int) <= 0xFFFF_FFFF * 0xFFFF_FFFF) by (nonlinear_arith)
                    requires
                        nw <= 0xFFFF_FFFFu32,
                        nh <= 0xFFFF_FFFFu32,
                ;
                assert((lw as int) * (nh as int) <= 0xFFFF_FFFF * 0xFFFF_FFFF) by (nonlinear_arith)
                    requires
                        lw <= 0xFFFF_FFFFu32,
                        nh <= 0xFFFF_FFFFu32,
                ;
                assert(4 * nw * nh == 4 * (nw * nh)) by (nonlinear_arith);
                assert(16 * lw * nh == 16 * (lw * nh)) by (nonlinear_arith);
            }
            if (nw as u64) * (nh as u64) > (isize::MAX as u64) / 4 {
                assert(!level_fits(width, height, alignment, (k + 1) as nat));
                return Err(TextureError::TooLarge);
            }
            if lw > 0 && lh > 0 && (lw as u64) * (nh as u64) > (isize::MAX as u64) / 16 {
                assert(!resample_fits(width, height, (k + 1) as nat));
                assert(!level_fits(width, height, alignment, (k + 1) as nat));
                return Err(TextureError::TooLarge);
            }
            assert(resample_fits(width, height, (k + 1) as nat));
            px = resize_rgba(&px, lw, lh, nw, nh);
            lw = nw;
            lh = nh;
        } else if k + 1 < mips {
            assert(level_dims(width, height, (k + 1) as nat) == (lw, lh));
            assert(resample_fits(width, height, (k + 1) as nat));
        }
        k = k + 1;
    }
    Ok(levels)
}

/// What the mip chain of a decoder's outcome is: the decoder's error as
/// `Decode`; `PixelData` when the pixel buffer is not exactly `4 * w * h`
/// bytes; otherwise what `mip_levels` gives for the decoded image.
pub open spec fn chain_outcome_ok(
    decoded: Result<(u32, u32, Vec<u8>), image::ImageError>,
    alignment: u32,
    r: Result<Vec<MipLevel>, TextureError>,
) -> bool {
    match decoded {
        Err(e) => r matches Err(TextureError::Decode(e2)) && e2 == e,
        Ok((w, h, px)) => if px@.len() != 4 * w * h {
            r matches Err(TextureError::PixelData)
        } else {
            match r {
                Ok(levels) => chain_fits(w, h, alignment) && is_mip_chain(levels@, px@, w, h, alignment),
                Err(e) => e is TooLarge && !chain_fits(w, h, alignment),
            }
        },
    }
}

/// Builds the mip chain of what the decoder gave: passes a decoder error
/// on as `Decode`, rejects a pixel buffer whose length does not match the
/// image's size, and otherwise builds the chain with `mip_levels`.
pub fn mip_chain_from_decoded(
    decoded: Result<(u32, u32, Vec<u8>), image::ImageError>,
    alignment: u32,
) -> (r: Result<Vec<MipLevel>, TextureError>)
    requires
        alignment > 0,
    ensures
        chain_outcome_ok(decoded, alignment, r),
{
    let (w, h, px) = match decoded {
        Ok(image) => image,
        Err(e) => return Err(TextureError::Decode(e)),
    };
    proof {
        assert((w as int) * (h as int) <= 0xFFFF_FFFF * 0xFFFF_FFFF) by (nonlinear_arith)
            requires
                w <= 0xFFFF_FFFFu32,
                h <= 0xFFFF_FFFFu32,
        ;
        assert(4 * w * h == 4 * (w * h)) by (nonlinear_arith);
    }
    let area: u64 = (w as u64) * (h as u64);
    let n = px.len();
    if area > (usize::MAX / 4) as u64 || n != 4 * (area as usize) {
        return Err(TextureError::PixelData);
    }
    mip_levels(w, h, px, alignment)
}

/// Decodes an image file and builds its mip chain for upload, every level
/// converted to 8-bit RGBA with rows padded to a multiple of `alignment`
/// bytes.
///
/// The bytes go to the decoder unchanged, and what it gives is handed to
/// `mip_chain_from_decoded`. Which image the bytes decode to is not a
/// function of the bytes alone (see `decode_rgba`), so the contract states
/// what holds whatever the decoder gave: a chain, `TooLarge` or
/// `PixelData` all come from an image that these bytes decode to, and
/// `Decode` from a failure to decode these bytes.
pub fn decode_mip_chain(bytes: &[u8], alignment: u32) -> (r: Result<Vec<MipLevel>, TextureError>)
    requires
        alignment > 0,
    ensures
        r matches Ok(levels) ==> exists|w: u32, h: u32, px: Seq<u8>|
            #[trigger] decodes_to(bytes@, w, h, px) && px.len() == 4 * w * h
                && chain_fits(w, h, alignment) && is_mip_chain(levels@, px, w, h, alignment),
        r matches Err(TextureError::TooLarge) ==> exists|w: u32, h: u32, px: Seq<u8>|
            #[trigger] decodes_to(bytes@, w, h, px) && px.len() == 4 * w * h
                && !chain_fits(w, h, alignment),
        r matches Err(TextureError::PixelData) ==> exists|w: u32, h: u32, px: Seq<u8>|
            #[trigger] decodes_to(bytes@, w, h, px) && px.len() != 4 * w * h,
        r matches Err(TextureError::Decode(_)) ==> decode_fails(bytes@),
{
    let decoded = decode_rgba(bytes);
    let ghost d = decoded;
    let r = mip_chain_from_decoded(decoded, alignment);
    proof {
        if let Ok((w, h, px)) = d {
            assert(decodes_to(bytes@, w, h, px@));
        }
    }
    r
}


// ----------------------------------------------------------------- laws --

/// Every pixel byte of an RGBA image lands at its row's offset in the padded
/// buffer: byte `b` of pixel (`row`, `col`) is at `row * pitch + 4 * col + b`,
/// and every byte past a row's pixels is zero.
pub proof fn lemma_pixel_placement(pixels: Seq<u8>, width: u32, height: u32, pitch: int, row: int, off: int)
    requires
        pixels.len() == 4 * width * height,
        4 * width <= pitch,
        0 <= row < height,
        0 <= off < pitch,
    ensures
        off < 4 * width ==> padded_rows(pixels, width, height, pitch)[row * pitch + off]
            == pixels[(row * width + off / 4) * 4 + off % 4],
        off >= 4 * width ==> padded_rows(pixels, width, height, pitch)[row * pitch + off] == 0,
{
    let i = row * pitch + off;
    lemma_fundamental_div_mod_converse(i, pitch, row, off);
    assert(i < pitch * height) by (nonlinear_arith)
        requires
            0 <= row < height,
            0 <= off < pitch,
            i == row * pitch + off,
    ;
    assert(row * (4 * width) + off == (row * width + off / 4) * 4 + off % 4) by (nonlinear_arith)
        requires
            off == 4 * (off / 4) + off % 4,
    ;
}

/// `x` halved, rounding down, `k` times.
pub open spec fn halve_n(x: nat, k: nat) -> nat
    decreases k,
{
    if k == 0 {
        x
    } else {
        halve_n(x, (k - 1) as nat) / 2
    }
}

pub open spec fn at_least_one(x: nat) -> nat {
    if x == 0 {
        1
    } else {
        x
    }
}

proof fn lemma_halve_n_shift(x: nat, k: nat)
    ensures
        halve_n(x, k + 1) == halve_n(x / 2, k),
    decreases k,
{
    assert(halve_n(x, k + 1) == halve_n(x, k) / 2);
    if k > 0 {
        lemma_halve_n_shift(x, (k - 1) as nat);
        assert(halve_n(x / 2, k) == halve_n(x / 2, (k - 1) as nat) / 2);
    }
}

proof fn lemma_halve_n_monotone(x: nat, y: nat, k: nat)
    requires
        x <= y,
    ensures
        halve_n(x, k) <= halve_n(y, k),
    decreases k,
{
    if k > 0 {
        lemma_halve_n_monotone(x, y, (k - 1) as nat);
    }
}

/// Halving `m >= 1` leaves at least two until the step before its bit
/// length, and exactly one after `bit_length(m) - 1` steps.
proof fn lemma_halve_to_one(m: nat, k: nat)
    requires
        m >= 1,
        k < bit_length(m),
    ensures
        k + 1 < bit_length(m) ==> halve_n(m, k) >= 2,
        k + 1 == bit_length(m) ==> halve_n(m, k) == 1,
    decreases m,
{
    if m >= 2 {
        assert(bit_length(m) == 1 + bit_length(m / 2));
        if k > 0 {
            lemma_halve_n_shift(m, (k - 1) as nat);
            lemma_halve_to_one(m / 2, (k - 1) as nat);
        } else {
            assert(bit_length(m / 2) >= 1);
        }
    } else {
        assert(bit_length(0) == 0);
    }
}

proof fn lemma_level_dims_closed_form(width: u32, height: u32, k: nat)
    requires
        1 <= k,
        k < bit_length(max_u32(width, height) as nat),
    ensures
        level_dims(width, height, k).0 as nat == at_least_one(halve_n(width as nat, k)),
        level_dims(width, height, k).1 as nat == at_least_one(halve_n(height as nat, k)),
    decreases k,
{
    let m = max_u32(width, height) as nat;
    let j = (k - 1) as nat;
    lemma_halve_to_one(m, j);
    assert(halve_n(m, j) >= 2);
    assert(m == width || m == height);
    assert(halve_n(width as nat, k) == halve_n(width as nat, j) / 2);
    assert(halve_n(height as nat, k) == halve_n(height as nat, j) / 2);
    let (pw, ph) = level_dims(width, height, j);
    if j >= 1 {
        lemma_level_dims_closed_form(width, height, j);
        assert(pw as nat == at_least_one(halve_n(width as nat, j)));
        assert(ph as nat == at_least_one(halve_n(height as nat, j)));
        assert(shrinks(pw, ph));
    } else {
        assert((pw, ph) == (width, height));
        assert(shrinks(pw, ph));
    }
}

/// The mip chain of a non-empty image ends with a single pixel.
pub proof fn lemma_last_level_single_pixel(width: u32, height: u32)
    requires
        width > 0,
        height > 0,
    ensures
        level_dims(width, height, (mip_count(width, height) - 1) as nat) == (1u32, 1u32),
{
    let m = max_u32(width, height) as nat;
    let last = (bit_length(m) - 1) as nat;
    lemma_halve_to_one(m, last);
    if last >= 1 {
        lemma_level_dims_closed_form(width, height, last);
        lemma_halve_n_monotone(width as nat, m, last);
        lemma_halve_n_monotone(height as nat, m, last);
    } else {
        assert(bit_length(m / 2) == 0);
    }
}


proof fn lemma_level_dims_bounded(width: u32, height: u32, k: nat, bound: u32)
    requires
        1 <= bound,
        width <= bound,
        height <= bound,
    ensures
        level_dims(width, height, k).0 <= bound,
        level_dims(width, height, k).1 <= bound,
    decreases k,
{
    if k > 0 {
        lemma_level_dims_bounded(width, height, (k - 1) as nat, bound);
    }
}

/// Every texture of up to 8192 × 8192 pixels (the usual GPU limit) gets its
/// whole mip chain, for any copy alignment up to 65536 bytes: every level's
/// padded rows and their total fit in a `u32`, and its pixels and their
/// resampling fit in memory, even on a 32-bit target. So `mip_levels` never
/// answers `TooLarge` for such a texture.
pub proof fn lemma_textures_up_to_8192_fit(width: u32, height: u32, alignment: u32)
    requires
        width <= 8192,
        height <= 8192,
        0 < alignment <= 65536,
    ensures
        chain_fits(width, height, alignment),
{
    assert forall|k: nat| k < mip_count(width, height) implies #[trigger] level_fits(width, height, alignment, k) by {
        lemma_level_dims_bounded(width, height, k, 8192);
        let (lw, lh) = level_dims(width, height, k);
        lemma_align_up_bounds(4 * lw, alignment as int);
        let p = row_pitch(lw, alignment);
        assert(p < 4 * 8192 + 65536);
        assert(p * lh <= (4 * 8192 + 65536) * 8192) by (nonlinear_arith)
            requires
                0 <= p < 4 * 8192 + 65536,
                lh <= 8192,
        ;
        assert(4 * lw * lh <= 4 * 8192 * 8192) by (nonlinear_arith)
            requires
                lw <= 8192,
                lh <= 8192,
        ;
        if k > 0 {
            lemma_level_dims_bounded(width, height, (k - 1) as nat, 8192);
            let (pw, ph) = level_dims(width, height, (k - 1) as nat);
            assert(16 * pw * lh <= 16 * 8192 * 8192) by (nonlinear_arith)
                requires
                    pw <= 8192,
                    lh <= 8192,
            ;
        }
    }
}


/// On a 64-bit target, every texture of up to 16384 × 16384 pixels gets its
/// whole mip chain, for any copy alignment up to 65536 bytes. (On a 32-bit
/// target the resampler's `f32` buffer for such a texture exceeds
/// `isize::MAX` bytes, see `lemma_textures_up_to_8192_fit`.)
pub proof fn lemma_textures_up_to_16384_fit_on_64_bit(width: u32, height: u32, alignment: u32)
    requires
        width <= 16384,
        height <= 16384,
        0 < alignment <= 65536,
        isize::MAX > 0xFFFF_FFFF,
    ensures
        chain_fits(width, height, alignment),
{
    assert forall|k: nat| k < mip_count(width, height) implies #[trigger] level_fits(width, height, alignment, k) by {
        lemma_level_dims_bounded(width, height, k, 16384);
        let (lw, lh) = level_dims(width, height, k);
        lemma_align_up_bounds(4 * lw, alignment as int);
        let p = row_pitch(lw, alignment);
        assert(p * lh <= (4 * 16384 + 65536) * 16384) by (nonlinear_arith)
            requires
                0 <= p < 4 * 16384 + 65536,
                lh <= 16384,
        ;
        assert(4 * lw * lh <= 4 * 16384 * 16384) by (nonlinear_arith)
            requires
                lw <= 16384,
                lh <= 16384,
        ;
        if k > 0 {
            lemma_level_dims_bounded(width, height, (k - 1) as nat, 16384);
            let (pw, ph) = level_dims(width, height, (k - 1) as nat);
            assert(16 * pw * lh <= 16 * 16384 * 16384) by (nonlinear_arith)
                requires
                    pw <= 16384,
                    lh <= 16384,
            ;
        }
    }
}

} // verus!
