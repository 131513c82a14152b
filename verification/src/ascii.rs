//! The encoder: from a row-major buffer of red, green and blue bytes to one
//! text frame, by sub-sampling rows and columns and mapping the brightness of
//! each sampled pixel onto a palette of characters.

use vstd::prelude::*;
use vstd::slice::slice_subrange;
use vstd::string::StrSliceExecFns;
use vstd::arithmetic::div_mod::{lemma_fundamental_div_mod, lemma_fundamental_div_mod_converse};
use crate::config::{frame_size_of, sampled, Config};

verus! {

/// The palette, darkest character first.
pub const CHAR_MAP: &'static str =
    " ,\":;Il!i~+_-?][}{1)(|\\/tfjrxnuvczXYUJCLQ0OZmwqpdbkhao*#MW&8%B@$";

/// Number of characters in `CHAR_MAP`.
pub const PALETTE_LEN: usize = 64;

/// Weight of the red channel in the brightness of a pixel, in percent.
pub const RED_WEIGHT: usize = 21;

/// Weight of the green channel, in percent.
pub const GREEN_WEIGHT: usize = 72;

/// Weight of the blue channel, in percent.
pub const BLUE_WEIGHT: usize = 7;

/// Brightness of a white pixel.
pub const MAX_LUMINANCE: usize = 25500;

/// The character that ends every row of a text frame.
pub const ROW_END: char = '\n';

/// Brightness of a pixel: the weighted sum of its channels, from 0 for black
/// to `MAX_LUMINANCE` for white.
pub open spec fn luminance(r: u8, g: u8, b: u8) -> int {
    RED_WEIGHT * r + GREEN_WEIGHT * g + BLUE_WEIGHT * b
}

/// Place in the palette of a pixel: its brightness mapped linearly onto the
/// palette, black to the first character and white to the last.
pub open spec fn palette_index(r: u8, g: u8, b: u8) -> int {
    luminance(r, g, b) * (PALETTE_LEN - 1) / (MAX_LUMINANCE as int)
}

/// The character that stands for a pixel.
pub open spec fn pixel_char(r: u8, g: u8, b: u8) -> char {
    CHAR_MAP@[palette_index(r, g, b)]
}

/// Bytes from one sampled pixel to the next in a row.
pub open spec fn pixel_step(sample_x: int) -> int {
    if sample_x >= 1 {
        3 * sample_x
    } else {
        3
    }
}

/// The characters of the pixels of one row that start at byte `pos`, `pos`
/// plus one step, and so on, below byte `end`.
pub open spec fn row_text(rgb: Seq<u8>, pos: int, end: int, sample_x: int) -> Seq<char>
    decreases (if pos < end { end - pos } else { 0 }),
{
    if 0 <= pos && pos + 3 <= end && end <= rgb.len() {
        let rest = row_text(rgb, pos + pixel_step(sample_x), end, sample_x);
        seq![pixel_char(rgb[pos], rgb[pos + 1], rgb[pos + 2])] + rest
    } else {
        Seq::empty()
    }
}

/// Byte at which the row that starts at byte `start` ends.
pub open spec fn row_end(len: int, start: int, row_bytes: int) -> int {
    if start + row_bytes < len {
        start + row_bytes
    } else {
        len
    }
}

/// The text of the rows that start at byte `start`, `start` plus
/// `stride_bytes`, and so on: the characters of each row and then `ROW_END`.
pub open spec fn rows_text(
    rgb: Seq<u8>,
    start: int,
    row_bytes: int,
    stride_bytes: int,
    sample_x: int,
) -> Seq<char>
    decreases (if start < rgb.len() { rgb.len() - start } else { 0 }),
{
    if 0 <= start < rgb.len() && 0 < stride_bytes {
        let rest = rows_text(rgb, start + stride_bytes, row_bytes, stride_bytes, sample_x);
        row_text(rgb, start, row_end(rgb.len() as int, start, row_bytes), sample_x).push(ROW_END)
            + rest
    } else {
        Seq::empty()
    }
}

/// The text frame of a pixel buffer whose rows are `width` pixels wide, when
/// every `sample_y`-th row and in it every `sample_x`-th pixel is kept.
pub open spec fn frame_text(rgb: Seq<u8>, width: int, sample_x: int, sample_y: int) -> Seq<char> {
    rows_text(rgb, 0, 3 * width, 3 * width * sample_y, sample_x)
}

/// Whether a configuration can drive the encoder: the source has a width
/// whose row fits the address space, and both strides are at least one.
pub open spec fn encodable(cfg: &Config) -> bool {
    &&& 0 < cfg.video_size.0
    &&& 3 * cfg.video_size.0 <= usize::MAX
    &&& 1 <= cfg.sampling_rate.0
    &&& 1 <= cfg.sampling_rate.1
}

/// The rows of a text frame, without their ends: the rows that start at byte
/// `start`, `start` plus `stride_bytes`, and so on.
pub open spec fn rows_lines(
    rgb: Seq<u8>,
    start: int,
    row_bytes: int,
    stride_bytes: int,
    sample_x: int,
) -> Seq<Seq<char>>
    decreases (if start < rgb.len() { rgb.len() - start } else { 0 }),
{
    if 0 <= start < rgb.len() && 0 < stride_bytes {
        let rest = rows_lines(rgb, start + stride_bytes, row_bytes, stride_bytes, sample_x);
        seq![row_text(rgb, start, row_end(rgb.len() as int, start, row_bytes), sample_x)] + rest
    } else {
        Seq::empty()
    }
}

/// The rows of the text frame of a pixel buffer, without their ends.
pub open spec fn frame_lines(rgb: Seq<u8>, width: int, sample_x: int, sample_y: int) -> Seq<
    Seq<char>,
> {
    rows_lines(rgb, 0, 3 * width, 3 * width * sample_y, sample_x)
}

/// The text made of `lines`, each followed by `ROW_END`.
pub open spec fn joined(lines: Seq<Seq<char>>) -> Seq<char>
    decreases lines.len(),
{
    if lines.len() == 0 {
        Seq::empty()
    } else {
        lines[0].push(ROW_END) + joined(lines.drop_first())
    }
}

/// The character at `index` of the palette.
fn palette_char(index: usize) -> (c: char)
    requires
        index < PALETTE_LEN,
    ensures
        c == CHAR_MAP@[index as int],
{
    proof {
        reveal_strlit(" ,\":;Il!i~+_-?][}{1)(|\\/tfjrxnuvczXYUJCLQ0OZmwqpdbkhao*#MW&8%B@$");
    }
    CHAR_MAP.get_char(index)
}

/// The character that stands for the pixel in the first three bytes of
/// `pixel`: red, green, blue.
pub fn rgb_to_ascii_char(pixel: &[u8]) -> (c: char)
    requires
        pixel@.len() >= 3,
    ensures
        c == pixel_char(pixel@[0], pixel@[1], pixel@[2]),
{
    let y: usize = RED_WEIGHT * (pixel[0] as usize) + GREEN_WEIGHT * (pixel[1] as usize)
        + BLUE_WEIGHT * (pixel[2] as usize);
    let top: usize = PALETTE_LEN - 1;
    assert(y <= MAX_LUMINANCE && top == 63);
    let index: usize = y * top / MAX_LUMINANCE;
    palette_char(index)
}

/// Appends one character to a string, by `String::push`: the text afterwards
/// is the text before with `c` at its end.
#[verifier::external_body]
fn push_char(text: &mut String, c: char)
    ensures
        final(text)@ == old(text)@.push(c),
{
    text.push(c)
}

/// Appends to `buff` the characters of the sampled pixels of the row that
/// lies in the bytes from `start` to `end`.
fn encode_row(rgb: &[u8], start: usize, end: usize, sample_x: usize, buff: &mut String)
    requires
        start <= end <= rgb@.len(),
        1 <= sample_x,
    ensures
        final(buff)@ == old(buff)@ + row_text(rgb@, start as int, end as int, sample_x as int),
{
    let mut pos: usize = start;
    while end - pos >= 3
        invariant
            start <= pos <= end <= rgb@.len(),
            1 <= sample_x,
            buff@ + row_text(rgb@, pos as int, end as int, sample_x as int) == old(buff)@
                + row_text(rgb@, start as int, end as int, sample_x as int),
        decreases end - pos,
    {
        let ghost before = buff@;
        let ghost here = pos as int;
        let c = rgb_to_ascii_char(slice_subrange(rgb, pos, pos + 3));
        push_char(buff, c);
        let next: usize = match sample_x.checked_mul(3) {
            Some(step) => if end - pos > step {
                pos + step
            } else {
                end
            },
            None => end,
        };
        proof {
            let rest = row_text(rgb@, here + pixel_step(sample_x as int), end as int, sample_x as int);
            assert(row_text(rgb@, next as int, end as int, sample_x as int) == rest);
            assert(before.push(c) + rest =~= before + (seq![c] + rest));
        }
        pos = next;
    }
    assert(row_text(rgb@, pos as int, end as int, sample_x as int) =~= Seq::<char>::empty());
    assert(buff@ + Seq::<char>::empty() =~= buff@);
}

/// Appends to `buff` the text frame of the pixel buffer `rgb`: of every
/// `sampling_rate.1`-th row of `video_size.0` pixels the character of every
/// `sampling_rate.0`-th pixel, and `ROW_END` after each row. A last row that
/// is cut short is encoded as far as it has whole pixels.
pub fn rgb_to_ascii_buff(rgb: &[u8], cfg: &Config, buff: &mut String)
    requires
        encodable(cfg),
    ensures
        final(buff)@ == old(buff)@ + frame_text(
            rgb@,
            cfg.video_size.0 as int,
            cfg.sampling_rate.0 as int,
            cfg.sampling_rate.1 as int,
        ),
{
    let len: usize = rgb.len();
    let row_bytes: usize = 3 * cfg.video_size.0;
    let stride = row_bytes.checked_mul(cfg.sampling_rate.1);
    let ghost stride_bytes: int = 3 * cfg.video_size.0 * cfg.sampling_rate.1;
    let ghost sample_x: int = cfg.sampling_rate.0 as int;
    assert(stride_bytes >= row_bytes && stride_bytes == row_bytes * cfg.sampling_rate.1)
        by (nonlinear_arith)
        requires
            stride_bytes == 3 * cfg.video_size.0 * cfg.sampling_rate.1,
            row_bytes == 3 * cfg.video_size.0,
            cfg.sampling_rate.1 >= 1,
    ;
    let mut start: usize = 0;
    while start < len
        invariant
            start <= len == rgb@.len(),
            encodable(cfg),
            row_bytes == 3 * cfg.video_size.0,
            sample_x == cfg.sampling_rate.0,
            stride_bytes == row_bytes * cfg.sampling_rate.1,
            stride_bytes >= row_bytes > 0,
            stride matches Some(s) ==> s == stride_bytes,
            stride is None ==> stride_bytes > usize::MAX,
            buff@ + rows_text(rgb@, start as int, row_bytes as int, stride_bytes, sample_x)
                == old(buff)@ + rows_text(rgb@, 0, row_bytes as int, stride_bytes, sample_x),
        decreases len - start,
    {
        let ghost before = buff@;
        let ghost here = start as int;
        let end: usize = if len - start > row_bytes {
            start + row_bytes
        } else {
            len
        };
        encode_row(rgb, start, end, cfg.sampling_rate.0, buff);
        push_char(buff, ROW_END);
        let next: usize = match stride {
            Some(step) => if len - start > step {
                start + step
            } else {
                len
            },
            None => len,
        };
        proof {
            let row = row_text(rgb@, here, end as int, sample_x);
            let rest = rows_text(rgb@, here + stride_bytes, row_bytes as int, stride_bytes, sample_x);
            assert(rows_text(rgb@, next as int, row_bytes as int, stride_bytes, sample_x) == rest);
            assert((before + row).push(ROW_END) + rest =~= before + (row.push(ROW_END) + rest));
        }
        start = next;
    }
    assert(rows_text(rgb@, start as int, row_bytes as int, stride_bytes, sample_x)
        =~= Seq::<char>::empty());
    assert(buff@ + Seq::<char>::empty() =~= buff@);
}

/// The text frame of the pixel buffer `rgb`, as `rgb_to_ascii_buff` appends
/// it, in a string of its own.
pub fn rgb_to_ascii(rgb: &[u8], cfg: &Config) -> (frame: String)
    requires
        encodable(cfg),
    ensures
        frame@ == frame_text(
            rgb@,
            cfg.video_size.0 as int,
            cfg.sampling_rate.0 as int,
            cfg.sampling_rate.1 as int,
        ),
{
    let mut frame_str = String::new();
    rgb_to_ascii_buff(rgb, cfg, &mut frame_str);
    assert(Seq::<char>::empty() + frame_text(
        rgb@,
        cfg.video_size.0 as int,
        cfg.sampling_rate.0 as int,
        cfg.sampling_rate.1 as int,
    ) =~= frame_text(
        rgb@,
        cfg.video_size.0 as int,
        cfg.sampling_rate.0 as int,
        cfg.sampling_rate.1 as int,
    ));
    frame_str
}

/// The palette runs from a blank to a dollar sign and holds no row end.
pub proof fn lemma_palette()
    ensures
        CHAR_MAP@.len() == PALETTE_LEN,
        CHAR_MAP@[0] == ' ',
        CHAR_MAP@[PALETTE_LEN - 1] == '$',
        forall|i: int| 0 <= i < PALETTE_LEN ==> #[trigger] CHAR_MAP@[i] != ROW_END,
{
    reveal_strlit(" ,\":;Il!i~+_-?][}{1)(|\\/tfjrxnuvczXYUJCLQ0OZmwqpdbkhao*#MW&8%B@$");
}

/// Every pixel has a place in the palette, a black pixel the first and a
/// white pixel the last.
pub proof fn lemma_palette_index_range(r: u8, g: u8, b: u8)
    ensures
        0 <= palette_index(r, g, b) < PALETTE_LEN,
        palette_index(0, 0, 0) == 0,
        palette_index(255, 255, 255) == PALETTE_LEN - 1,
        pixel_char(0, 0, 0) == ' ',
        pixel_char(255, 255, 255) == '$',
        pixel_char(r, g, b) != ROW_END,
{
    lemma_palette();
    let y = luminance(r, g, b);
    assert(y == 21 * r + 72 * g + 7 * b);
    assert(palette_index(r, g, b) == y * 63 / 25500);
    assert(luminance(0, 0, 0) == 0);
    assert(palette_index(0, 0, 0) == 0int * 63 / 25500);
    assert(luminance(255, 255, 255) == 25500);
    assert(palette_index(255, 255, 255) == 25500int * 63 / 25500);
}

/// In the text of a row of a buffer whose every byte is `value`, every
/// character is the character of the pixel with that value in each channel.
pub proof fn lemma_uniform_row(rgb: Seq<u8>, pos: int, end: int, sample_x: int, value: u8)
    requires
        forall|i: int| 0 <= i < rgb.len() ==> rgb[i] == value,
    ensures
        forall|k: int|
            0 <= k < row_text(rgb, pos, end, sample_x).len() ==> #[trigger] row_text(
                rgb,
                pos,
                end,
                sample_x,
            )[k] == pixel_char(value, value, value),
    decreases (if pos < end { end - pos } else { 0 }),
{
    if 0 <= pos && pos + 3 <= end && end <= rgb.len() {
        lemma_uniform_row(rgb, pos + pixel_step(sample_x), end, sample_x, value);
        let rest = row_text(rgb, pos + pixel_step(sample_x), end, sample_x);
        let all = row_text(rgb, pos, end, sample_x);
        assert forall|k: int| 0 <= k < all.len() implies all[k] == pixel_char(
            value,
            value,
            value,
        ) by {
            if k > 0 {
                assert(all[k] == rest[k - 1]);
            }
        }
    }
}

/// A uniform buffer gives a uniform frame: every sampled position of every
/// row shows the character of the one pixel value, so the darkest character
/// for black and the brightest for white.
pub proof fn lemma_uniform_frame(
    rgb: Seq<u8>,
    width: int,
    sample_x: int,
    sample_y: int,
    value: u8,
)
    requires
        forall|i: int| 0 <= i < rgb.len() ==> rgb[i] == value,
    ensures
        forall|j: int, k: int|
            0 <= j < frame_lines(rgb, width, sample_x, sample_y).len() && 0 <= k < frame_lines(
                rgb,
                width,
                sample_x,
                sample_y,
            )[j].len() ==> #[trigger] frame_lines(rgb, width, sample_x, sample_y)[j][k]
                == pixel_char(value, value, value),
        value == 0 ==> pixel_char(value, value, value) == ' ',
        value == 255 ==> pixel_char(value, value, value) == '$',
{
    lemma_palette_index_range(value, value, value);
    lemma_uniform_lines(rgb, 0, 3 * width, 3 * width * sample_y, sample_x, value);
}

/// `lemma_uniform_frame`, for the rows from byte `start` on.
proof fn lemma_uniform_lines(
    rgb: Seq<u8>,
    start: int,
    row_bytes: int,
    stride_bytes: int,
    sample_x: int,
    value: u8,
)
    requires
        forall|i: int| 0 <= i < rgb.len() ==> rgb[i] == value,
    ensures
        forall|j: int, k: int|
            0 <= j < rows_lines(rgb, start, row_bytes, stride_bytes, sample_x).len() && 0 <= k
                < rows_lines(rgb, start, row_bytes, stride_bytes, sample_x)[j].len()
                ==> #[trigger] rows_lines(rgb, start, row_bytes, stride_bytes, sample_x)[j][k]
                == pixel_char(value, value, value),
    decreases (if start < rgb.len() { rgb.len() - start } else { 0 }),
{
    if 0 <= start < rgb.len() && 0 < stride_bytes {
        let end = row_end(rgb.len() as int, start, row_bytes);
        lemma_uniform_row(rgb, start, end, sample_x, value);
        lemma_uniform_lines(rgb, start + stride_bytes, row_bytes, stride_bytes, sample_x, value);
        let rest = rows_lines(rgb, start + stride_bytes, row_bytes, stride_bytes, sample_x);
        let all = rows_lines(rgb, start, row_bytes, stride_bytes, sample_x);
        assert forall|j: int, k: int| 0 <= j < all.len() && 0 <= k < all[j].len() implies all[j][k]
            == pixel_char(value, value, value) by {
            if j > 0 {
                assert(all[j] == rest[j - 1]);
            }
        }
    }
}

/// A text frame is its rows, each followed by `ROW_END`.
pub proof fn lemma_frame_is_joined_lines(rgb: Seq<u8>, width: int, sample_x: int, sample_y: int)
    ensures
        frame_text(rgb, width, sample_x, sample_y) == joined(
            frame_lines(rgb, width, sample_x, sample_y),
        ),
{
    lemma_rows_are_joined_lines(rgb, 0, 3 * width, 3 * width * sample_y, sample_x);
}

/// `lemma_frame_is_joined_lines`, for the rows from byte `start` on.
proof fn lemma_rows_are_joined_lines(
    rgb: Seq<u8>,
    start: int,
    row_bytes: int,
    stride_bytes: int,
    sample_x: int,
)
    ensures
        rows_text(rgb, start, row_bytes, stride_bytes, sample_x) == joined(
            rows_lines(rgb, start, row_bytes, stride_bytes, sample_x),
        ),
    decreases (if start < rgb.len() { rgb.len() - start } else { 0 }),
{
    if 0 <= start < rgb.len() && 0 < stride_bytes {
        lemma_rows_are_joined_lines(rgb, start + stride_bytes, row_bytes, stride_bytes, sample_x);
        let rest = rows_lines(rgb, start + stride_bytes, row_bytes, stride_bytes, sample_x);
        let all = rows_lines(rgb, start, row_bytes, stride_bytes, sample_x);
        assert(all.drop_first() =~= rest);
    }
}

/// Rounding a quotient up: `sampled(a, b)` is the one number `q` with
/// `(q - 1) * b < a <= q * b`.
pub proof fn lemma_sampled_is_rounded_up(a: int, b: int, q: int)
    requires
        0 < b,
    ensures
        (q - 1) * b < a <= q * b <==> sampled(a, b) == q,
{
    lemma_fundamental_div_mod(a + b - 1, b);
    let got = sampled(a, b);
    let m = (a + b - 1) % b;
    assert((got - 1) * b < a <= got * b) by (nonlinear_arith)
        requires
            a + b - 1 == b * got + m,
            0 <= m < b,
    ;
    if (q - 1) * b < a <= q * b {
        let r = a + b - 1 - q * b;
        assert(0 <= r < b) by (nonlinear_arith)
            requires
                (q - 1) * b < a <= q * b,
                r == a + b - 1 - q * b,
        ;
        lemma_fundamental_div_mod_converse(a + b - 1, b, q, r);
    }
}

/// Byte at which the pixel starts that gives a row its character at place
/// `i`, for a row that starts at byte `pos`.
pub open spec fn sample_start(pos: int, i: int, sample_x: int) -> int {
    pos + 3 * (i * sample_x)
}

/// The characters of a row, one by one. A row of `n` whole pixels gives
/// `sampled(n, sample_x)` characters, and the character at place `i` is that
/// of the pixel in column `i * sample_x`.
pub proof fn lemma_row_text_samples_columns(rgb: Seq<u8>, pos: int, end: int, sample_x: int)
    requires
        0 <= pos <= end <= rgb.len(),
        1 <= sample_x,
    ensures
        row_text(rgb, pos, end, sample_x).len() == sampled((end - pos) / 3, sample_x),
        forall|i: int|
            0 <= i < row_text(rgb, pos, end, sample_x).len() ==> pos <= #[trigger] sample_start(
                pos,
                i,
                sample_x,
            ) && sample_start(pos, i, sample_x) + 3 <= end && row_text(
                rgb,
                pos,
                end,
                sample_x,
            )[i] == pixel_char(
                rgb[sample_start(pos, i, sample_x)],
                rgb[sample_start(pos, i, sample_x) + 1],
                rgb[sample_start(pos, i, sample_x) + 2],
            ),
    decreases end - pos,
{
    let pixels = (end - pos) / 3;
    let all = row_text(rgb, pos, end, sample_x);
    if pos + 3 <= end {
        let next = pos + 3 * sample_x;
        let rest = row_text(rgb, next, end, sample_x);
        if next <= end {
            lemma_row_text_samples_columns(rgb, next, end, sample_x);
            let q = sampled(pixels - sample_x, sample_x);
            assert((end - next) / 3 == pixels - sample_x);
            lemma_sampled_is_rounded_up(pixels - sample_x, sample_x, q);
            assert(q * sample_x < pixels <= (q + 1) * sample_x) by (nonlinear_arith)
                requires
                    (q - 1) * sample_x < pixels - sample_x <= q * sample_x,
            ;
            lemma_sampled_is_rounded_up(pixels, sample_x, q + 1);
        } else {
            assert(rest.len() == 0);
            assert((1 - 1) * sample_x < pixels <= 1 * sample_x) by (nonlinear_arith)
                requires
                    0 < pixels <= sample_x,
            ;
            lemma_sampled_is_rounded_up(pixels, sample_x, 1);
        }
        assert forall|i: int| 0 <= i < all.len() implies (pos <= #[trigger] sample_start(
            pos,
            i,
            sample_x,
        ) && sample_start(pos, i, sample_x) + 3 <= end && all[i] == pixel_char(
            rgb[sample_start(pos, i, sample_x)],
            rgb[sample_start(pos, i, sample_x) + 1],
            rgb[sample_start(pos, i, sample_x) + 2],
        )) by {
            if i > 0 {
                assert(all[i] == rest[i - 1]);
                assert(0 <= i - 1 < rest.len());
                assert(next <= sample_start(next, i - 1, sample_x));
                assert(sample_start(next, i - 1, sample_x) == sample_start(pos, i, sample_x))
                    by (nonlinear_arith)
                    requires
                        next == pos + 3 * sample_x,
                        sample_start(next, i - 1, sample_x) == next + 3 * ((i - 1) * sample_x),
                        sample_start(pos, i, sample_x) == pos + 3 * (i * sample_x),
                ;
            } else {
                assert(i * sample_x == 0);
                assert(sample_start(pos, i, sample_x) == pos);
            }
        }
    } else {
        lemma_sampled_is_rounded_up(0, sample_x, 0);
    }
}

/// How many rows the text of the rows from byte `start` on has: every
/// `stride_bytes`-th byte below the end of the buffer starts one.
proof fn lemma_rows_count(
    rgb: Seq<u8>,
    start: int,
    row_bytes: int,
    stride_bytes: int,
    sample_x: int,
)
    requires
        0 <= start,
        0 < stride_bytes,
    ensures
        rows_lines(rgb, start, row_bytes, stride_bytes, sample_x).len() == (if start < rgb.len() {
            sampled(rgb.len() - start, stride_bytes)
        } else {
            0
        }),
    decreases (if start < rgb.len() { rgb.len() - start } else { 0 }),
{
    if start < rgb.len() {
        let next = start + stride_bytes;
        lemma_rows_count(rgb, next, row_bytes, stride_bytes, sample_x);
        let left = rgb.len() - start;
        if next < rgb.len() {
            let q = sampled(left - stride_bytes, stride_bytes);
            lemma_sampled_is_rounded_up(left - stride_bytes, stride_bytes, q);
            assert(q * stride_bytes < left <= (q + 1) * stride_bytes) by (nonlinear_arith)
                requires
                    (q - 1) * stride_bytes < left - stride_bytes <= q * stride_bytes,
            ;
            lemma_sampled_is_rounded_up(left, stride_bytes, q + 1);
        } else {
            assert((1 - 1) * stride_bytes < left <= 1 * stride_bytes) by (nonlinear_arith)
                requires
                    0 < left <= stride_bytes,
            ;
            lemma_sampled_is_rounded_up(left, stride_bytes, 1);
        }
    }
}

/// The row count of a text frame. A buffer of `rgb.len()` bytes has
/// `sampled(rgb.len(), 3 * width)` rows, the last one perhaps cut short; of
/// these every `sample_y`-th is kept, the first included, whether or not the
/// stride divides their number.
pub proof fn lemma_frame_row_count(rgb: Seq<u8>, width: int, sample_x: int, sample_y: int)
    requires
        0 < width,
        0 < sample_y,
    ensures
        frame_lines(rgb, width, sample_x, sample_y).len() == sampled(
            sampled(rgb.len() as int, 3 * width),
            sample_y,
        ),
{
    let len = rgb.len() as int;
    let row_bytes = 3 * width;
    let stride_bytes = 3 * width * sample_y;
    assert(stride_bytes == row_bytes * sample_y && stride_bytes > 0) by (nonlinear_arith)
        requires
            stride_bytes == 3 * width * sample_y,
            row_bytes == 3 * width,
            0 < width,
            0 < sample_y,
    ;
    lemma_rows_count(rgb, 0, row_bytes, stride_bytes, sample_x);
    let lines = frame_lines(rgb, width, sample_x, sample_y);
    assert(lines == rows_lines(rgb, 0, row_bytes, stride_bytes, sample_x));
    let rows = sampled(len, row_bytes);
    lemma_sampled_is_rounded_up(len, row_bytes, rows);
    if len == 0 {
        assert(rows == 0) by {
            lemma_sampled_is_rounded_up(0, row_bytes, 0);
        }
        lemma_sampled_is_rounded_up(0, sample_y, 0);
        assert(sampled(rows, sample_y) == 0);
        assert(lines.len() == 0);
    } else {
        let q = sampled(len, stride_bytes);
        lemma_sampled_is_rounded_up(len, stride_bytes, q);
        assert((q - 1) * sample_y < rows <= q * sample_y) by (nonlinear_arith)
            requires
                (q - 1) * stride_bytes < len <= q * stride_bytes,
                (rows - 1) * row_bytes < len <= rows * row_bytes,
                stride_bytes == row_bytes * sample_y,
                0 < row_bytes,
                0 < sample_y,
        ;
        lemma_sampled_is_rounded_up(rows, sample_y, q);
        assert(lines.len() == q);
        assert(sampled(rows, sample_y) == q);
    }
}

/// Length of a text whose rows all have `columns` characters: one more than
/// that for each row.
proof fn lemma_joined_len(lines: Seq<Seq<char>>, columns: int)
    requires
        forall|j: int| 0 <= j < lines.len() ==> (#[trigger] lines[j]).len() == columns,
    ensures
        joined(lines).len() == lines.len() * (columns + 1),
    decreases lines.len(),
{
    if lines.len() > 0 {
        let rest = lines.drop_first();
        assert forall|j: int| 0 <= j < rest.len() implies (#[trigger] rest[j]).len()
            == columns by {
            assert(rest[j] == lines[j + 1]);
        }
        lemma_joined_len(rest, columns);
        assert(lines.len() * (columns + 1) == rest.len() * (columns + 1) + (columns + 1))
            by (nonlinear_arith)
            requires
                lines.len() == rest.len() + 1,
        ;
    } else {
        assert(lines.len() * (columns + 1) == 0) by (nonlinear_arith)
            requires
                lines.len() == 0,
        ;
    }
}

/// In a buffer of whole rows every kept row has all its columns: from a row
/// boundary on, with `left` whole rows to the end of the buffer, each row of
/// the text has `sampled(width, sample_x)` characters.
proof fn lemma_whole_rows(
    rgb: Seq<u8>,
    start: int,
    width: int,
    sample_x: int,
    sample_y: int,
    left: int,
)
    requires
        0 <= start,
        0 < width,
        1 <= sample_x,
        1 <= sample_y,
        rgb.len() - start == 3 * width * left,
    ensures
        forall|j: int|
            0 <= j < rows_lines(rgb, start, 3 * width, 3 * width * sample_y, sample_x).len() ==> (
            #[trigger] rows_lines(rgb, start, 3 * width, 3 * width * sample_y, sample_x)[j]).len()
                == sampled(width, sample_x),
    decreases (if start < rgb.len() { rgb.len() - start } else { 0 }),
{
    let row_bytes = 3 * width;
    let stride_bytes = 3 * width * sample_y;
    let all = rows_lines(rgb, start, row_bytes, stride_bytes, sample_x);
    assert(stride_bytes >= row_bytes) by (nonlinear_arith)
        requires
            stride_bytes == 3 * width * sample_y,
            row_bytes == 3 * width,
            0 < width,
            1 <= sample_y,
    ;
    if start < rgb.len() {
        assert(left >= 1 && 3 * width * left >= 3 * width && 3 * width * (left - sample_y) == 3
            * width * left - 3 * width * sample_y) by (nonlinear_arith)
            requires
                3 * width * left > 0,
                0 < width,
        ;
        let end = row_end(rgb.len() as int, start, row_bytes);
        assert(end == start + row_bytes);
        lemma_row_text_samples_columns(rgb, start, end, sample_x);
        let next = start + stride_bytes;
        let rest = rows_lines(rgb, next, row_bytes, stride_bytes, sample_x);
        if next < rgb.len() {
            lemma_whole_rows(rgb, next, width, sample_x, sample_y, left - sample_y);
        }
        assert forall|j: int| 0 <= j < all.len() implies (#[trigger] all[j]).len() == sampled(
            width,
            sample_x,
        ) by {
            if j > 0 {
                assert(all[j] == rest[j - 1]);
            }
        }
    }
}

/// Length of the text frame of a whole picture of `width` by `height` pixels:
/// one character for each sampled pixel and one row end for each sampled row.
pub proof fn lemma_whole_picture_length(
    rgb: Seq<u8>,
    width: int,
    height: int,
    sample_x: int,
    sample_y: int,
)
    requires
        0 < width,
        0 <= height,
        1 <= sample_x,
        1 <= sample_y,
        rgb.len() == 3 * width * height,
    ensures
        frame_lines(rgb, width, sample_x, sample_y).len() == sampled(height, sample_y),
        frame_text(rgb, width, sample_x, sample_y).len() == (sampled(width, sample_x) + 1)
            * sampled(height, sample_y),
{
    let lines = frame_lines(rgb, width, sample_x, sample_y);
    lemma_frame_row_count(rgb, width, sample_x, sample_y);
    assert((height - 1) * (3 * width) < 3 * width * height <= height * (3 * width))
        by (nonlinear_arith)
        requires
            0 < width,
    ;
    lemma_sampled_is_rounded_up(rgb.len() as int, 3 * width, height);
    lemma_whole_rows(rgb, 0, width, sample_x, sample_y, height);
    lemma_joined_len(lines, sampled(width, sample_x));
    lemma_frame_is_joined_lines(rgb, width, sample_x, sample_y);
    assert(lines.len() * (sampled(width, sample_x) + 1) == (sampled(width, sample_x) + 1)
        * sampled(height, sample_y)) by (nonlinear_arith)
        requires
            lines.len() == sampled(height, sample_y),
    ;
}

/// The size that a configuration records for one text frame is the length of
/// the text frame of a whole picture, where that length fits the machine word.
pub proof fn lemma_frame_size_is_whole_picture_length(
    rgb: Seq<u8>,
    width: int,
    height: int,
    sample_x: int,
    sample_y: int,
)
    requires
        0 < width,
        0 <= height,
        1 <= sample_x,
        1 <= sample_y,
        rgb.len() == 3 * width * height,
    ensures
        frame_text(rgb, width, sample_x, sample_y).len() <= usize::MAX ==> frame_text(
            rgb,
            width,
            sample_x,
            sample_y,
        ).len() == frame_size_of(width, height, sample_x, sample_y),
{
    lemma_whole_picture_length(rgb, width, height, sample_x, sample_y);
}

} // verus!
