//! Frame post-processing helpers the renderer applies to RGBA byte
//! buffers: bright-area extraction and a box-blur bloom pass. Pure byte
//! arithmetic, verified against per-byte specifications.

use vstd::prelude::*;

verus! {

/// Frame width, in pixels.
pub const WIDTH: usize = 1200;

/// Frame height, in pixels.
pub const HEIGHT: usize = 800;

/// Average channel value above which a pixel counts as bright.
pub const BRIGHTNESS_THRESHOLD: u8 = 100;

/// Number of blur passes applied by the bloom stage.
pub const BLUR_RADIUS: usize = 5;

/// Average of the three color channels of the pixel group starting at
/// byte `4 * p`.
pub open spec fn pixel_brightness(s: Seq<u8>, p: int) -> int {
    (s[4 * p] + s[4 * p + 1] + s[4 * p + 2]) / 3
}

/// Byte `idx` of the bright-area extraction: bright pixels keep their
/// color and become opaque, all others become transparent black, and any
/// trailing bytes of a partial pixel group stay zero.
pub open spec fn bright_out(s: Seq<u8>, idx: int) -> u8 {
    let p = idx / 4;
    if idx < 4 * (s.len() / 4) && pixel_brightness(s, p) > BRIGHTNESS_THRESHOLD {
        if idx % 4 == 3 {
            255u8
        } else {
            s[idx]
        }
    } else {
        0u8
    }
}

/// Keep only the bright pixels of an RGBA frame: pixels whose average
/// channel value exceeds the threshold keep their color at full alpha,
/// everything else goes transparent black.
pub fn extract_bright_areas(frame: &[u8]) -> (out: Vec<u8>)
    ensures
        out@.len() == frame@.len(),
        forall|idx: int| 0 <= idx < frame@.len() ==> out@[idx] == bright_out(frame@, idx),
{
    let len = frame.len();
    let mut bright_areas: Vec<u8> = vec![0u8; len];
    let groups = len / 4;
    let mut p: usize = 0;
    while p < groups
        invariant
            len == frame@.len(),
            groups == len as int / 4,
            p <= groups,
            bright_areas@.len() == len,
            forall|idx: int| 0 <= idx < 4 * p ==> bright_areas@[idx] == bright_out(frame@, idx),
            forall|idx: int| 4 * p <= idx < len ==> bright_areas@[idx] == 0,
        decreases groups - p,
    {
        let r = frame[4 * p];
        let g = frame[4 * p + 1];
        let b = frame[4 * p + 2];
        let brightness: u32 = (r as u32 + g as u32 + b as u32) / 3;
        if brightness as u8 > BRIGHTNESS_THRESHOLD {
            bright_areas[4 * p] = r;
            bright_areas[4 * p + 1] = g;
            bright_areas[4 * p + 2] = b;
            bright_areas[4 * p + 3] = 255;
        } else {
            bright_areas[4 * p] = 0;
            bright_areas[4 * p + 1] = 0;
            bright_areas[4 * p + 2] = 0;
            bright_areas[4 * p + 3] = 0;
        }
        proof {
            assert forall|idx: int| 0 <= idx < 4 * (p + 1) implies bright_areas@[idx]
                == bright_out(frame@, idx) by {
                if idx >= 4 * p {
                    assert(idx / 4 == p && idx < 4 * (frame@.len() / 4)) by (nonlinear_arith)
                        requires
                            4 * p <= idx < 4 * (p + 1),
                            p < groups,
                            groups == frame@.len() as int / 4;
                    assert(idx % 4 == idx - 4 * p) by (nonlinear_arith)
                        requires
                            4 * p <= idx < 4 * (p + 1);
                }
            }
        }
        p += 1;
    }
    proof {
        assert forall|idx: int| 4 * groups <= idx < len implies bright_out(frame@, idx)
            == 0u8 by {}
    }
    bright_areas
}

/// The channel value at `(x, y)` if the coordinates are on the frame,
/// otherwise zero (and not counted).
pub open spec fn cell(s: Seq<u8>, x: int, y: int, ch: int) -> int {
    if 0 <= x < WIDTH && 0 <= y < HEIGHT {
        s[4 * (y * WIDTH + x) + ch] as int
    } else {
        0
    }
}

/// Whether `(x, y)` is on the frame.
pub open spec fn on_frame(x: int, y: int) -> bool {
    0 <= x < WIDTH && 0 <= y < HEIGHT
}

/// Sum of a channel over the 3-by-3 neighborhood of `(x, y)`, off-frame
/// cells excluded.
pub open spec fn neighbor_sum(s: Seq<u8>, x: int, y: int, ch: int) -> int {
    cell(s, x - 1, y - 1, ch) + cell(s, x, y - 1, ch) + cell(s, x + 1, y - 1, ch) + cell(
        s,
        x - 1,
        y,
        ch,
    ) + cell(s, x, y, ch) + cell(s, x + 1, y, ch) + cell(s, x - 1, y + 1, ch) + cell(
        s,
        x,
        y + 1,
        ch,
    ) + cell(s, x + 1, y + 1, ch)
}

/// How many of those neighbors are on the frame.
pub open spec fn neighbor_count(x: int, y: int) -> int {
    (if on_frame(x - 1, y - 1) {
        1int
    } else {
        0int
    }) + (if on_frame(x, y - 1) {
        1int
    } else {
        0int
    }) + (if on_frame(x + 1, y - 1) {
        1int
    } else {
        0int
    }) + (if on_frame(x - 1, y) {
        1int
    } else {
        0int
    }) + (if on_frame(x, y) {
        1int
    } else {
        0int
    }) + (if on_frame(x + 1, y) {
        1int
    } else {
        0int
    }) + (if on_frame(x - 1, y + 1) {
        1int
    } else {
        0int
    }) + (if on_frame(x, y + 1) {
        1int
    } else {
        0int
    }) + (if on_frame(x + 1, y + 1) {
        1int
    } else {
        0int
    })
}

/// Byte `idx` after one blur pass over frame `s`, with `alpha` the buffer
/// whose alpha channel the pass copies through: color channels become the
/// truncated neighborhood average, alpha is taken from `alpha` unchanged.
pub open spec fn blur_byte(s: Seq<u8>, alpha: Seq<u8>, idx: int) -> u8 {
    let p = idx / 4;
    let ch = idx % 4;
    let x = p % (WIDTH as int);
    let y = p / (WIDTH as int);
    if ch == 3 {
        alpha[idx]
    } else {
        (neighbor_sum(s, x, y, ch) / neighbor_count(x, y)) as u8
    }
}

/// One blur pass over a full frame.
pub open spec fn blur_pass(s: Seq<u8>, alpha: Seq<u8>) -> Seq<u8> {
    Seq::new(s.len(), |idx: int| blur_byte(s, alpha, idx))
}

/// `k` blur passes over a full frame, alpha pinned to the input's.
pub open spec fn blur_iter(s: Seq<u8>, k: int) -> Seq<u8>
    decreases k,
{
    if k <= 0 {
        s
    } else {
        blur_pass(blur_iter(s, k - 1), s)
    }
}

/// One channel byte of an on-frame cell.
fn cell_val(buf: &Vec<u8>, xx: usize, yy: usize, ch: usize) -> (v: u8)
    requires
        buf@.len() == 4 * WIDTH * HEIGHT,
        xx < WIDTH,
        yy < HEIGHT,
        ch < 4,
    ensures
        v as int == cell(buf@, xx as int, yy as int, ch as int),
{
    buf[4 * (yy * WIDTH + xx) + ch]
}

/// Channel sums and population of the 3-by-3 neighborhood of `(x, y)`.
#[verifier::rlimit(100)]
fn neighborhood(buf: &Vec<u8>, x: usize, y: usize) -> (res: (u32, u32, u32, u32))
    requires
        buf@.len() == 4 * WIDTH * HEIGHT,
        x < WIDTH,
        y < HEIGHT,
    ensures
        res.0 == neighbor_sum(buf@, x as int, y as int, 0),
        res.1 == neighbor_sum(buf@, x as int, y as int, 1),
        res.2 == neighbor_sum(buf@, x as int, y as int, 2),
        res.3 == neighbor_count(x as int, y as int),
        1 <= res.3 <= 9,
        res.0 <= res.3 * 255,
        res.1 <= res.3 * 255,
        res.2 <= res.3 * 255,
{
    let mut sr: u32 = 0;
    let mut sg: u32 = 0;
    let mut sb: u32 = 0;
    let mut cnt: u32 = 0;
    if y > 0 {
        if x > 0 {
            sr = sr + cell_val(buf, x - 1, y - 1, 0) as u32;
            sg = sg + cell_val(buf, x - 1, y - 1, 1) as u32;
            sb = sb + cell_val(buf, x - 1, y - 1, 2) as u32;
            cnt = cnt + 1;
        }
        sr = sr + cell_val(buf, x, y - 1, 0) as u32;
        sg = sg + cell_val(buf, x, y - 1, 1) as u32;
        sb = sb + cell_val(buf, x, y - 1, 2) as u32;
        cnt = cnt + 1;
        if x + 1 < WIDTH {
            sr = sr + cell_val(buf, x + 1, y - 1, 0) as u32;
            sg = sg + cell_val(buf, x + 1, y - 1, 1) as u32;
            sb = sb + cell_val(buf, x + 1, y - 1, 2) as u32;
            cnt = cnt + 1;
        }
    }
    if x > 0 {
        sr = sr + cell_val(buf, x - 1, y, 0) as u32;
        sg = sg + cell_val(buf, x - 1, y, 1) as u32;
        sb = sb + cell_val(buf, x - 1, y, 2) as u32;
        cnt = cnt + 1;
    }
    sr = sr + cell_val(buf, x, y, 0) as u32;
    sg = sg + cell_val(buf, x, y, 1) as u32;
    sb = sb + cell_val(buf, x, y, 2) as u32;
    cnt = cnt + 1;
    if x + 1 < WIDTH {
        sr = sr + cell_val(buf, x + 1, y, 0) as u32;
        sg = sg + cell_val(buf, x + 1, y, 1) as u32;
        sb = sb + cell_val(buf, x + 1, y, 2) as u32;
        cnt = cnt + 1;
    }
    if y + 1 < HEIGHT {
        if x > 0 {
            sr = sr + cell_val(buf, x - 1, y + 1, 0) as u32;
            sg = sg + cell_val(buf, x - 1, y + 1, 1) as u32;
            sb = sb + cell_val(buf, x - 1, y + 1, 2) as u32;
            cnt = cnt + 1;
        }
        sr = sr + cell_val(buf, x, y + 1, 0) as u32;
        sg = sg + cell_val(buf, x, y + 1, 1) as u32;
        sb = sb + cell_val(buf, x, y + 1, 2) as u32;
        cnt = cnt + 1;
        if x + 1 < WIDTH {
            sr = sr + cell_val(buf, x + 1, y + 1, 0) as u32;
            sg = sg + cell_val(buf, x + 1, y + 1, 1) as u32;
            sb = sb + cell_val(buf, x + 1, y + 1, 2) as u32;
            cnt = cnt + 1;
        }
    }
    (sr, sg, sb, cnt)
}

/// A truncated average of bytes is a byte.
proof fn lemma_avg_byte(sum: int, cnt: int)
    requires
        1 <= cnt,
        0 <= sum <= cnt * 255,
    ensures
        0 <= sum / cnt <= 255,
{
    vstd::arithmetic::div_mod::lemma_div_is_ordered(sum, cnt * 255, cnt);
    vstd::arithmetic::mul::lemma_mul_is_commutative(cnt, 255);
    vstd::arithmetic::div_mod::lemma_div_by_multiple(255, cnt);
    vstd::arithmetic::div_mod::lemma_div_pos_is_pos(sum, cnt);
}

/// Box-blur bloom: every color channel becomes the truncated average of
/// its 3-by-3 neighborhood, repeated `BLUR_RADIUS` times; the alpha
/// channel stays what the input had.
pub fn gaussian_blur(bright_areas: &[u8]) -> (out: Vec<u8>)
    requires
        bright_areas@.len() == 4 * WIDTH * HEIGHT,
    ensures
        out@.len() == bright_areas@.len(),
        out@ == blur_iter(bright_areas@, BLUR_RADIUS as int),
{
    let len = bright_areas.len();
    let mut blurred: Vec<u8> = Vec::new();
    let mut c: usize = 0;
    while c < len
        invariant
            len == bright_areas@.len(),
            c <= len,
            blurred@ == bright_areas@.subrange(0, c as int),
        decreases len - c,
    {
        blurred.push(bright_areas[c]);
        proof {
            assert(blurred@ =~= bright_areas@.subrange(0, c as int + 1));
        }
        c += 1;
    }
    proof {
        assert(blurred@ =~= bright_areas@);
    }
    let mut it: usize = 0;
    while it < BLUR_RADIUS
        invariant
            len == bright_areas@.len(),
            len == 4 * WIDTH * HEIGHT,
            it <= BLUR_RADIUS,
            blurred@.len() == len,
            blurred@ == blur_iter(bright_areas@, it as int),
        decreases BLUR_RADIUS - it,
    {
        let mut temp: Vec<u8> = vec![0u8; len];
        let mut y: usize = 0;
        while y < HEIGHT
            invariant
                len == bright_areas@.len(),
                len == 4 * WIDTH * HEIGHT,
                y <= HEIGHT,
                blurred@.len() == len,
                temp@.len() == len,
                forall|idx: int|
                    0 <= idx < 4 * (y * WIDTH) ==> temp@[idx] == blur_byte(
                        blurred@,
                        bright_areas@,
                        idx,
                    ),
            decreases HEIGHT - y,
        {
            let mut x: usize = 0;
            while x < WIDTH
                invariant
                    len == bright_areas@.len(),
                    len == 4 * WIDTH * HEIGHT,
                    y < HEIGHT,
                    x <= WIDTH,
                    blurred@.len() == len,
                    temp@.len() == len,
                    forall|idx: int|
                        0 <= idx < 4 * (y * WIDTH + x) ==> temp@[idx] == blur_byte(
                            blurred@,
                            bright_areas@,
                            idx,
                        ),
                decreases WIDTH - x,
            {
                let nb = neighborhood(&blurred, x, y);
                let cnt: u32 = nb.3;
                let i0: usize = 4 * (y * WIDTH + x);
                proof {
                    lemma_avg_byte(nb.0 as int, cnt as int);
                    lemma_avg_byte(nb.1 as int, cnt as int);
                    lemma_avg_byte(nb.2 as int, cnt as int);
                }
                temp[i0] = (nb.0 / cnt) as u8;
                temp[i0 + 1] = (nb.1 / cnt) as u8;
                temp[i0 + 2] = (nb.2 / cnt) as u8;
                temp[i0 + 3] = bright_areas[i0 + 3];
                proof {
                    let p = y * WIDTH + x;
                    assert forall|idx: int| 0 <= idx < 4 * (p + 1) implies temp@[idx]
                        == blur_byte(blurred@, bright_areas@, idx) by {
                        if idx >= 4 * p {
                            assert(idx / 4 == p && idx % 4 == idx - 4 * p) by (nonlinear_arith)
                                requires
                                    4 * p <= idx < 4 * (p + 1);
                            assert(p % (WIDTH as int) == x && p / (WIDTH as int) == y)
                                by (nonlinear_arith)
                                requires
                                    p == y * WIDTH + x,
                                    0 <= x < WIDTH,
                                    0 <= y;
                        }
                    }
                }
                x += 1;
            }
            y += 1;
        }
        proof {
            assert(temp@ =~= blur_pass(blurred@, bright_areas@));
        }
        blurred = temp;
        it += 1;
    }
    blurred
}

} // verus!
