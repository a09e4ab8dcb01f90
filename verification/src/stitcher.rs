//! The stitcher: lay a non-empty sequence of pixel buffers out along one
//! axis, side by side or stacked, with no gaps, no scaling and no blending.

use vstd::prelude::*;
use crate::buffer::{Pixel, PixelBuffer, blit, in_rect};

verus! {

/// The layout axis: inputs placed left-to-right, or stacked top-to-bottom.
#[derive(Clone, Copy, PartialEq, Eq, Structural, Debug)]
pub enum Axis {
    Horizontal,
    Vertical,
}

/// Why a stitch was refused: an empty input sequence, or a combined canvas
/// too large to address.
#[derive(Clone, Copy, PartialEq, Eq, Structural, Debug)]
pub enum StitchError {
    InvalidInput,
    CapacityExceeded,
}

/// Every buffer of the sequence is well formed.
pub open spec fn all_wf(s: Seq<PixelBuffer>) -> bool {
    forall|i: int| 0 <= i < s.len() ==> (#[trigger] s[i]).wf()
}

/// Sum of the widths of the first `i` buffers: the column at which buffer
/// `i` is placed in a horizontal stitch.
pub open spec fn h_offset(s: Seq<PixelBuffer>, i: int) -> int
    decreases i,
{
    if i <= 0 {
        0
    } else {
        h_offset(s, i - 1) + s[i - 1].width
    }
}

/// Sum of all input widths.
pub open spec fn sum_widths(s: Seq<PixelBuffer>) -> int {
    h_offset(s, s.len() as int)
}

/// Sum of the heights of the first `i` buffers: the row at which buffer
/// `i` is placed in a vertical stitch.
pub open spec fn v_offset(s: Seq<PixelBuffer>, i: int) -> int
    decreases i,
{
    if i <= 0 {
        0
    } else {
        v_offset(s, i - 1) + s[i - 1].height
    }
}

/// Sum of all input heights.
pub open spec fn sum_heights(s: Seq<PixelBuffer>) -> int {
    v_offset(s, s.len() as int)
}

/// The largest input height (0 for an empty sequence).
pub open spec fn max_heights(s: Seq<PixelBuffer>) -> int
    decreases s.len(),
{
    if s.len() == 0 {
        0
    } else {
        let rest = max_heights(s.drop_last());
        if s.last().height >= rest {
            s.last().height as int
        } else {
            rest
        }
    }
}

/// The largest input width (0 for an empty sequence).
pub open spec fn max_widths(s: Seq<PixelBuffer>) -> int
    decreases s.len(),
{
    if s.len() == 0 {
        0
    } else {
        let rest = max_widths(s.drop_last());
        if s.last().width >= rest {
            s.last().width as int
        } else {
            rest
        }
    }
}

/// In a horizontal stitch, buffer `i` owns the output pixel `(x, y)`:
/// the columns at its offset and the rows below its own height.
pub open spec fn h_covers(s: Seq<PixelBuffer>, i: int, x: int, y: int) -> bool {
    h_offset(s, i) <= x < h_offset(s, i) + s[i].width && 0 <= y < s[i].height
}

/// Some buffer among the first `k` owns the output pixel `(x, y)`.
pub open spec fn h_covered_upto(s: Seq<PixelBuffer>, k: int, x: int, y: int) -> bool {
    exists|i: int| 0 <= i < k && #[trigger] h_covers(s, i, x, y)
}

/// Some input buffer owns the output pixel `(x, y)` of a horizontal stitch.
pub open spec fn h_covered(s: Seq<PixelBuffer>, x: int, y: int) -> bool {
    h_covered_upto(s, s.len() as int, x, y)
}

/// In a vertical stitch, buffer `i` owns the output pixel `(x, y)`.
pub open spec fn v_covers(s: Seq<PixelBuffer>, i: int, x: int, y: int) -> bool {
    v_offset(s, i) <= y < v_offset(s, i) + s[i].height && 0 <= x < s[i].width
}

/// Some buffer among the first `k` owns the output pixel `(x, y)`.
pub open spec fn v_covered_upto(s: Seq<PixelBuffer>, k: int, x: int, y: int) -> bool {
    exists|i: int| 0 <= i < k && #[trigger] v_covers(s, i, x, y)
}

/// Some input buffer owns the output pixel `(x, y)` of a vertical stitch.
pub open spec fn v_covered(s: Seq<PixelBuffer>, x: int, y: int) -> bool {
    v_covered_upto(s, s.len() as int, x, y)
}

/// The horizontal mosaic fits the addressable canvas: its width fits a
/// `u32` and its pixel count fits a `usize`.
pub open spec fn h_fits(s: Seq<PixelBuffer>) -> bool {
    sum_widths(s) <= u32::MAX && sum_widths(s) * max_heights(s) <= usize::MAX
}

/// The vertical mosaic fits the addressable canvas.
pub open spec fn v_fits(s: Seq<PixelBuffer>) -> bool {
    sum_heights(s) <= u32::MAX && max_widths(s) * sum_heights(s) <= usize::MAX
}

/// `out` is the horizontal stitching of `s`: as wide as all inputs
/// together, as tall as the tallest, each input placed top-aligned at the
/// sum of the widths before it, and every pixel no input owns transparent.
pub open spec fn is_hstitch(s: Seq<PixelBuffer>, out: PixelBuffer) -> bool {
    &&& out.wf()
    &&& out.width == sum_widths(s)
    &&& out.height == max_heights(s)
    &&& forall|i: int, x: int, y: int|
            0 <= i < s.len() && 0 <= x < s[i].width && 0 <= y < s[i].height
                ==> out.pixel(h_offset(s, i) + x, y) == #[trigger] s[i].pixel(x, y)
    &&& forall|x: int, y: int|
            0 <= x < out.width && 0 <= y < out.height && !h_covered(s, x, y)
                ==> #[trigger] out.pixel(x, y) == Pixel::zero()
}

/// `out` is the vertical stitching of `s`: as tall as all inputs together,
/// as wide as the widest, each input placed left-aligned at the sum of the
/// heights before it, and every pixel no input owns transparent.
pub open spec fn is_vstitch(s: Seq<PixelBuffer>, out: PixelBuffer) -> bool {
    &&& out.wf()
    &&& out.width == max_widths(s)
    &&& out.height == sum_heights(s)
    &&& forall|i: int, x: int, y: int|
            0 <= i < s.len() && 0 <= x < s[i].width && 0 <= y < s[i].height
                ==> out.pixel(x, v_offset(s, i) + y) == #[trigger] s[i].pixel(x, y)
    &&& forall|x: int, y: int|
            0 <= x < out.width && 0 <= y < out.height && !v_covered(s, x, y)
                ==> #[trigger] out.pixel(x, y) == Pixel::zero()
}

/// Horizontal offsets grow with the index: a later buffer starts at or
/// after the end of an earlier one.
pub proof fn lemma_h_offset_mono(s: Seq<PixelBuffer>, i: int, j: int)
    requires
        0 <= i <= j,
    ensures
        h_offset(s, i) <= h_offset(s, j),
    decreases j - i,
{
    if i < j {
        lemma_h_offset_mono(s, i, j - 1);
    }
}

/// Vertical offsets grow with the index.
pub proof fn lemma_v_offset_mono(s: Seq<PixelBuffer>, i: int, j: int)
    requires
        0 <= i <= j,
    ensures
        v_offset(s, i) <= v_offset(s, j),
    decreases j - i,
{
    if i < j {
        lemma_v_offset_mono(s, i, j - 1);
    }
}

/// No input is taller than the tallest.
pub proof fn lemma_max_heights_ge(s: Seq<PixelBuffer>, i: int)
    requires
        0 <= i < s.len(),
    ensures
        s[i].height <= max_heights(s),
    decreases s.len(),
{
    if i < s.len() - 1 {
        lemma_max_heights_ge(s.drop_last(), i);
    }
}

/// No input is wider than the widest.
pub proof fn lemma_max_widths_ge(s: Seq<PixelBuffer>, i: int)
    requires
        0 <= i < s.len(),
    ensures
        s[i].width <= max_widths(s),
    decreases s.len(),
{
    if i < s.len() - 1 {
        lemma_max_widths_ge(s.drop_last(), i);
    }
}

/// Stitch the buffers side by side, left to right in sequence order,
/// top-aligned on a transparent canvas as wide as all inputs together and
/// as tall as the tallest of them.
pub fn stitch_horizontal(images: &Vec<PixelBuffer>) -> (r: Result<PixelBuffer, StitchError>)
    requires
        all_wf(images@),
    ensures
        images@.len() == 0 ==> r == Err::<PixelBuffer, StitchError>(StitchError::InvalidInput),
        images@.len() > 0 && !h_fits(images@) ==> r == Err::<PixelBuffer, StitchError>(
            StitchError::CapacityExceeded,
        ),
        images@.len() > 0 && h_fits(images@) ==> (r matches Ok(out) && is_hstitch(images@, out)),
{
    let ghost s = images@;
    if images.len() == 0 {
        return Err(StitchError::InvalidInput);
    }
    // The combined width, refused as soon as it leaves u32 range.
    let mut total: u64 = 0;
    let mut k: usize = 0;
    while k < images.len()
        invariant
            s == images@,
            k <= s.len(),
            total == h_offset(s, k as int),
            total <= u32::MAX,
        decreases s.len() - k,
    {
        total = total + images[k].width as u64;
        if total > (u32::MAX as u64) {
            proof {
                lemma_h_offset_mono(s, (k + 1) as int, s.len() as int);
            }
            return Err(StitchError::CapacityExceeded);
        }
        k = k + 1;
    }
    let w: u32 = total as u32;
    assert(w == sum_widths(s));
    // The tallest input.
    let mut maxh: u32 = 0;
    let mut k: usize = 0;
    while k < images.len()
        invariant
            s == images@,
            k <= s.len(),
            maxh == max_heights(s.take(k as int)),
        decreases s.len() - k,
    {
        proof {
            assert(s.take((k + 1) as int).drop_last() =~= s.take(k as int));
            assert(s.take((k + 1) as int).last() == s[k as int]);
        }
        if images[k].height > maxh {
            maxh = images[k].height;
        }
        k = k + 1;
    }
    proof {
        assert(s.take(s.len() as int) =~= s);
    }
    assert(maxh == max_heights(s));
    // The combined pixel count must be addressable.
    proof {
        assert((w as int) * (maxh as int) <= u64::MAX as int) by (nonlinear_arith)
            requires
                w as int <= u32::MAX as int,
                maxh as int <= u32::MAX as int,
        ;
    }
    let wh: u64 = (w as u64) * (maxh as u64);
    if wh > (usize::MAX as u64) {
        return Err(StitchError::CapacityExceeded);
    }
    let mut out: PixelBuffer = PixelBuffer::new(w, maxh);
    let mut current_x: u32 = 0;
    let mut k: usize = 0;
    while k < images.len()
        invariant
            all_wf(s),
            s == images@,
            k <= s.len(),
            out.wf(),
            out.width == w,
            out.height == maxh,
            w == sum_widths(s),
            maxh == max_heights(s),
            current_x == h_offset(s, k as int),
            forall|i: int, x: int, y: int|
                0 <= i < k && 0 <= x < s[i].width && 0 <= y < s[i].height
                    ==> out.pixel(h_offset(s, i) + x, y) == #[trigger] s[i].pixel(x, y),
            forall|x: int, y: int|
                0 <= x < w && 0 <= y < maxh && !h_covered_upto(s, k as int, x, y)
                    ==> #[trigger] out.pixel(x, y) == Pixel::zero(),
        decreases s.len() - k,
    {
        let img: &PixelBuffer = &images[k];
        proof {
            lemma_h_offset_mono(s, (k + 1) as int, s.len() as int);
            lemma_max_heights_ge(s, k as int);
        }
        let ghost out_before = out;
        blit(&mut out, img, current_x, 0);
        proof {
            assert forall|i: int, x: int, y: int|
                0 <= i < k + 1 && 0 <= x < s[i].width && 0 <= y < s[i].height implies out.pixel(
                h_offset(s, i) + x,
                y,
            ) == #[trigger] s[i].pixel(x, y) by {
                if i < k {
                    lemma_h_offset_mono(s, 0, i);
                    lemma_h_offset_mono(s, i + 1, k as int);
                    lemma_h_offset_mono(s, i + 1, s.len() as int);
                    lemma_max_heights_ge(s, i);
                    assert(out_before.pixel(h_offset(s, i) + x, y) == s[i].pixel(x, y));
                    assert(h_offset(s, i) + x < h_offset(s, i + 1));
                    assert(!in_rect(
                        h_offset(s, i) + x,
                        y,
                        current_x as int,
                        0,
                        s[k as int].width as int,
                        s[k as int].height as int,
                    ));
                }
            }
            assert forall|x: int, y: int|
                0 <= x < w && 0 <= y < maxh && !h_covered_upto(
                s,
                (k + 1) as int,
                x,
                y,
            ) implies #[trigger] out.pixel(x, y) == Pixel::zero() by {
                assert(!h_covers(s, k as int, x, y));
                assert(!h_covered_upto(s, k as int, x, y));
                assert(!in_rect(
                    x,
                    y,
                    current_x as int,
                    0,
                    s[k as int].width as int,
                    s[k as int].height as int,
                ));
                assert(out_before.pixel(x, y) == Pixel::zero());
            }
        }
        current_x = current_x + img.width;
        k = k + 1;
    }
    Ok(out)
}

/// Stitch the buffers one above the other, top to bottom in sequence
/// order, left-aligned on a transparent canvas as tall as all inputs
/// together and as wide as the widest of them.
pub fn stitch_vertical(images: &Vec<PixelBuffer>) -> (r: Result<PixelBuffer, StitchError>)
    requires
        all_wf(images@),
    ensures
        images@.len() == 0 ==> r == Err::<PixelBuffer, StitchError>(StitchError::InvalidInput),
        images@.len() > 0 && !v_fits(images@) ==> r == Err::<PixelBuffer, StitchError>(
            StitchError::CapacityExceeded,
        ),
        images@.len() > 0 && v_fits(images@) ==> (r matches Ok(out) && is_vstitch(images@, out)),
{
    let ghost s = images@;
    if images.len() == 0 {
        return Err(StitchError::InvalidInput);
    }
    // The combined height, refused as soon as it leaves u32 range.
    let mut total: u64 = 0;
    let mut k: usize = 0;
    while k < images.len()
        invariant
            s == images@,
            k <= s.len(),
            total == v_offset(s, k as int),
            total <= u32::MAX,
        decreases s.len() - k,
    {
        total = total + images[k].height as u64;
        if total > (u32::MAX as u64) {
            proof {
                lemma_v_offset_mono(s, (k + 1) as int, s.len() as int);
            }
            return Err(StitchError::CapacityExceeded);
        }
        k = k + 1;
    }
    let h: u32 = total as u32;
    assert(h == sum_heights(s));
    // The widest input.
    let mut maxw: u32 = 0;
    let mut k: usize = 0;
    while k < images.len()
        invariant
            s == images@,
            k <= s.len(),
            maxw == max_widths(s.take(k as int)),
        decreases s.len() - k,
    {
        proof {
            assert(s.take((k + 1) as int).drop_last() =~= s.take(k as int));
            assert(s.take((k + 1) as int).last() == s[k as int]);
        }
        if images[k].width > maxw {
            maxw = images[k].width;
        }
        k = k + 1;
    }
    proof {
        assert(s.take(s.len() as int) =~= s);
    }
    assert(maxw == max_widths(s));
    // The combined pixel count must be addressable.
    proof {
        assert((maxw as int) * (h as int) <= u64::MAX as int) by (nonlinear_arith)
            requires
                maxw as int <= u32::MAX as int,
                h as int <= u32::MAX as int,
        ;
    }
    let wh: u64 = (maxw as u64) * (h as u64);
    if wh > (usize::MAX as u64) {
        return Err(StitchError::CapacityExceeded);
    }
    let mut out: PixelBuffer = PixelBuffer::new(maxw, h);
    let mut current_y: u32 = 0;
    let mut k: usize = 0;
    while k < images.len()
        invariant
            all_wf(s),
            s == images@,
            k <= s.len(),
            out.wf(),
            out.width == maxw,
            out.height == h,
            h == sum_heights(s),
            maxw == max_widths(s),
            current_y == v_offset(s, k as int),
            forall|i: int, x: int, y: int|
                0 <= i < k && 0 <= x < s[i].width && 0 <= y < s[i].height
                    ==> out.pixel(x, v_offset(s, i) + y) == #[trigger] s[i].pixel(x, y),
            forall|x: int, y: int|
                0 <= x < maxw && 0 <= y < h && !v_covered_upto(s, k as int, x, y)
                    ==> #[trigger] out.pixel(x, y) == Pixel::zero(),
        decreases s.len() - k,
    {
        let img: &PixelBuffer = &images[k];
        proof {
            lemma_v_offset_mono(s, (k + 1) as int, s.len() as int);
            lemma_max_widths_ge(s, k as int);
        }
        let ghost out_before = out;
        blit(&mut out, img, 0, current_y);
        proof {
            assert forall|i: int, x: int, y: int|
                0 <= i < k + 1 && 0 <= x < s[i].width && 0 <= y < s[i].height implies out.pixel(
                x,
                v_offset(s, i) + y,
            ) == #[trigger] s[i].pixel(x, y) by {
                if i < k {
                    lemma_v_offset_mono(s, 0, i);
                    lemma_v_offset_mono(s, i + 1, k as int);
                    lemma_v_offset_mono(s, i + 1, s.len() as int);
                    lemma_max_widths_ge(s, i);
                    assert(out_before.pixel(x, v_offset(s, i) + y) == s[i].pixel(x, y));
                    assert(v_offset(s, i) + y < v_offset(s, i + 1));
                    assert(!in_rect(
                        x,
                        v_offset(s, i) + y,
                        0,
                        current_y as int,
                        s[k as int].width as int,
                        s[k as int].height as int,
                    ));
                }
            }
            assert forall|x: int, y: int|
                0 <= x < maxw && 0 <= y < h && !v_covered_upto(
                s,
                (k + 1) as int,
                x,
                y,
            ) implies #[trigger] out.pixel(x, y) == Pixel::zero() by {
                assert(!v_covers(s, k as int, x, y));
                assert(!v_covered_upto(s, k as int, x, y));
                assert(!in_rect(
                    x,
                    y,
                    0,
                    current_y as int,
                    s[k as int].width as int,
                    s[k as int].height as int,
                ));
                assert(out_before.pixel(x, y) == Pixel::zero());
            }
        }
        current_y = current_y + img.height;
        k = k + 1;
    }
    Ok(out)
}

/// Stitch the buffers along the given axis: the layouts differ only in
/// which dimension is summed and which is maxed.
pub fn stitch(images: &Vec<PixelBuffer>, axis: Axis) -> (r: Result<PixelBuffer, StitchError>)
    requires
        all_wf(images@),
    ensures
        images@.len() == 0 ==> r == Err::<PixelBuffer, StitchError>(StitchError::InvalidInput),
        axis == Axis::Horizontal ==> {
            &&& images@.len() > 0 && !h_fits(images@) ==> r == Err::<PixelBuffer, StitchError>(
                StitchError::CapacityExceeded,
            )
            &&& images@.len() > 0 && h_fits(images@) ==> (r matches Ok(out) && is_hstitch(
                images@,
                out,
            ))
        },
        axis == Axis::Vertical ==> {
            &&& images@.len() > 0 && !v_fits(images@) ==> r == Err::<PixelBuffer, StitchError>(
                StitchError::CapacityExceeded,
            )
            &&& images@.len() > 0 && v_fits(images@) ==> (r matches Ok(out) && is_vstitch(
                images@,
                out,
            ))
        },
{
    match axis {
        Axis::Horizontal => stitch_horizontal(images),
        Axis::Vertical => stitch_vertical(images),
    }
}

/// A horizontal stitch of a single buffer is identical to that buffer in
/// dimensions and in pixel content.
pub proof fn lemma_stitch_single_horizontal(s: Seq<PixelBuffer>, out: PixelBuffer)
    requires
        s.len() == 1,
        s[0].wf(),
        is_hstitch(s, out),
    ensures
        out.width == s[0].width,
        out.height == s[0].height,
        forall|x: int, y: int|
            0 <= x < s[0].width && 0 <= y < s[0].height ==> out.pixel(x, y) == #[trigger] s[0].pixel(
                x,
                y,
            ),
{
    assert(h_offset(s, 0) == 0);
    assert(sum_widths(s) == s[0].width);
    assert(s.drop_last().len() == 0);
    assert(max_heights(s.drop_last()) == 0);
    assert(s.last() == s[0]);
    assert(max_heights(s) == s[0].height);
    assert forall|x: int, y: int|
        0 <= x < s[0].width && 0 <= y < s[0].height implies out.pixel(x, y)
        == #[trigger] s[0].pixel(x, y) by {
        assert(h_offset(s, 0) == 0);
        assert(out.pixel(h_offset(s, 0) + x, y) == s[0].pixel(x, y));
    }
}

/// A vertical stitch of a single buffer is identical to that buffer in
/// dimensions and in pixel content.
pub proof fn lemma_stitch_single_vertical(s: Seq<PixelBuffer>, out: PixelBuffer)
    requires
        s.len() == 1,
        s[0].wf(),
        is_vstitch(s, out),
    ensures
        out.width == s[0].width,
        out.height == s[0].height,
        forall|x: int, y: int|
            0 <= x < s[0].width && 0 <= y < s[0].height ==> out.pixel(x, y) == #[trigger] s[0].pixel(
                x,
                y,
            ),
{
    assert(v_offset(s, 0) == 0);
    assert(sum_heights(s) == s[0].height);
    assert(s.drop_last().len() == 0);
    assert(max_widths(s.drop_last()) == 0);
    assert(s.last() == s[0]);
    assert(max_widths(s) == s[0].width);
    assert forall|x: int, y: int|
        0 <= x < s[0].width && 0 <= y < s[0].height implies out.pixel(x, y)
        == #[trigger] s[0].pixel(x, y) by {
        assert(v_offset(s, 0) == 0);
        assert(out.pixel(x, v_offset(s, 0) + y) == s[0].pixel(x, y));
    }
}

} // verus!

