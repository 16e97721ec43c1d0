use vstd::prelude::*;

use crate::algorithms::apply_tap;
use crate::algorithms::causal;
use crate::algorithms::diffuse;
use crate::algorithms::diffuse_row;
use crate::algorithms::dither;
use crate::algorithms::floor_sub;
use crate::algorithms::scan;
use crate::algorithms::scan_row;
use crate::algorithms::threshold;
use crate::algorithms::visit;
use crate::algorithms::KernelModel;
use crate::pixel_index;

verus! {

/// Whether a sample is pure black or pure white.
pub open spec fn is_black_or_white(v: u8) -> bool {
    v == 0 || v == 255
}

proof fn lemma_next_row(w: int, x: int, y: int)
    requires
        0 <= x < w,
    ensures
        y * w + x < (y + 1) * w,
        (y + 1) * w == y * w + w,
{
    assert((y + 1) * w == y * w + w) by (nonlinear_arith);
}

proof fn lemma_later_row(w: int, px: int, py: int, x: int, y: int)
    requires
        0 <= x < w,
        0 <= px,
        py >= y + 1,
        w >= 0,
    ensures
        py * w + px > y * w + x,
{
    assert(py * w >= (y + 1) * w) by (nonlinear_arith)
        requires
            py >= y + 1,
            w >= 0,
    ;
    lemma_next_row(w, x, y);
}

proof fn lemma_diffuse_row_len(
    p: Seq<u8>,
    w: nat,
    h: nat,
    k: KernelModel,
    x: int,
    y: int,
    err: int,
    ky: int,
    n: nat,
)
    requires
        p.len() == w * h,
    ensures
        diffuse_row(p, w, h, k, x, y, err, ky, n).len() == p.len(),
    decreases n,
{
    if n > 0 {
        lemma_diffuse_row_len(p, w, h, k, x, y, err, ky, (n - 1) as nat);
        let px = floor_sub(x + n - 1, k.anchor.0);
        let py = floor_sub(y + ky, k.anchor.1);
        if crate::on_canvas(w as int, h as int, px, py) {
            crate::lemma_index_in_bounds(w as int, h as int, px, py);
        }
    }
}

proof fn lemma_diffuse_len(
    p: Seq<u8>,
    w: nat,
    h: nat,
    k: KernelModel,
    x: int,
    y: int,
    err: int,
    m: nat,
)
    requires
        p.len() == w * h,
    ensures
        diffuse(p, w, h, k, x, y, err, m).len() == p.len(),
    decreases m,
{
    if m > 0 {
        let q = diffuse(p, w, h, k, x, y, err, (m - 1) as nat);
        lemma_diffuse_len(p, w, h, k, x, y, err, (m - 1) as nat);
        lemma_diffuse_row_len(q, w, h, k, x, y, err, m - 1, k.width);
    }
}

proof fn lemma_visit_len(p: Seq<u8>, w: nat, h: nat, k: KernelModel, x: int, y: int)
    requires
        p.len() == w * h,
        0 <= x < w,
        0 <= y < h,
    ensures
        visit(p, w, h, k, x, y).len() == p.len(),
{
    let i = pixel_index(w as int, x, y);
    let c = threshold(p[i]);
    crate::lemma_index_in_bounds(w as int, h as int, x, y);
    lemma_diffuse_len(p.update(i, c), w, h, k, x, y, p[i] - c, k.height);
}

proof fn lemma_scan_row_len(p: Seq<u8>, w: nat, h: nat, k: KernelModel, y: int, n: nat)
    requires
        p.len() == w * h,
        0 <= y < h,
        n <= w,
    ensures
        scan_row(p, w, h, k, y, n).len() == p.len(),
    decreases n,
{
    if n > 0 {
        lemma_scan_row_len(p, w, h, k, y, (n - 1) as nat);
        lemma_visit_len(scan_row(p, w, h, k, y, (n - 1) as nat), w, h, k, n - 1, y);
    }
}

proof fn lemma_scan_len(p: Seq<u8>, w: nat, h: nat, k: KernelModel, m: nat)
    requires
        p.len() == w * h,
        m <= h,
    ensures
        scan(p, w, h, k, m).len() == p.len(),
    decreases m,
{
    if m > 0 {
        lemma_scan_len(p, w, h, k, (m - 1) as nat);
        lemma_scan_row_len(scan(p, w, h, k, (m - 1) as nat), w, h, k, m - 1, w);
    }
}

/// With no error to spread, the taps of a kernel row change nothing.
proof fn lemma_diffuse_row_no_error(
    p: Seq<u8>,
    w: nat,
    h: nat,
    k: KernelModel,
    x: int,
    y: int,
    ky: int,
    n: nat,
)
    ensures
        diffuse_row(p, w, h, k, x, y, 0, ky, n) == p,
    decreases n,
{
    if n > 0 {
        lemma_diffuse_row_no_error(p, w, h, k, x, y, ky, (n - 1) as nat);
        assert(k.weight(n - 1, ky) * 0 == 0);
    }
}

/// With no error to spread, the whole kernel changes nothing.
proof fn lemma_diffuse_no_error(p: Seq<u8>, w: nat, h: nat, k: KernelModel, x: int, y: int, m: nat)
    ensures
        diffuse(p, w, h, k, x, y, 0, m) == p,
    decreases m,
{
    if m > 0 {
        lemma_diffuse_no_error(p, w, h, k, x, y, (m - 1) as nat);
        lemma_diffuse_row_no_error(p, w, h, k, x, y, m - 1, k.width);
    }
}

/// A kernel without columns changes nothing.
proof fn lemma_diffuse_no_columns(
    p: Seq<u8>,
    w: nat,
    h: nat,
    k: KernelModel,
    x: int,
    y: int,
    err: int,
    m: nat,
)
    requires
        k.width == 0,
    ensures
        diffuse(p, w, h, k, x, y, err, m) == p,
    decreases m,
{
    if m > 0 {
        lemma_diffuse_no_columns(p, w, h, k, x, y, err, (m - 1) as nat);
    }
}

/// A black-and-white pixel is left as it is by its visit.
proof fn lemma_visit_keeps_black_and_white(
    p: Seq<u8>,
    w: nat,
    h: nat,
    k: KernelModel,
    x: int,
    y: int,
)
    requires
        0 <= pixel_index(w as int, x, y) < p.len(),
        is_black_or_white(p[pixel_index(w as int, x, y)]),
    ensures
        visit(p, w, h, k, x, y) == p,
{
    let i = pixel_index(w as int, x, y);
    assert(p.update(i, threshold(p[i])) =~= p);
    lemma_diffuse_no_error(p, w, h, k, x, y, k.height);
}

proof fn lemma_scan_row_keeps_black_and_white(
    p: Seq<u8>,
    w: nat,
    h: nat,
    k: KernelModel,
    y: int,
    n: nat,
)
    requires
        p.len() == w * h,
        0 <= y < h,
        n <= w,
        forall|j: int| 0 <= j < p.len() ==> is_black_or_white(#[trigger] p[j]),
    ensures
        scan_row(p, w, h, k, y, n) == p,
    decreases n,
{
    if n > 0 {
        lemma_scan_row_keeps_black_and_white(p, w, h, k, y, (n - 1) as nat);
        crate::lemma_index_in_bounds(w as int, h as int, n - 1, y);
        lemma_visit_keeps_black_and_white(p, w, h, k, n - 1, y);
    }
}

proof fn lemma_scan_keeps_black_and_white(p: Seq<u8>, w: nat, h: nat, k: KernelModel, m: nat)
    requires
        p.len() == w * h,
        m <= h,
        forall|j: int| 0 <= j < p.len() ==> is_black_or_white(#[trigger] p[j]),
    ensures
        scan(p, w, h, k, m) == p,
    decreases m,
{
    if m > 0 {
        lemma_scan_keeps_black_and_white(p, w, h, k, (m - 1) as nat);
        lemma_scan_row_keeps_black_and_white(p, w, h, k, m - 1, w);
    }
}

/// A raster that holds only black and white samples comes out unchanged, whatever the
/// kernel: no pixel has an error to spread.
pub proof fn law_black_and_white_unchanged(p: Seq<u8>, w: nat, h: nat, k: KernelModel)
    requires
        p.len() == w * h,
        forall|j: int| 0 <= j < p.len() ==> is_black_or_white(#[trigger] p[j]),
    ensures
        dither(p, w, h, k) == p,
{
    lemma_scan_keeps_black_and_white(p, w, h, k, h);
}

/// An all-black raster of any size comes out unchanged, whatever the kernel.
pub proof fn law_all_black_unchanged(p: Seq<u8>, w: nat, h: nat, k: KernelModel)
    requires
        p.len() == w * h,
        forall|j: int| 0 <= j < p.len() ==> #[trigger] p[j] == 0,
    ensures
        dither(p, w, h, k) == p,
{
    assert forall|j: int| 0 <= j < p.len() implies is_black_or_white(#[trigger] p[j]) by {}
    law_black_and_white_unchanged(p, w, h, k);
}

/// An all-white raster of any size comes out unchanged, whatever the kernel.
pub proof fn law_all_white_unchanged(p: Seq<u8>, w: nat, h: nat, k: KernelModel)
    requires
        p.len() == w * h,
        forall|j: int| 0 <= j < p.len() ==> #[trigger] p[j] == 255,
    ensures
        dither(p, w, h, k) == p,
{
    assert forall|j: int| 0 <= j < p.len() implies is_black_or_white(#[trigger] p[j]) by {}
    law_black_and_white_unchanged(p, w, h, k);
}

/// Under a causal kernel, a tap from the pixel at `(x, y)` leaves that pixel and every
/// earlier one in raster order alone.
proof fn lemma_tap_keeps_earlier(
    p: Seq<u8>,
    w: nat,
    h: nat,
    k: KernelModel,
    x: int,
    y: int,
    err: int,
    kx: int,
    ky: int,
    j: int,
)
    requires
        causal(k),
        0 <= x < w,
        0 <= y,
        0 <= kx < k.width,
        0 <= ky < k.height,
        0 <= j <= pixel_index(w as int, x, y),
        p.len() == w * h,
        j < p.len(),
    ensures
        apply_tap(p, w, h, k, x, y, err, kx, ky)[j] == p[j],
{
    let wt = k.weight(kx, ky);
    let px = floor_sub(x + kx, k.anchor.0);
    let py = floor_sub(y + ky, k.anchor.1);
    if !(wt * err == 0 || !crate::on_canvas(w as int, h as int, px, py)) {
        if wt == 0 {
            assert(wt * err == 0);
        }
        crate::lemma_index_in_bounds(w as int, h as int, px, py);
        if ky > k.anchor.1 {
            assert(py == y + ky - k.anchor.1);
            lemma_later_row(w as int, px, py, x, y);
        } else {
            assert(ky == k.anchor.1 && kx > k.anchor.0);
            assert(py == y);
            assert(px > x);
        }
        assert(pixel_index(w as int, px, py) != j);
    }
}

proof fn lemma_diffuse_row_keeps_earlier(
    p: Seq<u8>,
    w: nat,
    h: nat,
    k: KernelModel,
    x: int,
    y: int,
    err: int,
    ky: int,
    n: nat,
    j: int,
)
    requires
        causal(k),
        0 <= x < w,
        0 <= y,
        n <= k.width,
        0 <= ky < k.height,
        0 <= j <= pixel_index(w as int, x, y),
        p.len() == w * h,
        j < p.len(),
    ensures
        diffuse_row(p, w, h, k, x, y, err, ky, n)[j] == p[j],
    decreases n,
{
    if n > 0 {
        let q = diffuse_row(p, w, h, k, x, y, err, ky, (n - 1) as nat);
        lemma_diffuse_row_len(p, w, h, k, x, y, err, ky, (n - 1) as nat);
        lemma_diffuse_row_keeps_earlier(p, w, h, k, x, y, err, ky, (n - 1) as nat, j);
        lemma_tap_keeps_earlier(q, w, h, k, x, y, err, n - 1, ky, j);
    }
}

proof fn lemma_diffuse_keeps_earlier(
    p: Seq<u8>,
    w: nat,
    h: nat,
    k: KernelModel,
    x: int,
    y: int,
    err: int,
    m: nat,
    j: int,
)
    requires
        causal(k),
        0 <= x < w,
        0 <= y,
        m <= k.height,
        0 <= j <= pixel_index(w as int, x, y),
        p.len() == w * h,
        j < p.len(),
    ensures
        diffuse(p, w, h, k, x, y, err, m)[j] == p[j],
    decreases m,
{
    if m > 0 {
        let q = diffuse(p, w, h, k, x, y, err, (m - 1) as nat);
        lemma_diffuse_len(p, w, h, k, x, y, err, (m - 1) as nat);
        lemma_diffuse_keeps_earlier(p, w, h, k, x, y, err, (m - 1) as nat, j);
        lemma_diffuse_row_keeps_earlier(q, w, h, k, x, y, err, m - 1, k.width, j);
    }
}

proof fn lemma_scan_row_black_and_white(
    p: Seq<u8>,
    w: nat,
    h: nat,
    k: KernelModel,
    y: int,
    n: nat,
)
    requires
        causal(k),
        p.len() == w * h,
        0 <= y < h,
        n <= w,
        forall|j: int| 0 <= j < y * w ==> is_black_or_white(#[trigger] p[j]),
    ensures
        forall|j: int|
            0 <= j < y * w + n ==> is_black_or_white(#[trigger] scan_row(p, w, h, k, y, n)[j]),
    decreases n,
{
    if n > 0 {
        let q = scan_row(p, w, h, k, y, (n - 1) as nat);
        lemma_scan_row_black_and_white(p, w, h, k, y, (n - 1) as nat);
        lemma_scan_row_len(p, w, h, k, y, (n - 1) as nat);
        let x = n - 1;
        let i = pixel_index(w as int, x, y);
        crate::lemma_index_in_bounds(w as int, h as int, x, y);
        let c = threshold(q[i]);
        assert forall|j: int| 0 <= j < y * w + n implies is_black_or_white(
            #[trigger] scan_row(p, w, h, k, y, n)[j],
        ) by {
            lemma_diffuse_keeps_earlier(q.update(i, c), w, h, k, x, y, q[i] - c, k.height, j);
        }
    }
}

proof fn lemma_scan_black_and_white(p: Seq<u8>, w: nat, h: nat, k: KernelModel, m: nat)
    requires
        causal(k),
        p.len() == w * h,
        m <= h,
    ensures
        forall|j: int| 0 <= j < m * w ==> is_black_or_white(#[trigger] scan(p, w, h, k, m)[j]),
    decreases m,
{
    if m > 0 {
        let q = scan(p, w, h, k, (m - 1) as nat);
        lemma_scan_black_and_white(p, w, h, k, (m - 1) as nat);
        lemma_scan_len(p, w, h, k, (m - 1) as nat);
        lemma_scan_row_black_and_white(q, w, h, k, m - 1, w);
        assert((m - 1) * w + w == m * w) by (nonlinear_arith);
    }
}

/// Under a causal kernel every sample of the output is pure black or pure white.
pub proof fn law_output_black_and_white(p: Seq<u8>, w: nat, h: nat, k: KernelModel)
    requires
        causal(k),
        p.len() == w * h,
    ensures
        dither(p, w, h, k).len() == p.len(),
        forall|j: int|
            0 <= j < p.len() ==> is_black_or_white(#[trigger] dither(p, w, h, k)[j]),
{
    lemma_scan_len(p, w, h, k, h);
    lemma_scan_black_and_white(p, w, h, k, h);
    assert(h * w == w * h) by (nonlinear_arith);
}

proof fn lemma_scan_row_thresholds(
    p0: Seq<u8>,
    p: Seq<u8>,
    w: nat,
    h: nat,
    k: KernelModel,
    y: int,
    n: nat,
)
    requires
        k.width == 0 || k.height == 0,
        p.len() == w * h,
        p0.len() == p.len(),
        0 <= y < h,
        n <= w,
        forall|j: int|
            0 <= j < p.len() ==> #[trigger] p[j] == if j < y * w {
                threshold(p0[j])
            } else {
                p0[j]
            },
    ensures
        scan_row(p, w, h, k, y, n).len() == p.len(),
        forall|j: int|
            0 <= j < p.len() ==> #[trigger] scan_row(p, w, h, k, y, n)[j] == if j < y * w + n {
                threshold(p0[j])
            } else {
                p0[j]
            },
    decreases n,
{
    if n > 0 {
        let q = scan_row(p, w, h, k, y, (n - 1) as nat);
        lemma_scan_row_thresholds(p0, p, w, h, k, y, (n - 1) as nat);
        let x = n - 1;
        let i = pixel_index(w as int, x, y);
        crate::lemma_index_in_bounds(w as int, h as int, x, y);
        let c = threshold(q[i]);
        if k.width == 0 {
            lemma_diffuse_no_columns(q.update(i, c), w, h, k, x, y, q[i] - c, k.height);
        }
    }
}

proof fn lemma_scan_thresholds(p: Seq<u8>, w: nat, h: nat, k: KernelModel, m: nat)
    requires
        k.width == 0 || k.height == 0,
        p.len() == w * h,
        m <= h,
    ensures
        scan(p, w, h, k, m).len() == p.len(),
        forall|j: int|
            0 <= j < p.len() ==> #[trigger] scan(p, w, h, k, m)[j] == if j < m * w {
                threshold(p[j])
            } else {
                p[j]
            },
    decreases m,
{
    if m > 0 {
        let q = scan(p, w, h, k, (m - 1) as nat);
        lemma_scan_thresholds(p, w, h, k, (m - 1) as nat);
        lemma_scan_row_thresholds(p, q, w, h, k, m - 1, w);
        assert((m - 1) * w + w == m * w) by (nonlinear_arith);
    }
}

/// A kernel of zero size spreads nothing: each sample is thresholded on its own.
pub proof fn law_zero_size_kernel_thresholds(p: Seq<u8>, w: nat, h: nat, k: KernelModel)
    requires
        k.width == 0 || k.height == 0,
        p.len() == w * h,
    ensures
        dither(p, w, h, k) == p.map_values(|v: u8| threshold(v)),
{
    lemma_scan_thresholds(p, w, h, k, h);
    assert(h * w == w * h) by (nonlinear_arith);
    assert(dither(p, w, h, k) =~= p.map_values(|v: u8| threshold(v)));
}

} // verus!
