use vstd::prelude::*;

use crate::Image;
use crate::on_canvas;
use crate::pixel_index;

verus! {

/// Sum of the taps of one kernel row.
pub open spec fn row_total(r: Seq<u32>) -> int
    decreases r.len(),
{
    if r.len() == 0 {
        0
    } else {
        row_total(r.drop_last()) + r.last()
    }
}

/// Sum of all taps of a kernel given row by row.
pub open spec fn grid_total(g: Seq<Seq<u32>>) -> int
    decreases g.len(),
{
    if g.len() == 0 {
        0
    } else {
        grid_total(g.drop_last()) + row_total(g.last())
    }
}

/// The rows of a fixed-size tap table, top row first.
pub open spec fn grid_of<const W: usize, const H: usize>(t: [[u32; W]; H]) -> Seq<Seq<u32>> {
    Seq::new(H as nat, |i: int| t@[i]@)
}

proof fn lemma_row_total_step(r: Seq<u32>, x: int)
    requires
        0 <= x < r.len(),
    ensures
        row_total(r.take(x + 1)) == row_total(r.take(x)) + r[x],
{
    assert(r.take(x + 1).drop_last() =~= r.take(x));
}

proof fn lemma_grid_total_step(g: Seq<Seq<u32>>, y: int)
    requires
        0 <= y < g.len(),
    ensures
        grid_total(g.take(y + 1)) == grid_total(g.take(y)) + row_total(g[y]),
{
    assert(g.take(y + 1).drop_last() =~= g.take(y));
}

proof fn lemma_tap_le_row_total(r: Seq<u32>, x: int)
    requires
        0 <= x < r.len(),
    ensures
        r[x] <= row_total(r),
        0 <= row_total(r),
    decreases r.len(),
{
    if x < r.len() - 1 {
        lemma_tap_le_row_total(r.drop_last(), x);
    } else {
        lemma_row_total_nonneg(r.drop_last());
    }
}

proof fn lemma_row_total_nonneg(r: Seq<u32>)
    ensures
        0 <= row_total(r),
    decreases r.len(),
{
    if r.len() > 0 {
        lemma_row_total_nonneg(r.drop_last());
    }
}

proof fn lemma_grid_total_nonneg(g: Seq<Seq<u32>>)
    ensures
        0 <= grid_total(g),
    decreases g.len(),
{
    if g.len() > 0 {
        lemma_grid_total_nonneg(g.drop_last());
        lemma_row_total_nonneg(g.last());
    }
}

proof fn lemma_tap_le_grid_total(g: Seq<Seq<u32>>, x: int, y: int)
    requires
        0 <= y < g.len(),
        0 <= x < g[y].len(),
    ensures
        g[y][x] <= grid_total(g),
    decreases g.len(),
{
    if y < g.len() - 1 {
        lemma_tap_le_grid_total(g.drop_last(), x, y);
        lemma_row_total_nonneg(g.last());
    } else {
        lemma_tap_le_row_total(g[y], x);
        lemma_grid_total_nonneg(g.drop_last());
    }
}

/// An error-diffusion kernel: a table of non-negative integer taps, the cell (the anchor)
/// that stands on the pixel being thresholded, and the sum of all taps. The share of the
/// error that the cell `(x, y)` receives is its tap divided by that sum.
pub struct ErrorDiffusion {
    width: u32,
    height: u32,
    rows: Vec<Vec<u32>>,
    center: (u32, u32),
    sum: u64,
}

/// What a kernel is: its size, its taps row by row (top row first) and its anchor
/// `(column, row)`.
pub struct KernelModel {
    pub width: nat,
    pub height: nat,
    pub weights: Seq<Seq<u32>>,
    pub anchor: (int, int),
}

impl KernelModel {
    /// The tap at column `x`, row `y` of the table.
    pub open spec fn weight(self, x: int, y: int) -> int {
        self.weights[y][x] as int
    }

    /// The normalisation denominator: the sum of all taps.
    pub open spec fn total(self) -> int {
        grid_total(self.weights)
    }
}

impl View for ErrorDiffusion {
    type V = KernelModel;

    closed spec fn view(&self) -> KernelModel {
        KernelModel {
            width: self.width as nat,
            height: self.height as nat,
            weights: self.rows@.map_values(|r: Vec<u32>| r@),
            anchor: (self.center.0 as int, self.center.1 as int),
        }
    }
}

impl ErrorDiffusion {
    /// The table is rectangular and its size and tap sum fit the stored integers.
    pub closed spec fn wf(&self) -> bool {
        &&& self.rows@.len() == self.height
        &&& forall|i: int| 0 <= i < self.height ==> #[trigger] self.rows@[i]@.len() == self.width
        &&& self.width * self.height <= u32::MAX
        &&& self.sum == self@.total()
    }

    /// A tap never exceeds the sum of all taps.
    pub proof fn lemma_weight_le_total(&self, x: int, y: int)
        requires
            self.wf(),
            0 <= x < self@.width,
            0 <= y < self@.height,
        ensures
            0 <= self@.weight(x, y) <= self@.total(),
    {
        reveal(ErrorDiffusion::wf);
        assert(self.rows@[y]@.len() == self.width);
        lemma_tap_le_grid_total(self@.weights, x, y);
    }

    /// Builds a kernel from its tap table (rows top first) and its anchor `(column, row)`.
    pub fn new<const W: usize, const H: usize>(pixels: [[u32; W]; H], center: (u32, u32)) -> (r:
        ErrorDiffusion)
        requires
            W * H <= u32::MAX,
            W <= u32::MAX,
            H <= u32::MAX,
        ensures
            r.wf(),
            r@.width == W,
            r@.height == H,
            r@.weights == grid_of(pixels),
            r@.anchor == (center.0 as int, center.1 as int),
    {
        let ghost g = grid_of(pixels);
        let mut rows: Vec<Vec<u32>> = Vec::with_capacity(H);
        let mut sum: u64 = 0;
        let mut y: usize = 0;
        while y < H
            invariant
                g == grid_of(pixels),
                W * H <= u32::MAX,
                y <= H,
                rows@.len() == y,
                forall|i: int| 0 <= i < y ==> #[trigger] rows@[i]@ == g[i],
                sum == grid_total(g.take(y as int)),
                sum <= y * W * u32::MAX,
            decreases H - y,
        {
            let mut row: Vec<u32> = Vec::with_capacity(W);
            let mut x: usize = 0;
            while x < W
                invariant
                    g == grid_of(pixels),
                    W * H <= u32::MAX,
                    y < H,
                    x <= W,
                    row@ == g[y as int].take(x as int),
                    g[y as int].len() == W,
                    sum == grid_total(g.take(y as int)) + row_total(g[y as int].take(x as int)),
                    sum <= (y * W + x) * u32::MAX,
                decreases W - x,
            {
                let v = pixels[y][x];
                assert((y * W + x + 1) * u32::MAX <= u32::MAX * u32::MAX) by (nonlinear_arith)
                    requires
                        W * H <= u32::MAX,
                        y < H,
                        x < W,
                ;
                assert(sum + v <= (y * W + x + 1) * u32::MAX) by (nonlinear_arith)
                    requires
                        sum <= (y * W + x) * u32::MAX,
                        v <= u32::MAX,
                ;
                proof {
                    lemma_row_total_step(g[y as int], x as int);
                }
                row.push(v);
                sum = sum + v as u64;
                x += 1;
                assert(row@ =~= g[y as int].take(x as int));
            }
            proof {
                assert(g[y as int].take(W as int) =~= g[y as int]);
                lemma_grid_total_step(g, y as int);
            }
            rows.push(row);
            y += 1;
            assert(sum <= y * W * u32::MAX) by (nonlinear_arith)
                requires
                    sum <= ((y - 1) * W + W) * u32::MAX,
            ;
        }
        let r = ErrorDiffusion { width: W as u32, height: H as u32, rows, center, sum };
        assert(g.take(H as int) =~= g);
        assert(r@.weights =~= g);
        r
    }

    /// The tap at column `x`, row `y`; its share of the error is this over `weight_sum`.
    pub fn get(&self, x: usize, y: usize) -> (r: u32)
        requires
            self.wf(),
            x < self@.width,
            y < self@.height,
        ensures
            r == self@.weight(x as int, y as int),
    {
        self.rows[y][x]
    }

    /// The sum of all taps.
    pub fn weight_sum(&self) -> (r: u64)
        requires
            self.wf(),
        ensures
            r == self@.total(),
    {
        self.sum
    }
}

/// Black below the midpoint of the byte range, white from it up.
pub open spec fn threshold(v: u8) -> u8 {
    if v < 128 {
        0
    } else {
        255
    }
}

/// `a - b`, or zero where that would be negative: taps that would land left of or above
/// the canvas are moved onto its first column or row, not dropped.
pub open spec fn floor_sub(a: int, b: int) -> int {
    if a >= b {
        a - b
    } else {
        0
    }
}

/// The byte for the value `num / den` (with `den > 0`): 0 at or below zero, 255 at or
/// above 255, and between them the value with its fraction dropped.
pub open spec fn byte_of_ratio(num: int, den: int) -> u8 {
    if num <= 0 {
        0
    } else if num >= 255 * den {
        255
    } else {
        (num / den) as u8
    }
}

/// Cell `(kx, ky)` of the kernel hands its share of `err`, the error of the pixel at
/// `(x, y)`, to the pixel it covers, if that one is on the `w` by `h` canvas.
pub open spec fn apply_tap(
    p: Seq<u8>,
    w: nat,
    h: nat,
    k: KernelModel,
    x: int,
    y: int,
    err: int,
    kx: int,
    ky: int,
) -> Seq<u8> {
    let wt = k.weight(kx, ky);
    let px = floor_sub(x + kx, k.anchor.0);
    let py = floor_sub(y + ky, k.anchor.1);
    if wt * err == 0 || !on_canvas(w as int, h as int, px, py) {
        p
    } else {
        let i = pixel_index(w as int, px, py);
        p.update(i, byte_of_ratio(p[i] * k.total() + wt * err, k.total()))
    }
}

/// The taps of the first `n` cells of kernel row `ky`, left to right.
pub open spec fn diffuse_row(
    p: Seq<u8>,
    w: nat,
    h: nat,
    k: KernelModel,
    x: int,
    y: int,
    err: int,
    ky: int,
    n: nat,
) -> Seq<u8>
    decreases n,
{
    if n == 0 {
        p
    } else {
        let q = diffuse_row(p, w, h, k, x, y, err, ky, (n - 1) as nat);
        apply_tap(q, w, h, k, x, y, err, n - 1, ky)
    }
}

/// The taps of the first `m` kernel rows, top to bottom.
pub open spec fn diffuse(
    p: Seq<u8>,
    w: nat,
    h: nat,
    k: KernelModel,
    x: int,
    y: int,
    err: int,
    m: nat,
) -> Seq<u8>
    decreases m,
{
    if m == 0 {
        p
    } else {
        let q = diffuse(p, w, h, k, x, y, err, (m - 1) as nat);
        diffuse_row(q, w, h, k, x, y, err, m - 1, k.width as nat)
    }
}

/// Thresholds the pixel at `(x, y)`, then spreads its error through the whole kernel.
pub open spec fn visit(p: Seq<u8>, w: nat, h: nat, k: KernelModel, x: int, y: int) -> Seq<
    u8,
> {
    let i = pixel_index(w as int, x, y);
    let c = threshold(p[i]);
    diffuse(p.update(i, c), w, h, k, x, y, p[i] - c, k.height as nat)
}

/// Visits the first `n` pixels of row `y`, left to right.
pub open spec fn scan_row(p: Seq<u8>, w: nat, h: nat, k: KernelModel, y: int, n: nat) -> Seq<
    u8,
>
    decreases n,
{
    if n == 0 {
        p
    } else {
        visit(scan_row(p, w, h, k, y, (n - 1) as nat), w, h, k, n - 1, y)
    }
}

/// Visits every pixel of the first `m` rows, in raster order.
pub open spec fn scan(p: Seq<u8>, w: nat, h: nat, k: KernelModel, m: nat) -> Seq<u8>
    decreases m,
{
    if m == 0 {
        p
    } else {
        scan_row(scan(p, w, h, k, (m - 1) as nat), w, h, k, m - 1, w)
    }
}

/// The dithered samples of a `w` by `h` raster: every pixel visited in raster order.
pub open spec fn dither(p: Seq<u8>, w: nat, h: nat, k: KernelModel) -> Seq<u8> {
    scan(p, w, h, k, h)
}

/// Every nonzero tap lies after the anchor in raster order (below its row, or right of it
/// on its row), so no error reaches a pixel that was already thresholded.
pub open spec fn causal(k: KernelModel) -> bool {
    forall|kx: int, ky: int|
        0 <= kx < k.width && 0 <= ky < k.height && #[trigger] k.weight(kx, ky)
            != 0 ==> ky > k.anchor.1 || (ky == k.anchor.1 && kx > k.anchor.0)
}

proof fn lemma_quotient_below(num: int, den: int)
    requires
        0 < num < 255 * den,
    ensures
        0 <= num / den < 255,
{
    assert(0 <= num / den < 255) by (nonlinear_arith)
        requires
            0 < num < 255 * den,
    ;
}

/// `a - b`, or zero where that would be negative.
pub fn clamp_to_zero(a: u64, b: u64) -> (r: u64)
    ensures
        r == floor_sub(a as int, b as int),
{
    if a >= b {
        a - b
    } else {
        0
    }
}

/// The byte for `num / den`: clamped to `[0, 255]`, then truncated.
pub fn clamp_and_truncate(num: i128, den: u64) -> (r: u8)
    requires
        den > 0,
    ensures
        r == byte_of_ratio(num as int, den as int),
{
    if num <= 0 {
        0
    } else if num >= 255 * den as i128 {
        255
    } else {
        proof {
            lemma_quotient_below(num as int, den as int);
        }
        (num / den as i128) as u8
    }
}

/// Thresholds every pixel of `img` in raster order and spreads each one's error through
/// the kernel `ed`, in place.
pub fn process(img: Image, ed: ErrorDiffusion) -> (r: Image)
    requires
        img.wf(),
        ed.wf(),
    ensures
        r.wf(),
        r.width == img.width,
        r.height == img.height,
        r@ == dither(img@, img.width as nat, img.height as nat, ed@),
        causal(ed@) ==> forall|i: int| 0 <= i < r@.len() ==> #[trigger] r@[i] == 0 || r@[i] == 255,
{
    let mut img = img;
    let ghost p0 = img@;
    let ghost w = img.width as nat;
    let ghost h = img.height as nat;
    let mut iy: u32 = 0;
    while iy < img.height
        invariant
            img.wf(),
            ed.wf(),
            img.width == w,
            img.height == h,
            iy <= h,
            img@ == scan(p0, w, h, ed@, iy as nat),
        decreases h - iy,
    {
        let ghost row_start = img@;
        let mut ix: u32 = 0;
        while ix < img.width
            invariant
                img.wf(),
                ed.wf(),
                img.width == w,
                img.height == h,
                iy < h,
                ix <= w,
                row_start == scan(p0, w, h, ed@, iy as nat),
                img@ == scan_row(row_start, w, h, ed@, iy as int, ix as nat),
            decreases w - ix,
        {
            let ghost before = img@;
            let ghost i = pixel_index(w as int, ix as int, iy as int);
            let target = img.get_at(ix as u64, iy as u64).unwrap();
            let clamped: u8 = if target < 128 {
                0
            } else {
                255
            };
            img.set_at(ix as u64, iy as u64, clamped);
            let error: i64 = target as i64 - clamped as i64;
            let ghost start = img@;
            let mut ky: u32 = 0;
            while ky < ed.height
                invariant
                    img.wf(),
                    ed.wf(),
                    img.width == w,
                    img.height == h,
                    ix < w,
                    iy < h,
                    ky <= ed@.height,
                    -255 <= error <= 255,
                    img@ == diffuse(start, w, h, ed@, ix as int, iy as int, error as int, ky as nat),
                decreases ed@.height - ky,
            {
                let ghost row_before = img@;
                let mut kx: u32 = 0;
                while kx < ed.width
                    invariant
                        img.wf(),
                        ed.wf(),
                        img.width == w,
                        img.height == h,
                        ix < w,
                        iy < h,
                        ky < ed@.height,
                        kx <= ed@.width,
                        -255 <= error <= 255,
                        img@ == diffuse_row(
                            row_before,
                            w,
                            h,
                            ed@,
                            ix as int,
                            iy as int,
                            error as int,
                            ky as int,
                            kx as nat,
                        ),
                    decreases ed@.width - kx,
                {
                    let wt = ed.get(kx as usize, ky as usize);
                    assert(-255 * u32::MAX <= wt * error <= 255 * u32::MAX) by (nonlinear_arith)
                        requires
                            -255 <= error <= 255,
                            0 <= wt <= u32::MAX,
                    ;
                    let tap: i64 = wt as i64 * error;
                    if tap != 0 {
                        let px = clamp_to_zero(ix as u64 + kx as u64, ed.center.0 as u64);
                        let py = clamp_to_zero(iy as u64 + ky as u64, ed.center.1 as u64);
                        match img.get_at(px, py) {
                            Some(cur) => {
                                proof {
                                    ed.lemma_weight_le_total(kx as int, ky as int);
                                    assert(tap == (wt as int) * (error as int));
                                    assert(wt != 0) by (nonlinear_arith)
                                        requires
                                            tap == (wt as int) * (error as int),
                                            tap != 0,
                                    ;
                                }
                                let sum = ed.sum;
                                assert(cur * sum <= 255 * u64::MAX) by (nonlinear_arith)
                                    requires
                                        cur <= 255,
                                        sum <= u64::MAX,
                                ;
                                let num: i128 = cur as i128 * sum as i128 + tap as i128;
                                let v = clamp_and_truncate(num, sum);
                                img.set_at(px, py, v);
                            },
                            None => {},
                        }
                    }
                    kx += 1;
                }
                ky += 1;
            }
            ix += 1;
        }
        iy += 1;
    }
    proof {
        if causal(ed@) {
            crate::laws::law_output_black_and_white(p0, w, h, ed@);
        }
    }
    img
}

/// The named kernels of the catalog; `NoDiffusion` thresholds without spreading any error.
#[derive(Debug, Clone, Copy, PartialEq, Eq, Structural)]
pub enum Options {
    FloydSteinberg,
    Aktinson,
    Burkes,
    Sierra,
    SierraTwoRow,
    SierraLite,
    NoDiffusion,
}

/// The tap table of each named kernel, top row first.
pub open spec fn preset_weights(o: Options) -> Seq<Seq<u32>> {
    match o {
        Options::FloydSteinberg => seq![seq![0u32, 0, 7], seq![3u32, 5, 1]],
        Options::Aktinson => seq![seq![0u32, 0, 1, 1], seq![1u32, 1, 1, 0], seq![0u32, 1, 0, 0]],
        Options::Burkes => seq![seq![0u32, 0, 0, 8, 4], seq![2u32, 4, 8, 4, 2]],
        Options::Sierra => seq![
            seq![0u32, 0, 0, 5, 3],
            seq![2u32, 4, 5, 4, 2],
            seq![0u32, 2, 3, 2, 0],
        ],
        Options::SierraTwoRow => seq![seq![0u32, 0, 0, 4, 3], seq![1u32, 2, 3, 2, 1]],
        Options::SierraLite => seq![seq![0u32, 0, 2], seq![1u32, 1, 0]],
        Options::NoDiffusion => seq![],
    }
}

/// The anchor `(column, row)` of each named kernel.
pub open spec fn preset_anchor(o: Options) -> (int, int) {
    match o {
        Options::FloydSteinberg | Options::Aktinson | Options::SierraLite => (1, 0),
        Options::Burkes | Options::Sierra | Options::SierraTwoRow => (2, 0),
        Options::NoDiffusion => (0, 1),
    }
}

/// The kernel that each name stands for.
pub open spec fn preset(o: Options) -> KernelModel {
    let g = preset_weights(o);
    KernelModel {
        width: if g.len() == 0 {
            0
        } else {
            g[0].len()
        },
        height: g.len(),
        weights: g,
        anchor: preset_anchor(o),
    }
}

impl Options {
    /// The kernel that this name stands for.
    pub fn kernel(self) -> (r: ErrorDiffusion)
        ensures
            r.wf(),
            r@ == preset(self),
            causal(r@),
    {
        let r = match self {
            Options::FloydSteinberg => ErrorDiffusion::new([[0, 0, 7], [3, 5, 1]], (1, 0)),
            Options::Aktinson => ErrorDiffusion::new(
                [[0, 0, 1, 1], [1, 1, 1, 0], [0, 1, 0, 0]],
                (1, 0),
            ),
            Options::Burkes => ErrorDiffusion::new([[0, 0, 0, 8, 4], [2, 4, 8, 4, 2]], (2, 0)),
            Options::Sierra => ErrorDiffusion::new(
                [[0, 0, 0, 5, 3], [2, 4, 5, 4, 2], [0, 2, 3, 2, 0]],
                (2, 0),
            ),
            Options::SierraTwoRow => ErrorDiffusion::new(
                [[0, 0, 0, 4, 3], [1, 2, 3, 2, 1]],
                (2, 0),
            ),
            Options::SierraLite => ErrorDiffusion::new([[0, 0, 2], [1, 1, 0]], (1, 0)),
            Options::NoDiffusion => ErrorDiffusion::new::<0, 0>([], (0, 1)),
        };
        assert(r@.weights =~~= preset_weights(self));
        r
    }
}

} // verus!
