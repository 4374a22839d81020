//! Destructible terrain: a 2-D occupancy grid generated from a per-column
//! elevation profile, with span clearing, bounds-checked queries and a
//! time-driven gravity-settling pass ("subsidence").

use vstd::prelude::*;

use crate::num::round_milli;
use crate::num::round_milli_spec;

verus! {

/// Counts the zero bytes of `s`.
pub open spec fn count_zeros(s: Seq<u8>) -> int
    decreases s.len(),
{
    if s.len() == 0 {
        0
    } else {
        count_zeros(s.drop_last()) + if s.last() == 0 {
            1int
        } else {
            0int
        }
    }
}

/// Relies on bytecount::count: the number of occurrences of the needle byte
/// in the slice, here applied to a sub-span of the grid buffer.
#[verifier::external_body]
fn count_zero_bytes(v: &Vec<u8>, start: usize, len: usize) -> (r: usize)
    requires
        start + len <= v.len(),
    ensures
        r == count_zeros(v@.subrange(start as int, start + len)),
{
    bytecount::count(&v[start..start + len], 0)
}

/// The row of grid index `i` under row-major order of width `w`.
pub open spec fn row_of(i: int, w: int) -> int {
    i / w
}

/// The column of grid index `i` under row-major order of width `w`.
pub open spec fn col_of(i: int, w: int) -> int {
    i % w
}

proof fn lemma_rowmajor(w: int, x: int, y: int)
    by (nonlinear_arith)
    requires
        0 <= x < w,
        0 <= y,
    ensures
        (y * w + x) / w == y,
        (y * w + x) % w == x,
        y * w + x >= 0,
{
}

proof fn lemma_rowmajor_in_range(w: int, h: int, x: int, y: int)
    by (nonlinear_arith)
    requires
        0 <= x < w,
        0 <= y < h,
    ensures
        0 <= y * w + x < h * w,
        h * w == w * h,
        w <= 0xffff && h <= 0xffff ==> h * w <= 0xfffe0001,
{
}

proof fn lemma_index_decomp(j: int, w: int, h: int)
    by (nonlinear_arith)
    requires
        w > 0,
        0 <= j < h * w,
    ensures
        0 <= row_of(j, w) < h,
        0 <= col_of(j, w) < w,
        j == row_of(j, w) * w + col_of(j, w),
{
}

/// The boundary row of a column whose profile offset is `off` milli-pixels:
/// the vertical center of the grid plus the offset, rounded to a whole row
/// and clamped to `[0, h]`.  The column is empty above the boundary and
/// filled from the boundary down.
pub open spec fn boundary_spec(h: int, off: int) -> int {
    let b = round_milli_spec(500 * h + off);
    if b < 0 {
        0
    } else if b > h {
        h
    } else {
        b
    }
}

/// The value a regenerated cell takes: filled exactly from the boundary row
/// down.
pub open spec fn gen_val(h: int, off: int, yrow: int) -> u8 {
    if yrow >= boundary_spec(h, off) {
        1u8
    } else {
        0u8
    }
}

/// The length of the in-grid part of a row span starting at `(x, y)` in a
/// `w` by `h` grid: zero when the start lies outside the grid or the
/// requested length is not positive, else the length clamped to the right
/// edge.
pub open spec fn span_len_spec(w: int, h: int, x: int, y: int, length: int) -> int {
    if x < 0 || y < 0 || x >= w || y >= h || length <= 0 {
        0
    } else if x + length > w {
        w - x
    } else {
        length
    }
}

/// The grid after clearing the clamped row span starting at `(x, y)`.
pub open spec fn cleared_row_span(
    g: Seq<u8>,
    w: int,
    h: int,
    x: int,
    y: int,
    length: int,
) -> Seq<u8> {
    let len = span_len_spec(w, h, x, y, length);
    Seq::new(
        g.len(),
        |j: int|
            if row_of(j, w) == y && x <= col_of(j, w) < x + len {
                0u8
            } else {
                g[j]
            },
    )
}

/// Column `x` of a row-major grid, as a sequence indexed by row (0 = top).
pub open spec fn col_seq(g: Seq<u8>, w: int, h: int, x: int) -> Seq<u8> {
    Seq::new(h as nat, |y: int| g[y * w + x])
}

/// Whether the pair of rows `(y - 1, y)` of a column is "offending": an
/// empty cell with a filled cell directly above it, which gravity would
/// swap.
pub open spec fn offending(c: Seq<u8>, y: int) -> bool {
    &&& 1 <= y < c.len()
    &&& c[y] == 0
    &&& c[y - 1] != 0
}

/// One gravity step on the pair of rows `(y - 1, y)`: the filled cell above
/// an empty cell moves down one row.
pub open spec fn step_pair(c: Seq<u8>, y: int) -> Seq<u8> {
    if offending(c, y) {
        c.update(y, c[y - 1]).update(y - 1, 0u8)
    } else {
        c
    }
}

/// The state of a column after the first `k` pairs of a bottom-to-top
/// gravity scan: pairs `y = len-1, len-2, ..., len-k` in that order.
pub open spec fn settle_pairs(c: Seq<u8>, k: nat) -> Seq<u8>
    decreases k,
{
    if k == 0 {
        c
    } else {
        step_pair(settle_pairs(c, (k - 1) as nat), c.len() - k)
    }
}

/// Whether any of the first `k` scanned pairs performed a swap.
pub open spec fn scan_changed(c: Seq<u8>, k: nat) -> bool
    decreases k,
{
    if k == 0 {
        false
    } else {
        scan_changed(c, (k - 1) as nat) || offending(settle_pairs(c, (k - 1) as nat), c.len() - k)
    }
}

/// A full bottom-to-top gravity scan of one column.
pub open spec fn settle_col(c: Seq<u8>) -> Seq<u8> {
    if c.len() <= 1 {
        c
    } else {
        settle_pairs(c, (c.len() - 1) as nat)
    }
}

/// A column at rest: no empty cell sits directly below a filled cell, so
/// all its filled cells form one run that touches the bottom.
pub open spec fn bottom_packed(c: Seq<u8>) -> bool {
    forall|y: int| !offending(c, y)
}

/// One gravity pass over the whole grid: every column scanned once,
/// independently.
pub open spec fn settle_grid(g: Seq<u8>, w: int, h: int) -> Seq<u8> {
    Seq::new(g.len(), |j: int| settle_col(col_seq(g, w, h, col_of(j, w)))[row_of(j, w)])
}

/// `n` consecutive gravity passes.
pub open spec fn settle_grid_iter(g: Seq<u8>, w: int, h: int, n: nat) -> Seq<u8>
    decreases n,
{
    if n == 0 {
        g
    } else {
        settle_grid(settle_grid_iter(g, w, h, (n - 1) as nat), w, h)
    }
}

/// Every column of the grid is at rest.
pub open spec fn all_settled(g: Seq<u8>, w: int, h: int) -> bool {
    forall|x: int| 0 <= x < w ==> bottom_packed(#[trigger] col_seq(g, w, h, x))
}

/// The number of discrete gravity rows that should have run after `ms`
/// milliseconds of subsidence: `round(G * t^2 * TIME_SCALE)` with `t` in
/// seconds, `G = 9.80665` and `TIME_SCALE = 3`.
pub open spec fn rows_for_elapsed_spec(ms: int) -> int {
    (29_419_950 * ms * ms + 500_000_000_000) / 1_000_000_000_000
}

/// The settling clock saturates after ten million seconds; by then the
/// requested number of gravity rows exceeds any grid height.
pub open spec fn clamp_subsidence_ms(ms: int) -> int {
    if ms <= 10_000_000_000 {
        ms
    } else {
        10_000_000_000
    }
}

proof fn lemma_settle_pairs_len(c: Seq<u8>, k: nat)
    ensures
        settle_pairs(c, k).len() == c.len(),
    decreases k,
{
    if k > 0 {
        lemma_settle_pairs_len(c, (k - 1) as nat);
    }
}

proof fn lemma_count_zeros_update(c: Seq<u8>, i: int, v: u8)
    requires
        0 <= i < c.len(),
    ensures
        count_zeros(c.update(i, v)) == count_zeros(c) - (if c[i] == 0 {
            1int
        } else {
            0int
        }) + (if v == 0 {
            1int
        } else {
            0int
        }),
    decreases c.len(),
{
    let cu = c.update(i, v);
    if i == c.len() - 1 {
        assert(cu.drop_last() =~= c.drop_last());
    } else {
        lemma_count_zeros_update(c.drop_last(), i, v);
        assert(cu.drop_last() =~= c.drop_last().update(i, v));
        assert(cu.last() == c.last());
    }
}

proof fn lemma_step_pair_count(c: Seq<u8>, y: int)
    ensures
        count_zeros(step_pair(c, y)) == count_zeros(c),
        step_pair(c, y).len() == c.len(),
{
    if offending(c, y) {
        lemma_count_zeros_update(c, y, c[y - 1]);
        lemma_count_zeros_update(c.update(y, c[y - 1]), y - 1, 0u8);
    }
}

proof fn lemma_settle_pairs_count(c: Seq<u8>, k: nat)
    ensures
        count_zeros(settle_pairs(c, k)) == count_zeros(c),
    decreases k,
{
    if k > 0 {
        lemma_settle_pairs_count(c, (k - 1) as nat);
        lemma_step_pair_count(settle_pairs(c, (k - 1) as nat), c.len() - k);
    }
}

/// A column at rest is a fixpoint of the scan, and the scan reports no
/// change on it.
proof fn lemma_settled_identity(c: Seq<u8>, k: nat)
    requires
        bottom_packed(c),
    ensures
        settle_pairs(c, k) == c,
        !scan_changed(c, k),
    decreases k,
{
    if k > 0 {
        lemma_settled_identity(c, (k - 1) as nat);
    }
}

/// If none of the pairs scanned so far was offending in the starting
/// column, the scan has not moved anything.
proof fn lemma_no_offending_identity(c: Seq<u8>, k: nat)
    requires
        forall|y: int| c.len() - k <= y < c.len() ==> !offending(c, y),
    ensures
        settle_pairs(c, k) == c,
        !scan_changed(c, k),
    decreases k,
{
    if k > 0 {
        lemma_no_offending_identity(c, (k - 1) as nat);
    }
}

proof fn lemma_scan_changed_monotone(c: Seq<u8>, k1: nat, k2: nat)
    requires
        k1 <= k2,
        scan_changed(c, k1),
    ensures
        scan_changed(c, k2),
    decreases k2,
{
    if k2 > k1 {
        lemma_scan_changed_monotone(c, k1, (k2 - 1) as nat);
    }
}

proof fn lemma_has_max_offending(c: Seq<u8>, y: int) -> (y0: int)
    requires
        offending(c, y),
    ensures
        y <= y0,
        offending(c, y0),
        forall|yy: int| y0 < yy ==> !offending(c, yy),
    decreases c.len() - y,
{
    if exists|yy: int| y < yy && offending(c, yy) {
        let yy = choose|yy: int| y < yy && offending(c, yy);
        lemma_has_max_offending(c, yy)
    } else {
        y
    }
}

/// A column not at rest is reported as changed by a full scan.
proof fn lemma_unsettled_scan_changed(c: Seq<u8>)
    requires
        !bottom_packed(c),
    ensures
        scan_changed(c, (c.len() - 1) as nat),
{
    let y = choose|y: int| offending(c, y);
    let y0 = lemma_has_max_offending(c, y);
    let k0 = (c.len() - y0) as nat;
    assert(forall|yy: int| c.len() - (k0 - 1) <= yy < c.len() ==> !offending(c, yy));
    lemma_no_offending_identity(c, (k0 - 1) as nat);
    assert(offending(settle_pairs(c, (k0 - 1) as nat), c.len() - k0));
    assert(scan_changed(c, k0));
    lemma_scan_changed_monotone(c, k0, (c.len() - 1) as nat);
}

/// Column extraction commutes with a gravity pass: pass then extract is
/// extract then scan.
proof fn lemma_settle_grid_col(g: Seq<u8>, w: int, h: int, x: int)
    requires
        1 <= w,
        1 <= h,
        g.len() == h * w,
        0 <= x < w,
    ensures
        col_seq(settle_grid(g, w, h), w, h, x) == settle_col(col_seq(g, w, h, x)),
{
    let c = col_seq(g, w, h, x);
    lemma_settle_pairs_len(c, (c.len() - 1) as nat);
    assert forall|y: int| 0 <= y < h implies col_seq(settle_grid(g, w, h), w, h, x)[y]
        == settle_col(c)[y] by {
        lemma_rowmajor_in_range(w, h, x, y);
        lemma_rowmajor(w, x, y);
    }
    assert(col_seq(settle_grid(g, w, h), w, h, x) =~= settle_col(c));
}

/// A grid whose columns are all at rest is a fixpoint of the gravity pass.
proof fn lemma_settled_grid_identity(g: Seq<u8>, w: int, h: int)
    requires
        1 <= w,
        1 <= h,
        g.len() == h * w,
        all_settled(g, w, h),
    ensures
        settle_grid(g, w, h) == g,
{
    assert forall|j: int| 0 <= j < g.len() implies settle_grid(g, w, h)[j] == g[j] by {
        lemma_index_decomp(j, w, h);
        let x = col_of(j, w);
        let c = col_seq(g, w, h, x);
        lemma_settled_identity(c, (c.len() - 1) as nat);
    }
    assert(settle_grid(g, w, h) =~= g);
}

/// A gravity pass moves cells only within their own column, so the number
/// of empty (and filled) cells of every column is preserved.
proof fn lemma_settle_grid_counts(g: Seq<u8>, w: int, h: int, x: int)
    requires
        1 <= w,
        1 <= h,
        g.len() == h * w,
        0 <= x < w,
    ensures
        count_zeros(col_seq(settle_grid(g, w, h), w, h, x)) == count_zeros(col_seq(g, w, h, x)),
{
    lemma_settle_grid_col(g, w, h, x);
    let c = col_seq(g, w, h, x);
    if c.len() <= 1 {
    } else {
        lemma_settle_pairs_count(c, (c.len() - 1) as nat);
    }
}

/// The destructible terrain grid.  A cell value of 0 is empty; any other
/// value is filled ground.  Cells are stored row-major, `index = y * width +
/// x`, with `y = 0` the top row.
pub struct Landscape {
    width: u16,
    height: u16,
    buffer: Vec<u8>,
    seed: u32,
    amplitude: i64,
    dx: i32,
    changed: bool,
    subsidence_active: bool,
    subsidence_started_ms: u64,
    subsidence_last_rows: u64,
}

impl Landscape {
    /// The grid contents, row-major.
    pub closed spec fn grid(self) -> Seq<u8> {
        self.buffer@
    }

    pub closed spec fn width_spec(self) -> int {
        self.width as int
    }

    pub closed spec fn height_spec(self) -> int {
        self.height as int
    }

    /// Whether the cell at `(x, y)` is filled; out-of-range cells are empty.
    pub closed spec fn cell_filled(self, x: int, y: int) -> bool {
        &&& 0 <= x < self.width_spec()
        &&& 0 <= y < self.height_spec()
        &&& self.grid()[y * self.width_spec() + x] != 0
    }

    /// Basic well-formedness: positive dimensions, a buffer of exactly
    /// width * height cells, and a subsidence window lying over the grid.
    pub closed spec fn wf(self) -> bool {
        &&& 1 <= self.width_spec() <= 0xffff
        &&& 1 <= self.height_spec() <= 0xffff
        &&& self.grid().len() == self.width_spec() * self.height_spec()
    }

    pub closed spec fn changed_spec(self) -> bool {
        self.changed
    }

    pub closed spec fn seed_spec(self) -> int {
        self.seed as int
    }

    pub closed spec fn amplitude_spec(self) -> int {
        self.amplitude as int
    }

    pub closed spec fn dx_spec(self) -> int {
        self.dx as int
    }

    pub closed spec fn subsidence_active_spec(self) -> bool {
        self.subsidence_active
    }

    pub closed spec fn subsidence_started_spec(self) -> int {
        self.subsidence_started_ms as int
    }

    pub closed spec fn subsidence_last_rows_spec(self) -> int {
        self.subsidence_last_rows as int
    }

    /// Everything but the grid contents and the change flag: dimensions,
    /// profile configuration and subsidence state.
    pub closed spec fn same_config(self, other: Landscape) -> bool {
        &&& self.width == other.width
        &&& self.height == other.height
        &&& self.seed == other.seed
        &&& self.amplitude == other.amplitude
        &&& self.dx == other.dx
        &&& self.subsidence_active == other.subsidence_active
        &&& self.subsidence_started_ms == other.subsidence_started_ms
        &&& self.subsidence_last_rows == other.subsidence_last_rows
    }

    /// A fresh, fully empty landscape.  Fails exactly when a dimension is
    /// zero.
    pub fn new(width: u16, height: u16) -> (r: Result<Landscape, String>)
        ensures
            (width == 0 || height == 0) <==> r is Err,
            r matches Ok(l) ==> {
                &&& l.wf()
                &&& l.width_spec() == width
                &&& l.height_spec() == height
                &&& forall|x: int, y: int| !l.cell_filled(x, y)
                &&& l.changed_spec()
                &&& !l.subsidence_active_spec()
                &&& l.amplitude_spec() == 500 * height
                &&& l.dx_spec() == 0
                &&& l.seed_spec() == 0
            },
    {
        if width == 0 || height == 0 {
            return Err("'width' and 'height' must be greater than 0".to_string());
        }
        proof {
            lemma_rowmajor_in_range(width as int, height as int, 0, (height - 1) as int);
        }
        let res_size: usize = (width as usize) * (height as usize);
        let mut buffer: Vec<u8> = Vec::new();
        let mut i: usize = 0;
        while i < res_size
            invariant
                i <= res_size,
                buffer@.len() == i,
                forall|j: int| 0 <= j < i ==> buffer@[j] == 0,
            decreases res_size - i,
        {
            buffer.push(0u8);
            i = i + 1;
        }
        let l = Landscape {
            width,
            height,
            buffer,
            seed: 0,
            amplitude: 500 * (height as i64),
            dx: 0,
            changed: true,
            subsidence_active: false,
            subsidence_started_ms: 0,
            subsidence_last_rows: 0,
        };
        proof {
            assert forall|x: int, y: int| !l.cell_filled(x, y) by {
                if 0 <= x < l.width_spec() && 0 <= y < l.height_spec() {
                    lemma_rowmajor_in_range(l.width_spec(), l.height_spec(), x, y);
                    assert(l.grid()[y * l.width_spec() + x] == 0);
                }
            }
        }
        Ok(l)
    }

    /// Stores the seed used by the elevation-profile configuration.
    pub fn set_seed(&mut self, seed: u32)
        ensures
            final(self).seed_spec() == seed,
            final(self).grid() == old(self).grid(),
            final(self).width_spec() == old(self).width_spec(),
            final(self).height_spec() == old(self).height_spec(),
            final(self).amplitude_spec() == old(self).amplitude_spec(),
            final(self).dx_spec() == old(self).dx_spec(),
            final(self).changed_spec() == old(self).changed_spec(),
            final(self).subsidence_active_spec() == old(self).subsidence_active_spec(),
            old(self).wf() ==> final(self).wf(),
    {
        self.seed = seed;
    }

    pub fn seed(&self) -> (r: u32)
        ensures
            r == self.seed_spec(),
    {
        self.seed
    }

    /// The amplitude, in milli-pixels, that the next `generate` profile is
    /// expected to be scaled by.
    pub fn amplitude(&self) -> (r: i64)
        ensures
            r == self.amplitude_spec(),
    {
        self.amplitude
    }

    pub fn set_amplitude(&mut self, amplitude: i64)
        ensures
            final(self).amplitude_spec() == amplitude,
            final(self).grid() == old(self).grid(),
            final(self).width_spec() == old(self).width_spec(),
            final(self).height_spec() == old(self).height_spec(),
            final(self).seed_spec() == old(self).seed_spec(),
            final(self).dx_spec() == old(self).dx_spec(),
            final(self).changed_spec() == old(self).changed_spec(),
            final(self).subsidence_active_spec() == old(self).subsidence_active_spec(),
            old(self).wf() ==> final(self).wf(),
    {
        self.amplitude = amplitude;
    }

    /// The horizontal profile offset, in whole pixels, applied by the next
    /// `generate`.
    pub fn dx(&self) -> (r: i32)
        ensures
            r == self.dx_spec(),
    {
        self.dx
    }

    pub fn set_dx(&mut self, dx: i32)
        ensures
            final(self).dx_spec() == dx,
            final(self).grid() == old(self).grid(),
            final(self).width_spec() == old(self).width_spec(),
            final(self).height_spec() == old(self).height_spec(),
            final(self).seed_spec() == old(self).seed_spec(),
            final(self).amplitude_spec() == old(self).amplitude_spec(),
            final(self).changed_spec() == old(self).changed_spec(),
            final(self).subsidence_active_spec() == old(self).subsidence_active_spec(),
            old(self).wf() ==> final(self).wf(),
    {
        self.dx = dx;
    }

    pub fn changed(&self) -> (r: bool)
        ensures
            r == self.changed_spec(),
    {
        self.changed
    }

    /// Marks the grid as changed since it was last drawn.
    pub fn set_changed(&mut self)
        ensures
            final(self).changed_spec(),
            final(self).grid() == old(self).grid(),
            final(self).same_config(*old(self)),
            final(self).width_spec() == old(self).width_spec(),
            final(self).height_spec() == old(self).height_spec(),
            old(self).wf() ==> final(self).wf(),
    {
        self.changed = true;
    }

    /// Lets the renderer acknowledge the current grid contents.
    pub fn clear_changed(&mut self)
        ensures
            !final(self).changed_spec(),
            final(self).grid() == old(self).grid(),
            final(self).same_config(*old(self)),
            final(self).width_spec() == old(self).width_spec(),
            final(self).height_spec() == old(self).height_spec(),
            old(self).wf() ==> final(self).wf(),
    {
        self.changed = false;
    }

    pub fn size(&self) -> (r: (u16, u16))
        ensures
            r.0 == self.width_spec(),
            r.1 == self.height_spec(),
    {
        (self.width, self.height)
    }

    /// Read-only view of the raw cells, for the rendering collaborator.
    pub fn pixels(&self) -> (r: &Vec<u8>)
        ensures
            r@ == self.grid(),
    {
        &self.buffer
    }

    /// Bounds-checked occupancy test; out-of-bounds cells read as empty.
    pub fn is_not_empty(&self, x: i32, y: i32) -> (r: bool)
        requires
            self.wf(),
        ensures
            r == self.cell_filled(x as int, y as int),
    {
        if x < 0 || y < 0 || x >= self.width as i32 || y >= self.height as i32 {
            return false;
        }
        proof {
            lemma_rowmajor_in_range(self.width_spec(), self.height_spec(), x as int, y as int);
            lemma_rowmajor(self.width_spec(), x as int, y as int);
        }
        let index: usize = (y as usize) * (self.width as usize) + (x as usize);
        self.buffer[index] > 0
    }

    /// The length of the in-grid part of a row span starting at `(x, y)`:
    /// zero when the start lies outside the grid or the requested length is
    /// zero, else the requested length clamped to the right edge.
    pub open spec fn span_len(self, x: int, y: int, length: int) -> int {
        span_len_spec(self.width_spec(), self.height_spec(), x, y, length)
    }

    /// Clears (empties) the row span of `length` cells starting at `(x, y)`,
    /// clamped to the grid; a start outside the grid or a zero length clears
    /// nothing.  No cell outside the span changes.
    pub fn clear_span(&mut self, x: i32, y: i32, length: u16)
        requires
            old(self).wf(),
        ensures
            final(self).wf(),
            final(self).same_config(*old(self)),
            final(self).width_spec() == old(self).width_spec(),
            final(self).height_spec() == old(self).height_spec(),
            final(self).changed_spec() == old(self).changed_spec(),
            forall|cx: int, cy: int|
                #[trigger] final(self).cell_filled(cx, cy) == (old(self).cell_filled(cx, cy)
                    && !(cy == y && x <= cx < x + old(self).span_len(
                    x as int,
                    y as int,
                    length as int,
                ))),
            final(self).grid() == cleared_row_span(
                old(self).grid(),
                old(self).width_spec(),
                old(self).height_spec(),
                x as int,
                y as int,
                length as int,
            ),
    {
        let ghost orig = *self;
        if x < 0 || y < 0 || x >= self.width as i32 || y >= self.height as i32 || length == 0 {
            proof {
                assert(self.grid() =~= cleared_row_span(
                    orig.grid(),
                    orig.width_spec(),
                    orig.height_spec(),
                    x as int,
                    y as int,
                    length as int,
                ));
            }
            return ;
        }
        let w: usize = self.width as usize;
        let xs: usize = x as usize;
        let len: usize = if xs + (length as usize) > w {
            w - xs
        } else {
            length as usize
        };
        assert(len == self.span_len(x as int, y as int, length as int));
        proof {
            lemma_rowmajor_in_range(orig.width_spec(), orig.height_spec(), x as int, y as int);
            lemma_rowmajor_in_range(
                orig.width_spec(),
                orig.height_spec(),
                x + len - 1,
                y as int,
            );
        }
        let base: usize = (y as usize) * w + xs;
        let mut i: usize = 0;
        while i < len
            invariant
                orig.wf(),
                self.width == orig.width,
                self.height == orig.height,
                self.same_config(orig),
                self.changed == orig.changed,
                self.grid().len() == orig.grid().len(),
                i <= len,
                xs == x as int,
                0 <= x < orig.width_spec(),
                0 <= y < orig.height_spec(),
                xs + len <= orig.width_spec(),
                base == y * orig.width_spec() + xs,
                w == orig.width_spec(),
                forall|j: int|
                    0 <= j < orig.grid().len() ==> #[trigger] self.grid()[j] == (
                    if base <= j < base + i {
                        0u8
                    } else {
                        orig.grid()[j]
                    }),
            decreases len - i,
        {
            proof {
                lemma_rowmajor_in_range(orig.width_spec(), orig.height_spec(), x + i, y as int);
            }
            self.buffer.set(base + i, 0u8);
            i = i + 1;
        }
        proof {
            assert forall|cx: int, cy: int|
                #[trigger] self.cell_filled(cx, cy) == (orig.cell_filled(cx, cy) && !(cy == y && x
                    <= cx < x + orig.span_len(x as int, y as int, length as int))) by {
                if 0 <= cx < orig.width_spec() && 0 <= cy < orig.height_spec() {
                    let wi = orig.width_spec();
                    let idx = cy * wi + cx;
                    lemma_rowmajor_in_range(wi, orig.height_spec(), cx, cy);
                    lemma_rowmajor(wi, cx, cy);
                    if cy == y && x <= cx < x + len {
                        assert(idx - base == cx - x);
                        assert(base <= idx < base + len);
                    } else if base <= idx < base + len {
                        lemma_rowmajor(wi, x + (idx - base), y as int);
                        assert(y * wi + (x + (idx - base)) == idx);
                        assert(cy == y && cx == x + (idx - base));
                    }
                }
            }
            let wi = orig.width_spec();
            let hi = orig.height_spec();
            assert forall|j: int| 0 <= j < orig.grid().len() implies self.grid()[j]
                == cleared_row_span(
                orig.grid(),
                wi,
                hi,
                x as int,
                y as int,
                length as int,
            )[j] by {
                lemma_index_decomp(j, wi, hi);
                let cy = row_of(j, wi);
                let cx = col_of(j, wi);
                if cy == y && x <= cx < x + len {
                    assert(j - base == cx - x);
                    assert(base <= j < base + len);
                } else if base <= j < base + len {
                    lemma_rowmajor(wi, x + (j - base), y as int);
                    assert(y * wi + (x + (j - base)) == j);
                    assert(cy == y && cx == x + (j - base));
                }
            }
            assert(self.grid() =~= cleared_row_span(
                orig.grid(),
                wi,
                hi,
                x as int,
                y as int,
                length as int,
            ));
        }
    }

    /// The number of empty cells in the clamped row span starting at
    /// `(x, y)`, or `None` when the start lies outside the grid or the
    /// length is zero.
    pub fn count_empty_span(&self, x: i32, y: i32, length: u16) -> (r: Option<usize>)
        requires
            self.wf(),
        ensures
            r is Some <==> self.span_len(x as int, y as int, length as int) > 0,
            r matches Some(n) ==> {
                let base = y * self.width_spec() + x;
                n == count_zeros(
                    self.grid().subrange(
                        base,
                        base + self.span_len(x as int, y as int, length as int),
                    ),
                )
            },
    {
        if x < 0 || y < 0 || x >= self.width as i32 || y >= self.height as i32 || length == 0 {
            return None;
        }
        let w: usize = self.width as usize;
        let xs: usize = x as usize;
        let len: usize = if xs + (length as usize) > w {
            w - xs
        } else {
            length as usize
        };
        proof {
            lemma_rowmajor_in_range(self.width_spec(), self.height_spec(), x as int, y as int);
            lemma_rowmajor_in_range(self.width_spec(), self.height_spec(), x + len - 1, y as int);
        }
        let base: usize = (y as usize) * w + xs;
        Some(count_zero_bytes(&self.buffer, base, len))
    }

    /// Rebuilds every column from the elevation profile `offsets` (one
    /// milli-pixel offset per column, as sampled by the noise collaborator):
    /// column `x` becomes empty above `boundary_spec(height, offsets[x])`
    /// and filled from there down.  Regeneration is total: it overwrites
    /// every cell.
    pub fn generate(&mut self, offsets: &Vec<i64>)
        requires
            old(self).wf(),
            offsets@.len() == old(self).width_spec(),
            forall|i: int|
                0 <= i < offsets@.len() ==> -1_000_000_000 <= #[trigger] offsets@[i]
                    <= 1_000_000_000,
        ensures
            final(self).wf(),
            final(self).same_config(*old(self)),
            final(self).width_spec() == old(self).width_spec(),
            final(self).height_spec() == old(self).height_spec(),
            final(self).changed_spec() == old(self).changed_spec(),
            forall|x: int, y: int|
                #[trigger] final(self).cell_filled(x, y) == (0 <= x < old(self).width_spec() && 0
                    <= y < old(self).height_spec() && y >= boundary_spec(
                    old(self).height_spec(),
                    offsets@[x] as int,
                )),
    {
        let ghost orig = *self;
        let w: usize = self.width as usize;
        let h: usize = self.height as usize;
        proof {
            lemma_rowmajor_in_range(w as int, h as int, 0, h - 1);
        }
        let mut x: usize = 0;
        while x < w
            invariant
                orig.wf(),
                self.same_config(orig),
                self.changed == orig.changed,
                self.grid().len() == orig.grid().len(),
                w == orig.width_spec(),
                h == orig.height_spec(),
                1 <= w <= 0xffff,
                1 <= h <= 0xffff,
                orig.grid().len() == h * w,
                x <= w,
                offsets@.len() == w,
                forall|i: int|
                    0 <= i < offsets@.len() ==> -1_000_000_000 <= #[trigger] offsets@[i]
                        <= 1_000_000_000,
                forall|j: int|
                    0 <= j < self.grid().len() ==> #[trigger] self.grid()[j] == (
                    if col_of(j, w as int) < x {
                        gen_val(h as int, offsets@[col_of(j, w as int)] as int, row_of(j, w as int))
                    } else {
                        orig.grid()[j]
                    }),
            decreases w - x,
        {
            let off: i64 = offsets[x];
            let bm: i64 = 500 * (self.height as i64) + off;
            let b: i64 = round_milli(bm);
            let bc: usize = if b < 0 {
                0
            } else if b > self.height as i64 {
                h
            } else {
                b as usize
            };
            assert(bc == boundary_spec(h as int, off as int));
            let mut y: usize = 0;
            while y < h
                invariant
                    orig.wf(),
                    self.same_config(orig),
                    self.changed == orig.changed,
                    self.grid().len() == orig.grid().len(),
                    w == orig.width_spec(),
                    h == orig.height_spec(),
                    1 <= w <= 0xffff,
                    1 <= h <= 0xffff,
                    orig.grid().len() == h * w,
                    x < w,
                    y <= h,
                    offsets@.len() == w,
                    off == offsets@[x as int],
                    bc == boundary_spec(h as int, off as int),
                    forall|i: int|
                        0 <= i < offsets@.len() ==> -1_000_000_000 <= #[trigger] offsets@[i]
                            <= 1_000_000_000,
                    forall|j: int|
                        0 <= j < self.grid().len() ==> #[trigger] self.grid()[j] == (
                        if col_of(j, w as int) < x || (col_of(j, w as int) == x && row_of(
                            j,
                            w as int,
                        ) < y) {
                            gen_val(
                                h as int,
                                offsets@[col_of(j, w as int)] as int,
                                row_of(j, w as int),
                            )
                        } else {
                            orig.grid()[j]
                        }),
                decreases h - y,
            {
                let v: u8 = if y >= bc {
                    1
                } else {
                    0
                };
                proof {
                    lemma_rowmajor_in_range(w as int, h as int, x as int, y as int);
                    lemma_rowmajor(w as int, x as int, y as int);
                }
                let idx: usize = y * w + x;
                let ghost before = self.grid();
                self.buffer.set(idx, v);
                proof {
                    assert forall|j: int| 0 <= j < self.grid().len() implies #[trigger] self.grid()[j]
                        == (if col_of(j, w as int) < x || (col_of(j, w as int) == x && row_of(
                        j,
                        w as int,
                    ) < y + 1) {
                        gen_val(h as int, offsets@[col_of(j, w as int)] as int, row_of(j, w as int))
                    } else {
                        before[j]
                    }) by {
                        lemma_index_decomp(j, w as int, h as int);
                        if j == idx {
                            assert(col_of(j, w as int) == x && row_of(j, w as int) == y);
                        } else {
                            assert(!(col_of(j, w as int) == x && row_of(j, w as int) == y));
                        }
                    }
                }
                y = y + 1;
            }
            x = x + 1;
            proof {
                assert forall|j: int| 0 <= j < self.grid().len() implies #[trigger] self.grid()[j]
                    == (if col_of(j, w as int) < x {
                    gen_val(h as int, offsets@[col_of(j, w as int)] as int, row_of(j, w as int))
                } else {
                    orig.grid()[j]
                }) by {
                    lemma_index_decomp(j, w as int, h as int);
                }
            }
        }
        proof {
            assert forall|cx: int, cy: int|
                #[trigger] self.cell_filled(cx, cy) == (0 <= cx < orig.width_spec() && 0 <= cy
                    < orig.height_spec() && cy >= boundary_spec(
                    orig.height_spec(),
                    offsets@[cx] as int,
                )) by {
                if 0 <= cx < orig.width_spec() && 0 <= cy < orig.height_spec() {
                    lemma_rowmajor_in_range(w as int, h as int, cx, cy);
                    lemma_rowmajor(w as int, cx, cy);
                }
            }
        }
    }

    /// One bottom-to-top gravity scan of column `x`: every filled cell with
    /// an empty cell directly below it moves down one row (holes bubble to
    /// the top of the run in a single scan, but each cell moves at most one
    /// row).  Returns whether any cell moved.
    fn settle_column(&mut self, x: usize) -> (changed: bool)
        requires
            old(self).wf(),
            x < old(self).width_spec(),
        ensures
            final(self).wf(),
            final(self).same_config(*old(self)),
            final(self).changed_spec() == old(self).changed_spec(),
            final(self).grid().len() == old(self).grid().len(),
            forall|j: int|
                0 <= j < old(self).grid().len() ==> #[trigger] final(self).grid()[j] == (
                if col_of(j, old(self).width_spec()) == x {
                    settle_col(
                        col_seq(
                            old(self).grid(),
                            old(self).width_spec(),
                            old(self).height_spec(),
                            x as int,
                        ),
                    )[row_of(j, old(self).width_spec())]
                } else {
                    old(self).grid()[j]
                }),
            changed == scan_changed(
                col_seq(old(self).grid(), old(self).width_spec(), old(self).height_spec(), x as int),
                (old(self).height_spec() - 1) as nat,
            ),
    {
        let w: usize = self.width as usize;
        let h: usize = self.height as usize;
        let ghost g0 = self.grid();
        let ghost c0 = col_seq(g0, w as int, h as int, x as int);
        proof {
            lemma_rowmajor_in_range(w as int, h as int, x as int, 0);
            assert forall|j: int| 0 <= j < g0.len() implies g0[j] == (
            if col_of(j, w as int) == x {
                settle_pairs(c0, 0)[row_of(j, w as int)]
            } else {
                g0[j]
            }) by {
                lemma_index_decomp(j, w as int, h as int);
            }
        }
        let mut changed = false;
        let mut k: usize = 0;
        while k < h - 1
            invariant
                self.wf(),
                self.same_config(*old(self)),
                self.changed_spec() == old(self).changed_spec(),
                w == self.width_spec(),
                h == self.height_spec(),
                1 <= w <= 0xffff,
                1 <= h <= 0xffff,
                x < w,
                k <= h - 1,
                g0.len() == h * w,
                self.grid().len() == g0.len(),
                c0 == col_seq(g0, w as int, h as int, x as int),
                c0.len() == h,
                forall|j: int|
                    0 <= j < g0.len() ==> #[trigger] self.grid()[j] == (
                    if col_of(j, w as int) == x {
                        settle_pairs(c0, k as nat)[row_of(j, w as int)]
                    } else {
                        g0[j]
                    }),
                changed == scan_changed(c0, k as nat),
            decreases h - 1 - k,
        {
            let y = h - 1 - k;
            let ghost prev = settle_pairs(c0, k as nat);
            proof {
                lemma_settle_pairs_len(c0, k as nat);
                lemma_rowmajor_in_range(w as int, h as int, x as int, y as int);
                lemma_rowmajor(w as int, x as int, y as int);
                lemma_rowmajor_in_range(w as int, h as int, x as int, y - 1);
                lemma_rowmajor(w as int, x as int, y - 1);
            }
            let idx_cur: usize = y * w + x;
            let idx_top: usize = (y - 1) * w + x;
            let cur = self.buffer[idx_cur];
            let top = self.buffer[idx_top];
            assert(cur == prev[y as int]);
            assert(top == prev[y - 1]);
            proof {
                assert(settle_pairs(c0, (k + 1) as nat) == step_pair(prev, c0.len() - (k + 1)));
                assert(c0.len() - (k + 1) == y as int);
                assert(scan_changed(c0, (k + 1) as nat) == (scan_changed(c0, k as nat)
                    || offending(prev, y as int)));
            }
            if cur == 0 && top != 0 {
                self.buffer.set(idx_cur, top);
                self.buffer.set(idx_top, 0u8);
                changed = true;
                proof {
                    assert(offending(prev, y as int));
                    assert(settle_pairs(c0, (k + 1) as nat) == prev.update(y as int, prev[y - 1])
                        .update(y - 1, 0u8));
                    assert forall|j: int| 0 <= j < g0.len() implies #[trigger] self.grid()[j] == (
                    if col_of(j, w as int) == x {
                        settle_pairs(c0, (k + 1) as nat)[row_of(j, w as int)]
                    } else {
                        g0[j]
                    }) by {
                        lemma_index_decomp(j, w as int, h as int);
                    }
                }
            } else {
                proof {
                    assert(!offending(prev, y as int));
                    assert(settle_pairs(c0, (k + 1) as nat) == prev);
                }
            }
            k = k + 1;
        }
        proof {
            if h > 1 {
                assert(settle_col(c0) == settle_pairs(c0, (h - 1) as nat));
            } else {
                assert(settle_col(c0) == c0);
                assert(settle_pairs(c0, 0) == c0);
            }
        }
        changed
    }

    /// One gravity pass over every column of the grid.  Returns whether any
    /// cell moved; a pass that moves nothing means the whole grid is at
    /// rest.
    fn settle_pass(&mut self) -> (changed: bool)
        requires
            old(self).wf(),
        ensures
            final(self).wf(),
            final(self).same_config(*old(self)),
            final(self).changed_spec() == old(self).changed_spec(),
            final(self).grid() == settle_grid(
                old(self).grid(),
                old(self).width_spec(),
                old(self).height_spec(),
            ),
            changed == !all_settled(
                old(self).grid(),
                old(self).width_spec(),
                old(self).height_spec(),
            ),
    {
        let w: usize = self.width as usize;
        let h: usize = self.height as usize;
        let ghost g0 = self.grid();
        proof {
            lemma_rowmajor_in_range(w as int, h as int, 0, 0);
        }
        let mut changed = false;
        let mut x: usize = 0;
        while x < w
            invariant
                self.wf(),
                self.same_config(*old(self)),
                self.changed_spec() == old(self).changed_spec(),
                w == self.width_spec(),
                h == self.height_spec(),
                1 <= w <= 0xffff,
                1 <= h <= 0xffff,
                x <= w,
                g0.len() == h * w,
                self.grid().len() == g0.len(),
                forall|j: int|
                    0 <= j < g0.len() ==> #[trigger] self.grid()[j] == (
                    if col_of(j, w as int) < x {
                        settle_grid(g0, w as int, h as int)[j]
                    } else {
                        g0[j]
                    }),
                changed == exists|cx: int|
                    0 <= cx < x && !bottom_packed(col_seq(g0, w as int, h as int, cx)),
            decreases w - x,
        {
            let ghost gmid = self.grid();
            let ghost cx0 = col_seq(g0, w as int, h as int, x as int);
            proof {
                assert forall|y: int| 0 <= y < h implies col_seq(gmid, w as int, h as int, x as int)[y]
                    == cx0[y] by {
                    lemma_rowmajor_in_range(w as int, h as int, x as int, y);
                    lemma_rowmajor(w as int, x as int, y);
                }
                assert(col_seq(gmid, w as int, h as int, x as int) =~= cx0);
            }
            let ch = self.settle_column(x);
            proof {
                assert forall|j: int| 0 <= j < g0.len() implies #[trigger] self.grid()[j] == (
                if col_of(j, w as int) < x + 1 {
                    settle_grid(g0, w as int, h as int)[j]
                } else {
                    g0[j]
                }) by {
                    lemma_index_decomp(j, w as int, h as int);
                }
                if ch {
                    assert(scan_changed(cx0, (h - 1) as nat));
                    if bottom_packed(cx0) {
                        lemma_settled_identity(cx0, (h - 1) as nat);
                        assert(false);
                    }
                } else {
                    if !bottom_packed(cx0) {
                        lemma_unsettled_scan_changed(cx0);
                        assert(cx0.len() == h);
                        assert(false);
                    }
                }
            }
            if ch {
                changed = true;
            }
            x = x + 1;
        }
        proof {
            assert forall|j: int| 0 <= j < g0.len() implies self.grid()[j] == settle_grid(
                g0,
                w as int,
                h as int,
            )[j] by {
                lemma_index_decomp(j, w as int, h as int);
            }
            assert(self.grid() =~= settle_grid(g0, w as int, h as int));
        }
        changed
    }

    /// Arms gravity settling at time `now_ms`.  Re-arming while settling is
    /// already running has no effect.
    pub fn subsidence(&mut self, now_ms: u64)
        ensures
            final(self).subsidence_active_spec(),
            final(self).grid() == old(self).grid(),
            final(self).changed_spec() == old(self).changed_spec(),
            old(self).wf() ==> final(self).wf(),
            final(self).width_spec() == old(self).width_spec(),
            final(self).height_spec() == old(self).height_spec(),
            final(self).seed_spec() == old(self).seed_spec(),
            final(self).amplitude_spec() == old(self).amplitude_spec(),
            final(self).dx_spec() == old(self).dx_spec(),
            old(self).subsidence_active_spec() ==> final(self).same_config(*old(self)),
            !old(self).subsidence_active_spec() ==> {
                &&& final(self).subsidence_started_spec() == now_ms
                &&& final(self).subsidence_last_rows_spec() == 0
            },
    {
        if !self.subsidence_active {
            self.subsidence_active = true;
            self.subsidence_started_ms = now_ms;
            self.subsidence_last_rows = 0;
        }
    }

    pub fn is_subsidence(&self) -> (r: bool)
        ensures
            r == self.subsidence_active_spec(),
    {
        self.subsidence_active
    }

    /// Advances gravity settling to time `now_ms`: runs as many additional
    /// discrete gravity passes as the elapsed time asks for (capped at one
    /// grid height per call), and reports `true` exactly when a pass finds
    /// nothing left to move, which disarms the settling.  When settling is
    /// not armed this is a no-op returning `false`.  The number of filled
    /// cells of every column is always preserved.
    pub fn update(&mut self, now_ms: u64) -> (finished: bool)
        requires
            old(self).wf(),
            old(self).subsidence_active_spec() ==> old(self).subsidence_started_spec() <= now_ms,
        ensures
            final(self).wf(),
            final(self).width_spec() == old(self).width_spec(),
            final(self).height_spec() == old(self).height_spec(),
            final(self).seed_spec() == old(self).seed_spec(),
            final(self).amplitude_spec() == old(self).amplitude_spec(),
            final(self).dx_spec() == old(self).dx_spec(),
            !old(self).subsidence_active_spec() ==> {
                &&& !finished
                &&& final(self).grid() == old(self).grid()
                &&& final(self).same_config(*old(self))
                &&& final(self).changed_spec() == old(self).changed_spec()
            },
            old(self).subsidence_active_spec() ==> {
                let w = old(self).width_spec();
                let h = old(self).height_spec();
                let rows_now = rows_for_elapsed_spec(
                    clamp_subsidence_ms(now_ms - old(self).subsidence_started_spec()),
                );
                let delta = if rows_now >= old(self).subsidence_last_rows_spec() {
                    rows_now - old(self).subsidence_last_rows_spec()
                } else {
                    0
                };
                let d = if delta <= h {
                    delta
                } else {
                    h
                };
                exists|j: int|
                    {
                        &&& 0 <= #[trigger] settle_grid_iter(old(self).grid(), w, h, j as nat).len()
                        &&& 0 <= j <= d
                        &&& final(self).grid() == settle_grid_iter(old(self).grid(), w, h, j as nat)
                        &&& forall|i: int|
                            0 <= i < j ==> !all_settled(
                                #[trigger] settle_grid_iter(old(self).grid(), w, h, i as nat),
                                w,
                                h,
                            )
                        &&& finished == (j < d)
                        &&& final(self).changed_spec() == (old(self).changed_spec() || j > 0)
                    }
            },
            old(self).subsidence_active_spec() ==> {
                &&& (finished ==> all_settled(
                    final(self).grid(),
                    old(self).width_spec(),
                    old(self).height_spec(),
                ) && !final(self).subsidence_active_spec())
                &&& (!finished ==> final(self).subsidence_active_spec())
                &&& final(self).subsidence_started_spec() == old(self).subsidence_started_spec()
                &&& final(self).subsidence_last_rows_spec() == rows_for_elapsed_spec(
                    clamp_subsidence_ms(now_ms - old(self).subsidence_started_spec()),
                )
            },
            forall|x: int|
                0 <= x < old(self).width_spec() ==> count_zeros(
                    #[trigger] col_seq(
                        final(self).grid(),
                        old(self).width_spec(),
                        old(self).height_spec(),
                        x,
                    ),
                ) == count_zeros(
                    col_seq(old(self).grid(), old(self).width_spec(), old(self).height_spec(), x),
                ),
            settling_step_rel(*old(self), *final(self), now_ms as int, finished),
    {
        if !self.subsidence_active {
            return false;
        }
        let w: usize = self.width as usize;
        let h: usize = self.height as usize;
        let ghost g0 = self.grid();
        let ms_raw: u64 = now_ms - self.subsidence_started_ms;
        let ms: u64 = if ms_raw <= 10_000_000_000 {
            ms_raw
        } else {
            10_000_000_000
        };
        proof {
            assert((ms as u128) * (ms as u128) <= 100_000_000_000_000_000_000) by (nonlinear_arith)
                requires
                    ms <= 10_000_000_000,
            ;
            assert(29_419_950u128 * ((ms as u128) * (ms as u128)) <= 29_419_950u128
                * 100_000_000_000_000_000_000) by (nonlinear_arith)
                requires
                    (ms as u128) * (ms as u128) <= 100_000_000_000_000_000_000,
            ;
        }
        let sq: u128 = (ms as u128) * (ms as u128);
        let num: u128 = 29_419_950u128 * sq + 500_000_000_000u128;
        proof {
            assert(29_419_950 * (ms as int * ms as int) == 29_419_950 * ms as int * ms as int)
                by (nonlinear_arith);
        }
        let rows_now: u64 = (num / 1_000_000_000_000u128) as u64;
        assert(rows_now == rows_for_elapsed_spec(ms as int));
        assert(ms == clamp_subsidence_ms(ms_raw as int));
        let last = self.subsidence_last_rows;
        self.subsidence_last_rows = rows_now;
        let delta: u64 = if rows_now >= last {
            rows_now - last
        } else {
            0
        };
        let d: u64 = if delta <= (h as u64) {
            delta
        } else {
            h as u64
        };
        let ghost orig = *old(self);
        proof {
            lemma_rowmajor_in_range(w as int, h as int, 0, 0);
        }
        let mut j: u64 = 0;
        let mut done = false;
        while j < d && !done
            invariant
                self.wf(),
                w == self.width_spec(),
                h == self.height_spec(),
                1 <= w <= 0xffff,
                1 <= h <= 0xffff,
                d <= h,
                j <= d,
                g0.len() == h * w,
                self.grid() == settle_grid_iter(g0, w as int, h as int, j as nat),
                self.grid().len() == g0.len(),
                forall|i: int|
                    0 <= i < j ==> !all_settled(
                        #[trigger] settle_grid_iter(g0, w as int, h as int, i as nat),
                        w as int,
                        h as int,
                    ),
                done ==> all_settled(self.grid(), w as int, h as int),
                done ==> j < d,
                self.changed_spec() == orig.changed_spec(),
                self.subsidence_active,
                self.width == orig.width,
                self.height == orig.height,
                self.seed == orig.seed,
                self.amplitude == orig.amplitude,
                self.dx == orig.dx,
                self.subsidence_active == true,
                self.subsidence_started_ms == orig.subsidence_started_ms,
                self.subsidence_last_rows == rows_now,
                forall|x: int|
                    0 <= x < w ==> count_zeros(
                        #[trigger] col_seq(self.grid(), w as int, h as int, x),
                    ) == count_zeros(col_seq(g0, w as int, h as int, x)),
            decreases d - j + (if done {
                0int
            } else {
                1int
            }),
        {
            let ghost gcur = self.grid();
            let ch = self.settle_pass();
            proof {
                assert(settle_grid_iter(g0, w as int, h as int, (j + 1) as nat) == settle_grid(
                    gcur,
                    w as int,
                    h as int,
                ));
                assert forall|x: int| 0 <= x < w implies count_zeros(
                    #[trigger] col_seq(self.grid(), w as int, h as int, x),
                ) == count_zeros(col_seq(g0, w as int, h as int, x)) by {
                    lemma_settle_grid_counts(gcur, w as int, h as int, x);
                }
            }
            if ch {
                j = j + 1;
            } else {
                done = true;
                proof {
                    lemma_settled_grid_identity(gcur, w as int, h as int);
                }
            }
        }
        if j > 0 {
            self.changed = true;
        }
        proof {
            let jw = j as int;
            assert(settle_grid_iter(g0, w as int, h as int, jw as nat) == settle_grid_iter(
                g0,
                w as int,
                h as int,
                j as nat,
            ));
            assert(0 <= settle_grid_iter(g0, w as int, h as int, jw as nat).len());
            assert(forall|i: int|
                0 <= i < jw ==> !all_settled(
                    #[trigger] settle_grid_iter(g0, w as int, h as int, i as nat),
                    w as int,
                    h as int,
                ));
        }
        if done {
            self.subsidence_active = false;
            true
        } else {
            false
        }
    }
}

/// The dimension and configuration facts that well-formedness gives.
pub proof fn lemma_wf_bounds(l: Landscape)
    requires
        l.wf(),
    ensures
        1 <= l.width_spec() <= 0xffff,
        1 <= l.height_spec() <= 0xffff,
        l.grid().len() == l.width_spec() * l.height_spec(),
{
}

/// What sharing a configuration entails, piece by piece.
pub proof fn lemma_same_config_dims(a: Landscape, b: Landscape)
    requires
        a.same_config(b),
    ensures
        a.width_spec() == b.width_spec(),
        a.height_spec() == b.height_spec(),
        a.seed_spec() == b.seed_spec(),
        a.amplitude_spec() == b.amplitude_spec(),
        a.dx_spec() == b.dx_spec(),
        a.subsidence_active_spec() == b.subsidence_active_spec(),
        a.subsidence_started_spec() == b.subsidence_started_spec(),
        a.subsidence_last_rows_spec() == b.subsidence_last_rows_spec(),
{
}

/// What one settling step at `now_ms` does, in full: a no-op when settling
/// is not armed; else as many additional gravity passes as the elapsed
/// time asks for (capped at one grid height per call), stopping early and
/// reporting `finished` exactly when a pass finds nothing left to move,
/// which disarms the settling; per-column occupancy is always preserved.
pub open spec fn settling_step_rel(
    pre: Landscape,
    post: Landscape,
    now_ms: int,
    finished: bool,
) -> bool {
    &&& post.width_spec() == pre.width_spec()
    &&& post.height_spec() == pre.height_spec()
    &&& post.seed_spec() == pre.seed_spec()
    &&& post.amplitude_spec() == pre.amplitude_spec()
    &&& post.dx_spec() == pre.dx_spec()
    &&& (!pre.subsidence_active_spec() ==> {
        &&& !finished
        &&& post.grid() == pre.grid()
        &&& post.same_config(pre)
        &&& post.changed_spec() == pre.changed_spec()
    })
    &&& (pre.subsidence_active_spec() ==> {
        let w = pre.width_spec();
        let h = pre.height_spec();
        let rows_now = rows_for_elapsed_spec(
            clamp_subsidence_ms(now_ms - pre.subsidence_started_spec()),
        );
        let delta = if rows_now >= pre.subsidence_last_rows_spec() {
            rows_now - pre.subsidence_last_rows_spec()
        } else {
            0
        };
        let d = if delta <= h {
            delta
        } else {
            h
        };
        exists|j: int|
            {
                &&& 0 <= #[trigger] settle_grid_iter(pre.grid(), w, h, j as nat).len()
                &&& 0 <= j <= d
                &&& post.grid() == settle_grid_iter(pre.grid(), w, h, j as nat)
                &&& forall|i: int|
                    0 <= i < j ==> !all_settled(
                        #[trigger] settle_grid_iter(pre.grid(), w, h, i as nat),
                        w,
                        h,
                    )
                &&& finished == (j < d)
                &&& post.changed_spec() == (pre.changed_spec() || j > 0)
            }
    })
    &&& (pre.subsidence_active_spec() ==> {
        &&& (finished ==> all_settled(post.grid(), pre.width_spec(), pre.height_spec())
            && !post.subsidence_active_spec())
        &&& (!finished ==> post.subsidence_active_spec())
        &&& post.subsidence_started_spec() == pre.subsidence_started_spec()
        &&& post.subsidence_last_rows_spec() == rows_for_elapsed_spec(
            clamp_subsidence_ms(now_ms - pre.subsidence_started_spec()),
        )
    })
    &&& forall|x: int|
        0 <= x < pre.width_spec() ==> count_zeros(
            #[trigger] col_seq(post.grid(), pre.width_spec(), pre.height_spec(), x),
        ) == count_zeros(col_seq(pre.grid(), pre.width_spec(), pre.height_spec(), x))
}

/// The settling potential of a column: the sum of the row indices of its
/// filled cells.  Every gravity swap moves a filled cell down one row, so
/// the potential strictly increases with every swap and is bounded by the
/// square of the height; that bounds how long settling can keep moving.
pub open spec fn col_potential(c: Seq<u8>) -> int
    decreases c.len(),
{
    if c.len() == 0 {
        0
    } else {
        col_potential(c.drop_last()) + if c.last() != 0 {
            c.len() - 1
        } else {
            0int
        }
    }
}

proof fn lemma_col_potential_update(c: Seq<u8>, i: int, v: u8)
    requires
        0 <= i < c.len(),
    ensures
        col_potential(c.update(i, v)) == col_potential(c) - (if c[i] != 0 {
            i
        } else {
            0int
        }) + (if v != 0 {
            i
        } else {
            0int
        }),
    decreases c.len(),
{
    let cu = c.update(i, v);
    if i == c.len() - 1 {
        assert(cu.drop_last() =~= c.drop_last());
    } else {
        lemma_col_potential_update(c.drop_last(), i, v);
        assert(cu.drop_last() =~= c.drop_last().update(i, v));
        assert(cu.last() == c.last());
    }
}

proof fn lemma_col_potential_bounds(c: Seq<u8>)
    ensures
        0 <= col_potential(c) <= c.len() * c.len(),
    decreases c.len(),
{
    if c.len() > 0 {
        lemma_col_potential_bounds(c.drop_last());
        assert((c.len() - 1) * (c.len() - 1) + (c.len() - 1) <= c.len() * c.len())
            by (nonlinear_arith);
    }
}

proof fn lemma_step_pair_potential(c: Seq<u8>, y: int)
    ensures
        col_potential(step_pair(c, y)) == col_potential(c) + (if offending(c, y) {
            1int
        } else {
            0int
        }),
{
    if offending(c, y) {
        lemma_col_potential_update(c, y, c[y - 1]);
        lemma_col_potential_update(c.update(y, c[y - 1]), y - 1, 0u8);
    }
}

proof fn lemma_settle_pairs_potential(c: Seq<u8>, k: nat)
    ensures
        col_potential(settle_pairs(c, k)) >= col_potential(c) + (if scan_changed(c, k) {
            1int
        } else {
            0int
        }),
    decreases k,
{
    if k > 0 {
        lemma_settle_pairs_potential(c, (k - 1) as nat);
        lemma_step_pair_potential(settle_pairs(c, (k - 1) as nat), c.len() - k);
    }
}

/// The total settling potential of the first `n` columns.
pub open spec fn grid_potential(g: Seq<u8>, w: int, h: int, n: nat) -> int
    decreases n,
{
    if n == 0 {
        0
    } else {
        grid_potential(g, w, h, (n - 1) as nat) + col_potential(col_seq(g, w, h, (n - 1) as int))
    }
}

proof fn lemma_grid_potential_le(g1: Seq<u8>, g2: Seq<u8>, w: int, h: int, n: nat)
    requires
        forall|x: int|
            0 <= x < n ==> col_potential(#[trigger] col_seq(g2, w, h, x)) >= col_potential(
                col_seq(g1, w, h, x),
            ),
    ensures
        grid_potential(g2, w, h, n) >= grid_potential(g1, w, h, n),
    decreases n,
{
    if n > 0 {
        lemma_grid_potential_le(g1, g2, w, h, (n - 1) as nat);
    }
}

proof fn lemma_grid_potential_lt(g1: Seq<u8>, g2: Seq<u8>, w: int, h: int, n: nat, x0: int)
    requires
        forall|x: int|
            0 <= x < n ==> col_potential(#[trigger] col_seq(g2, w, h, x)) >= col_potential(
                col_seq(g1, w, h, x),
            ),
        0 <= x0 < n,
        col_potential(col_seq(g2, w, h, x0)) > col_potential(col_seq(g1, w, h, x0)),
    ensures
        grid_potential(g2, w, h, n) > grid_potential(g1, w, h, n),
    decreases n,
{
    if x0 == n - 1 {
        lemma_grid_potential_le(g1, g2, w, h, (n - 1) as nat);
    } else {
        lemma_grid_potential_lt(g1, g2, w, h, (n - 1) as nat, x0);
    }
}

proof fn lemma_grid_potential_bound(g: Seq<u8>, w: int, h: int, n: nat)
    requires
        g.len() == h * w,
        1 <= w,
        1 <= h,
    ensures
        0 <= grid_potential(g, w, h, n) <= n * (h * h),
    decreases n,
{
    if n > 0 {
        lemma_grid_potential_bound(g, w, h, (n - 1) as nat);
        lemma_col_potential_bounds(col_seq(g, w, h, (n - 1) as int));
        assert(col_seq(g, w, h, (n - 1) as int).len() == h);
        assert(n * (h * h) == (n - 1) * (h * h) + h * h) by (nonlinear_arith);
    }
}

/// A gravity pass over a grid that is not at rest strictly increases the
/// grid's settling potential, and never decreases it.
proof fn lemma_settle_grid_potential(g: Seq<u8>, w: int, h: int)
    requires
        1 <= w,
        1 <= h,
        g.len() == h * w,
    ensures
        grid_potential(settle_grid(g, w, h), w, h, w as nat) >= grid_potential(g, w, h, w as nat),
        !all_settled(g, w, h) ==> grid_potential(settle_grid(g, w, h), w, h, w as nat)
            > grid_potential(g, w, h, w as nat),
{
    let g2 = settle_grid(g, w, h);
    assert forall|x: int| 0 <= x < w implies col_potential(#[trigger] col_seq(g2, w, h, x))
        >= col_potential(col_seq(g, w, h, x)) by {
        lemma_settle_grid_col(g, w, h, x);
        let c = col_seq(g, w, h, x);
        if c.len() <= 1 {
        } else {
            lemma_settle_pairs_potential(c, (c.len() - 1) as nat);
        }
    }
    lemma_grid_potential_le(g, g2, w, h, w as nat);
    if !all_settled(g, w, h) {
        let x0 = choose|x: int| 0 <= x < w && !bottom_packed(col_seq(g, w, h, x));
        let c = col_seq(g, w, h, x0);
        lemma_settle_grid_col(g, w, h, x0);
        lemma_unsettled_scan_changed(c);
        lemma_settle_pairs_potential(c, (c.len() - 1) as nat);
        assert(c.len() == h);
        lemma_grid_potential_lt(g, g2, w, h, w as nat, x0);
    }
}

proof fn lemma_settle_grid_iter_shift(g: Seq<u8>, w: int, h: int, k: nat)
    ensures
        settle_grid_iter(g, w, h, (k + 1) as nat) == settle_grid_iter(settle_grid(g, w, h), w, h, k),
    decreases k,
{
    let g2 = settle_grid(g, w, h);
    if k == 0 {
        assert(settle_grid_iter(g, w, h, 1) == settle_grid(settle_grid_iter(g, w, h, 0), w, h));
        assert(settle_grid_iter(g, w, h, 0) == g);
        assert(settle_grid_iter(g2, w, h, 0) == g2);
    } else {
        lemma_settle_grid_iter_shift(g, w, h, (k - 1) as nat);
        assert(settle_grid_iter(g, w, h, (k + 1) as nat) == settle_grid(
            settle_grid_iter(g, w, h, k),
            w,
            h,
        ));
        assert(settle_grid_iter(g, w, h, k) == settle_grid_iter(g2, w, h, (k - 1) as nat));
        assert(settle_grid_iter(g2, w, h, k) == settle_grid(
            settle_grid_iter(g2, w, h, (k - 1) as nat),
            w,
            h,
        ));
    }
}

/// Gravity settling terminates: every grid reaches rest (every column
/// bottom-packed) within `width * height * height` passes, because each
/// pass that moves anything strictly increases the bounded settling
/// potential.
pub proof fn lemma_subsidence_terminates(g: Seq<u8>, w: int, h: int)
    requires
        1 <= w,
        1 <= h,
        g.len() == h * w,
    ensures
        exists|n: int|
            0 <= n <= w * (h * h) - grid_potential(g, w, h, w as nat) && all_settled(
                #[trigger] settle_grid_iter(g, w, h, n as nat),
                w,
                h,
            ),
    decreases w * (h * h) - grid_potential(g, w, h, w as nat),
{
    lemma_grid_potential_bound(g, w, h, w as nat);
    if all_settled(g, w, h) {
        let zero: int = 0;
        assert(settle_grid_iter(g, w, h, zero as nat) == g);
        assert(0 <= zero <= w * (h * h) - grid_potential(g, w, h, w as nat) && all_settled(
            settle_grid_iter(g, w, h, zero as nat),
            w,
            h,
        ));
    } else {
        let g2 = settle_grid(g, w, h);
        lemma_settle_grid_potential(g, w, h);
        assert(g2.len() == g.len());
        lemma_grid_potential_bound(g2, w, h, w as nat);
        lemma_subsidence_terminates(g2, w, h);
        let n2 = choose|n: int|
            0 <= n <= w * (h * h) - grid_potential(g2, w, h, w as nat) && all_settled(
                #[trigger] settle_grid_iter(g2, w, h, n as nat),
                w,
                h,
            );
        lemma_settle_grid_iter_shift(g, w, h, n2 as nat);
        assert(settle_grid_iter(g, w, h, (n2 + 1) as nat) == settle_grid_iter(
            g2,
            w,
            h,
            n2 as nat,
        ));
        assert(0 <= n2 + 1 <= w * (h * h) - grid_potential(g, w, h, w as nat) && all_settled(
            settle_grid_iter(g, w, h, (n2 + 1) as nat),
            w,
            h,
        ));
    }
}

/// A grid at rest has no empty cell beneath a filled cell: in every column,
/// below any filled cell every cell is filled.
pub proof fn lemma_settled_columns_supported(g: Seq<u8>, w: int, h: int, x: int, y1: int, y2: int)
    requires
        1 <= w,
        1 <= h,
        g.len() == h * w,
        all_settled(g, w, h),
        0 <= x < w,
        0 <= y1 <= y2 < h,
        g[y1 * w + x] != 0,
    ensures
        g[y2 * w + x] != 0,
    decreases y2 - y1,
{
    let c = col_seq(g, w, h, x);
    if y2 > y1 {
        assert(!offending(c, y1 + 1));
        assert(c[y1] == g[y1 * w + x]);
        assert(c[y1 + 1] != 0);
        lemma_settled_columns_supported(g, w, h, x, y1 + 1, y2);
    }
}

/// The bridge between the two views of the terrain: the bounds-checked
/// cell query is exactly a raster read of the row-major grid that
/// `pixels()` exposes.
pub proof fn lemma_cell_filled_grid(l: Landscape)
    ensures
        forall|x: int, y: int|
            #[trigger] l.cell_filled(x, y) <==> (0 <= x < l.width_spec() && 0 <= y
                < l.height_spec() && l.grid()[y * l.width_spec() + x] != 0),
{
}

/// Two landscapes with the same grid and dimensions agree on every cell.
pub proof fn lemma_cell_filled_congruence(a: Landscape, b: Landscape)
    requires
        a.grid() == b.grid(),
        a.width_spec() == b.width_spec(),
        a.height_spec() == b.height_spec(),
    ensures
        forall|x: int, y: int| #[trigger] a.cell_filled(x, y) == b.cell_filled(x, y),
{
}

/// A filled cell always lies inside the grid.
pub proof fn lemma_cell_filled_in_range(l: Landscape, x: int, y: int)
    requires
        l.cell_filled(x, y),
    ensures
        0 <= x < l.width_spec(),
        0 <= y < l.height_spec(),
{
}

/// `same_config` is reflexive.
pub proof fn lemma_same_config_refl(l: Landscape)
    ensures
        l.same_config(l),
{
}

/// `same_config` is transitive.
pub proof fn lemma_same_config_trans(a: Landscape, b: Landscape, c: Landscape)
    requires
        b.same_config(a),
        c.same_config(b),
    ensures
        c.same_config(a),
{
}

/// After a regeneration, every column holds one contiguous filled run that
/// reaches the bottom of the grid: below any filled cell of a column, every
/// cell of that column is filled (the boundary is the only transition).
pub proof fn lemma_generated_columns_monotonic(
    l: Landscape,
    offsets: Seq<i64>,
    x: int,
    y1: int,
    y2: int,
)
    requires
        forall|cx: int, cy: int|
            #[trigger] l.cell_filled(cx, cy) == (0 <= cx < l.width_spec() && 0 <= cy
                < l.height_spec() && cy >= boundary_spec(l.height_spec(), offsets[cx] as int)),
        0 <= x < l.width_spec(),
        0 <= y1 <= y2 < l.height_spec(),
        l.cell_filled(x, y1),
    ensures
        l.cell_filled(x, y2),
{
}

} // verus!
