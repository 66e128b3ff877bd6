use vstd::prelude::*;

verus! {

/// Side, in window pixels, of the square tile that one traced pixel covers.
pub const TILE_SIZE: i32 = 5;

/// Number of samples a pixel takes before its convergence is tested.
pub const MIN_SAMPLES_BEFORE_SKIP: usize = 256;

/// Number of frames between two progress reports.
pub const REPORT_PERIOD: u64 = 300;

/// Number of `true` entries in `flags`.
pub open spec fn count_true(flags: Seq<bool>) -> nat
    decreases flags.len(),
{
    if flags.len() == 0 {
        0
    } else {
        count_true(flags.drop_last()) + if flags.last() {
            1nat
        } else {
            0nat
        }
    }
}

/// No flag is counted in an empty sequence.
pub proof fn lemma_count_true_empty()
    ensures
        count_true(Seq::<bool>::empty()) == 0,
{
}

/// Appending a flag adds one to the count exactly when the flag is set.
pub proof fn lemma_count_true_push(flags: Seq<bool>, b: bool)
    ensures
        count_true(flags.push(b)) == count_true(flags) + if b {
            1int
        } else {
            0int
        },
{
    assert(flags.push(b).drop_last() =~= flags);
}

/// A sequence of `n` set flags counts `n`; one of `n` clear flags counts 0.
pub proof fn lemma_count_true_uniform(n: nat, b: bool)
    ensures
        count_true(Seq::new(n, |i: int| b)) == if b {
            n
        } else {
            0
        },
    decreases n,
{
    if n > 0 {
        lemma_count_true_uniform((n - 1) as nat, b);
        assert(Seq::new(n, |i: int| b).drop_last() =~= Seq::new((n - 1) as nat, |i: int| b));
    }
}

/// The count is the number of positions whose flag is set.
pub proof fn lemma_count_true_positions(flags: Seq<bool>)
    ensures
        count_true(flags) == Set::new(|i: int| 0 <= i < flags.len() && flags[i]).len(),
        Set::new(|i: int| 0 <= i < flags.len() && flags[i]).finite(),
    decreases flags.len(),
{
    let s = Set::new(|i: int| 0 <= i < flags.len() && flags[i]);
    if flags.len() == 0 {
        assert(s =~= Set::empty());
    } else {
        let init = flags.drop_last();
        let last = flags.len() - 1;
        let t = Set::new(|i: int| 0 <= i < init.len() && init[i]);
        lemma_count_true_positions(init);
        if flags[last] {
            assert(s =~= t.insert(last));
            assert(!t.contains(last));
        } else {
            assert(s =~= t);
        }
    }
}

/// The count never exceeds the number of flags.
pub proof fn lemma_count_true_bound(flags: Seq<bool>)
    ensures
        count_true(flags) <= flags.len(),
    decreases flags.len(),
{
    if flags.len() > 0 {
        lemma_count_true_bound(flags.drop_last());
    }
}

/// Number of whole tiles along a window side of `len` pixels, with the
/// quotient rounded toward zero.
pub open spec fn tiles_along(len: i32) -> int {
    if len >= 0 {
        (len as int) / (TILE_SIZE as int)
    } else {
        -((-(len as int)) / (TILE_SIZE as int))
    }
}

/// The tile count is the number of whole tiles that fit along the side,
/// rounded toward zero: `TILE_SIZE` times it falls within one tile of `len`
/// on the side of zero, and it is never negative for a non-negative side.
pub proof fn lemma_tiles_along(len: i32)
    ensures
        len >= 0 ==> 0 <= tiles_along(len) && 0 <= len - TILE_SIZE * tiles_along(len) < TILE_SIZE,
        len < 0 ==> tiles_along(len) <= 0 && -TILE_SIZE < len - TILE_SIZE * tiles_along(len) <= 0,
        -TILE_SIZE < len < TILE_SIZE ==> tiles_along(len) == 0,
{
}

/// The traced image's size for a window: one pixel per whole tile, the tile
/// count converted to `usize` as Rust's `as` does.
pub fn frame_dimensions(window_width: i32, window_height: i32) -> (r: (usize, usize))
    ensures
        r.0 == tiles_along(window_width) as usize,
        r.1 == tiles_along(window_height) as usize,
        window_width >= 0 ==> TILE_SIZE * r.0 <= window_width < TILE_SIZE * r.0 + TILE_SIZE,
        window_height >= 0 ==> TILE_SIZE * r.1 <= window_height < TILE_SIZE * r.1 + TILE_SIZE,
{
    proof {
        lemma_tiles_along(window_width);
        lemma_tiles_along(window_height);
    }
    ((window_width / TILE_SIZE) as usize, (window_height / TILE_SIZE) as usize)
}

/// Whether the frame numbered `ticks` reports the progress of convergence.
pub fn report_due(ticks: u64) -> (r: bool)
    ensures
        r == (ticks % REPORT_PERIOD == 0),
{
    ticks % REPORT_PERIOD == 0
}

/// Sampling state of one row of the traced image: for each pixel whether it
/// has converged, how many samples it has taken, and its RGBA bytes.
pub struct PixelRow {
    converged: Vec<bool>,
    samples: Vec<usize>,
    rgba: Vec<u8>,
}

impl PixelRow {
    /// Number of pixels in the row.
    pub closed spec fn spec_width(&self) -> nat {
        self.converged@.len()
    }

    /// Convergence flag of each pixel.
    pub closed spec fn flags(&self) -> Seq<bool> {
        self.converged@
    }

    /// Sample count of each pixel.
    pub closed spec fn counts(&self) -> Seq<usize> {
        self.samples@
    }

    /// RGBA bytes of the row, four per pixel, left to right.
    pub closed spec fn bytes(&self) -> Seq<u8> {
        self.rgba@
    }

    /// The three sequences describe the same pixels, and a pixel is only
    /// converged once it has taken more than [`MIN_SAMPLES_BEFORE_SKIP`] samples.
    pub closed spec fn wf(&self) -> bool {
        &&& self.samples@.len() == self.converged@.len()
        &&& self.rgba@.len() == 4 * self.converged@.len()
        &&& forall|i: int| 0 <= i < self.converged@.len() && #[trigger] self.converged@[i]
            ==> self.samples@[i] > MIN_SAMPLES_BEFORE_SKIP
    }

    /// Each pixel has one sample count and four bytes.
    pub open spec fn sized(&self) -> bool {
        &&& self.counts().len() == self.spec_width()
        &&& self.bytes().len() == 4 * self.spec_width()
    }

    /// A well-formed row has one sample count and four bytes per pixel.
    pub proof fn lemma_sized(&self)
        requires
            self.wf(),
        ensures
            self.sized(),
    {
    }

    /// A converged pixel has taken more than [`MIN_SAMPLES_BEFORE_SKIP`]
    /// samples.
    pub proof fn lemma_converged_sampled(&self, x: int)
        requires
            self.wf(),
            0 <= x < self.spec_width(),
            self.flags()[x],
        ensures
            self.counts()[x] > MIN_SAMPLES_BEFORE_SKIP,
    {
    }

    /// `after` describes the same pixels as `before`, with no convergence flag
    /// cleared and no sample count lowered.
    pub open spec fn progressed(before: &PixelRow, after: &PixelRow) -> bool {
        &&& after.spec_width() == before.spec_width()
        &&& forall|i: int| 0 <= i < before.spec_width() && #[trigger] before.flags()[i] ==> after.flags()[i]
        &&& forall|i: int| 0 <= i < before.spec_width() ==> #[trigger] before.counts()[i] <= after.counts()[i]
    }

    /// A row of `width` pixels, none converged, none sampled, all bytes zero.
    pub fn new(width: usize) -> (r: Self)
        requires
            4 * width <= usize::MAX,
        ensures
            r.wf(),
            r.sized(),
            r.spec_width() == width,
            r.flags() == Seq::new(width as nat, |i: int| false),
            r.counts() == Seq::new(width as nat, |i: int| 0usize),
            r.bytes() == Seq::new(4 * width as nat, |i: int| 0u8),
    {
        let mut converged: Vec<bool> = Vec::new();
        let mut samples: Vec<usize> = Vec::new();
        let mut rgba: Vec<u8> = Vec::new();
        for i in 0..width
            invariant
                converged@ == Seq::new(i as nat, |j: int| false),
                samples@ == Seq::new(i as nat, |j: int| 0usize),
                rgba@ == Seq::new(4 * i as nat, |j: int| 0u8),
                4 * width <= usize::MAX,
        {
            converged.push(false);
            samples.push(0);
            rgba.push(0);
            rgba.push(0);
            rgba.push(0);
            rgba.push(0);
        }
        PixelRow { converged, samples, rgba }
    }

    /// Number of pixels in the row.
    pub fn width(&self) -> (r: usize)
        ensures
            r == self.spec_width(),
    {
        self.converged.len()
    }

    /// Whether pixel `x` has converged.
    pub fn is_converged(&self, x: usize) -> (r: bool)
        requires
            x < self.spec_width(),
        ensures
            r == self.flags()[x as int],
    {
        self.converged[x]
    }

    /// Number of samples pixel `x` has taken.
    pub fn sample_count(&self, x: usize) -> (r: usize)
        requires
            self.wf(),
            x < self.spec_width(),
        ensures
            r == self.counts()[x as int],
    {
        self.samples[x]
    }

    /// Whether pixel `x` has taken enough samples for its convergence to be
    /// tested: more than [`MIN_SAMPLES_BEFORE_SKIP`].
    pub fn needs_convergence_test(&self, x: usize) -> (r: bool)
        requires
            self.wf(),
            x < self.spec_width(),
        ensures
            r == (self.counts()[x as int] > MIN_SAMPLES_BEFORE_SKIP),
    {
        self.samples[x] > MIN_SAMPLES_BEFORE_SKIP
    }

    /// Marks pixel `x`, which has taken more than [`MIN_SAMPLES_BEFORE_SKIP`]
    /// samples, converged; it takes no sample and no new colour from then on.
    pub fn mark_converged(&mut self, x: usize)
        requires
            old(self).wf(),
            x < old(self).spec_width(),
            old(self).counts()[x as int] > MIN_SAMPLES_BEFORE_SKIP,
        ensures
            final(self).wf(),
            final(self).sized(),
            PixelRow::progressed(old(self), final(self)),
            final(self).flags() == old(self).flags().update(x as int, true),
            final(self).counts() == old(self).counts(),
            final(self).bytes() == old(self).bytes(),
    {
        self.converged.set(x, true);
    }

    /// Counts one more sample for pixel `x`, which has not converged, and
    /// returns its new sample count.
    pub fn add_sample(&mut self, x: usize) -> (n: usize)
        requires
            old(self).wf(),
            x < old(self).spec_width(),
            !old(self).flags()[x as int],
            old(self).counts()[x as int] < usize::MAX,
        ensures
            final(self).wf(),
            final(self).sized(),
            PixelRow::progressed(old(self), final(self)),
            n == old(self).counts()[x as int] + 1,
            final(self).counts() == old(self).counts().update(x as int, n),
            final(self).flags() == old(self).flags(),
            final(self).bytes() == old(self).bytes(),
    {
        let n = self.samples[x] + 1;
        self.samples.set(x, n);
        n
    }

    /// Writes the colour of pixel `x`, which has not converged, fully opaque.
    pub fn set_pixel(&mut self, x: usize, r: u8, g: u8, b: u8)
        requires
            old(self).wf(),
            x < old(self).spec_width(),
            !old(self).flags()[x as int],
        ensures
            final(self).wf(),
            final(self).sized(),
            PixelRow::progressed(old(self), final(self)),
            final(self).bytes() == old(self).bytes().update(4 * x as int, r).update(
                4 * x + 1,
                g,
            ).update(4 * x + 2, b).update(4 * x + 3, 255u8),
            final(self).flags() == old(self).flags(),
            final(self).counts() == old(self).counts(),
    {
        let n = self.rgba.len();
        assert(4 * x + 3 < n);
        self.rgba.set(4 * x, r);
        self.rgba.set(4 * x + 1, g);
        self.rgba.set(4 * x + 2, b);
        self.rgba.set(4 * x + 3, 255);
    }

    /// Number of converged pixels in the row.
    pub fn converged_count(&self) -> (r: usize)
        ensures
            r == count_true(self.flags()),
    {
        let mut count: usize = 0;
        let n = self.converged.len();
        for i in 0..n
            invariant
                n == self.flags().len(),
                count == count_true(self.flags().take(i as int)),
                count <= i,
        {
            assert(self.flags().take(i + 1).drop_last() =~= self.flags().take(i as int));
            if self.converged[i] {
                count = count + 1;
            }
        }
        assert(self.flags().take(n as int) =~= self.flags());
        count
    }
}

/// What the tracer does next with a pixel.
#[derive(Clone, Copy, Debug, PartialEq, Eq, Structural)]
pub enum PixelAction {
    /// The pixel has converged: leave it as it is.
    Skip,
    /// Take one more sample.
    Sample,
    /// The time is up: write the pixel's colour and leave it unconverged.
    Finish,
    /// The pixel passed its convergence test: write its colour, then mark it
    /// converged.
    Converge,
}

impl PixelRow {
    /// The next step for pixel `x` while rendering a frame. A converged pixel is
    /// skipped; otherwise, once the time is up its colour is written; otherwise
    /// it converges when it has taken more than [`MIN_SAMPLES_BEFORE_SKIP`]
    /// samples and its confidence test is `below_tolerance`; otherwise it takes
    /// another sample.
    pub fn pixel_step(&self, x: usize, time_left: bool, below_tolerance: bool) -> (r: PixelAction)
        requires
            self.wf(),
            x < self.spec_width(),
        ensures
            r == PixelAction::Skip <==> self.flags()[x as int],
            r == PixelAction::Finish <==> !self.flags()[x as int] && !time_left,
            r == PixelAction::Converge <==> !self.flags()[x as int] && time_left
                && self.counts()[x as int] > MIN_SAMPLES_BEFORE_SKIP && below_tolerance,
            r == PixelAction::Sample <==> !self.flags()[x as int] && time_left && !(
            self.counts()[x as int] > MIN_SAMPLES_BEFORE_SKIP && below_tolerance),
    {
        if self.converged[x] {
            PixelAction::Skip
        } else if !time_left {
            PixelAction::Finish
        } else if self.samples[x] > MIN_SAMPLES_BEFORE_SKIP && below_tolerance {
            PixelAction::Converge
        } else {
            PixelAction::Sample
        }
    }
}

/// Progress accumulates: a pixel that has converged stays converged and a
/// sample count never goes down, over any sequence of row operations.
pub proof fn lemma_progress_transitive(a: &PixelRow, b: &PixelRow, c: &PixelRow)
    requires
        PixelRow::progressed(a, b),
        PixelRow::progressed(b, c),
    ensures
        PixelRow::progressed(a, c),
{
    assert forall|i: int| 0 <= i < a.spec_width() implies #[trigger] a.counts()[i] <= c.counts()[i] by {
        assert(a.counts()[i] <= b.counts()[i]);
        assert(b.counts()[i] <= c.counts()[i]);
    }
}

/// Width shared by the rows of a frame (zero for a frame without rows).
pub open spec fn frame_width(rows: Seq<PixelRow>) -> nat {
    if rows.len() > 0 {
        rows[0].spec_width()
    } else {
        0
    }
}

/// Every row is well formed and as wide as the first, and the frame's RGBA
/// bytes fit in memory.
pub open spec fn frame_wf(rows: Seq<PixelRow>) -> bool {
    &&& forall|y: int| 0 <= y < rows.len() ==> (#[trigger] rows[y]).wf()
    &&& forall|y: int| 0 <= y < rows.len() ==> (#[trigger] rows[y]).spec_width() == frame_width(rows)
    &&& rows.len() * (4 * frame_width(rows)) <= usize::MAX
}

/// Number of converged pixels in a frame.
pub open spec fn frame_converged(rows: Seq<PixelRow>) -> nat
    decreases rows.len(),
{
    if rows.len() == 0 {
        0
    } else {
        frame_converged(rows.drop_last()) + count_true(rows.last().flags())
    }
}

/// RGBA bytes of a frame: its rows one after another, top row first.
pub open spec fn frame_bytes_of(rows: Seq<PixelRow>) -> Seq<u8>
    decreases rows.len(),
{
    if rows.len() == 0 {
        Seq::empty()
    } else {
        frame_bytes_of(rows.drop_last()) + rows.last().bytes()
    }
}

/// A frame without rows has no converged pixel.
pub proof fn lemma_frame_converged_empty()
    ensures
        frame_converged(Seq::<PixelRow>::empty()) == 0,
{
}

/// Adding a row to a frame adds that row's converged pixels to the frame's.
pub proof fn lemma_frame_converged_push(rows: Seq<PixelRow>, row: PixelRow)
    ensures
        frame_converged(rows.push(row)) == frame_converged(rows) + count_true(row.flags()),
{
    assert(rows.push(row).drop_last() =~= rows);
}

/// A frame whose pixels have all converged counts every pixel.
pub proof fn lemma_frame_converged_full(rows: Seq<PixelRow>, w: nat)
    requires
        forall|y: int| 0 <= y < rows.len() ==> (#[trigger] rows[y]).flags() == Seq::new(w, |i: int| true),
    ensures
        frame_converged(rows) == rows.len() * w,
    decreases rows.len(),
{
    if rows.len() > 0 {
        let init = rows.drop_last();
        assert forall|y: int| 0 <= y < init.len() implies (#[trigger] init[y]).flags() == Seq::new(w, |i: int| true) by {
            assert(init[y] == rows[y]);
        }
        lemma_frame_converged_full(init, w);
        lemma_count_true_uniform(w, true);
        assert(rows.last().flags() == Seq::new(w, |i: int| true));
        assert(rows.len() * w == (rows.len() - 1) * w + w) by (nonlinear_arith);
    }
}

/// A frame never counts more converged pixels than it has pixels.
pub proof fn lemma_frame_converged_bound(rows: Seq<PixelRow>, w: nat)
    requires
        forall|y: int| 0 <= y < rows.len() ==> (#[trigger] rows[y]).spec_width() == w,
    ensures
        frame_converged(rows) <= rows.len() * w,
    decreases rows.len(),
{
    if rows.len() > 0 {
        lemma_frame_converged_bound(rows.drop_last(), w);
        lemma_count_true_bound(rows.last().flags());
        assert(rows.last().spec_width() == w);
        assert(rows.len() * w == (rows.len() - 1) * w + w) by (nonlinear_arith);
    }
}

proof fn lemma_frame_bytes_len(rows: Seq<PixelRow>, w: nat)
    requires
        forall|y: int| 0 <= y < rows.len() ==> (#[trigger] rows[y]).wf(),
        forall|y: int| 0 <= y < rows.len() ==> (#[trigger] rows[y]).spec_width() == w,
    ensures
        frame_bytes_of(rows).len() == rows.len() * (4 * w),
    decreases rows.len(),
{
    if rows.len() > 0 {
        lemma_frame_bytes_len(rows.drop_last(), w);
        assert(rows.last().wf());
        assert(rows.len() * (4 * w) == (rows.len() - 1) * (4 * w) + 4 * w) by (nonlinear_arith);
    }
}

/// A frame of `height` rows of `width` pixels, none converged or sampled.
pub fn new_frame(width: usize, height: usize) -> (rows: Vec<PixelRow>)
    requires
        height * (4 * width) <= usize::MAX,
    ensures
        rows@.len() == height,
        frame_wf(rows@),
        height > 0 ==> frame_width(rows@) == width,
        forall|y: int| 0 <= y < height ==> (#[trigger] rows@[y]).flags() == Seq::new(width as nat, |i: int| false),
        forall|y: int| 0 <= y < height ==> (#[trigger] rows@[y]).counts() == Seq::new(width as nat, |i: int| 0usize),
        forall|y: int| 0 <= y < height ==> (#[trigger] rows@[y]).bytes() == Seq::new(4 * width as nat, |i: int| 0u8),
{
    if height > 0 {
        assert(4 * width <= height * (4 * width)) by (nonlinear_arith)
            requires height > 0;
    }
    let mut rows: Vec<PixelRow> = Vec::new();
    for y in 0..height
        invariant
            height * (4 * width) <= usize::MAX,
            height > 0 ==> 4 * width <= usize::MAX,
            rows@.len() == y,
            forall|j: int| 0 <= j < y ==> (#[trigger] rows@[j]).wf(),
            forall|j: int| 0 <= j < y ==> (#[trigger] rows@[j]).spec_width() == width,
            forall|j: int| 0 <= j < y ==> (#[trigger] rows@[j]).flags() == Seq::new(width as nat, |i: int| false),
            forall|j: int| 0 <= j < y ==> (#[trigger] rows@[j]).counts() == Seq::new(width as nat, |i: int| 0usize),
            forall|j: int| 0 <= j < y ==> (#[trigger] rows@[j]).bytes() == Seq::new(4 * width as nat, |i: int| 0u8),
    {
        rows.push(PixelRow::new(width));
    }
    rows
}

/// Number of converged pixels in the frame.
pub fn converged_total(rows: &Vec<PixelRow>) -> (r: usize)
    requires
        frame_wf(rows@),
    ensures
        r == frame_converged(rows@),
{
    let ghost w = frame_width(rows@);
    let mut total: usize = 0;
    let n = rows.len();
    for y in 0..n
        invariant
            n == rows@.len(),
            frame_wf(rows@),
            w == frame_width(rows@),
            total == frame_converged(rows@.take(y as int)),
    {
        assert(rows@.take(y + 1).drop_last() =~= rows@.take(y as int));
        proof {
            lemma_frame_converged_bound(rows@.take(y + 1), w);
            assert((y + 1) * w <= n * (4 * w)) by (nonlinear_arith)
                requires y + 1 <= n;
        }
        let c = rows[y].converged_count();
        total = total + c;
    }
    assert(rows@.take(n as int) =~= rows@);
    total
}

/// The frame's RGBA bytes, row after row from the top, as one buffer.
pub fn frame_bytes(rows: &Vec<PixelRow>) -> (r: Vec<u8>)
    requires
        frame_wf(rows@),
    ensures
        r@ == frame_bytes_of(rows@),
{
    let ghost w = frame_width(rows@);
    let mut out: Vec<u8> = Vec::new();
    let n = rows.len();
    for y in 0..n
        invariant
            n == rows@.len(),
            frame_wf(rows@),
            w == frame_width(rows@),
            out@ == frame_bytes_of(rows@.take(y as int)),
    {
        assert(rows@.take(y + 1).drop_last() =~= rows@.take(y as int));
        let row = &rows[y];
        let m = row.rgba.len();
        let ghost prefix = out@;
        proof {
            lemma_frame_bytes_len(rows@.take(y as int), w);
            assert(row.wf());
            assert(y * (4 * w) + 4 * w <= n * (4 * w)) by (nonlinear_arith)
                requires y + 1 <= n;
        }
        for j in 0..m
            invariant
                m == row.bytes().len(),
                out@ == prefix + row.bytes().take(j as int),
                prefix.len() + m <= usize::MAX,
        {
            out.push(row.rgba[j]);
            assert(row.bytes().take(j + 1) =~= row.bytes().take(j as int).push(row.bytes()[j as int]));
        }
        assert(row.bytes().take(m as int) =~= row.bytes());
    }
    assert(rows@.take(n as int) =~= rows@);
    out
}

/// The frame buffer is laid out row-major: byte `k` of row `y` sits at
/// `y * 4 * width + k`.
pub proof fn lemma_frame_layout(rows: Seq<PixelRow>, y: int, k: int)
    requires
        frame_wf(rows),
        0 <= y < rows.len(),
        0 <= k < 4 * frame_width(rows),
    ensures
        frame_bytes_of(rows)[y * (4 * frame_width(rows)) + k] == rows[y].bytes()[k],
    decreases rows.len(),
{
    let w = frame_width(rows);
    let init = rows.drop_last();
    assert forall|j: int| 0 <= j < init.len() implies (#[trigger] init[j]).wf() && init[j].spec_width() == w by {
        assert(init[j] == rows[j]);
    }
    lemma_frame_bytes_len(init, w);
    assert(rows.last().wf());
    if y == rows.len() - 1 {
    } else {
        assert(init.len() * (4 * w) <= rows.len() * (4 * w)) by (nonlinear_arith)
            requires init.len() <= rows.len();
        if init.len() > 0 {
            assert(frame_width(init) == w);
        }
        lemma_frame_layout(init, y, k);
        assert(y * (4 * w) + k < init.len() * (4 * w)) by (nonlinear_arith)
            requires y + 1 <= init.len(), 0 <= k < 4 * w;
    }
}

} // verus!
