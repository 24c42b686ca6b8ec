use vstd::prelude::*;

verus! {

/// Why a render could not be set up, or why a step of it was refused.
#[derive(Clone, Copy, Debug, PartialEq, Eq, Structural)]
pub enum RenderError {
    /// A render needs at least one worker.
    NoWorkers,
    /// `width * height` does not fit in a `usize`.
    TooManyPixels,
    /// The scanline is not one of the image's.
    ScanlineOutOfRange,
    /// The row does not hold exactly `width` pixels.
    RowLength,
    /// The scanline has already been committed.
    ScanlineAlreadyCommitted,
    /// Not every scanline has been committed yet.
    Incomplete,
}

/// Index of the frame buffer at which scanline `j` starts. Scanlines are
/// numbered from the bottom of the image, while the buffer holds the top row
/// first.
pub open spec fn row_start(width: nat, height: nat, j: int) -> int {
    (height - 1 - j) * width
}

/// `pixels` is the frame of `width * height` pixels that holds, for each
/// scanline `j`, the row `rows[j]`.
pub open spec fn holds_rows<T>(pixels: Seq<T>, width: nat, height: nat, rows: Seq<Seq<T>>) -> bool {
    &&& pixels.len() == width * height
    &&& rows.len() == height
    &&& forall|j: int|
        0 <= j < height ==> #[trigger] rows[j] == pixels.subrange(
            row_start(width, height, j),
            row_start(width, height, j) + width,
        )
}

/// Number of scanlines that have a committed row.
pub open spec fn count_committed<T>(rows: Seq<Option<Seq<T>>>) -> nat
    decreases rows.len(),
{
    if rows.len() == 0 {
        0
    } else {
        count_committed(rows.drop_last()) + if rows.last() is Some {
            1nat
        } else {
            0nat
        }
    }
}

/// Every scanline has a committed row.
pub open spec fn all_committed<T>(rows: Seq<Option<Seq<T>>>) -> bool {
    forall|j: int| 0 <= j < rows.len() ==> #[trigger] rows[j] is Some
}

/// The committed rows, once every scanline has one.
pub open spec fn committed_rows<T>(rows: Seq<Option<Seq<T>>>) -> Seq<Seq<T>> {
    rows.map_values(|r: Option<Seq<T>>| r->0)
}

proof fn lemma_count_bounded<T>(rows: Seq<Option<Seq<T>>>)
    ensures
        count_committed(rows) <= rows.len(),
        count_committed(rows) == rows.len() <==> all_committed(rows),
    decreases rows.len(),
{
    if rows.len() > 0 {
        lemma_count_bounded(rows.drop_last());
        if all_committed(rows) {
            assert(all_committed(rows.drop_last()));
        }
        if all_committed(rows.drop_last()) && rows.last() is Some {
            assert forall|j: int| 0 <= j < rows.len() implies #[trigger] rows[j] is Some by {
                if j < rows.len() - 1 {
                    assert(rows.drop_last()[j] is Some);
                }
            }
        }
    }
}

proof fn lemma_count_commit<T>(rows: Seq<Option<Seq<T>>>, j: int, row: Seq<T>)
    requires
        0 <= j < rows.len(),
        rows[j] is None,
    ensures
        count_committed(rows.update(j, Some(row))) == count_committed(rows) + 1,
    decreases rows.len(),
{
    let next = rows.update(j, Some(row));
    if j == rows.len() - 1 {
        assert(next.drop_last() =~= rows.drop_last());
    } else {
        lemma_count_commit(rows.drop_last(), j, row);
        assert(next.drop_last() =~= rows.drop_last().update(j, Some(row)));
    }
}

/// Consecutive rows of a frame do not overlap: the row of a lower scanline
/// starts where the row of the next one above it ends, or later.
proof fn lemma_rows_disjoint(width: nat, height: nat, i: int, j: int)
    requires
        0 <= i < j < height,
    ensures
        row_start(width, height, j) + width <= row_start(width, height, i),
        0 <= row_start(width, height, j),
        row_start(width, height, i) + width <= width * height,
{
    assert((height - 1 - j) * width + width <= (height - 1 - i) * width) by (nonlinear_arith)
        requires
            0 <= i < j < height,
    ;
    assert(0 <= (height - 1 - j) * width) by (nonlinear_arith)
        requires
            j < height,
    ;
    assert((height - 1 - i) * width + width <= width * height) by (nonlinear_arith)
        requires
            0 <= i < height,
    ;
}

proof fn lemma_row_in_frame(width: nat, height: nat, j: int)
    requires
        0 <= j < height,
    ensures
        0 <= row_start(width, height, j),
        row_start(width, height, j) + width <= width * height,
{
    assert(0 <= (height - 1 - j) * width) by (nonlinear_arith)
        requires
            j < height,
    ;
    assert((height - 1 - j) * width + width <= width * height) by (nonlinear_arith)
        requires
            0 <= j < height,
    ;
}

/// A finished frame is determined by its rows alone: two frames of the same
/// size that hold the same row for every scanline are equal, whichever order
/// the rows were committed in and whichever worker rendered them.
pub proof fn lemma_frame_determined_by_rows<T>(
    first: Seq<T>,
    second: Seq<T>,
    width: nat,
    height: nat,
    rows: Seq<Seq<T>>,
)
    requires
        holds_rows(first, width, height, rows),
        holds_rows(second, width, height, rows),
    ensures
        first == second,
{
    assert forall|k: int| 0 <= k < first.len() implies first[k] == second[k] by {
        let q = k / (width as int);
        let r = k % (width as int);
        assert(width > 0) by (nonlinear_arith)
            requires
                0 <= k < width * height,
        ;
        vstd::arithmetic::div_mod::lemma_fundamental_div_mod(k, width as int);
        vstd::arithmetic::div_mod::lemma_mod_bound(k, width as int);
        assert(q < height) by (nonlinear_arith)
            requires
                k == width * q + r,
                0 <= r,
                k < width * height,
                width > 0,
        ;
        assert(0 <= q) by (nonlinear_arith)
            requires
                k == width * q + r,
                r < width,
                0 <= k,
                width > 0,
        ;
        assert(q * width + r == k) by (nonlinear_arith)
            requires
                k == width * q + r,
        ;
        let j = height - 1 - q;
        assert(row_start(width, height, j) == q * width);
        lemma_row_in_frame(width, height, j);
        assert(first.subrange(q * width, q * width + width)[r] == first[k]);
        assert(second.subrange(q * width, q * width + width)[r] == second[k]);
        assert(rows[j] == first.subrange(q * width, q * width + width));
    }
    assert(first =~= second);
}

/// Committing rows of two different scanlines gives the same session state in
/// either order.
pub proof fn lemma_commits_commute<T>(
    rows: Seq<Option<Seq<T>>>,
    i: int,
    row_i: Seq<T>,
    j: int,
    row_j: Seq<T>,
)
    requires
        0 <= i < rows.len(),
        0 <= j < rows.len(),
        i != j,
    ensures
        rows.update(i, Some(row_i)).update(j, Some(row_j)) == rows.update(j, Some(row_j)).update(
            i,
            Some(row_i),
        ),
{
    assert(rows.update(i, Some(row_i)).update(j, Some(row_j)) =~= rows.update(j, Some(row_j)).update(
        i,
        Some(row_i),
    ));
}

/// The shared state of a scanline render: the queue of scanlines still to be
/// handed to workers, and the frame buffer into which finished rows are
/// committed, each into its own disjoint range.
pub struct RenderSession<T> {
    width: usize,
    height: usize,
    workers: usize,
    pending: usize,
    pixels: Vec<T>,
    committed: Vec<bool>,
    rows_done: usize,
    rows: Ghost<Seq<Option<Seq<T>>>>,
}

impl<T> View for RenderSession<T> {
    /// For each scanline, the row committed for it, if any.
    type V = Seq<Option<Seq<T>>>;

    closed spec fn view(&self) -> Seq<Option<Seq<T>>> {
        self.rows@
    }
}

impl<T: Copy> RenderSession<T> {
    pub closed spec fn spec_width(&self) -> nat {
        self.width as nat
    }

    pub closed spec fn spec_height(&self) -> nat {
        self.height as nat
    }

    pub closed spec fn spec_workers(&self) -> nat {
        self.workers as nat
    }

    /// Scanlines `0 .. pending` have not been handed out yet.
    pub closed spec fn spec_pending(&self) -> nat {
        self.pending as nat
    }

    pub closed spec fn wf(&self) -> bool {
        let w = self.width as nat;
        let h = self.height as nat;
        &&& w * h <= usize::MAX
        &&& self.workers > 0
        &&& self.pending <= self.height
        &&& self.pixels@.len() == w * h
        &&& self.committed@.len() == h
        &&& self.rows@.len() == h
        &&& self.rows_done == count_committed(self.rows@)
        &&& forall|j: int| 0 <= j < h ==> (#[trigger] self.committed@[j] <==> self.rows@[j] is Some)
        &&& forall|j: int|
            0 <= j < h && #[trigger] self.rows@[j] is Some ==> self.rows@[j]->0
                == self.pixels@.subrange(row_start(w, h, j), row_start(w, h, j) + w)
    }

    /// Starts the render of a `width` by `height` image on `workers` workers,
    /// with every pixel set to `fill` and every scanline still to be handed
    /// out.
    pub fn new(width: usize, height: usize, workers: usize, fill: T) -> (r: Result<
        RenderSession<T>,
        RenderError,
    >)
        ensures
            workers == 0 ==> r == Err::<RenderSession<T>, RenderError>(RenderError::NoWorkers),
            workers > 0 && width * height > usize::MAX ==> r == Err::<
                RenderSession<T>,
                RenderError,
            >(RenderError::TooManyPixels),
            workers > 0 && width * height <= usize::MAX ==> (r matches Ok(s) && s.wf()
                && s.spec_width() == width && s.spec_height() == height
                && s.spec_workers() == workers && s.spec_pending() == height
                && s@ == Seq::new(height as nat, |j: int| None::<Seq<T>>)),
    {
        if workers == 0 {
            return Err(RenderError::NoWorkers);
        }
        let size = match width.checked_mul(height) {
            Some(n) => n,
            None => {
                return Err(RenderError::TooManyPixels);
            },
        };
        let mut pixels: Vec<T> = Vec::new();
        while pixels.len() < size
            invariant
                pixels@.len() <= size,
            decreases size - pixels@.len(),
        {
            pixels.push(fill);
        }
        let mut committed: Vec<bool> = Vec::new();
        while committed.len() < height
            invariant
                committed@.len() <= height,
                forall|j: int| 0 <= j < committed@.len() ==> !#[trigger] committed@[j],
            decreases height - committed@.len(),
        {
            committed.push(false);
        }
        let ghost rows = Seq::new(height as nat, |j: int| None::<Seq<T>>);
        proof {
            assert(count_committed(rows) == 0) by {
                lemma_count_none(rows);
            }
        }
        Ok(RenderSession {
            width,
            height,
            workers,
            pending: height,
            pixels,
            committed,
            rows_done: 0,
            rows: Ghost(rows),
        })
    }

    /// Hands out the next scanline to render: the highest one that has not
    /// been handed out yet, so that the image is worked on from the top down.
    /// Returns `None` once every scanline has been handed out.
    pub fn next_scanline(&mut self) -> (r: Option<usize>)
        requires
            old(self).wf(),
        ensures
            final(self).wf(),
            final(self)@ == old(self)@,
            final(self).spec_width() == old(self).spec_width(),
            final(self).spec_height() == old(self).spec_height(),
            final(self).spec_workers() == old(self).spec_workers(),
            old(self).spec_pending() == 0 ==> r is None && final(self).spec_pending() == 0,
            old(self).spec_pending() > 0 ==> r == Some((old(self).spec_pending() - 1) as usize)
                && final(self).spec_pending() == old(self).spec_pending() - 1,
    {
        if self.pending == 0 {
            None
        } else {
            self.pending = self.pending - 1;
            Some(self.pending)
        }
    }

    /// Copies the finished row of scanline `j` into its place in the frame.
    /// Fails, and changes nothing, when `j` is not a scanline of the image,
    /// when the row does not hold `width` pixels, or when scanline `j` already
    /// has a row.
    pub fn commit_row(&mut self, j: usize, row: &Vec<T>) -> (r: Result<(), RenderError>)
        requires
            old(self).wf(),
        ensures
            final(self).wf(),
            final(self).spec_width() == old(self).spec_width(),
            final(self).spec_height() == old(self).spec_height(),
            final(self).spec_workers() == old(self).spec_workers(),
            final(self).spec_pending() == old(self).spec_pending(),
            j >= old(self).spec_height() ==> r == Err::<(), RenderError>(
                RenderError::ScanlineOutOfRange,
            ),
            j < old(self).spec_height() && row@.len() != old(self).spec_width() ==> r == Err::<
                (),
                RenderError,
            >(RenderError::RowLength),
            j < old(self).spec_height() && row@.len() == old(self).spec_width() && old(
                self,
            )@[j as int] is Some ==> r == Err::<(), RenderError>(
                RenderError::ScanlineAlreadyCommitted,
            ),
            r is Err ==> final(self)@ == old(self)@,
            j < old(self).spec_height() && row@.len() == old(self).spec_width() && old(
                self,
            )@[j as int] is None ==> r is Ok && final(self)@ == old(self)@.update(
                j as int,
                Some(row@),
            ),
    {
        if j >= self.height {
            return Err(RenderError::ScanlineOutOfRange);
        }
        if row.len() != self.width {
            return Err(RenderError::RowLength);
        }
        if self.committed[j] {
            return Err(RenderError::ScanlineAlreadyCommitted);
        }
        let ghost w = self.width as nat;
        let ghost h = self.height as nat;
        let ghost before = self.pixels@;
        let ghost rows0 = self.rows@;
        let ghost committed0 = self.committed@;
        let ghost done0 = self.rows_done;
        let ghost pending0 = self.pending;
        let ghost workers0 = self.workers;
        proof {
            lemma_row_in_frame(w, h, j as int);
        }
        let start: usize = (self.height - 1 - j) * self.width;
        let mut k: usize = 0;
        while k < self.width
            invariant
                self.width == w,
                self.height == h,
                self.rows@ == rows0,
                self.committed@ == committed0,
                self.rows_done == done0,
                self.pending == pending0,
                self.workers == workers0,
                w * h <= usize::MAX,
                j < h,
                start == row_start(w, h, j as int),
                start + w <= w * h,
                row@.len() == w,
                k <= w,
                before.len() == w * h,
                self.pixels@.len() == before.len(),
                forall|i: int|
                    0 <= i < before.len() ==> #[trigger] self.pixels@[i] == if start <= i < start
                        + k {
                        row@[i - start]
                    } else {
                        before[i]
                    },
            decreases w - k,
        {
            self.pixels[start + k] = row[k];
            k += 1;
        }
        let ghost old_rows = self.rows@;
        proof {
            lemma_count_commit(old_rows, j as int, row@);
            lemma_count_bounded(old_rows.update(j as int, Some(row@)));
            assert(self.pixels@.subrange(start as int, start + w) =~= row@);
            assert forall|i: int|
                0 <= i < h && i != j && #[trigger] old_rows[i] is Some implies old_rows[i]->0
                == self.pixels@.subrange(row_start(w, h, i), row_start(w, h, i) + w) by {
                if i < j {
                    lemma_rows_disjoint(w, h, i, j as int);
                } else {
                    lemma_rows_disjoint(w, h, j as int, i);
                }
                assert(self.pixels@.subrange(row_start(w, h, i), row_start(w, h, i) + w)
                    =~= before.subrange(row_start(w, h, i), row_start(w, h, i) + w));
            }
        }
        self.committed.set(j, true);
        self.rows_done = self.rows_done + 1;
        self.rows = Ghost(old_rows.update(j as int, Some(row@)));
        Ok(())
    }

    /// Number of pixels whose scanline has been committed.
    pub fn completed_pixels(&self) -> (r: usize)
        requires
            self.wf(),
        ensures
            r == count_committed(self@) * self.spec_width(),
    {
        proof {
            lemma_count_bounded(self.rows@);
            let c = count_committed(self.rows@);
            let w = self.width as nat;
            let h = self.height as nat;
            assert(c * w <= w * h) by (nonlinear_arith)
                requires
                    c <= h,
            ;
        }
        self.rows_done * self.width
    }

    /// Whether every scanline has been committed.
    pub fn is_complete(&self) -> (r: bool)
        requires
            self.wf(),
        ensures
            r == all_committed(self@),
    {
        proof {
            lemma_count_bounded(self.rows@);
        }
        self.rows_done == self.height
    }

    /// Ends the render and hands out the frame, top row first. Reading the
    /// frame before every scanline has been committed is refused.
    pub fn finish(self) -> (r: Result<Vec<T>, RenderError>)
        requires
            self.wf(),
        ensures
            !all_committed(self@) ==> r == Err::<Vec<T>, RenderError>(RenderError::Incomplete),
            all_committed(self@) ==> (r matches Ok(pixels) && holds_rows(
                pixels@,
                self.spec_width(),
                self.spec_height(),
                committed_rows(self@),
            )),
    {
        if !self.is_complete() {
            return Err(RenderError::Incomplete);
        }
        let ghost rows = committed_rows(self@);
        proof {
            assert forall|j: int| 0 <= j < self.height implies #[trigger] rows[j]
                == self.pixels@.subrange(
                row_start(self.width as nat, self.height as nat, j),
                row_start(self.width as nat, self.height as nat, j) + self.width,
            ) by {
                assert(self.rows@[j] is Some);
            }
        }
        Ok(self.pixels)
    }

    pub fn width(&self) -> (r: usize)
        ensures
            r == self.spec_width(),
    {
        self.width
    }

    pub fn height(&self) -> (r: usize)
        ensures
            r == self.spec_height(),
    {
        self.height
    }

    pub fn workers(&self) -> (r: usize)
        ensures
            r == self.spec_workers(),
    {
        self.workers
    }
}

proof fn lemma_count_none<T>(rows: Seq<Option<Seq<T>>>)
    requires
        forall|j: int| 0 <= j < rows.len() ==> #[trigger] rows[j] is None,
    ensures
        count_committed(rows) == 0,
    decreases rows.len(),
{
    if rows.len() > 0 {
        lemma_count_none(rows.drop_last());
    }
}

} // verus!
