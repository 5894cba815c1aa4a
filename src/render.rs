use vstd::prelude::*;
use vstd::arithmetic::div_mod::lemma_div_is_ordered;
use vstd::arithmetic::mul::lemma_mul_inequality;

verus! {

/// First row of the band that worker `t` of `threads` renders in an image of
/// `height` rows.
pub open spec fn band_start(t: int, height: int, threads: int) -> int {
    t * height / threads
}

/// One past the last row of the band that worker `t` renders.
pub open spec fn band_end(t: int, height: int, threads: int) -> int {
    band_start(t + 1, height, threads)
}

/// Row `row` falls inside the band of worker `t`.
pub open spec fn in_band(row: int, t: int, height: int, threads: int) -> bool {
    band_start(t, height, threads) <= row < band_end(t, height, threads)
}

/// Row `row` lies in the band of one of the workers `0 .. k`.
pub open spec fn in_some_band(row: int, k: int, height: int, threads: int) -> bool {
    exists|t: int| 0 <= t < k && #[trigger] in_band(row, t, height, threads)
}

/// The rows `[start, end)` that worker `t` of `threads` renders, in an image of
/// `height` rows. The bands split the rows as evenly as integer division allows.
pub fn row_band(t: usize, height: usize, threads: usize) -> (r: (usize, usize))
    requires
        t < threads,
        threads * height <= usize::MAX,
    ensures
        r.0 == band_start(t as int, height as int, threads as int),
        r.1 == band_end(t as int, height as int, threads as int),
        r.0 <= r.1 <= height,
{
    proof {
        lemma_band_start_monotone(t as int, t as int + 1, height as int, threads as int);
        lemma_band_start_monotone(t as int + 1, threads as int, height as int, threads as int);
        lemma_mul_inequality(t as int, threads as int, height as int);
        lemma_mul_inequality(t as int + 1, threads as int, height as int);
        assert(threads as int * height as int / threads as int == height as int) by (nonlinear_arith)
            requires
                threads > 0,
        ;
    }
    let start: usize = t * height / threads;
    let end: usize = (t + 1) * height / threads;
    (start, end)
}

/// Image row (counted from the top) that receives rendered row `j` (counted
/// from the bottom).
pub fn output_row(j: usize, height: usize) -> (r: usize)
    requires
        j < height,
    ensures
        r == height - 1 - j,
{
    height - 1 - j
}

proof fn lemma_band_start_monotone(t1: int, t2: int, height: int, threads: int)
    requires
        0 <= t1 <= t2,
        0 <= height,
        0 < threads,
    ensures
        band_start(t1, height, threads) <= band_start(t2, height, threads),
{
    lemma_mul_inequality(t1, t2, height);
    lemma_div_is_ordered(t1 * height, t2 * height, threads);
}

proof fn lemma_rows_below_start_covered(k: int, height: int, threads: int)
    requires
        0 <= k,
        0 <= height,
        0 < threads,
    ensures
        forall|row: int|
            0 <= row < band_start(k, height, threads) ==> #[trigger] in_some_band(
                row,
                k,
                height,
                threads,
            ),
    decreases k,
{
    if k > 0 {
        lemma_rows_below_start_covered(k - 1, height, threads);
        assert forall|row: int| 0 <= row < band_start(k, height, threads) implies #[trigger] in_some_band(
            row,
            k,
            height,
            threads,
        ) by {
            if row >= band_start(k - 1, height, threads) {
                assert(in_band(row, k - 1, height, threads));
            } else {
                assert(in_some_band(row, k - 1, height, threads));
                let t = choose|t: int| 0 <= t < k - 1 && #[trigger] in_band(row, t, height, threads);
                assert(in_band(row, t, height, threads));
            }
        }
    } else {
        assert(band_start(0, height, threads) == 0);
    }
}

/// The bands of workers `0 .. threads` partition the rows `0 .. height`: the
/// first starts at row 0, the last ends at `height`, each ends where the next
/// begins, and every row lies in the band of exactly one worker.
pub proof fn lemma_row_bands_partition(height: int, threads: int)
    requires
        0 <= height,
        0 < threads,
    ensures
        band_start(0, height, threads) == 0,
        band_end(threads - 1, height, threads) == height,
        forall|t: int|
            0 <= t < threads ==> band_start(t, height, threads) <= band_end(t, height, threads),
        forall|row: int| 0 <= row < height ==> #[trigger] in_some_band(row, threads, height, threads),
        forall|row: int, t1: int, t2: int|
            0 <= t1 < threads && 0 <= t2 < threads && #[trigger] in_band(row, t1, height, threads)
                && #[trigger] in_band(row, t2, height, threads) ==> t1 == t2,
{
    assert(threads * height / threads == height) by (nonlinear_arith)
        requires
            threads > 0,
    ;
    assert forall|t: int|
        0 <= t < threads implies band_start(t, height, threads) <= band_end(t, height, threads) by {
        lemma_band_start_monotone(t, t + 1, height, threads);
    }
    lemma_rows_below_start_covered(threads, height, threads);
    assert forall|row: int, t1: int, t2: int|
        0 <= t1 < threads && 0 <= t2 < threads && #[trigger] in_band(row, t1, height, threads)
            && #[trigger] in_band(row, t2, height, threads) implies t1 == t2 by {
        if t1 < t2 {
            lemma_band_start_monotone(t1 + 1, t2, height, threads);
        } else if t2 < t1 {
            lemma_band_start_monotone(t2 + 1, t1, height, threads);
        }
    }
}

} // verus!
