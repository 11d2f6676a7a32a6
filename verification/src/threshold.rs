//! The accept/reject policy that judges a difference histogram.

use vstd::prelude::*;

use crate::histogram::{
    band_sum, lemma_band_sum_bounds, lemma_band_sum_concat, lemma_band_sum_extend,
    lemma_band_sum_zero_iff, Histogram,
};

verus! {

/// A bound upon pixel differences observed in a [`Histogram`], which may
/// define the pass/fail criterion for an image comparison test.
///
/// It holds bands `(magnitude, allowance)` sorted by strictly ascending
/// magnitude, every magnitude nonzero.
#[derive(Clone, Debug, PartialEq, Eq)]
pub struct Threshold(Vec<(u8, usize)>);

impl View for Threshold {
    type V = Seq<(u8, usize)>;

    closed spec fn view(&self) -> Seq<(u8, usize)> {
        self.0@
    }
}

/// Well-formed bands: strictly ascending magnitudes, none of them zero.
pub open spec fn bands_wf(bands: Seq<(u8, usize)>) -> bool {
    &&& forall|i: int, j: int|
        0 <= i < j < bands.len() ==> (#[trigger] bands[i]).0 < (#[trigger] bands[j]).0
    &&& forall|i: int| 0 <= i < bands.len() ==> (#[trigger] bands[i]).0 > 0
}

/// Whether some entry of `entries` carries magnitude `k`.
pub open spec fn has_band(entries: Seq<(u8, usize)>, k: u8) -> bool {
    exists|i: int| 0 <= i < entries.len() && (#[trigger] entries[i]).0 == k
}

/// The allowance of the last entry of `entries` carrying magnitude `k`:
/// when a magnitude is given more than once, the last entry wins.
pub open spec fn last_allowance(entries: Seq<(u8, usize)>, k: u8) -> usize
    recommends
        has_band(entries, k),
    decreases entries.len(),
{
    if entries.len() == 0 {
        0
    } else if entries.last().0 == k {
        entries.last().1
    } else {
        last_allowance(entries.drop_last(), k)
    }
}

/// The first magnitude that band `i` covers: one more than the previous
/// band's magnitude, or 1 for the first band, since magnitude-0 differences
/// are always accepted.
pub open spec fn band_lo(bands: Seq<(u8, usize)>, i: int) -> int {
    if i == 0 {
        1
    } else {
        bands[i - 1].0 + 1
    }
}

/// Whether bands accept a histogram: within each band, the histogram's
/// counts between the previous band's magnitude (exclusive) and the band's
/// own magnitude (inclusive) sum to no more than the band's allowance; and
/// no count at all remains at magnitudes above the highest band.
pub open spec fn spec_allows(bands: Seq<(u8, usize)>, h: Seq<usize>) -> bool {
    &&& forall|i: int|
        0 <= i < bands.len() ==> band_sum(h, band_lo(bands, i), (#[trigger] bands[i]).0 + 1)
            <= bands[i].1
    &&& band_sum(h, band_lo(bands, bands.len() as int), 256) == 0
}

/// The bands of [`Threshold::no_bigger_than`]: a single unlimited band at
/// `magnitude`, or no band at all for magnitude 0.
pub open spec fn no_bigger_than_bands(magnitude: u8) -> Seq<(u8, usize)> {
    if magnitude == 0 {
        Seq::empty()
    } else {
        seq![(magnitude, usize::MAX)]
    }
}

/// Threshold boundary law: `no_bigger_than(k)` accepts exactly the
/// histograms that have no count at any magnitude above `k`. This holds for
/// every histogram whose counters sum to at most one counter's maximum, as
/// the histogram of any diff does, since its counters sum to a pixel count.
pub proof fn lemma_no_bigger_than_boundary(k: u8, h: Seq<usize>)
    requires
        h.len() == 256,
        band_sum(h, 0, 256) <= usize::MAX,
    ensures
        spec_allows(no_bigger_than_bands(k), h) <==> (forall|m: int| k < m < 256 ==> h[m] == 0),
{
    let bands = no_bigger_than_bands(k);
    if k == 0 {
        assert(band_lo(bands, 0) == 1);
        lemma_band_sum_zero_iff(h, 1, 256);
    } else {
        assert(bands[0] == (k, usize::MAX));
        assert(band_lo(bands, 0) == 1);
        assert(band_lo(bands, 1) == k + 1);
        lemma_band_sum_zero_iff(h, k + 1, 256);
        lemma_band_sum_concat(h, 0, 1, 256);
        lemma_band_sum_concat(h, 1, k + 1, 256);
        lemma_band_sum_bounds(h, 0, 1);
        lemma_band_sum_bounds(h, 1, k + 1);
        lemma_band_sum_bounds(h, k + 1, 256);
        assert(band_sum(h, 1, k + 1) <= usize::MAX);
        if spec_allows(bands, h) {
            assert(band_sum(h, k + 1, 256) == 0);
        }
        if forall|m: int| k < m < 256 ==> h[m] == 0 {
            assert(band_sum(h, k + 1, 256) == 0);
            assert forall|i: int|
                0 <= i < bands.len() implies band_sum(h, band_lo(bands, i), (#[trigger] bands[i]).0
                + 1) <= bands[i].1 by {
                assert(i == 0);
            }
        }
    }
}

/// Sums the histogram's counters over bins `lo..hi`.
#[verifier::loop_isolation(false)]
fn sum_range(histogram: &Histogram, lo: usize, hi: usize) -> (s: u128)
    requires
        lo <= hi <= 256,
    ensures
        s == band_sum(histogram.0@, lo as int, hi as int),
{
    let mut s: u128 = 0;
    proof {
        lemma_band_sum_bounds(histogram.0@, lo as int, hi as int);
        assert(band_sum(histogram.0@, lo as int, lo as int) == 0);
    }
    for j in lo..hi
        invariant
            s == band_sum(histogram.0@, lo as int, j as int),
            s <= (j - lo) * usize::MAX,
    {
        proof {
            lemma_band_sum_extend(histogram.0@, lo as int, j as int);
            lemma_band_sum_bounds(histogram.0@, lo as int, j + 1);
            assert((j + 1 - lo) * usize::MAX <= 256 * usize::MAX) by (nonlinear_arith)
                requires
                    j + 1 - lo <= 256,
            ;
        }
        s = s + (histogram.0[j] as u128);
    }
    s
}

impl Threshold {
    /// Well-formed policy: its bands are sorted by strictly ascending
    /// magnitude and none of them is the always-accepted magnitude 0.
    pub open spec fn wf(&self) -> bool {
        bands_wf(self@)
    }

    /// Creates a `Threshold` from a list of (magnitude, count) pairs.
    ///
    /// Each pair means "there may be up to &lt;count&gt; differences of
    /// magnitude &lt;magnitude&gt; or less". Lower magnitudes that are
    /// accepted by a lower entry don't count towards the limit at a higher
    /// magnitude. Differences of zero are always accepted. When a magnitude
    /// is given more than once, the last entry wins.
    ///
    /// All magnitudes must be greater than zero: a zero magnitude would
    /// have no effect, so supplying one is a usage error.
    #[verifier::loop_isolation(false)]
    pub fn new(data: Vec<(u8, usize)>) -> (r: Threshold)
        requires
            forall|i: int| 0 <= i < data@.len() ==> (#[trigger] data@[i]).0 > 0,
        ensures
            r.wf(),
            forall|k: u8| has_band(r@, k) <==> has_band(data@, k),
            forall|j: int|
                0 <= j < r@.len() ==> (#[trigger] r@[j]).1 == last_allowance(data@, r@[j].0),
    {
        let mut table: [Option<usize>; 256] = [None;256];
        let data_len = data.len();
        proof {
            assert(data@.take(0) =~= Seq::<(u8, usize)>::empty());
        }
        for i in 0..data_len
            invariant
                forall|k: u8| (#[trigger] table@[k as int]) is Some <==> has_band(
                    data@.take(i as int),
                    k,
                ),
                forall|k: u8|
                    (#[trigger] table@[k as int]) matches Some(v) ==> v == last_allowance(
                        data@.take(i as int),
                        k,
                    ),
        {
            let pair = data[i];
            proof {
                assert(data@[i as int].0 > 0);
                assert(data@.take(i + 1).drop_last() =~= data@.take(i as int));
                assert(data@.take(i + 1).last() == data@[i as int]);
                assert forall|k: u8| has_band(data@.take(i + 1), k) <==> (has_band(
                    data@.take(i as int),
                    k,
                ) || k == pair.0) by {
                    if has_band(data@.take(i + 1), k) && k != pair.0 {
                        let j = choose|j: int|
                            0 <= j < data@.take(i + 1).len() && (#[trigger] data@.take(i + 1)[j]).0
                                == k;
                        assert(0 <= j < data@.take(i as int).len() && data@.take(i as int)[j].0
                            == k);
                    }
                    if has_band(data@.take(i as int), k) {
                        let j = choose|j: int|
                            0 <= j < data@.take(i as int).len() && (#[trigger] data@.take(
                                i as int,
                            )[j]).0 == k;
                        assert(0 <= j < data@.take(i + 1).len() && data@.take(i + 1)[j].0 == k);
                    }
                    if k == pair.0 {
                        assert(data@.take(i + 1)[i as int].0 == k);
                    }
                }
            }
            table[pair.0 as usize] = Some(pair.1);
        }
        proof {
            assert(data@.take(data_len as int) =~= data@);
        }

        let mut bands: Vec<(u8, usize)> = Vec::new();
        for k in 1..256usize
            invariant
                bands_wf(bands@),
                forall|j: int| 0 <= j < bands@.len() ==> (#[trigger] bands@[j]).0 < k,
                forall|kk: u8| has_band(bands@, kk) <==> (kk < k && table@[kk as int] is Some),
                forall|j: int|
                    0 <= j < bands@.len() ==> table@[(#[trigger] bands@[j]).0 as int] == Some(
                        bands@[j].1,
                    ),
        {
            match table[k] {
                Some(allowance) => {
                    let ghost old_bands = bands@;
                    bands.push((k as u8, allowance));
                    proof {
                        assert forall|kk: u8| has_band(bands@, kk) <==> (kk < k + 1
                            && table@[kk as int] is Some) by {
                            assert(has_band(old_bands, kk) <==> (kk < k && table@[kk as int]
                                is Some));
                            if has_band(bands@, kk) && kk != k as u8 {
                                let j = choose|j: int|
                                    0 <= j < bands@.len() && (#[trigger] bands@[j]).0 == kk;
                                assert(j < old_bands.len());
                                assert(old_bands[j].0 == kk);
                                assert(has_band(old_bands, kk));
                            }
                            if kk < k && table@[kk as int] is Some {
                                let j = choose|j: int|
                                    0 <= j < old_bands.len() && (#[trigger] old_bands[j]).0 == kk;
                                assert(bands@[j].0 == kk);
                                assert(has_band(bands@, kk));
                            }
                            if kk == k as u8 {
                                assert(bands@[bands@.len() - 1].0 == kk);
                                assert(has_band(bands@, kk));
                            }
                        }
                    }
                },
                None => {},
            }
        }

        proof {
            assert forall|k: u8| has_band(bands@, k) <==> has_band(data@, k) by {
                if k == 0 && has_band(data@, k) {
                    let j = choose|j: int|
                        0 <= j < data@.len() && (#[trigger] data@[j]).0 == k;
                }
            }
        }
        Threshold(bands)
    }

    /// Allow any number of pixel differences not exceeding `magnitude`: one
    /// unlimited band at `magnitude`, or no band at all for magnitude 0, so
    /// that only exact equality is accepted.
    pub fn no_bigger_than(magnitude: u8) -> (r: Threshold)
        ensures
            r.wf(),
            r@ == no_bigger_than_bands(magnitude),
    {
        if magnitude == 0 {
            let r = Self::new(Vec::new());
            proof {
                if r@.len() > 0 {
                    assert(has_band(r@, r@[0].0));
                }
                assert(r@ =~= no_bigger_than_bands(magnitude));
            }
            r
        } else {
            let mut data: Vec<(u8, usize)> = Vec::new();
            data.push((magnitude, usize::MAX));
            let r = Self::new(data);
            proof {
                assert(has_band(data@, magnitude)) by {
                    assert(data@[0].0 == magnitude);
                }
                assert(has_band(r@, magnitude));
                assert forall|i: int| 0 <= i < r@.len() implies (#[trigger] r@[i]).0
                    == magnitude by {
                    assert(has_band(data@, r@[i].0));
                    let w = choose|w: int|
                        0 <= w < data@.len() && (#[trigger] data@[w]).0 == r@[i].0;
                }
                if r@.len() >= 2 {
                    assert(r@[0].0 < r@[1].0);
                }
                assert(r@.len() == 1);
                assert(last_allowance(data@, magnitude) == usize::MAX);
                assert(r@ =~= no_bigger_than_bands(magnitude));
            }
            r
        }
    }

    /// Returns whether the differences described by the given [`Histogram`]
    /// are permitted by this `Threshold`.
    ///
    /// Magnitude-0 entries are always accepted. Each band is checked in
    /// ascending order against the histogram's counts since the previous
    /// band, and a band that overflows its allowance rejects immediately: a
    /// later, larger band never donates unused capacity to an earlier one.
    /// Counts above the highest band always reject.
    #[verifier::loop_isolation(false)]
    #[verifier::rlimit(100)]
    pub fn allows(&self, histogram: Histogram) -> (r: bool)
        requires
            self.wf(),
        ensures
            r == spec_allows(self@, histogram.0@),
    {
        // Skip the first entry and always accept any number of zero-value
        // differences.
        let mut checked_up_to: usize = 1;
        let band_count = self.0.len();
        // Loop over the bands, always in ascending order.
        for i in 0..band_count
            invariant
                checked_up_to == band_lo(self@, i as int),
                checked_up_to <= 256,
                forall|j: int|
                    0 <= j < i ==> band_sum(histogram.0@, band_lo(self@, j), (#[trigger] self@[j]).0
                        + 1) <= self@[j].1,
        {
            let level = self.0[i].0;
            let count = self.0[i].1;
            proof {
                if i > 0 {
                    assert(self@[i - 1].0 < self@[i as int].0);
                }
            }
            // Add 1 because the level value *includes* differences of that
            // level.
            let new_checked_up_to = level as usize + 1;
            let new_differences = sum_range(&histogram, checked_up_to, new_checked_up_to);
            if new_differences > count as u128 {
                proof {
                    assert(band_sum(histogram.0@, band_lo(self@, i as int), self@[i as int].0 + 1)
                        > self@[i as int].1);
                    assert(!spec_allows(self@, histogram.0@));
                }
                return false;
            }
            checked_up_to = new_checked_up_to;
        }

        // Finally, reject differences greater than any accepted.
        let remaining_differences = sum_range(&histogram, checked_up_to, 256);
        proof {
            if remaining_differences == 0 {
                assert(spec_allows(self@, histogram.0@));
            } else {
                assert(!spec_allows(self@, histogram.0@));
            }
        }
        remaining_differences == 0
    }
}

} // verus!
