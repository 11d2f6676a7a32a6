//! The difference histogram: a fixed table of 256 counters, one per
//! difference magnitude, and its read queries.

use vstd::prelude::*;

verus! {

/// A histogram of color difference magnitudes.
///
/// The histogram is represented as an array whose indices are the difference
/// magnitudes, and whose values are the count of how many differences of that
/// magnitude were found. (For example, the first (index `0`) element of the
/// array contains a count of the pixels that were considered equal.)
///
/// This type does not attribute any meaning, units, scale, or linearity to
/// the difference magnitudes; only that there are 256 of them, they are
/// ordered, and `0` is no difference.
#[derive(Clone, Copy, Debug, PartialEq, Eq, Hash)]
pub struct Histogram(pub [usize; 256]);

/// How many elements of `s` equal `m`.
pub open spec fn count_of(s: Seq<u8>, m: u8) -> nat
    decreases s.len(),
{
    if s.len() == 0 {
        0
    } else {
        count_of(s.drop_last(), m) + if s.last() == m {
            1nat
        } else {
            0nat
        }
    }
}

/// No more elements of `s` can equal `m` than `s` has elements.
pub proof fn lemma_count_of_le_len(s: Seq<u8>, m: u8)
    ensures
        count_of(s, m) <= s.len(),
    decreases s.len(),
{
    if s.len() > 0 {
        lemma_count_of_le_len(s.drop_last(), m);
    }
}

/// A value that occurs in `s` has a positive count.
pub proof fn lemma_count_of_pos(s: Seq<u8>, i: int)
    requires
        0 <= i < s.len(),
    ensures
        count_of(s, s[i]) > 0,
    decreases s.len(),
{
    if i < s.len() - 1 {
        lemma_count_of_pos(s.drop_last(), i);
    }
}

/// In a sequence whose elements all equal `v`, the count of `v` is the
/// whole length and every other count is zero.
pub proof fn lemma_count_of_uniform(s: Seq<u8>, v: u8)
    requires
        forall|i: int| 0 <= i < s.len() ==> s[i] == v,
    ensures
        count_of(s, v) == s.len(),
        forall|m: u8| m != v ==> count_of(s, m) == 0,
    decreases s.len(),
{
    if s.len() > 0 {
        lemma_count_of_uniform(s.drop_last(), v);
        assert(s.last() == v);
        assert forall|m: u8| m != v implies count_of(s, m) == 0 by {
            assert(count_of(s.drop_last(), m) == 0);
        }
    }
}

/// The sum of the counters of bins `lo..hi`.
pub open spec fn band_sum(h: Seq<usize>, lo: int, hi: int) -> int
    recommends
        0 <= lo,
        hi <= h.len(),
    decreases hi - lo,
{
    if lo >= hi {
        0
    } else {
        h[lo] + band_sum(h, lo + 1, hi)
    }
}

/// A band sum grows by the newly included bin.
pub proof fn lemma_band_sum_extend(h: Seq<usize>, lo: int, j: int)
    requires
        0 <= lo <= j < h.len(),
    ensures
        band_sum(h, lo, j + 1) == band_sum(h, lo, j) + h[j],
    decreases j - lo,
{
    if lo < j {
        lemma_band_sum_extend(h, lo + 1, j);
        assert(band_sum(h, lo, j + 1) == h[lo] + band_sum(h, lo + 1, j + 1));
        assert(band_sum(h, lo, j) == h[lo] + band_sum(h, lo + 1, j));
    } else {
        assert(band_sum(h, j + 1, j + 1) == 0);
        assert(band_sum(h, j, j + 1) == h[j] + band_sum(h, j + 1, j + 1));
    }
}

/// A band sum is non-negative and at most one maximal counter per bin.
pub proof fn lemma_band_sum_bounds(h: Seq<usize>, lo: int, hi: int)
    requires
        0 <= lo <= hi <= h.len(),
    ensures
        0 <= band_sum(h, lo, hi) <= (hi - lo) * usize::MAX,
    decreases hi - lo,
{
    if lo < hi {
        lemma_band_sum_bounds(h, lo + 1, hi);
        assert((hi - lo - 1) * usize::MAX + usize::MAX == (hi - lo) * usize::MAX)
            by (nonlinear_arith);
    } else {
        assert((hi - lo) * usize::MAX >= 0) by (nonlinear_arith)
            requires
                lo <= hi,
        ;
    }
}

/// Adjacent band sums concatenate.
pub proof fn lemma_band_sum_concat(h: Seq<usize>, lo: int, mid: int, hi: int)
    requires
        0 <= lo <= mid <= hi <= h.len(),
    ensures
        band_sum(h, lo, hi) == band_sum(h, lo, mid) + band_sum(h, mid, hi),
    decreases mid - lo,
{
    if lo < mid {
        lemma_band_sum_concat(h, lo + 1, mid, hi);
    }
}

/// A band sum is zero exactly when every bin it covers is zero.
pub proof fn lemma_band_sum_zero_iff(h: Seq<usize>, lo: int, hi: int)
    requires
        0 <= lo <= hi <= h.len(),
    ensures
        band_sum(h, lo, hi) == 0 <==> (forall|m: int| lo <= m < hi ==> h[m] == 0),
    decreases hi - lo,
{
    if lo < hi {
        lemma_band_sum_zero_iff(h, lo + 1, hi);
        lemma_band_sum_bounds(h, lo + 1, hi);
    }
}

/// How many elements of `s` are strictly below `j`.
pub open spec fn count_below(s: Seq<u8>, j: int) -> nat
    decreases s.len(),
{
    if s.len() == 0 {
        0
    } else {
        count_below(s.drop_last(), j) + if s.last() < j {
            1nat
        } else {
            0nat
        }
    }
}

proof fn lemma_count_below_step(s: Seq<u8>, j: int)
    requires
        0 <= j < 256,
    ensures
        count_below(s, j + 1) == count_below(s, j) + count_of(s, j as u8),
    decreases s.len(),
{
    if s.len() > 0 {
        lemma_count_below_step(s.drop_last(), j);
    }
}

proof fn lemma_count_below_all(s: Seq<u8>)
    ensures
        count_below(s, 256) == s.len(),
        count_below(s, 0) == 0,
    decreases s.len(),
{
    if s.len() > 0 {
        lemma_count_below_all(s.drop_last());
    }
}

/// The bins of a histogram that counts the magnitudes of `s` sum to the
/// length of `s`: every compared position lands in exactly one bin.
pub proof fn lemma_count_partition(h: Seq<usize>, s: Seq<u8>)
    requires
        h.len() == 256,
        forall|m: u8| #[trigger] h[m as int] == count_of(s, m),
    ensures
        band_sum(h, 0, 256) == s.len(),
{
    assert forall|j: int| 0 <= j <= 256 implies band_sum(h, 0, j) == count_below(s, j) by {
        lemma_band_sum_prefix_counts(h, s, j);
    }
    lemma_count_below_all(s);
}

proof fn lemma_band_sum_prefix_counts(h: Seq<usize>, s: Seq<u8>, j: int)
    requires
        h.len() == 256,
        forall|m: u8| #[trigger] h[m as int] == count_of(s, m),
        0 <= j <= 256,
    ensures
        band_sum(h, 0, j) == count_below(s, j),
    decreases j,
{
    if j == 0 {
        lemma_count_below_all(s);
    } else {
        lemma_band_sum_prefix_counts(h, s, j - 1);
        lemma_band_sum_extend(h, 0, j - 1);
        lemma_count_below_step(s, j - 1);
        assert(h[j - 1] == count_of(s, (j - 1) as u8));
    }
}

/// The index of the highest bin of `h[..hi]` with a nonzero counter, or 0 if
/// bins `1..hi` are all zero.
pub open spec fn max_nonzero_upto(h: Seq<usize>, hi: int) -> int
    recommends
        hi <= h.len(),
    decreases hi,
{
    if hi <= 1 {
        0
    } else if h[hi - 1] != 0 {
        hi - 1
    } else {
        max_nonzero_upto(h, hi - 1)
    }
}

/// The maximum difference recorded by a 256-bin histogram: the index of the
/// highest nonzero bin, or 0 if the histogram is entirely empty.
pub open spec fn spec_max_difference(h: Seq<usize>) -> int {
    max_nonzero_upto(h, 256)
}

/// `max_nonzero_upto` names the highest nonzero bin below `hi`: every bin
/// above it is zero, and the bin itself is nonzero unless the result is 0.
pub proof fn lemma_max_nonzero_upto_characterization(h: Seq<usize>, hi: int)
    requires
        1 <= hi <= h.len(),
    ensures
        0 <= max_nonzero_upto(h, hi) < hi,
        forall|m: int| max_nonzero_upto(h, hi) < m < hi ==> h[m] == 0,
        max_nonzero_upto(h, hi) > 0 ==> h[max_nonzero_upto(h, hi)] != 0,
    decreases hi,
{
    if hi > 1 && h[hi - 1] == 0 {
        lemma_max_nonzero_upto_characterization(h, hi - 1);
    }
}

/// A nonzero bin below `hi` is a lower bound for `max_nonzero_upto`.
pub proof fn lemma_max_nonzero_upto_ge(h: Seq<usize>, hi: int, m: int)
    requires
        0 <= m < hi <= h.len(),
        h[m] != 0,
    ensures
        max_nonzero_upto(h, hi) >= m,
    decreases hi,
{
    if hi - 1 > m && h[hi - 1] == 0 {
        lemma_max_nonzero_upto_ge(h, hi - 1, m);
    }
}

impl Histogram {
    /// Returns the maximum difference; that is, the index of the highest
    /// entry whose count is not zero.
    ///
    /// Returns zero if the histogram is entirely empty.
    pub fn max_difference(&self) -> (r: u8)
        ensures
            r == spec_max_difference(self.0@),
            forall|m: int| r < m < 256 ==> self.0@[m] == 0,
            r > 0 ==> self.0@[r as int] != 0,
    {
        let mut hi: usize = 256;
        while hi > 1
            invariant
                1 <= hi <= 256,
                max_nonzero_upto(self.0@, 256) == max_nonzero_upto(self.0@, hi as int),
            decreases hi,
        {
            if self.0[hi - 1] != 0 {
                proof {
                    lemma_max_nonzero_upto_characterization(self.0@, 256);
                }
                return (hi - 1) as u8;
            }
            hi = hi - 1;
        }
        proof {
            lemma_max_nonzero_upto_characterization(self.0@, 256);
        }
        0
    }
}

/// The character for a single decimal digit.
pub open spec fn spec_digit(d: int) -> char
    recommends
        0 <= d <= 9,
{
    if d == 0 {
        '0'
    } else if d == 1 {
        '1'
    } else if d == 2 {
        '2'
    } else if d == 3 {
        '3'
    } else if d == 4 {
        '4'
    } else if d == 5 {
        '5'
    } else if d == 6 {
        '6'
    } else if d == 7 {
        '7'
    } else if d == 8 {
        '8'
    } else {
        '9'
    }
}

/// The decimal digits of `n`, most significant first.
pub open spec fn spec_decimal(n: nat) -> Seq<char>
    decreases n,
{
    if n <= 9 {
        seq![spec_digit(n as int)]
    } else {
        spec_decimal(n / 10).push(spec_digit((n % 10) as int))
    }
}

/// One bin of the summary: the magnitude and its count.
pub open spec fn spec_entry(delta: int, count: int) -> Seq<char>
    recommends
        delta >= 0,
        count >= 0,
{
    "Δ"@ + spec_decimal(delta as nat) + " ×"@ + spec_decimal(count as nat)
}

/// The summary entries for bins `j..256`, separated by commas. `first`
/// records whether no entry has been written yet, so that no separator
/// precedes the next one. The zero-magnitude bin appears only when
/// `alternate` is set.
pub open spec fn spec_summary_from(h: Seq<usize>, alternate: bool, j: int, first: bool) -> Seq<
    char,
>
    decreases 256 - j,
{
    if j < 0 || j >= 256 {
        Seq::empty()
    } else if h[j] > 0 && (j > 0 || alternate) {
        (if first {
            Seq::<char>::empty()
        } else {
            ", "@
        }) + spec_entry(j, h[j] as int) + spec_summary_from(h, alternate, j + 1, false)
    } else {
        spec_summary_from(h, alternate, j + 1, first)
    }
}

/// The histogram's full text summary.
pub open spec fn spec_summary(h: Seq<usize>, alternate: bool) -> Seq<char> {
    "Histogram("@ + spec_summary_from(h, alternate, 0, true) + ")"@
}

/// A one-character string holding a single decimal digit.
fn digit_str(d: usize) -> (s: &'static str)
    requires
        d <= 9,
    ensures
        s@ == seq![spec_digit(d as int)],
{
    let s = match d {
        0 => "0",
        1 => "1",
        2 => "2",
        3 => "3",
        4 => "4",
        5 => "5",
        6 => "6",
        7 => "7",
        8 => "8",
        _ => "9",
    };
    proof {
        reveal_strlit("0");
        reveal_strlit("1");
        reveal_strlit("2");
        reveal_strlit("3");
        reveal_strlit("4");
        reveal_strlit("5");
        reveal_strlit("6");
        reveal_strlit("7");
        reveal_strlit("8");
        reveal_strlit("9");
        assert(s@ =~= seq![spec_digit(d as int)]);
    }
    s
}

/// Appends the decimal rendering of `n` to `out`.
fn append_decimal(out: &mut String, n: usize)
    ensures
        final(out)@ == old(out)@ + spec_decimal(n as nat),
    decreases n,
{
    if n <= 9 {
        out.append(digit_str(n));
    } else {
        append_decimal(out, n / 10);
        out.append(digit_str(n % 10));
        proof {
            assert(final(out)@ =~= old(out)@ + spec_decimal(n as nat));
        }
    }
}

impl Histogram {
    /// Renders the histogram as text: each nonzero bin as its magnitude and
    /// count, in ascending magnitude order, inside `Histogram(...)`. The
    /// zero-magnitude bin is omitted unless `alternate` is set, since it is
    /// expected to dominate and carries no decision-relevant information.
    pub fn summary(&self, alternate: bool) -> (s: String)
        ensures
            s@ == spec_summary(self.0@, alternate),
    {
        let h = self.0;
        let mut out = String::new();
        out.append("Histogram(");
        let mut first = true;
        proof {
            assert(out@ =~= "Histogram("@);
        }
        for j in 0..256usize
            invariant
                "Histogram("@ + spec_summary_from(h@, alternate, 0, true) == out@
                    + spec_summary_from(h@, alternate, j as int, first),
        {
            let count = h[j];
            if count > 0 && (j > 0 || alternate) {
                let ghost out0 = out@;
                let ghost was_first = first;
                if first {
                    first = false;
                } else {
                    out.append(", ");
                }
                out.append("Δ");
                append_decimal(&mut out, j);
                out.append(" ×");
                append_decimal(&mut out, count);
                proof {
                    let sep: Seq<char> = if was_first {
                        Seq::<char>::empty()
                    } else {
                        ", "@
                    };
                    assert(out@ =~= out0 + sep + spec_entry(j as int, count as int));
                    assert(out0 + (sep + spec_entry(j as int, count as int)
                        + spec_summary_from(h@, alternate, j + 1, false)) =~= (out0 + sep
                        + spec_entry(j as int, count as int)) + spec_summary_from(
                        h@,
                        alternate,
                        j + 1,
                        false,
                    ));
                }
            }
        }
        out.append(")");
        proof {
            assert(spec_summary_from(h@, alternate, 256, first) =~= Seq::<char>::empty());
            assert(out@ =~= spec_summary(self.0@, alternate));
        }
        out
    }
}

/// Counts the occurrences of each magnitude in `values` into a fresh
/// histogram: bin `m` holds exactly the number of positions of `values`
/// whose magnitude is `m`.
pub(crate) fn histogram_of(values: &Vec<u8>) -> (h: Histogram)
    ensures
        forall|m: u8| #[trigger] h.0@[m as int] == count_of(values@, m),
{
    let mut table: [usize; 256] = [0; 256];
    assert forall|m: u8| #[trigger] table@[m as int] == count_of(values@.take(0), m) by {
        assert(values@.take(0) =~= Seq::<u8>::empty());
    }
    for i in 0..values.len()
        invariant
            forall|m: u8| #[trigger] table@[m as int] == count_of(values@.take(i as int), m),
    {
        let v = values[i];
        proof {
            lemma_count_of_le_len(values@.take(i as int), v);
            assert(values@.take(i as int).len() == i);
            assert forall|m: u8| count_of(values@.take(i + 1), m) == count_of(
                values@.take(i as int),
                m,
            ) + if m == v {
                1int
            } else {
                0int
            } by {
                assert(values@.take(i + 1).drop_last() =~= values@.take(i as int));
                assert(values@.take(i + 1).last() == values@[i as int]);
            }
        }
        table[v as usize] = table[v as usize] + 1;
    }
    proof {
        assert(values@.take(values@.len() as int) =~= values@);
    }
    Histogram(table)
}

} // verus!
