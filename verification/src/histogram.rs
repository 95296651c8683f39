use vstd::prelude::*;

verus! {

/// The bin a raw bin position falls into: positions past the last bin count
/// towards the last bin.
pub open spec fn clamp_bin(raw: usize, bins: usize) -> usize
    recommends
        bins > 0,
{
    if raw < bins - 1 { raw } else { (bins - 1) as usize }
}

/// The bins that raw positions fall into, in order.
pub open spec fn binned(raw: Seq<usize>, bins: usize) -> Seq<usize> {
    raw.map_values(|x: usize| clamp_bin(x, bins))
}

/// How many times `b` occurs in `s`.
pub open spec fn occurrences(s: Seq<usize>, b: usize) -> nat
    decreases s.len(),
{
    if s.len() == 0 {
        0
    } else {
        occurrences(s.drop_last(), b) + if s.last() == b { 1nat } else { 0nat }
    }
}

/// How many elements of `s` are below `k`.
pub open spec fn count_below(s: Seq<usize>, k: nat) -> nat
    decreases s.len(),
{
    if s.len() == 0 {
        0
    } else {
        count_below(s.drop_last(), k) + if s.last() < k { 1nat } else { 0nat }
    }
}

/// The sum of a sequence of counts.
pub open spec fn sum_counts(c: Seq<u32>) -> nat
    decreases c.len(),
{
    if c.len() == 0 {
        0
    } else {
        sum_counts(c.drop_last()) + c.last() as nat
    }
}

/// The occurrences of values below `k`, summed value by value.
pub open spec fn occurrences_below(s: Seq<usize>, k: nat) -> nat
    decreases k,
{
    if k == 0 {
        0
    } else {
        occurrences_below(s, (k - 1) as nat) + occurrences(s, (k - 1) as usize)
    }
}

proof fn lemma_occurrences_prefix(s: Seq<usize>, j: int, b: usize)
    requires
        0 <= j <= s.len(),
    ensures
        occurrences(s.take(j), b) <= occurrences(s, b),
    decreases s.len(),
{
    if j < s.len() {
        lemma_occurrences_prefix(s.drop_last(), j, b);
        assert(s.drop_last().take(j) =~= s.take(j));
    } else {
        assert(s.take(j) =~= s);
    }
}

proof fn lemma_count_below_step(s: Seq<usize>, k: nat)
    requires
        k > 0,
        k - 1 <= usize::MAX,
    ensures
        count_below(s, k) == count_below(s, (k - 1) as nat) + occurrences(s, (k - 1) as usize),
    decreases s.len(),
{
    if s.len() > 0 {
        lemma_count_below_step(s.drop_last(), k);
    }
}

proof fn lemma_occurrences_below_is_count(s: Seq<usize>, k: nat)
    requires
        k <= usize::MAX + 1,
    ensures
        occurrences_below(s, k) == count_below(s, k),
    decreases k,
{
    if k == 0 {
        lemma_count_below_zero(s);
    } else {
        lemma_occurrences_below_is_count(s, (k - 1) as nat);
        lemma_count_below_step(s, k);
    }
}

proof fn lemma_count_below_zero(s: Seq<usize>)
    ensures
        count_below(s, 0) == 0,
    decreases s.len(),
{
    if s.len() > 0 {
        lemma_count_below_zero(s.drop_last());
    }
}

proof fn lemma_count_below_all(s: Seq<usize>, k: nat)
    requires
        forall|i: int| 0 <= i < s.len() ==> s[i] < k,
    ensures
        count_below(s, k) == s.len(),
    decreases s.len(),
{
    if s.len() > 0 {
        lemma_count_below_all(s.drop_last(), k);
    }
}

proof fn lemma_sum_counts_is_occurrences_below(c: Seq<u32>, s: Seq<usize>)
    requires
        c.len() <= usize::MAX + 1,
        forall|b: int| 0 <= b < c.len() ==> #[trigger] c[b] == occurrences(s, b as usize),
    ensures
        sum_counts(c) == occurrences_below(s, c.len()),
    decreases c.len(),
{
    if c.len() > 0 {
        let front = c.drop_last();
        assert forall|b: int| 0 <= b < front.len() implies #[trigger] front[b] == occurrences(
            s,
            b as usize,
        ) by {
            assert(front[b] == c[b]);
        }
        lemma_sum_counts_is_occurrences_below(front, s);
    }
}

/// Law: a position before the last bin lands in its own bin, and every other
/// position lands in the last bin.
pub proof fn lemma_bin_of_position(raw: Seq<usize>, bins: usize, b: usize)
    requires
        bins > 0,
    ensures
        b + 1 < bins ==> occurrences(binned(raw, bins), b) == occurrences(raw, b),
        occurrences(binned(raw, bins), (bins - 1) as usize) == raw.len() - count_below(
            raw,
            (bins - 1) as nat,
        ),
    decreases raw.len(),
{
    if raw.len() > 0 {
        let front = raw.drop_last();
        lemma_bin_of_position(front, bins, b);
        assert(binned(raw, bins).drop_last() =~= binned(front, bins));
        assert(binned(raw, bins).last() == clamp_bin(raw.last(), bins));
    } else {
        assert(binned(raw, bins) =~= Seq::<usize>::empty());
    }
}

/// Law: every sample lands in exactly one bin, so the bin counts add up to the
/// number of samples.
pub proof fn lemma_counts_cover_samples(raw: Seq<usize>, bins: usize, counts: Seq<u32>)
    requires
        bins > 0,
        counts.len() == bins,
        forall|b: int| 0 <= b < bins ==> #[trigger] counts[b] == occurrences(binned(raw, bins), b as usize),
    ensures
        sum_counts(counts) == raw.len(),
{
    let s = binned(raw, bins);
    lemma_sum_counts_is_occurrences_below(counts, s);
    lemma_occurrences_below_is_count(s, bins as nat);
    assert forall|i: int| 0 <= i < s.len() implies s[i] < bins as nat by {
        assert(s[i] == clamp_bin(raw[i], bins));
    }
    lemma_count_below_all(s, bins as nat);
}

/// Counts how many raw bin positions fall into each of `bins` bins, a position past
/// the last bin counting towards the last bin. `None` when some bin would hold
/// more than a `u32` can count.
pub fn bin_counts(raw: &Vec<usize>, bins: usize) -> (r: Option<Vec<u32>>)
    requires
        bins > 0,
    ensures
        match r {
            Some(counts) => {
                &&& counts.len() == bins
                &&& forall|b: int|
                    0 <= b < bins ==> #[trigger] counts[b] == occurrences(
                        binned(raw@, bins),
                        b as usize,
                    )
                &&& sum_counts(counts@) == raw.len()
                &&& forall|b: int| 0 <= b < bins - 1 ==> #[trigger] counts[b] == occurrences(raw@, b as usize)
                &&& counts[bins - 1] == raw.len() - count_below(raw@, (bins - 1) as nat)
            },
            None => exists|b: usize|
                b < bins && #[trigger] occurrences(binned(raw@, bins), b) > u32::MAX,
        },
{
    let ghost s = binned(raw@, bins);
    let mut counts: Vec<u32> = vec![0u32; bins];
    let mut j: usize = 0;
    while j < raw.len()
        invariant
            bins > 0,
            s == binned(raw@, bins),
            0 <= j <= raw.len(),
            counts.len() == bins,
            forall|b: int|
                0 <= b < bins ==> #[trigger] counts[b] == occurrences(s.take(j as int), b as usize),
        decreases raw.len() - j,
    {
        let v = raw[j];
        let idx = if v < bins - 1 { v } else { bins - 1 };
        proof {
            assert(s.take(j + 1).drop_last() =~= s.take(j as int));
            assert(s.take(j + 1).last() == idx);
            lemma_occurrences_prefix(s, j + 1, idx);
        }
        match counts[idx].checked_add(1) {
            Some(bumped) => counts.set(idx, bumped),
            None => {
                return None;
            },
        }
        j = j + 1;
    }
    proof {
        assert(s.take(raw.len() as int) =~= s);
        lemma_counts_cover_samples(raw@, bins, counts@);
        lemma_bin_of_position(raw@, bins, 0);
        assert forall|b: int| 0 <= b < bins - 1 implies #[trigger] counts[b] == occurrences(
            raw@,
            b as usize,
        ) by {
            lemma_bin_of_position(raw@, bins, b as usize);
        }
    }
    Some(counts)
}

/// The largest count, or zero when there are none.
pub fn largest_count(counts: &Vec<u32>) -> (m: u32)
    ensures
        forall|i: int| 0 <= i < counts.len() ==> counts[i] <= m,
        counts.len() > 0 ==> exists|i: int| 0 <= i < counts.len() && counts[i] == m,
        counts.len() == 0 ==> m == 0,
{
    let mut m: u32 = 0;
    let mut i: usize = 0;
    while i < counts.len()
        invariant
            0 <= i <= counts.len(),
            forall|j: int| 0 <= j < i ==> counts[j] <= m,
            i > 0 ==> exists|j: int| 0 <= j < i && counts[j] == m,
            i == 0 ==> m == 0,
        decreases counts.len() - i,
    {
        if i == 0 || counts[i] > m {
            m = counts[i];
        }
        i = i + 1;
    }
    m
}

} // verus!
