use vstd::prelude::*;

use crate::actions::Report;

verus! {

/// Summary statistics over the reports of a finished run.
pub struct Summary {
    pub count: usize,
    pub min_ns: u64,
    pub max_ns: u64,
    /// Mean duration, rounded down.
    pub mean_ns: u64,
    pub p50_ns: u64,
    pub p90_ns: u64,
    pub p99_ns: u64,
    /// Each status seen, once, with the number of reports that carry it.
    pub statuses: Vec<(u16, usize)>,
}

pub open spec fn durations(reports: Seq<Report>) -> Seq<u64> {
    reports.map_values(|r: Report| r.duration_ns)
}

pub open spec fn total(d: Seq<u64>) -> int
    decreases d.len(),
{
    if d.len() == 0 {
        0
    } else {
        total(d.drop_last()) + d.last()
    }
}

/// Number of reports with status `s`.
pub open spec fn status_count(reports: Seq<Report>, s: u16) -> nat
    decreases reports.len(),
{
    if reports.len() == 0 {
        0
    } else {
        status_count(reports.drop_last(), s) + if reports.last().status == s {
            1nat
        } else {
            0nat
        }
    }
}

/// Whether the status counts `r` hold an entry for status `s`.
pub open spec fn lists_status(r: Seq<(u16, usize)>, s: u16) -> bool {
    exists|k: int| 0 <= k < r.len() && (#[trigger] r[k]).0 == s
}

pub open spec fn is_sorted(s: Seq<u64>) -> bool {
    forall|i: int, j: int| 0 <= i <= j < s.len() ==> s[i] <= s[j]
}

/// Index of the `p`-th percentile in `n` sorted values (nearest rank).
pub open spec fn rank_index(n: int, p: int) -> int {
    if (p * n + 99) / 100 >= 1 {
        (p * n + 99) / 100 - 1
    } else {
        0
    }
}

/// `sm` summarises `reports`, whose durations in ascending order are `sorted`.
pub open spec fn summarises(sm: Summary, reports: Seq<Report>, sorted: Seq<u64>) -> bool {
    let n = reports.len() as int;
    &&& sm.count == n
    &&& sm.min_ns == sorted[0]
    &&& sm.max_ns == sorted[n - 1]
    &&& sm.mean_ns == total(durations(reports)) / n
    &&& sm.p50_ns == sorted[rank_index(n, 50)]
    &&& sm.p90_ns == sorted[rank_index(n, 90)]
    &&& sm.p99_ns == sorted[rank_index(n, 99)]
    &&& forall|k: int|
        0 <= k < sm.statuses@.len() ==> (#[trigger] sm.statuses@[k]).1 == status_count(
            reports,
            sm.statuses@[k].0,
        )
    &&& forall|k: int, l: int|
        0 <= k < l < sm.statuses@.len() ==> sm.statuses@[k].0 != sm.statuses@[l].0
    &&& forall|i: int| 0 <= i < n ==> lists_status(sm.statuses@, #[trigger] reports[i].status)
}

/// Relies on `slice::sort_unstable`: the same values, in ascending order.
#[verifier::external_body]
fn sort_values(v: &mut Vec<u64>)
    ensures
        final(v)@.to_multiset() == old(v)@.to_multiset(),
        final(v)@.len() == old(v)@.len(),
        forall|i: int, j: int| 0 <= i <= j < final(v)@.len() ==> final(v)@[i] <= final(v)@[j],
{
    v.sort_unstable();
}

proof fn lemma_status_count_bound(reports: Seq<Report>, s: u16)
    ensures
        status_count(reports, s) <= reports.len(),
    decreases reports.len(),
{
    if reports.len() > 0 {
        lemma_status_count_bound(reports.drop_last(), s);
    }
}

proof fn lemma_total_bound(d: Seq<u64>)
    ensures
        0 <= total(d) <= d.len() * 0xffff_ffff_ffff_ffff,
    decreases d.len(),
{
    if d.len() > 0 {
        lemma_total_bound(d.drop_last());
        assert((d.len() - 1) * 0xffff_ffff_ffff_ffffint + 0xffff_ffff_ffff_ffffint == d.len()
            * 0xffff_ffff_ffff_ffffint) by (nonlinear_arith);
    }
}

proof fn lemma_mean_bound(t: int, n: int)
    requires
        n > 0,
        0 <= t <= n * 0xffff_ffff_ffff_ffff,
    ensures
        0 <= t / n <= 0xffff_ffff_ffff_ffff,
{
    assert(t / n <= 0xffff_ffff_ffff_ffff) by (nonlinear_arith)
        requires
            n > 0,
            0 <= t <= n * 0xffff_ffff_ffff_ffff,
    ;
    assert(0 <= t / n) by (nonlinear_arith)
        requires
            n > 0,
            0 <= t,
    ;
}

fn percentile_index(n: usize, p: usize) -> (r: usize)
    requires
        n > 0,
        p <= 100,
    ensures
        r == rank_index(n as int, p as int),
        r < n,
{
    assert((p as int) * (n as int) <= 100 * (n as int)) by (nonlinear_arith)
        requires
            p <= 100,
            n > 0,
    ;
    let wide = (p as u128) * (n as u128) + 99;
    let rank = wide / 100;
    assert(rank <= n) by (nonlinear_arith)
        requires
            rank == (p * n + 99) / 100,
            p <= 100,
            n > 0,
    ;
    if rank >= 1 {
        (rank - 1) as usize
    } else {
        0
    }
}

/// Counts each status of `reports`, in order of first appearance.
fn count_statuses(reports: &Vec<Report>) -> (r: Vec<(u16, usize)>)
    ensures
        forall|k: int| 0 <= k < r@.len() ==> (#[trigger] r@[k]).1 == status_count(reports@, r@[k].0),
        forall|k: int, l: int| 0 <= k < l < r@.len() ==> r@[k].0 != r@[l].0,
        forall|i: int| 0 <= i < reports@.len() ==> lists_status(r@, #[trigger] reports@[i].status),
{
    let mut r: Vec<(u16, usize)> = Vec::new();
    let mut j: usize = 0;
    while j < reports.len()
        invariant
            j <= reports@.len(),
            forall|k: int|
                0 <= k < r@.len() ==> (#[trigger] r@[k]).1 == status_count(
                    reports@.subrange(0, j as int),
                    r@[k].0,
                ),
            forall|k: int, l: int| 0 <= k < l < r@.len() ==> r@[k].0 != r@[l].0,
            forall|i: int| 0 <= i < j ==> lists_status(r@, #[trigger] reports@[i].status),
        decreases reports@.len() - j,
    {
        let s = reports[j].status;
        let ghost prev = reports@.subrange(0, j as int);
        let ghost next = reports@.subrange(0, j + 1);
        assert(next.drop_last() =~= prev);
        let mut k: usize = 0;
        while k < r.len() && r[k].0 != s
            invariant
                k <= r@.len(),
                forall|m: int| 0 <= m < k ==> r@[m].0 != s,
            decreases r@.len() - k,
        {
            k = k + 1;
        }
        let ghost old_r = r@;
        if k < r.len() {
            proof {
                lemma_status_count_bound(prev, s);
            }
            let c = r[k].1;
            r[k] = (s, c + 1);
            assert forall|m: int| 0 <= m < r@.len() implies (#[trigger] r@[m]).1 == status_count(
                next,
                r@[m].0,
            ) by {
                if m != k {
                    assert(r@[m] == old_r[m]);
                }
            }
            assert forall|i: int| 0 <= i < j + 1 implies lists_status(r@, #[trigger] reports@[i].status) by {
                if i < j {
                    let m = choose|m: int| 0 <= m < old_r.len() && (#[trigger] old_r[m]).0 == reports@[i].status;
                    assert(r@[m].0 == old_r[m].0);
                } else {
                    assert(r@[k as int].0 == reports@[i].status);
                }
            }
        } else {
            r.push((s, 1));
            assert forall|m: int| 0 <= m < r@.len() implies (#[trigger] r@[m]).1 == status_count(
                next,
                r@[m].0,
            ) by {
                if m < old_r.len() {
                    assert(r@[m] == old_r[m]);
                } else {
                    lemma_absent_status_count(prev, s);
                }
            }
            assert forall|i: int| 0 <= i < j + 1 implies lists_status(r@, #[trigger] reports@[i].status) by {
                if i < j {
                    let m = choose|m: int| 0 <= m < old_r.len() && (#[trigger] old_r[m]).0 == reports@[i].status;
                    assert(r@[m] == old_r[m]);
                } else {
                    assert(r@[old_r.len() as int].0 == reports@[i].status);
                }
            }
        }
        j = j + 1;
    }
    assert(reports@.subrange(0, j as int) =~= reports@);
    assert(j == reports@.len());
    r
}

proof fn lemma_absent_status_count(reports: Seq<Report>, s: u16)
    requires
        forall|i: int| 0 <= i < reports.len() ==> reports[i].status != s,
    ensures
        status_count(reports, s) == 0,
    decreases reports.len(),
{
    if reports.len() > 0 {
        lemma_absent_status_count(reports.drop_last(), s);
    }
}

/// Statistics over `reports`; `None` when there are none.
pub fn summarize(reports: &Vec<Report>) -> (r: Option<Summary>)
    ensures
        match r {
            None => reports@.len() == 0,
            Some(sm) => reports@.len() > 0 && exists|sorted: Seq<u64>|
                sorted.to_multiset() == durations(reports@).to_multiset() && sorted.len()
                    == reports@.len() && is_sorted(sorted) && summarises(sm, reports@, sorted),
        },
{
    let n = reports.len();
    if n == 0 {
        return None;
    }
    let mut values: Vec<u64> = Vec::new();
    let mut sum: u128 = 0;
    let mut j: usize = 0;
    while j < n
        invariant
            n == reports@.len(),
            j <= n,
            values@ == durations(reports@).subrange(0, j as int),
            sum == total(values@),
        decreases n - j,
    {
        proof {
            lemma_total_bound(values@);
            assert(values@.len() * 0xffff_ffff_ffff_ffffint <= 0xffff_ffff_ffff_ffff_ffff_ffffint * 0xffff_ffff_ffff_ffffint) by (nonlinear_arith)
                requires
                    values@.len() <= 0xffff_ffff_ffff_ffff,
            ;
        }
        let d = reports[j].duration_ns;
        let ghost before = values@;
        values.push(d);
        assert(values@.drop_last() =~= before);
        sum = sum + d as u128;
        assert(values@ =~= durations(reports@).subrange(0, j + 1));
        j = j + 1;
    }
    assert(values@ =~= durations(reports@));
    let ghost all = values@;
    proof {
        lemma_total_bound(all);
        lemma_mean_bound(total(all), n as int);
    }
    let mean = (sum / (n as u128)) as u64;
    sort_values(&mut values);
    let statuses = count_statuses(reports);
    let sm = Summary {
        count: n,
        min_ns: values[0],
        max_ns: values[n - 1],
        mean_ns: mean,
        p50_ns: values[percentile_index(n, 50)],
        p90_ns: values[percentile_index(n, 90)],
        p99_ns: values[percentile_index(n, 99)],
        statuses,
    };
    assert(summarises(sm, reports@, values@));
    assert(values@.to_multiset() == durations(reports@).to_multiset());
    assert(is_sorted(values@));
    assert(values@.len() == reports@.len());
    Some(sm)
}

} // verus!
