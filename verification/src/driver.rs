//! The verified parts of the driver: building every patch's geometry,
//! computing which patch pairs may need to exchange halo data, and merging
//! the per-patch partial outputs into the final, canonically ordered output.
//!
//! What remains outside is the plumbing the driver wraps around these
//! functions: spawning one worker per patch, wiring a channel pair per
//! reachable neighbor pair (after the obstacle-aware propagation oracle has
//! pruned the candidates), and collecting the partial outputs.

use vstd::prelude::*;

use crate::geometry::Rectangle;
use crate::model::{PersonInfo, Partition, Statistics};
use crate::patch::{
    create_padded_patch, lemma_insert_to_multiset, lex_pair_less, spec_columns, spec_owned_rect,
    spec_padded_rect, spec_rows,
};
use crate::util::OutputMod;

verus! {

/// The padded and owned rectangles of every patch, indexed by patch id.
pub fn patch_areas(splits: &Partition, padding: usize) -> (r: (Vec<Rectangle>, Vec<Rectangle>))
    requires
        splits.wf(),
        spec_columns(splits.x@) * spec_rows(splits.y@) <= usize::MAX,
        padding <= i64::MAX,
    ensures
        r.0@.len() == spec_columns(splits.x@) * spec_rows(splits.y@),
        r.1@.len() == spec_columns(splits.x@) * spec_rows(splits.y@),
        forall|i: int|
            0 <= i < r.0@.len() ==> #[trigger] r.0@[i] == spec_padded_rect(splits.x@, splits.y@, i,
                padding as int),
        forall|i: int|
            0 <= i < r.1@.len() ==> #[trigger] r.1@[i] == spec_owned_rect(splits.x@, splits.y@, i),
        forall|i: int| 0 <= i < r.0@.len() ==> (#[trigger] r.0@[i]).wf(),
        forall|i: int| 0 <= i < r.1@.len() ==> (#[trigger] r.1@[i]).wf(),
{
    let columns = splits.x.len() - 1;
    let rows = splits.y.len() - 1;
    proof {
        assert(columns * rows == spec_columns(splits.x@) * spec_rows(splits.y@)) by (nonlinear_arith)
            requires
                columns == spec_columns(splits.x@),
                rows == spec_rows(splits.y@),
        ;
    }
    let patches = columns * rows;
    let mut padded_areas: Vec<Rectangle> = Vec::new();
    let mut areas: Vec<Rectangle> = Vec::new();
    let mut i: usize = 0;
    while i < patches
        invariant
            i <= patches,
            patches == spec_columns(splits.x@) * spec_rows(splits.y@),
            splits.wf(),
            padding <= i64::MAX,
            padded_areas@.len() == i,
            areas@.len() == i,
            forall|k: int|
                0 <= k < i ==> #[trigger] padded_areas@[k] == spec_padded_rect(splits.x@,
                    splits.y@, k, padding as int),
            forall|k: int|
                0 <= k < i ==> #[trigger] areas@[k] == spec_owned_rect(splits.x@, splits.y@, k),
            forall|k: int| 0 <= k < i ==> (#[trigger] padded_areas@[k]).wf(),
            forall|k: int| 0 <= k < i ==> (#[trigger] areas@[k]).wf(),
        decreases patches - i,
    {
        let (padded, owned) = create_padded_patch(i, splits, padding);
        padded_areas.push(padded);
        areas.push(owned);
        i = i + 1;
    }
    (padded_areas, areas)
}

/// The candidate neighbor pairs: all `i < j` whose padded rectangle of `i`
/// overlaps the owned tile of `j`, in ascending lexicographic order.  The
/// caller asks the obstacle-aware propagation oracle about each candidate and
/// wires one channel pair per pair the oracle confirms.
pub fn overlap_pairs(padded_areas: &Vec<Rectangle>, areas: &Vec<Rectangle>) -> (r: Vec<(
    usize,
    usize,
)>)
    requires
        padded_areas@.len() == areas@.len(),
        forall|i: int| 0 <= i < padded_areas@.len() ==> (#[trigger] padded_areas@[i]).wf(),
        forall|i: int| 0 <= i < areas@.len() ==> (#[trigger] areas@[i]).wf(),
    ensures
        forall|k: int|
            0 <= k < r@.len() ==> (#[trigger] r@[k]).0 < r@[k].1 && r@[k].1 < areas@.len()
                && padded_areas@[r@[k].0 as int].spec_overlaps(areas@[r@[k].1 as int]),
        forall|a: usize, b: usize|
            a < b && b < areas@.len() && padded_areas@[a as int].spec_overlaps(areas@[b as int])
                ==> r@.contains((a, b)),
        forall|k1: int, k2: int|
            0 <= k1 < k2 < r@.len() ==> lex_pair_less(#[trigger] r@[k1], #[trigger] r@[k2]),
{
    let n = areas.len();
    let mut r: Vec<(usize, usize)> = Vec::new();
    let mut i: usize = 0;
    while i < n
        invariant
            i <= n,
            n == areas@.len(),
            padded_areas@.len() == n,
            forall|k: int| 0 <= k < n ==> (#[trigger] padded_areas@[k]).wf(),
            forall|k: int| 0 <= k < n ==> (#[trigger] areas@[k]).wf(),
            forall|k: int|
                0 <= k < r@.len() ==> (#[trigger] r@[k]).0 < r@[k].1 && r@[k].1 < n
                    && padded_areas@[r@[k].0 as int].spec_overlaps(areas@[r@[k].1 as int]),
            forall|a: usize, b: usize|
                a < b && b < n && a < i && padded_areas@[a as int].spec_overlaps(
                    areas@[b as int]) ==> r@.contains((a, b)),
            forall|k1: int, k2: int|
                0 <= k1 < k2 < r@.len() ==> lex_pair_less(#[trigger] r@[k1], #[trigger] r@[k2]),
            forall|k: int| 0 <= k < r@.len() ==> (#[trigger] r@[k]).0 < i,
        decreases n - i,
    {
        let mut j: usize = i + 1;
        while j < n
            invariant
                i < n,
                i + 1 <= j <= n,
                n == areas@.len(),
                padded_areas@.len() == n,
                forall|k: int| 0 <= k < n ==> (#[trigger] padded_areas@[k]).wf(),
                forall|k: int| 0 <= k < n ==> (#[trigger] areas@[k]).wf(),
                forall|k: int|
                    0 <= k < r@.len() ==> (#[trigger] r@[k]).0 < r@[k].1 && r@[k].1 < n
                        && padded_areas@[r@[k].0 as int].spec_overlaps(areas@[r@[k].1 as int]),
                forall|a: usize, b: usize|
                    a < b && b < n && (a < i || (a == i && b < j)) && padded_areas@[a as int]
                        .spec_overlaps(areas@[b as int]) ==> r@.contains((a, b)),
                forall|k1: int, k2: int|
                    0 <= k1 < k2 < r@.len() ==> lex_pair_less(#[trigger] r@[k1], #[trigger] r@[k2]),
                forall|k: int|
                    0 <= k < r@.len() ==> (#[trigger] r@[k]).0 < i || ((#[trigger] r@[k]).0 == i
                        && r@[k].1 < j),
            decreases n - j,
        {
            let ghost r0 = r@;
            if padded_areas[i].overlaps(&areas[j]) {
                r.push((i, j));
                proof {
                    assert(forall|k: int| 0 <= k < r0.len() ==> r@[k] == r0[k]);
                    assert(r@[r0.len() as int] == (i, j));
                }
            }
            proof {
                assert forall|a: usize, b: usize|
                    a < b && b < n && (a < i || (a == i && b < j + 1)) && padded_areas@[a as int]
                        .spec_overlaps(areas@[b as int]) implies r@.contains((a, b)) by {
                    if a == i && b == j {
                        assert(r@[r@.len() - 1] == (a, b));
                    } else {
                        assert(r0.contains((a, b)));
                        let k = choose|k: int| 0 <= k < r0.len() && r0[k] == (a, b);
                        assert(r@[k] == (a, b));
                    }
                }
            }
            j = j + 1;
        }
        i = i + 1;
    }
    r
}

/// Field-wise sum of two statistics rows.
pub open spec fn spec_stat_add(a: Statistics, b: Statistics) -> Statistics {
    Statistics {
        susceptible: (a.susceptible + b.susceptible) as u64,
        infected: (a.infected + b.infected) as u64,
        infectious: (a.infectious + b.infectious) as u64,
        recovered: (a.recovered + b.recovered) as u64,
    }
}

/// The sums of two statistics rows stay within `u64`.
pub open spec fn spec_stat_add_fits(a: Statistics, b: Statistics) -> bool {
    &&& a.susceptible + b.susceptible <= u64::MAX
    &&& a.infected + b.infected <= u64::MAX
    &&& a.infectious + b.infectious <= u64::MAX
    &&& a.recovered + b.recovered <= u64::MAX
}

/// Folds one patch's partial output into the accumulator: the trace records
/// of each tick are concatenated, and the statistics rows of each query and
/// tick are summed field-wise.
pub fn merge_outputs(acc: &mut OutputMod, part: &OutputMod)
    requires
        old(acc).trace@.len() == part.trace@.len(),
        old(acc).statistics@.len() == part.statistics@.len(),
        forall|q: int|
            0 <= q < part.statistics@.len() ==> (#[trigger] old(acc).statistics@[q])@.len() == (
            part.statistics@[q])@.len(),
        forall|q: int, t: int|
            0 <= q < part.statistics@.len() && 0 <= t < part.statistics@[q]@.len()
                ==> spec_stat_add_fits(#[trigger] old(acc).statistics@[q]@[t],
                #[trigger] part.statistics@[q]@[t]),
    ensures
        final(acc).trace@.len() == old(acc).trace@.len(),
        forall|t: int|
            0 <= t < old(acc).trace@.len() ==> (#[trigger] final(acc).trace@[t]).population@
                =~= old(acc).trace@[t].population@ + part.trace@[t].population@,
        final(acc).statistics@.len() == old(acc).statistics@.len(),
        forall|q: int|
            0 <= q < old(acc).statistics@.len() ==> (#[trigger] final(acc).statistics@[q])@.len()
                == old(acc).statistics@[q]@.len(),
        forall|q: int, t: int|
            0 <= q < old(acc).statistics@.len() && 0 <= t < old(acc).statistics@[q]@.len()
                ==> #[trigger] final(acc).statistics@[q]@[t] == spec_stat_add(
                old(acc).statistics@[q]@[t], part.statistics@[q]@[t]),
{
    let mut t: usize = 0;
    while t < acc.trace.len()
        invariant
            t <= acc.trace@.len(),
            acc.trace@.len() == old(acc).trace@.len(),
            part.trace@.len() == old(acc).trace@.len(),
            forall|u: int|
                0 <= u < t ==> (#[trigger] acc.trace@[u]).population@ =~= old(acc).trace@[u]
                    .population@ + part.trace@[u].population@,
            forall|u: int| t <= u < acc.trace@.len() ==> acc.trace@[u] == old(acc).trace@[u],
            acc.statistics@ == old(acc).statistics@,
        decreases acc.trace@.len() - t,
    {
        let m = part.trace[t].population.len();
        let mut k: usize = 0;
        while k < m
            invariant
                k <= m,
                t < acc.trace@.len(),
                acc.trace@.len() == old(acc).trace@.len(),
                part.trace@.len() == old(acc).trace@.len(),
                m == part.trace@[t as int].population@.len(),
                acc.trace@[t as int].population@ =~= old(acc).trace@[t as int].population@
                    + part.trace@[t as int].population@.take(k as int),
                forall|u: int|
                    0 <= u < t ==> (#[trigger] acc.trace@[u]).population@ =~= old(acc).trace@[u]
                        .population@ + part.trace@[u].population@,
                forall|u: int|
                    t < u < acc.trace@.len() ==> #[trigger] acc.trace@[u] == old(acc).trace@[u],
                acc.statistics@ == old(acc).statistics@,
            decreases m - k,
        {
            let rec = part.trace[t].population[k];
            acc.trace[t].population.push(rec);
            proof {
                assert(old(acc).trace@[t as int].population@ + part.trace@[t as int].population@
                    .take(k as int + 1) =~= (old(acc).trace@[t as int].population@
                    + part.trace@[t as int].population@.take(k as int)).push(rec));
            }
            k = k + 1;
        }
        proof {
            assert(part.trace@[t as int].population@.take(m as int) =~= part.trace@[t as int]
                .population@);
        }
        t = t + 1;
    }
    let ghost merged_trace = acc.trace@;
    proof {
        assert forall|u: int| 0 <= u < old(acc).trace@.len() implies (
        #[trigger] acc.trace@[u]).population@ =~= old(acc).trace@[u].population@
            + part.trace@[u].population@ by {}
    }
    let mut q: usize = 0;
    while q < acc.statistics.len()
        invariant
            q <= acc.statistics@.len(),
            acc.statistics@.len() == old(acc).statistics@.len(),
            part.statistics@.len() == old(acc).statistics@.len(),
            forall|w: int|
                0 <= w < part.statistics@.len() ==> (#[trigger] old(acc).statistics@[w])@.len()
                    == (part.statistics@[w])@.len(),
            forall|w: int, u: int|
                0 <= w < part.statistics@.len() && 0 <= u < part.statistics@[w]@.len()
                    ==> spec_stat_add_fits(#[trigger] old(acc).statistics@[w]@[u],
                    #[trigger] part.statistics@[w]@[u]),
            forall|w: int|
                0 <= w < acc.statistics@.len() ==> (#[trigger] acc.statistics@[w])@.len() == old(
                    acc,
                ).statistics@[w]@.len(),
            forall|w: int, u: int|
                0 <= w < q && 0 <= u < old(acc).statistics@[w]@.len()
                    ==> #[trigger] acc.statistics@[w]@[u] == spec_stat_add(
                    old(acc).statistics@[w]@[u], part.statistics@[w]@[u]),
            forall|w: int|
                q <= w < acc.statistics@.len() ==> (#[trigger] acc.statistics@[w])@ == old(
                    acc,
                ).statistics@[w]@,
            acc.trace@ == merged_trace,
        decreases acc.statistics@.len() - q,
    {
        let m = acc.statistics[q].len();
        let mut u: usize = 0;
        while u < m
            invariant
                u <= m,
                q < acc.statistics@.len(),
                acc.statistics@.len() == old(acc).statistics@.len(),
                part.statistics@.len() == old(acc).statistics@.len(),
                m == old(acc).statistics@[q as int]@.len(),
                m == part.statistics@[q as int]@.len(),
                forall|w: int|
                    0 <= w < part.statistics@.len() ==> (#[trigger] old(acc).statistics@[w])@.len()
                        == (part.statistics@[w])@.len(),
                forall|w: int, v: int|
                    0 <= w < part.statistics@.len() && 0 <= v < part.statistics@[w]@.len()
                        ==> spec_stat_add_fits(#[trigger] old(acc).statistics@[w]@[v],
                        #[trigger] part.statistics@[w]@[v]),
                forall|w: int|
                    0 <= w < acc.statistics@.len() ==> (#[trigger] acc.statistics@[w])@.len()
                        == old(acc).statistics@[w]@.len(),
                forall|w: int, v: int|
                    0 <= w < q && 0 <= v < old(acc).statistics@[w]@.len()
                        ==> #[trigger] acc.statistics@[w]@[v] == spec_stat_add(
                        old(acc).statistics@[w]@[v], part.statistics@[w]@[v]),
                forall|v: int|
                    0 <= v < u ==> #[trigger] acc.statistics@[q as int]@[v] == spec_stat_add(
                        old(acc).statistics@[q as int]@[v], part.statistics@[q as int]@[v]),
                forall|v: int|
                    u <= v < m ==> #[trigger] acc.statistics@[q as int]@[v] == old(
                        acc,
                    ).statistics@[q as int]@[v],
                forall|w: int|
                    q < w < acc.statistics@.len() ==> (#[trigger] acc.statistics@[w])@ == old(
                        acc,
                    ).statistics@[w]@,
                acc.trace@ == merged_trace,
            decreases m - u,
        {
            let mut cur = acc.statistics[q][u];
            cur.add(&part.statistics[q][u]);
            acc.statistics[q][u] = cur;
            u = u + 1;
        }
        q = q + 1;
    }
}

/// A trace record list is ordered by ascending person identifier.
pub open spec fn sorted_by_rec_id(s: Seq<(PersonInfo, u64)>) -> bool {
    forall|i: int, j: int| 0 <= i < j < s.len() ==> s[i].1 <= s[j].1
}

/// Sorts one tick's merged trace records by ascending identifier; the result
/// holds exactly the records of the input.
pub fn sort_trace_records(v: &Vec<(PersonInfo, u64)>) -> (r: Vec<(PersonInfo, u64)>)
    ensures
        sorted_by_rec_id(r@),
        r@.to_multiset() == v@.to_multiset(),
        r@.len() == v@.len(),
{
    let mut r: Vec<(PersonInfo, u64)> = Vec::new();
    let mut i: usize = 0;
    proof {
        assert(r@ =~= v@.take(0));
        v@.take(0).to_multiset_ensures();
    }
    while i < v.len()
        invariant
            i <= v@.len(),
            r@.len() == i,
            sorted_by_rec_id(r@),
            r@.to_multiset() == v@.take(i as int).to_multiset(),
        decreases v@.len() - i,
    {
        let rec = v[i];
        let mut k: usize = r.len();
        while k > 0 && r[k - 1].1 > rec.1
            invariant
                k <= r@.len(),
                forall|j: int| k <= j < r@.len() ==> (#[trigger] r@[j]).1 > rec.1,
            decreases k,
        {
            k = k - 1;
        }
        let ghost r0 = r@;
        r.insert(k, rec);
        proof {
            lemma_insert_to_multiset(r0, k as int, rec);
            r0.insert_ensures(k as int, rec);
            assert(v@.take(i as int + 1) =~= v@.take(i as int).push(rec));
            v@.take(i as int).to_multiset_ensures();
            assert(r@.to_multiset() =~= v@.take(i as int + 1).to_multiset());
            assert forall|a: int, b: int| 0 <= a < b < r@.len() implies r@[a].1 <= r@[b].1 by {
                if b < k {
                    assert(r@[a] == r0[a] && r@[b] == r0[b]);
                } else if a > k {
                    assert(r@[a] == r0[a - 1] && r@[b] == r0[b - 1]);
                } else if a == k {
                    assert(r@[a] == rec && r@[b] == r0[b - 1]);
                    assert(r0[b - 1].1 > rec.1);
                } else if b == k {
                    assert(r@[b] == rec && r@[a] == r0[a]);
                    assert(r0[k - 1].1 <= rec.1);
                    if a < k - 1 {
                        assert(r0[a].1 <= r0[k - 1].1);
                    }
                } else {
                    assert(r@[a] == r0[a]);
                    assert(r@[b] == r0[b - 1]);
                    assert(r0[k - 1].1 <= rec.1);
                    if a < k - 1 {
                        assert(r0[a].1 <= r0[k - 1].1);
                    }
                    assert(r0[b - 1].1 > rec.1);
                }
            }
        }
        i = i + 1;
    }
    proof {
        assert(v@.take(v@.len() as int) =~= v@);
    }
    r
}

/// Sorts every tick's merged trace records by ascending identifier, leaving
/// the statistics untouched.
pub fn sort_merged_trace(out: &mut OutputMod)
    ensures
        final(out).statistics@ == old(out).statistics@,
        final(out).trace@.len() == old(out).trace@.len(),
        forall|t: int|
            0 <= t < old(out).trace@.len() ==> sorted_by_rec_id(
                (#[trigger] final(out).trace@[t]).population@),
        forall|t: int|
            0 <= t < old(out).trace@.len() ==> (#[trigger] final(out).trace@[t]).population@
                .to_multiset() == old(out).trace@[t].population@.to_multiset(),
{
    let mut t: usize = 0;
    while t < out.trace.len()
        invariant
            t <= out.trace@.len(),
            out.trace@.len() == old(out).trace@.len(),
            out.statistics@ == old(out).statistics@,
            forall|u: int|
                0 <= u < t ==> sorted_by_rec_id((#[trigger] out.trace@[u]).population@),
            forall|u: int|
                0 <= u < t ==> (#[trigger] out.trace@[u]).population@.to_multiset() == old(
                    out,
                ).trace@[u].population@.to_multiset(),
            forall|u: int| t <= u < out.trace@.len() ==> out.trace@[u] == old(out).trace@[u],
        decreases out.trace@.len() - t,
    {
        let sorted = sort_trace_records(&out.trace[t].population);
        out.trace[t].population = sorted;
        t = t + 1;
    }
}

/// The info part of every record of every tick, in order: what the final
/// trace publishes once the records are sorted.
pub fn strip_trace_ids(out: &OutputMod) -> (r: Vec<crate::model::TraceEntry>)
    ensures
        r@.len() == out.trace@.len(),
        forall|t: int|
            0 <= t < out.trace@.len() ==> (#[trigger] r@[t]).population@ =~= out.trace@[t]
                .population@.map_values(|rec: (PersonInfo, u64)| rec.0),
{
    let mut r: Vec<crate::model::TraceEntry> = Vec::new();
    let mut t: usize = 0;
    while t < out.trace.len()
        invariant
            t <= out.trace@.len(),
            r@.len() == t,
            forall|u: int|
                0 <= u < t ==> (#[trigger] r@[u]).population@ =~= out.trace@[u].population@
                    .map_values(|rec: (PersonInfo, u64)| rec.0),
        decreases out.trace@.len() - t,
    {
        let src = &out.trace[t].population;
        let mut infos: Vec<PersonInfo> = Vec::new();
        let mut k: usize = 0;
        while k < src.len()
            invariant
                k <= src@.len(),
                infos@.len() == k,
                forall|v: int| 0 <= v < k ==> infos@[v] == (#[trigger] src@[v]).0,
            decreases src@.len() - k,
        {
            infos.push(src[k].0);
            k = k + 1;
        }
        proof {
            assert(infos@ =~= src@.map_values(|rec: (PersonInfo, u64)| rec.0));
        }
        r.push(crate::model::TraceEntry { population: infos });
        t = t + 1;
    }
    r
}

} // verus!
