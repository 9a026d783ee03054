//! The guarantees the driver design rests on, stated and proved over the
//! same spec functions the executable contracts use: the owned tiles
//! partition the grid, the halo extends every interior side, a global
//! population is conserved across the patches, a wiped halo refilled from all
//! peers carries exactly the padded projection of the global population, and
//! a sorted population with unique identifiers is a canonical form.

use vstd::prelude::*;

use crate::geometry::{Rectangle, Xy};
use crate::model::{splits_wf, strictly_increasing, Person};
use crate::patch::{
    filter_in_rect, lemma_filter_take_step, sorted_by_id, spec_bottom_ext, spec_col, spec_columns,
    spec_ext, spec_left_ext, spec_owned_rect, spec_padded_rect, spec_right_ext, spec_row,
    spec_rows, spec_top_ext, unique_ids,
};

verus! {

/// The grid rectangle that a pair of bound-extended split sequences spans.
pub open spec fn spec_grid_rect(xs: Seq<i64>, ys: Seq<i64>) -> Rectangle {
    Rectangle {
        origin: Xy { x: 0, y: 0 },
        size: Xy { x: xs[xs.len() - 1], y: ys[ys.len() - 1] },
    }
}

/// Every value between the first and last entry of a strictly increasing
/// sequence falls into exactly one of its consecutive intervals: here its
/// index is produced.
pub proof fn lemma_interval_index(s: Seq<i64>, v: int) -> (i: int)
    requires
        strictly_increasing(s),
        s.len() >= 2,
        s[0] <= v < s[s.len() - 1],
    ensures
        0 <= i < s.len() - 1,
        s[i] <= v < s[i + 1],
    decreases s.len(),
{
    if v < s[1] {
        0
    } else {
        let sub = s.skip(1);
        assert forall|a: int, b: int| 0 <= a < b < sub.len() implies sub[a] < sub[b] by {
            assert(sub[a] == s[a + 1] && sub[b] == s[b + 1]);
        }
        assert(sub[0] == s[1]);
        assert(sub[sub.len() - 1] == s[s.len() - 1]);
        let j = lemma_interval_index(sub, v);
        assert(sub[j] == s[j + 1]);
        assert(sub[j + 1] == s[j + 2]);
        j + 1
    }
}

/// The interval of a value in a strictly increasing sequence is unique.
pub proof fn lemma_interval_index_unique(s: Seq<i64>, v: int, i: int, j: int)
    requires
        strictly_increasing(s),
        0 <= i < s.len() - 1,
        0 <= j < s.len() - 1,
        s[i] <= v < s[i + 1],
        s[j] <= v < s[j + 1],
    ensures
        i == j,
{
    if i < j {
        if i + 1 < j {
            assert(s[i + 1] < s[j]);
        }
        assert(v < s[i + 1] && s[i + 1] <= s[j] && s[j] <= v);
    }
    if j < i {
        if j + 1 < i {
            assert(s[j + 1] < s[i]);
        }
        assert(v < s[j + 1] && s[j + 1] <= s[i] && s[i] <= v);
    }
}

/// Partition coverage: every point of the grid lies in exactly one patch's
/// owned tile.  The witness patch id is produced; the final clause says no
/// other patch's owned tile holds the point.
pub proof fn lemma_partition_coverage(xs: Seq<i64>, ys: Seq<i64>, p: Xy) -> (pid: int)
    requires
        splits_wf(xs),
        splits_wf(ys),
        spec_grid_rect(xs, ys).spec_contains(p),
    ensures
        0 <= pid < spec_columns(xs) * spec_rows(ys),
        spec_owned_rect(xs, ys, pid).spec_contains(p),
        forall|q: int|
            0 <= q < spec_columns(xs) * spec_rows(ys) && spec_owned_rect(xs, ys, q).spec_contains(
                p,
            ) ==> q == pid,
{
    let cols = spec_columns(xs);
    let rows = spec_rows(ys);
    let col = lemma_interval_index(xs, p.x as int);
    let row = lemma_interval_index(ys, p.y as int);
    let pid = row * cols + col;
    assert(0 <= pid < cols * rows) by (nonlinear_arith)
        requires
            0 <= col < cols,
            0 <= row < rows,
            pid == row * cols + col,
    ;
    vstd::arithmetic::div_mod::lemma_mod_multiples_vanish(row, col, cols);
    vstd::arithmetic::div_mod::lemma_small_mod(col as nat, cols as nat);
    vstd::arithmetic::div_mod::lemma_div_multiples_vanish_fancy(row, col, cols);
    assert(cols * row == row * cols) by (nonlinear_arith);
    assert(spec_col(xs, pid) == col);
    assert(spec_row(xs, pid) == row);
    assert(spec_owned_rect(xs, ys, pid).spec_contains(p));
    assert forall|q: int|
        0 <= q < cols * rows && spec_owned_rect(xs, ys, q).spec_contains(p) implies q == pid by {
        let qc = spec_col(xs, q);
        let qr = spec_row(xs, q);
        assert(0 <= qc < cols) by {
            vstd::arithmetic::div_mod::lemma_mod_bound(q, cols);
        }
        assert(0 <= qr < rows) by (nonlinear_arith)
            requires
                0 <= q < cols * rows,
                qr == q / cols,
                cols >= 1,
                rows >= 1,
        ;
        assert(xs[qc] <= p.x < xs[qc + 1]);
        assert(ys[qr] <= p.y < ys[qr + 1]);
        lemma_interval_index_unique(xs, p.x as int, qc, col);
        lemma_interval_index_unique(ys, p.y as int, qr, row);
        vstd::arithmetic::div_mod::lemma_fundamental_div_mod(q, cols);
        assert(q == cols * qr + qc);
        assert(cols * qr == qr * cols) by (nonlinear_arith);
    }
    pid
}

/// Halo monotonicity: the padded rectangle's extent on each axis is the
/// owned extent grown by the two side extensions, and every extension on a
/// non-boundary side is exactly `min(padding, distance to the grid edge)`.
pub proof fn lemma_halo_monotonicity(xs: Seq<i64>, ys: Seq<i64>, patch_id: int, padding: int)
    requires
        splits_wf(xs),
        splits_wf(ys),
        0 <= patch_id < spec_columns(xs) * spec_rows(ys),
        padding >= 0,
    ensures
        spec_padded_rect(xs, ys, patch_id, padding).size.x == spec_owned_rect(xs, ys,
            patch_id).size.x + spec_left_ext(xs, patch_id, padding) + spec_right_ext(xs, patch_id,
            padding),
        spec_padded_rect(xs, ys, patch_id, padding).size.y == spec_owned_rect(xs, ys,
            patch_id).size.y + spec_top_ext(xs, ys, patch_id, padding) + spec_bottom_ext(xs, ys,
            patch_id, padding),
        spec_col(xs, patch_id) > 0 ==> spec_left_ext(xs, patch_id, padding) == spec_ext(padding,
            xs[spec_col(xs, patch_id)] - xs[0]),
        spec_col(xs, patch_id) + 1 < spec_columns(xs) ==> spec_right_ext(xs, patch_id, padding)
            == spec_ext(padding, xs[spec_columns(xs)] - xs[spec_col(xs, patch_id) + 1]),
        spec_row(xs, patch_id) > 0 ==> spec_top_ext(xs, ys, patch_id, padding) == spec_ext(padding,
            ys[spec_row(xs, patch_id)] - ys[0]),
        spec_row(xs, patch_id) + 1 < spec_rows(ys) ==> spec_bottom_ext(xs, ys, patch_id, padding)
            == spec_ext(padding, ys[spec_rows(ys)] - ys[spec_row(xs, patch_id) + 1]),
        spec_left_ext(xs, patch_id, padding) >= 0,
        spec_right_ext(xs, patch_id, padding) >= 0,
        spec_top_ext(xs, ys, patch_id, padding) >= 0,
        spec_bottom_ext(xs, ys, patch_id, padding) >= 0,
{
    let cols = spec_columns(xs);
    let rows = spec_rows(ys);
    let col = spec_col(xs, patch_id);
    let row = spec_row(xs, patch_id);
    assert(0 <= col < cols) by {
        vstd::arithmetic::div_mod::lemma_mod_bound(patch_id, cols);
    }
    assert(0 <= row < rows) by (nonlinear_arith)
        requires
            0 <= patch_id < cols * rows,
            row == patch_id / cols,
            cols >= 1,
            rows >= 1,
    ;
    crate::patch::lemma_splits_bounds(xs, 0, col);
    crate::patch::lemma_splits_bounds(xs, col, col + 1);
    crate::patch::lemma_splits_bounds(xs, col + 1, cols);
    crate::patch::lemma_splits_bounds(ys, 0, row);
    crate::patch::lemma_splits_bounds(ys, row, row + 1);
    crate::patch::lemma_splits_bounds(ys, row + 1, rows);
}

/// With any positive padding, a side extension is positive exactly on the
/// non-boundary sides.
pub proof fn lemma_side_extension_positive(xs: Seq<i64>, ys: Seq<i64>, patch_id: int, padding: int)
    requires
        splits_wf(xs),
        splits_wf(ys),
        0 <= patch_id < spec_columns(xs) * spec_rows(ys),
        padding >= 1,
    ensures
        spec_left_ext(xs, patch_id, padding) > 0 <==> spec_col(xs, patch_id) > 0,
        spec_right_ext(xs, patch_id, padding) > 0 <==> spec_col(xs, patch_id) + 1 < spec_columns(
            xs,
        ),
        spec_top_ext(xs, ys, patch_id, padding) > 0 <==> spec_row(xs, patch_id) > 0,
        spec_bottom_ext(xs, ys, patch_id, padding) > 0 <==> spec_row(xs, patch_id) + 1 < spec_rows(
            ys,
        ),
{
    let cols = spec_columns(xs);
    let rows = spec_rows(ys);
    let col = spec_col(xs, patch_id);
    let row = spec_row(xs, patch_id);
    assert(0 <= col < cols) by {
        vstd::arithmetic::div_mod::lemma_mod_bound(patch_id, cols);
    }
    assert(0 <= row < rows) by (nonlinear_arith)
        requires
            0 <= patch_id < cols * rows,
            row == patch_id / cols,
            cols >= 1,
            rows >= 1,
    ;
    if col > 0 {
        assert(xs[0] < xs[col]);
    }
    if col + 1 < cols {
        assert(xs[col + 1] < xs[cols]);
    }
    if row > 0 {
        assert(ys[0] < ys[row]);
    }
    if row + 1 < rows {
        assert(ys[row + 1] < ys[rows]);
    }
}

/// A patch on a grid corner has its padded rectangle extended on exactly two
/// sides.
pub proof fn lemma_corner_two_sides(xs: Seq<i64>, ys: Seq<i64>, patch_id: int, padding: int)
    requires
        splits_wf(xs),
        splits_wf(ys),
        0 <= patch_id < spec_columns(xs) * spec_rows(ys),
        padding >= 1,
        spec_columns(xs) >= 2,
        spec_rows(ys) >= 2,
        spec_col(xs, patch_id) == 0 || spec_col(xs, patch_id) == spec_columns(xs) - 1,
        spec_row(xs, patch_id) == 0 || spec_row(xs, patch_id) == spec_rows(ys) - 1,
    ensures
        (if spec_left_ext(xs, patch_id, padding) > 0 {
            1int
        } else {
            0int
        }) + (if spec_right_ext(xs, patch_id, padding) > 0 {
            1int
        } else {
            0int
        }) + (if spec_top_ext(xs, ys, patch_id, padding) > 0 {
            1int
        } else {
            0int
        }) + (if spec_bottom_ext(xs, ys, patch_id, padding) > 0 {
            1int
        } else {
            0int
        }) == 2,
{
    lemma_side_extension_positive(xs, ys, patch_id, padding);
}

/// The empty sequence filters to the empty sequence.
pub proof fn lemma_filter_empty<A>(pred: spec_fn(A) -> bool)
    ensures
        Seq::<A>::empty().filter(pred) == Seq::<A>::empty(),
{
    reveal_with_fuel(Seq::filter, 1);
}

/// Appending one person to a population changes one rectangle filter by at
/// most that person.
pub proof fn lemma_filter_in_rect_push(s: Seq<Person>, p: Person, r: Rectangle)
    ensures
        filter_in_rect(s.push(p), r) == if r.spec_contains(p.position) {
            filter_in_rect(s, r).push(p)
        } else {
            filter_in_rect(s, r)
        },
{
    lemma_filter_take_step(s.push(p), s.len() as int, |q: Person| r.spec_contains(q.position));
    assert(s.push(p).take(s.len() as int + 1) =~= s.push(p));
    assert(s.push(p).take(s.len() as int) =~= s);
}

/// How many persons of a population stand in each owned tile, summed over
/// the first `n` patches.
pub open spec fn spec_owned_count_sum(xs: Seq<i64>, ys: Seq<i64>, persons: Seq<Person>, n: int) -> int
    decreases n,
    when n >= 0
{
    if n <= 0 {
        0
    } else {
        spec_owned_count_sum(xs, ys, persons, n - 1) + filter_in_rect(persons,
            spec_owned_rect(xs, ys, n - 1)).len()
    }
}

/// With no persons, every owned count is zero.
pub proof fn lemma_owned_count_sum_empty(xs: Seq<i64>, ys: Seq<i64>, n: int)
    requires
        n >= 0,
    ensures
        spec_owned_count_sum(xs, ys, Seq::<Person>::empty(), n) == 0,
    decreases n,
{
    if n > 0 {
        lemma_owned_count_sum_empty(xs, ys, n - 1);
        lemma_filter_empty::<Person>(|q: Person|
            spec_owned_rect(xs, ys, n - 1).spec_contains(q.position));
    }
}

/// Appending one person, owned by patch `pid` alone, raises the summed count
/// by one once the sum ranges over `pid`.
pub proof fn lemma_owned_count_sum_push(
    xs: Seq<i64>,
    ys: Seq<i64>,
    s0: Seq<Person>,
    p: Person,
    pid: int,
    n: int,
)
    requires
        n >= 0,
        0 <= pid,
        spec_owned_rect(xs, ys, pid).spec_contains(p.position),
        forall|q: int|
            0 <= q < n && q != pid ==> !spec_owned_rect(xs, ys, q).spec_contains(p.position),
    ensures
        spec_owned_count_sum(xs, ys, s0.push(p), n) == spec_owned_count_sum(xs, ys, s0, n) + if pid
            < n {
            1int
        } else {
            0int
        },
    decreases n,
{
    if n > 0 {
        lemma_owned_count_sum_push(xs, ys, s0, p, pid, n - 1);
        lemma_filter_in_rect_push(s0, p, spec_owned_rect(xs, ys, n - 1));
    }
}

/// Person conservation: when every person stands inside the grid, the owned
/// tiles of all patches together hold each person exactly once — the owned
/// counts sum to the population size.
pub proof fn lemma_person_conservation(xs: Seq<i64>, ys: Seq<i64>, persons: Seq<Person>)
    requires
        splits_wf(xs),
        splits_wf(ys),
        forall|i: int|
            0 <= i < persons.len() ==> spec_grid_rect(xs, ys).spec_contains(
                (#[trigger] persons[i]).position),
    ensures
        spec_owned_count_sum(xs, ys, persons, spec_columns(xs) * spec_rows(ys)) == persons.len(),
    decreases persons.len(),
{
    let total = spec_columns(xs) * spec_rows(ys);
    assert(total >= 1) by (nonlinear_arith)
        requires
            spec_columns(xs) >= 1,
            spec_rows(ys) >= 1,
            total == spec_columns(xs) * spec_rows(ys),
    ;
    if persons.len() == 0 {
        assert(persons =~= Seq::<Person>::empty());
        lemma_owned_count_sum_empty(xs, ys, total);
    } else {
        let s0 = persons.drop_last();
        let p = persons.last();
        assert(forall|i: int|
            0 <= i < s0.len() ==> spec_grid_rect(xs, ys).spec_contains(
                (#[trigger] s0[i]).position));
        lemma_person_conservation(xs, ys, s0);
        let pid = lemma_partition_coverage(xs, ys, p.position);
        lemma_owned_count_sum_push(xs, ys, s0, p, pid, total);
        assert(persons =~= s0.push(p));
        assert(spec_owned_count_sum(xs, ys, persons, total) == spec_owned_count_sum(xs, ys,
            s0.push(p), total));
    }
}

/// What a wiped patch holds after refilling from the first `n` patches: each
/// patch `j` contributes its post-wipe owned population `filter(g, owned_j)`,
/// of which the receiver keeps what falls into its padded rectangle `d`.
/// The receiving patch's own retained persons are the term `j == patch_id`,
/// since the owned tile lies inside the padded rectangle.
pub open spec fn spec_refill_concat(
    xs: Seq<i64>,
    ys: Seq<i64>,
    g: Seq<Person>,
    d: Rectangle,
    n: int,
) -> Seq<Person>
    decreases n,
    when n >= 0
{
    if n <= 0 {
        Seq::<Person>::empty()
    } else {
        spec_refill_concat(xs, ys, g, d, n - 1) + filter_in_rect(filter_in_rect(g,
            spec_owned_rect(xs, ys, n - 1)), d)
    }
}

/// With no persons, every refill contribution is empty.
pub proof fn lemma_refill_concat_empty(xs: Seq<i64>, ys: Seq<i64>, d: Rectangle, n: int)
    requires
        n >= 0,
    ensures
        spec_refill_concat(xs, ys, Seq::<Person>::empty(), d, n) == Seq::<Person>::empty(),
    decreases n,
{
    if n > 0 {
        lemma_refill_concat_empty(xs, ys, d, n - 1);
        lemma_filter_empty::<Person>(|q: Person|
            spec_owned_rect(xs, ys, n - 1).spec_contains(q.position));
        lemma_filter_empty::<Person>(|q: Person| d.spec_contains(q.position));
        assert(Seq::<Person>::empty() + Seq::<Person>::empty() =~= Seq::<Person>::empty());
    }
}

/// Appending one person, owned by patch `pid` alone, adds that person to the
/// refill exactly once — through patch `pid` — and only when the person
/// falls into the receiving rectangle.
pub proof fn lemma_refill_concat_push(
    xs: Seq<i64>,
    ys: Seq<i64>,
    s0: Seq<Person>,
    p: Person,
    pid: int,
    d: Rectangle,
    n: int,
)
    requires
        n >= 0,
        0 <= pid,
        spec_owned_rect(xs, ys, pid).spec_contains(p.position),
        forall|q: int|
            0 <= q < n && q != pid ==> !spec_owned_rect(xs, ys, q).spec_contains(p.position),
    ensures
        spec_refill_concat(xs, ys, s0.push(p), d, n).to_multiset() =~= if pid < n
            && d.spec_contains(p.position) {
            spec_refill_concat(xs, ys, s0, d, n).to_multiset().insert(p)
        } else {
            spec_refill_concat(xs, ys, s0, d, n).to_multiset()
        },
    decreases n,
{
    broadcast use vstd::multiset::group_multiset_axioms;

    if n > 0 {
        lemma_refill_concat_push(xs, ys, s0, p, pid, d, n - 1);
        let own = spec_owned_rect(xs, ys, n - 1);
        lemma_filter_in_rect_push(s0, p, own);
        let prefix_new = spec_refill_concat(xs, ys, s0.push(p), d, n - 1);
        let prefix_old = spec_refill_concat(xs, ys, s0, d, n - 1);
        let term_new = filter_in_rect(filter_in_rect(s0.push(p), own), d);
        let term_old = filter_in_rect(filter_in_rect(s0, own), d);
        vstd::seq_lib::lemma_multiset_commutative(prefix_new, term_new);
        vstd::seq_lib::lemma_multiset_commutative(prefix_old, term_old);
        if n - 1 == pid {
            lemma_filter_in_rect_push(filter_in_rect(s0, own), p, d);
            if d.spec_contains(p.position) {
                filter_in_rect(filter_in_rect(s0, own), d).to_multiset_ensures();
            }
        }
    }
}

/// The wipe-and-refill round trip: when every person of the global
/// population stands inside the grid, a patch that wipes its halo and then
/// absorbs, from every patch, the part of that patch's owned population that
/// falls into its padded rectangle `d`, ends up with exactly the padded
/// projection of the global population (as a multiset of persons, hence as a
/// set of identifier-position pairs once identifiers are unique).
pub proof fn lemma_wipe_refill_round_trip(xs: Seq<i64>, ys: Seq<i64>, g: Seq<Person>, d: Rectangle)
    requires
        splits_wf(xs),
        splits_wf(ys),
        forall|i: int|
            0 <= i < g.len() ==> spec_grid_rect(xs, ys).spec_contains(
                (#[trigger] g[i]).position),
    ensures
        spec_refill_concat(xs, ys, g, d, spec_columns(xs) * spec_rows(ys)).to_multiset()
            =~= filter_in_rect(g, d).to_multiset(),
    decreases g.len(),
{
    broadcast use vstd::multiset::group_multiset_axioms;

    let total = spec_columns(xs) * spec_rows(ys);
    assert(total >= 1) by (nonlinear_arith)
        requires
            spec_columns(xs) >= 1,
            spec_rows(ys) >= 1,
            total == spec_columns(xs) * spec_rows(ys),
    ;
    if g.len() == 0 {
        assert(g =~= Seq::<Person>::empty());
        lemma_refill_concat_empty(xs, ys, d, total);
        lemma_filter_empty::<Person>(|q: Person| d.spec_contains(q.position));
    } else {
        let s0 = g.drop_last();
        let p = g.last();
        assert(forall|i: int|
            0 <= i < s0.len() ==> spec_grid_rect(xs, ys).spec_contains(
                (#[trigger] s0[i]).position));
        lemma_wipe_refill_round_trip(xs, ys, s0, d);
        let pid = lemma_partition_coverage(xs, ys, p.position);
        lemma_refill_concat_push(xs, ys, s0, p, pid, d, total);
        lemma_filter_in_rect_push(s0, p, d);
        assert(g =~= s0.push(p));
        if d.spec_contains(p.position) {
            filter_in_rect(s0, d).to_multiset_ensures();
        }
    }
}

/// Sorting by identifier is canonical: two populations that are sorted, free
/// of duplicate identifiers, and equal as multisets are equal as sequences.
/// This is why the driver's output does not depend on the order in which the
/// per-patch results arrive.
pub proof fn lemma_sorted_unique_ids_equal(s1: Seq<Person>, s2: Seq<Person>)
    requires
        sorted_by_id(s1),
        sorted_by_id(s2),
        unique_ids(s1),
        unique_ids(s2),
        s1.to_multiset() == s2.to_multiset(),
    ensures
        s1 == s2,
    decreases s1.len(),
{
    s1.to_multiset_ensures();
    s2.to_multiset_ensures();
    assert(s1.len() == s2.len());
    if s1.len() == 0 {
        assert(s1 =~= s2);
    } else {
        let a = s1.last();
        let b = s2.last();
        assert(s1.contains(a));
        assert(s1.to_multiset().count(a) > 0);
        assert(s2.contains(a));
        let ka = choose|k: int| 0 <= k < s2.len() && s2[k] == a;
        assert(a.id <= b.id) by {
            if ka < s2.len() - 1 {
                assert(s2[ka].id <= s2[s2.len() - 1].id);
            }
        }
        assert(s2.to_multiset().count(b) > 0);
        assert(s1.contains(b));
        let kb = choose|k: int| 0 <= k < s1.len() && s1[k] == b;
        assert(b.id <= a.id) by {
            if kb < s1.len() - 1 {
                assert(s1[kb].id <= s1[s1.len() - 1].id);
            }
        }
        assert(a.id == b.id);
        assert(a == b) by {
            if ka < s2.len() - 1 {
                assert(s2[ka].id != s2[s2.len() - 1].id);
            }
        }
        let t1 = s1.drop_last();
        let t2 = s2.drop_last();
        assert(t1.to_multiset() =~= s1.to_multiset().remove(a)) by {
            assert(s1.remove(s1.len() - 1) =~= t1);
        }
        assert(t2.to_multiset() =~= s2.to_multiset().remove(b)) by {
            assert(s2.remove(s2.len() - 1) =~= t2);
        }
        lemma_sorted_unique_ids_equal(t1, t2);
        assert(s1 =~= s2) by {
            assert(forall|i: int| 0 <= i < s1.len() - 1 ==> s1[i] == t1[i] && s2[i] == t2[i]);
        }
    }
}

/// The record form of the canonical-order law, for the merged trace: two
/// record lists that are sorted by identifier, free of duplicate
/// identifiers, and equal as multisets are equal as sequences.
pub proof fn lemma_sorted_unique_records_equal(
    s1: Seq<(crate::model::PersonInfo, u64)>,
    s2: Seq<(crate::model::PersonInfo, u64)>,
)
    requires
        crate::driver::sorted_by_rec_id(s1),
        crate::driver::sorted_by_rec_id(s2),
        forall|i: int, j: int| 0 <= i < j < s1.len() ==> s1[i].1 != s1[j].1,
        forall|i: int, j: int| 0 <= i < j < s2.len() ==> s2[i].1 != s2[j].1,
        s1.to_multiset() == s2.to_multiset(),
    ensures
        s1 == s2,
    decreases s1.len(),
{
    s1.to_multiset_ensures();
    s2.to_multiset_ensures();
    assert(s1.len() == s2.len());
    if s1.len() == 0 {
        assert(s1 =~= s2);
    } else {
        let a = s1.last();
        let b = s2.last();
        assert(s1.contains(a));
        assert(s1.to_multiset().count(a) > 0);
        assert(s2.contains(a));
        let ka = choose|k: int| 0 <= k < s2.len() && s2[k] == a;
        assert(a.1 <= b.1) by {
            if ka < s2.len() - 1 {
                assert(s2[ka].1 <= s2[s2.len() - 1].1);
            }
        }
        assert(s2.to_multiset().count(b) > 0);
        assert(s1.contains(b));
        let kb = choose|k: int| 0 <= k < s1.len() && s1[k] == b;
        assert(b.1 <= a.1) by {
            if kb < s1.len() - 1 {
                assert(s1[kb].1 <= s1[s1.len() - 1].1);
            }
        }
        assert(a.1 == b.1);
        assert(a == b) by {
            if ka < s2.len() - 1 {
                assert(s2[ka].1 != s2[s2.len() - 1].1);
            }
        }
        let t1 = s1.drop_last();
        let t2 = s2.drop_last();
        assert(t1.to_multiset() =~= s1.to_multiset().remove(a)) by {
            assert(s1.remove(s1.len() - 1) =~= t1);
        }
        assert(t2.to_multiset() =~= s2.to_multiset().remove(b)) by {
            assert(s2.remove(s2.len() - 1) =~= t2);
        }
        lemma_sorted_unique_records_equal(t1, t2);
        assert(s1 =~= s2) by {
            assert(forall|i: int| 0 <= i < s1.len() - 1 ==> s1[i] == t1[i] && s2[i] == t2[i]);
        }
    }
}

} // verus!
