//! Patch geometry and the per-patch worker state.
//!
//! Patches are indexed row-major over the columns and rows that the extended
//! split coordinates define.  A patch owns the half-open tile between its
//! consecutive splits; its padded rectangle grows outward by up to `padding`
//! cells on every side that does not lie on the grid boundary, clipped to the
//! grid.  The worker state holds the patch-local population — every person
//! whose position lies in the padded rectangle — together with the trace and
//! statistics the patch accumulates.

use vstd::prelude::*;

use crate::geometry::{Rectangle, Xy};
use crate::model::{splits_wf, Health, Partition, Person, PersonInfo, Query, Scenario, Statistics};
use crate::util::{OutputMod, TraceEntryWithId};

verus! {

/// The number of patch columns of bound-extended splits.
pub open spec fn spec_columns(xs: Seq<i64>) -> int {
    xs.len() - 1
}

/// The number of patch rows of bound-extended splits.
pub open spec fn spec_rows(ys: Seq<i64>) -> int {
    ys.len() - 1
}

/// The column of a patch: patches are numbered row-major.
pub open spec fn spec_col(xs: Seq<i64>, patch_id: int) -> int {
    patch_id % spec_columns(xs)
}

/// The row of a patch.
pub open spec fn spec_row(xs: Seq<i64>, patch_id: int) -> int {
    patch_id / spec_columns(xs)
}

/// How far a side is padded: the full `padding`, clipped to the space left
/// between the owned tile and the grid edge.
pub open spec fn spec_ext(padding: int, space: int) -> int {
    if space < padding {
        space
    } else {
        padding
    }
}

/// The tile a patch alone is responsible for.
pub open spec fn spec_owned_rect(xs: Seq<i64>, ys: Seq<i64>, patch_id: int) -> Rectangle {
    let col = spec_col(xs, patch_id);
    let row = spec_row(xs, patch_id);
    Rectangle {
        origin: Xy { x: xs[col], y: ys[row] },
        size: Xy { x: (xs[col + 1] - xs[col]) as i64, y: (ys[row + 1] - ys[row]) as i64 },
    }
}

/// The padding applied on the left side: zero on the grid's left edge.
pub open spec fn spec_left_ext(xs: Seq<i64>, patch_id: int, padding: int) -> int {
    let col = spec_col(xs, patch_id);
    if col > 0 {
        spec_ext(padding, xs[col] - xs[0])
    } else {
        0
    }
}

/// The padding applied on the top side: zero on the grid's top edge.
pub open spec fn spec_top_ext(xs: Seq<i64>, ys: Seq<i64>, patch_id: int, padding: int) -> int {
    let row = spec_row(xs, patch_id);
    if row > 0 {
        spec_ext(padding, ys[row] - ys[0])
    } else {
        0
    }
}

/// The padding applied on the right side: zero on the grid's right edge.
pub open spec fn spec_right_ext(xs: Seq<i64>, patch_id: int, padding: int) -> int {
    let col = spec_col(xs, patch_id);
    let columns = spec_columns(xs);
    if col + 1 < columns {
        spec_ext(padding, xs[columns] - xs[col + 1])
    } else {
        0
    }
}

/// The padding applied on the bottom side: zero on the grid's bottom edge.
pub open spec fn spec_bottom_ext(xs: Seq<i64>, ys: Seq<i64>, patch_id: int, padding: int) -> int {
    let row = spec_row(xs, patch_id);
    let rows = spec_rows(ys);
    if row + 1 < rows {
        spec_ext(padding, ys[rows] - ys[row + 1])
    } else {
        0
    }
}

/// The owned tile grown by the four side extensions.
pub open spec fn spec_padded_rect(xs: Seq<i64>, ys: Seq<i64>, patch_id: int, padding: int) -> Rectangle {
    let owned = spec_owned_rect(xs, ys, patch_id);
    let l = spec_left_ext(xs, patch_id, padding);
    let t = spec_top_ext(xs, ys, patch_id, padding);
    let r = spec_right_ext(xs, patch_id, padding);
    let b = spec_bottom_ext(xs, ys, patch_id, padding);
    Rectangle {
        origin: Xy { x: (owned.origin.x - l) as i64, y: (owned.origin.y - t) as i64 },
        size: Xy { x: (owned.size.x + l + r) as i64, y: (owned.size.y + t + b) as i64 },
    }
}

/// A well-formed split sequence is monotone and stays within the grid bounds.
pub proof fn lemma_splits_bounds(s: Seq<i64>, i: int, j: int)
    requires
        splits_wf(s),
        0 <= i <= j < s.len(),
    ensures
        s[i] <= s[j],
        0 <= s[i],
        s[j] <= s[s.len() - 1],
{
    if i < j {
        assert(s[i] < s[j]);
    }
    if 0 < i {
        assert(s[0] < s[i]);
    }
    if j < s.len() - 1 {
        assert(s[j] < s[s.len() - 1]);
    }
}

/// Produces `(padded, owned)` for one patch: the owned tile spans the patch's
/// consecutive splits on both axes, and the padded rectangle extends it by
/// `min(padding, space to the grid edge)` on every non-boundary side.
pub fn create_padded_patch(patch_id: usize, splits: &Partition, padding: usize) -> (r: (
    Rectangle,
    Rectangle,
))
    requires
        splits.wf(),
        patch_id < spec_columns(splits.x@) * spec_rows(splits.y@),
        padding <= i64::MAX,
    ensures
        r.0 == spec_padded_rect(splits.x@, splits.y@, patch_id as int, padding as int),
        r.1 == spec_owned_rect(splits.x@, splits.y@, patch_id as int),
        r.0.wf(),
        r.1.wf(),
        forall|p: Xy| r.1.spec_contains(p) ==> r.0.spec_contains(p),
{
    let columns = splits.x.len() - 1;
    let rows = splits.y.len() - 1;
    let col = patch_id % columns;
    let row = patch_id / columns;
    proof {
        assert(row < rows) by (nonlinear_arith)
            requires
                patch_id < columns * rows,
                row == patch_id as int / columns as int,
                columns >= 1,
                rows >= 1,
        ;
        assert(col < columns);
    }
    let x0 = splits.x[col];
    let x1 = splits.x[col + 1];
    let y0 = splits.y[row];
    let y1 = splits.y[row + 1];
    let min_x = splits.x[0];
    let min_y = splits.y[0];
    let max_x = splits.x[columns];
    let max_y = splits.y[rows];
    proof {
        lemma_splits_bounds(splits.x@, 0, col as int);
        lemma_splits_bounds(splits.x@, col as int, col + 1);
        lemma_splits_bounds(splits.x@, col + 1, columns as int);
        lemma_splits_bounds(splits.y@, 0, row as int);
        lemma_splits_bounds(splits.y@, row as int, row + 1);
        lemma_splits_bounds(splits.y@, row + 1, rows as int);
    }
    let owned = Rectangle { origin: Xy { x: x0, y: y0 }, size: Xy { x: x1 - x0, y: y1 - y0 } };

    let pad = padding as i64;
    let left_ext = if col > 0 {
        let space = x0 - min_x;
        if space < pad {
            space
        } else {
            pad
        }
    } else {
        0
    };
    let top_ext = if row > 0 {
        let space = y0 - min_y;
        if space < pad {
            space
        } else {
            pad
        }
    } else {
        0
    };
    let right_ext = if col + 1 < columns {
        let space = max_x - x1;
        if space < pad {
            space
        } else {
            pad
        }
    } else {
        0
    };
    let bottom_ext = if row + 1 < rows {
        let space = max_y - y1;
        if space < pad {
            space
        } else {
            pad
        }
    } else {
        0
    };
    let padded = Rectangle {
        origin: Xy { x: x0 - left_ext, y: y0 - top_ext },
        size: Xy { x: (x1 - x0) + left_ext + right_ext, y: (y1 - y0) + top_ext + bottom_ext },
    };
    (padded, owned)
}

/// One unfolding step of `Seq::filter` along a growing prefix.
pub proof fn lemma_filter_take_step<A>(s: Seq<A>, i: int, pred: spec_fn(A) -> bool)
    requires
        0 <= i < s.len(),
    ensures
        s.take(i + 1).filter(pred) == if pred(s[i]) {
            s.take(i).filter(pred).push(s[i])
        } else {
            s.take(i).filter(pred)
        },
{
    reveal_with_fuel(Seq::filter, 2);
    assert(s.take(i + 1).drop_last() =~= s.take(i));
    assert(s.take(i + 1).last() == s[i]);
}

/// The members of a population that stand inside a rectangle, in order.
pub open spec fn filter_in_rect(s: Seq<Person>, r: Rectangle) -> Seq<Person> {
    s.filter(|p: Person| r.spec_contains(p.position))
}

/// Keeps exactly the persons whose position lies in the acceptable area,
/// preserving their order.
pub fn filter_persons(ppl: &Vec<Person>, acceptable_area: &Rectangle) -> (r: Vec<Person>)
    requires
        acceptable_area.wf(),
    ensures
        r@ == filter_in_rect(ppl@, *acceptable_area),
{
    let mut inside: Vec<Person> = Vec::new();
    let mut i: usize = 0;
    proof {
        assert(ppl@.take(0).filter(|p: Person| acceptable_area.spec_contains(p.position))
            =~= Seq::<Person>::empty()) by {
            reveal_with_fuel(Seq::filter, 1);
            assert(ppl@.take(0) =~= Seq::<Person>::empty());
        }
    }
    while i < ppl.len()
        invariant
            i <= ppl.len(),
            acceptable_area.wf(),
            inside@ == filter_in_rect(ppl@.take(i as int), *acceptable_area),
        decreases ppl.len() - i,
    {
        let p = ppl[i];
        proof {
            lemma_filter_take_step(ppl@, i as int, |q: Person|
                acceptable_area.spec_contains(q.position));
        }
        if acceptable_area.contains(&p.position) {
            inside.push(p);
        }
        i = i + 1;
    }
    proof {
        assert(ppl@.take(ppl@.len() as int) =~= ppl@);
    }
    inside
}

/// Keeps exactly the obstacles that overlap the acceptable area, preserving
/// their order.
pub fn filter_obstacles(obs: &Vec<Rectangle>, acceptable_area: &Rectangle) -> (r: Vec<Rectangle>)
    requires
        acceptable_area.wf(),
        forall|i: int| 0 <= i < obs@.len() ==> (#[trigger] obs@[i]).wf(),
    ensures
        r@ == obs@.filter(|o: Rectangle| acceptable_area.spec_overlaps(o)),
{
    let mut overlapping: Vec<Rectangle> = Vec::new();
    let mut i: usize = 0;
    proof {
        assert(obs@.take(0).filter(|o: Rectangle| acceptable_area.spec_overlaps(o))
            =~= Seq::<Rectangle>::empty()) by {
            reveal_with_fuel(Seq::filter, 1);
            assert(obs@.take(0) =~= Seq::<Rectangle>::empty());
        }
    }
    while i < obs.len()
        invariant
            i <= obs.len(),
            acceptable_area.wf(),
            forall|k: int| 0 <= k < obs@.len() ==> (#[trigger] obs@[k]).wf(),
            overlapping@ == obs@.take(i as int).filter(|o: Rectangle|
                acceptable_area.spec_overlaps(o)),
        decreases obs.len() - i,
    {
        let o = obs[i];
        proof {
            lemma_filter_take_step(obs@, i as int, |q: Rectangle|
                acceptable_area.spec_overlaps(q));
        }
        if acceptable_area.overlaps(&o) {
            overlapping.push(o);
        }
        i = i + 1;
    }
    proof {
        assert(obs@.take(obs@.len() as int) =~= obs@);
    }
    overlapping
}

/// One of the four health classes the statistics count.
#[derive(Clone, Copy, PartialEq, Eq, Structural, Debug)]
pub enum HealthClass {
    Susceptible,
    Infected,
    Infectious,
    Recovered,
}

/// Whether a person belongs to a health class.
pub open spec fn spec_class_holds(class: HealthClass, p: Person) -> bool {
    match class {
        HealthClass::Susceptible => p.health.susceptible,
        HealthClass::Infected => p.health.infected,
        HealthClass::Infectious => p.health.infectious,
        HealthClass::Recovered => p.health.recovered,
    }
}

/// How many persons of a class stand in both the query area and the owned
/// tile.
pub open spec fn spec_count_matching(
    s: Seq<Person>,
    class: HealthClass,
    area: Rectangle,
    owned: Rectangle,
) -> int {
    s.filter(|p: Person|
        spec_class_holds(class, p) && area.spec_contains(p.position) && owned.spec_contains(
            p.position,
        )).len() as int
}

/// The statistics row of one query at one tick.
pub open spec fn spec_query_stats(s: Seq<Person>, area: Rectangle, owned: Rectangle) -> Statistics {
    Statistics {
        susceptible: spec_count_matching(s, HealthClass::Susceptible, area, owned) as u64,
        infected: spec_count_matching(s, HealthClass::Infected, area, owned) as u64,
        infectious: spec_count_matching(s, HealthClass::Infectious, area, owned) as u64,
        recovered: spec_count_matching(s, HealthClass::Recovered, area, owned) as u64,
    }
}

/// The trace records of one tick: the owned persons in population order, each
/// with its identifier.
pub open spec fn spec_trace_records(s: Seq<Person>, owned: Rectangle) -> Seq<(PersonInfo, u64)> {
    filter_in_rect(s, owned).map_values(|p: Person| (p.spec_info(), p.id))
}

/// Two persons stand within Manhattan distance `radius` of each other.
pub open spec fn spec_close(a: Person, b: Person, radius: int) -> bool {
    abs_int(a.position.x - b.position.x) + abs_int(a.position.y - b.position.y) <= radius
}

/// The absolute value of an integer.
pub open spec fn abs_int(v: int) -> int {
    if v < 0 {
        -v
    } else {
        v
    }
}

/// The worker state of one patch: its geometry, the patch-local population
/// with its positions index and ghosts, and the accumulated output.
pub struct Patch {
    pub patch_id: usize,
    pub ticks_total: usize,
    pub ticks_independent: usize,
    pub infection_radius: usize,
    pub trace_enabled: bool,
    pub queries: Vec<Query>,
    pub population: Vec<Person>,
    pub positions: Vec<Xy>,
    pub ghosts: Vec<Xy>,
    pub padded_patch: Rectangle,
    pub owned_patch: Rectangle,
    pub obstacles: Vec<Rectangle>,
    pub trace: Vec<TraceEntryWithId>,
    pub statistics: Vec<Vec<Statistics>>,
}

/// The fields that never change after construction.
pub open spec fn same_config(a: Patch, b: Patch) -> bool {
    &&& b.patch_id == a.patch_id
    &&& b.ticks_total == a.ticks_total
    &&& b.ticks_independent == a.ticks_independent
    &&& b.infection_radius == a.infection_radius
    &&& b.trace_enabled == a.trace_enabled
    &&& b.queries@ == a.queries@
    &&& b.padded_patch == a.padded_patch
    &&& b.owned_patch == a.owned_patch
    &&& b.obstacles@ == a.obstacles@
}

impl Patch {
    /// The patch invariant: sound geometry, the owned tile inside the padded
    /// one, every person inside the padded rectangle, the positions index
    /// coherent with the population, and one statistics row per query.
    pub open spec fn wf(self) -> bool {
        &&& self.padded_patch.wf()
        &&& self.owned_patch.wf()
        &&& (forall|p: Xy|
            self.owned_patch.spec_contains(p) ==> self.padded_patch.spec_contains(p))
        &&& self.positions@.len() == self.population@.len()
        &&& (forall|i: int|
            0 <= i < self.population@.len() ==> self.positions@[i] == (
            #[trigger] self.population@[i]).position)
        &&& (forall|i: int|
            0 <= i < self.population@.len() ==> self.padded_patch.spec_contains(
                (#[trigger] self.population@[i]).position,
            ))
        &&& self.statistics@.len() == self.queries@.len()
        &&& (forall|q: int|
            0 <= q < self.queries@.len() ==> (#[trigger] self.queries@[q]).area.wf())
        &&& self.ticks_independent >= 1
    }

    /// Builds the worker state of one patch: its geometry from the scenario's
    /// partition, the population and obstacles filtered to the padded
    /// rectangle, and — before any tick runs — the tick-0 trace entry and
    /// statistics row.
    pub fn new(
        scenario: &Scenario,
        population: &Vec<Person>,
        patch_id: usize,
        ticks_independent: usize,
        padding: usize,
    ) -> (r: Patch)
        requires
            scenario.wf(),
            patch_id < scenario.spec_patch_count(),
            ticks_independent >= 1,
            padding <= i64::MAX,
        ensures
            r.wf(),
            r.patch_id == patch_id,
            r.ticks_total == scenario.ticks,
            r.ticks_independent == ticks_independent,
            r.infection_radius == scenario.parameters.infection_radius,
            r.trace_enabled == scenario.trace,
            r.queries@ == scenario.queries@,
            r.owned_patch == spec_owned_rect(crate::model::spec_ext_xs(*scenario),
                crate::model::spec_ext_ys(*scenario), patch_id as int),
            r.padded_patch == spec_padded_rect(crate::model::spec_ext_xs(*scenario),
                crate::model::spec_ext_ys(*scenario), patch_id as int, padding as int),
            r.population@ == filter_in_rect(population@, r.padded_patch),
            r.obstacles@ == scenario.obstacles@.filter(|o: Rectangle|
                r.padded_patch.spec_overlaps(o)),
            r.ghosts@.len() == 0,
            r.trace@.len() == if scenario.trace { 1int } else { 0int },
            scenario.trace ==> r.trace@[0].population@ == spec_trace_records(r.population@,
                r.owned_patch),
            r.statistics@.len() == scenario.queries@.len(),
            forall|q: int|
                0 <= q < scenario.queries@.len() ==> (#[trigger] r.statistics@[q])@
                    =~= seq![spec_query_stats(r.population@, scenario.queries@[q].area,
                    r.owned_patch)],
    {
        let part = scenario.partition.with_bounds(scenario.grid_size);
        let (padded, owned) = create_padded_patch(patch_id, &part, padding);
        let obstacles = filter_obstacles(&scenario.obstacles, &padded);
        let pops = filter_persons(population, &padded);
        let positions = positions_of(&pops);
        let mut statistics: Vec<Vec<Statistics>> = Vec::new();
        let mut q: usize = 0;
        while q < scenario.queries.len()
            invariant
                q <= scenario.queries@.len(),
                statistics@.len() == q,
                forall|k: int| 0 <= k < q ==> (#[trigger] statistics@[k])@.len() == 0,
            decreases scenario.queries@.len() - q,
        {
            statistics.push(Vec::new());
            q = q + 1;
        }
        let mut out = Patch {
            patch_id,
            ticks_total: scenario.ticks,
            ticks_independent,
            infection_radius: scenario.parameters.infection_radius,
            trace_enabled: scenario.trace,
            queries: clone_queries(&scenario.queries),
            population: pops,
            positions,
            ghosts: Vec::new(),
            padded_patch: padded,
            owned_patch: owned,
            obstacles,
            trace: Vec::new(),
            statistics,
        };
        proof {
            assert forall|i: int| 0 <= i < out.population@.len() implies out.padded_patch
                .spec_contains((#[trigger] out.population@[i]).position) by {
                population@.lemma_filter_pred(|p: Person| padded.spec_contains(p.position), i);
            }
        }
        out.extend_output();
        out
    }

    /// Retains only the persons of the owned tile, dropping the halo; the
    /// positions index is rebuilt from the retained list.
    pub fn wipe_padding(&mut self)
        requires
            old(self).wf(),
        ensures
            final(self).wf(),
            same_config(*old(self), *final(self)),
            final(self).population@ == filter_in_rect(old(self).population@,
                old(self).owned_patch),
            final(self).ghosts@ == old(self).ghosts@,
            final(self).trace@ == old(self).trace@,
            final(self).statistics@ == old(self).statistics@,
    {
        let kept = filter_persons(&self.population, &self.owned_patch);
        self.population = kept;
        self.positions = positions_of(&self.population);
        proof {
            assert forall|i: int| 0 <= i < self.population@.len() implies self.padded_patch
                .spec_contains((#[trigger] self.population@[i]).position) by {
                old(self).population@.lemma_filter_pred(|p: Person|
                    old(self).owned_patch.spec_contains(p.position), i);
            }
        }
    }

    /// Appends the members of an incoming population that fall inside this
    /// patch's padded rectangle, extending the positions index with them.
    pub fn sync_absorb(&mut self, incoming: &Vec<Person>)
        requires
            old(self).wf(),
        ensures
            final(self).wf(),
            same_config(*old(self), *final(self)),
            final(self).population@ == old(self).population@ + filter_in_rect(incoming@,
                old(self).padded_patch),
            final(self).ghosts@ == old(self).ghosts@,
            final(self).trace@ == old(self).trace@,
            final(self).statistics@ == old(self).statistics@,
    {
        let add = filter_persons(incoming, &self.padded_patch);
        proof {
            incoming@.lemma_filter_len(|p: Person| self.padded_patch.spec_contains(p.position));
        }
        let mut k: usize = 0;
        while k < add.len()
            invariant
                k <= add@.len(),
                self.wf(),
                same_config(*old(self), *self),
                add@ == filter_in_rect(incoming@, old(self).padded_patch),
                self.population@ == old(self).population@ + add@.take(k as int),
                self.ghosts@ == old(self).ghosts@,
                self.trace@ == old(self).trace@,
                self.statistics@ == old(self).statistics@,
            decreases add@.len() - k,
        {
            let p = add[k];
            proof {
                incoming@.lemma_filter_pred(|q2: Person|
                    old(self).padded_patch.spec_contains(q2.position), k as int);
                assert(old(self).population@ + add@.take(k as int + 1) =~= (old(self).population@
                    + add@.take(k as int)).push(p));
            }
            self.population.push(p);
            self.positions.push(p.position);
            k = k + 1;
        }
        proof {
            assert(add@.take(add@.len() as int) =~= add@);
        }
    }

    /// Records a person's start-of-tick position as a ghost.
    pub fn record_ghost(&mut self, i: usize)
        requires
            old(self).wf(),
            i < old(self).population@.len(),
        ensures
            final(self).wf(),
            same_config(*old(self), *final(self)),
            final(self).population@ == old(self).population@,
            final(self).positions@ == old(self).positions@,
            final(self).ghosts@ == old(self).ghosts@.push(old(self).population@[i as int].position),
            final(self).trace@ == old(self).trace@,
            final(self).statistics@ == old(self).statistics@,
    {
        let pos = self.population[i].position;
        self.ghosts.push(pos);
    }

    /// Ends a tick's movement phase: all recorded ghosts are busted.
    pub fn clear_ghosts(&mut self)
        requires
            old(self).wf(),
        ensures
            final(self).wf(),
            same_config(*old(self), *final(self)),
            final(self).population@ == old(self).population@,
            final(self).positions@ == old(self).positions@,
            final(self).ghosts@.len() == 0,
            final(self).trace@ == old(self).trace@,
            final(self).statistics@ == old(self).statistics@,
    {
        self.ghosts.clear();
    }

    /// Applies the move the single-person rule chose for person `i`; the rule
    /// keeps every person inside the patch's padded rectangle.
    pub fn apply_move(&mut self, i: usize, new_pos: Xy)
        requires
            old(self).wf(),
            i < old(self).population@.len(),
            old(self).padded_patch.spec_contains(new_pos),
        ensures
            final(self).wf(),
            same_config(*old(self), *final(self)),
            final(self).population@ == old(self).population@.update(i as int,
                Person { position: new_pos, ..old(self).population@[i as int] }),
            final(self).ghosts@ == old(self).ghosts@,
            final(self).trace@ == old(self).trace@,
            final(self).statistics@ == old(self).statistics@,
    {
        let mut p = self.population[i];
        p.position = new_pos;
        self.population[i] = p;
        self.positions[i] = new_pos;
    }

    /// Applies the health state the external infection rule produced for
    /// person `i`; the person's identity and position are untouched.
    pub fn set_health(&mut self, i: usize, health: Health)
        requires
            old(self).wf(),
            i < old(self).population@.len(),
        ensures
            final(self).wf(),
            same_config(*old(self), *final(self)),
            final(self).population@ == old(self).population@.update(i as int,
                Person { health, ..old(self).population@[i as int] }),
            final(self).positions@ == old(self).positions@,
            final(self).ghosts@ == old(self).ghosts@,
            final(self).trace@ == old(self).trace@,
            final(self).statistics@ == old(self).statistics@,
    {
        let mut p = self.population[i];
        p.health = health;
        self.population[i] = p;
    }

    /// Whether the coming tick starts a new independence cycle, so that the
    /// halo must be wiped and refilled before advancing.
    pub fn sync_due(&self, tick: usize) -> (r: bool)
        requires
            self.wf(),
            tick < self.ticks_total,
        ensures
            r == (((tick + 1) as int % self.ticks_independent as int) == 0),
    {
        (tick + 1) % self.ticks_independent == 0
    }

    /// Counts the persons of a health class standing in both the given area
    /// and the owned tile.
    pub fn count_persons(&self, class: HealthClass, area: &Rectangle) -> (r: u64)
        requires
            self.wf(),
            area.wf(),
        ensures
            r == spec_count_matching(self.population@, class, *area, self.owned_patch),
    {
        let pred = |p: Person| -> bool
            {
                (match class {
                    HealthClass::Susceptible => p.health.susceptible,
                    HealthClass::Infected => p.health.infected,
                    HealthClass::Infectious => p.health.infectious,
                    HealthClass::Recovered => p.health.recovered,
                })
            };
        let ghost spred = |p: Person|
            spec_class_holds(class, p) && area.spec_contains(p.position)
                && self.owned_patch.spec_contains(p.position);
        let mut count: u64 = 0;
        let mut i: usize = 0;
        proof {
            assert(self.population@.take(0).filter(spred) =~= Seq::<Person>::empty()) by {
                reveal_with_fuel(Seq::filter, 1);
                assert(self.population@.take(0) =~= Seq::<Person>::empty());
            }
            self.population@.lemma_filter_len(spred);
        }
        while i < self.population.len()
            invariant
                i <= self.population@.len(),
                self.wf(),
                area.wf(),
                count == self.population@.take(i as int).filter(spred).len(),
                count <= i,
                spred == (|p: Person|
                    spec_class_holds(class, p) && area.spec_contains(p.position)
                        && self.owned_patch.spec_contains(p.position)),
            decreases self.population@.len() - i,
        {
            let p = self.population[i];
            proof {
                lemma_filter_take_step(self.population@, i as int, spred);
            }
            let class_ok = match class {
                HealthClass::Susceptible => p.is_susceptible(),
                HealthClass::Infected => p.is_infected(),
                HealthClass::Infectious => p.is_infectious(),
                HealthClass::Recovered => p.is_recovered(),
            };
            if class_ok && area.contains(&p.position) && self.owned_patch.contains(&p.position) {
                count = count + 1;
            }
            i = i + 1;
        }
        proof {
            assert(self.population@.take(self.population@.len() as int) =~= self.population@);
        }
        count
    }

    /// Appends one statistics row per query: the four class counts restricted
    /// to the query area and the owned tile.
    pub fn extend_statistics(&mut self)
        requires
            old(self).wf(),
        ensures
            final(self).wf(),
            same_config(*old(self), *final(self)),
            final(self).population@ == old(self).population@,
            final(self).positions@ == old(self).positions@,
            final(self).ghosts@ == old(self).ghosts@,
            final(self).trace@ == old(self).trace@,
            final(self).statistics@.len() == old(self).statistics@.len(),
            forall|q: int|
                0 <= q < old(self).statistics@.len() ==> (#[trigger] final(self).statistics@[q])@
                    =~= old(self).statistics@[q]@.push(spec_query_stats(old(self).population@,
                    old(self).queries@[q].area, old(self).owned_patch)),
    {
        let mut q: usize = 0;
        while q < self.queries.len()
            invariant
                q <= self.queries@.len(),
                self.wf(),
                same_config(*old(self), *self),
                self.population@ == old(self).population@,
                self.positions@ == old(self).positions@,
                self.ghosts@ == old(self).ghosts@,
                self.trace@ == old(self).trace@,
                self.statistics@.len() == old(self).statistics@.len(),
                forall|k: int|
                    0 <= k < q ==> (#[trigger] self.statistics@[k])@
                        =~= old(self).statistics@[k]@.push(spec_query_stats(old(self).population@,
                        old(self).queries@[k].area, old(self).owned_patch)),
                forall|k: int|
                    q <= k < old(self).statistics@.len() ==> (#[trigger] self.statistics@[k])@
                        == old(self).statistics@[k]@,
            decreases self.queries@.len() - q,
        {
            let area = self.queries[q].area;
            let st = Statistics::new(
                self.count_persons(HealthClass::Susceptible, &area),
                self.count_persons(HealthClass::Infected, &area),
                self.count_persons(HealthClass::Infectious, &area),
                self.count_persons(HealthClass::Recovered, &area),
            );
            self.statistics[q].push(st);
            q = q + 1;
        }
    }

    /// Appends this tick's output: a trace entry of the owned persons (when
    /// tracing is on) and one statistics row per query.
    pub fn extend_output(&mut self)
        requires
            old(self).wf(),
        ensures
            final(self).wf(),
            same_config(*old(self), *final(self)),
            final(self).population@ == old(self).population@,
            final(self).positions@ == old(self).positions@,
            final(self).ghosts@ == old(self).ghosts@,
            final(self).trace@.len() == old(self).trace@.len() + if old(self).trace_enabled {
                1int
            } else {
                0int
            },
            forall|t: int|
                0 <= t < old(self).trace@.len() ==> final(self).trace@[t] == old(self).trace@[t],
            old(self).trace_enabled ==> final(self).trace@[old(self).trace@.len() as int]
                .population@ == spec_trace_records(old(self).population@, old(self).owned_patch),
            final(self).statistics@.len() == old(self).statistics@.len(),
            forall|q: int|
                0 <= q < old(self).statistics@.len() ==> (#[trigger] final(self).statistics@[q])@
                    =~= old(self).statistics@[q]@.push(spec_query_stats(old(self).population@,
                    old(self).queries@[q].area, old(self).owned_patch)),
    {
        if self.trace_enabled {
            let recs = trace_records(&self.population, &self.owned_patch);
            self.trace.push(TraceEntryWithId::new(recs));
        }
        self.extend_statistics();
    }

    /// Hands the accumulated trace and statistics to the driver; the worker
    /// is done.
    pub fn into_output(self) -> (r: OutputMod)
        ensures
            r.trace@ == self.trace@,
            r.statistics@ == self.statistics@,
    {
        OutputMod::new(self.trace, self.statistics)
    }
}

/// The positions index of a population list: the position of each member, in
/// the same order.
fn positions_of(ppl: &Vec<Person>) -> (r: Vec<Xy>)
    ensures
        r@.len() == ppl@.len(),
        forall|i: int| 0 <= i < ppl@.len() ==> r@[i] == (#[trigger] ppl@[i]).position,
{
    let mut r: Vec<Xy> = Vec::new();
    let mut i: usize = 0;
    while i < ppl.len()
        invariant
            i <= ppl@.len(),
            r@.len() == i,
            forall|k: int| 0 <= k < i ==> r@[k] == (#[trigger] ppl@[k]).position,
        decreases ppl@.len() - i,
    {
        r.push(ppl[i].position);
        i = i + 1;
    }
    r
}

/// A copy of the scenario's query list.
fn clone_queries(queries: &Vec<Query>) -> (r: Vec<Query>)
    ensures
        r@ == queries@,
{
    let mut r: Vec<Query> = Vec::new();
    let mut i: usize = 0;
    while i < queries.len()
        invariant
            i <= queries@.len(),
            r@ == queries@.take(i as int),
        decreases queries@.len() - i,
    {
        let q = &queries[i];
        r.push(Query { name: q.name.clone(), area: q.area });
        proof {
            assert(r@ =~= queries@.take(i as int + 1));
        }
        i = i + 1;
    }
    proof {
        assert(queries@.take(queries@.len() as int) =~= queries@);
    }
    r
}

/// The trace records of the owned persons, in population order.
fn trace_records(ppl: &Vec<Person>, owned: &Rectangle) -> (r: Vec<(PersonInfo, u64)>)
    requires
        owned.wf(),
    ensures
        r@ == spec_trace_records(ppl@, *owned),
{
    let mut r: Vec<(PersonInfo, u64)> = Vec::new();
    let mut i: usize = 0;
    proof {
        assert(ppl@.take(0).filter(|p: Person| owned.spec_contains(p.position))
            =~= Seq::<Person>::empty()) by {
            reveal_with_fuel(Seq::filter, 1);
            assert(ppl@.take(0) =~= Seq::<Person>::empty());
        }
        assert(r@ =~= spec_trace_records(ppl@.take(0), *owned));
    }
    while i < ppl.len()
        invariant
            i <= ppl@.len(),
            owned.wf(),
            r@ == spec_trace_records(ppl@.take(i as int), *owned),
        decreases ppl@.len() - i,
    {
        let p = ppl[i];
        proof {
            lemma_filter_take_step(ppl@, i as int, |q: Person| owned.spec_contains(q.position));
            if owned.spec_contains(p.position) {
                assert(filter_in_rect(ppl@.take(i as int), *owned).push(p).map_values(
                    |q: Person| (q.spec_info(), q.id),
                ) =~= spec_trace_records(ppl@.take(i as int), *owned).push(
                    (p.spec_info(), p.id),
                ));
            }
        }
        if owned.contains(&p.position) {
            r.push((p.info(), p.id));
        }
        i = i + 1;
    }
    proof {
        assert(ppl@.take(ppl@.len() as int) =~= ppl@);
    }
    r
}

/// A population is ordered by ascending person identifier.
pub open spec fn sorted_by_id(s: Seq<Person>) -> bool {
    forall|i: int, j: int| 0 <= i < j < s.len() ==> s[i].id <= s[j].id
}

/// No two members share an identifier.
pub open spec fn unique_ids(s: Seq<Person>) -> bool {
    forall|i: int, j: int| 0 <= i < j < s.len() ==> s[i].id != s[j].id
}

/// Inserting into a sequence adds one copy to its multiset.
pub proof fn lemma_insert_to_multiset<A>(s: Seq<A>, i: int, a: A)
    requires
        0 <= i <= s.len(),
    ensures
        s.insert(i, a).to_multiset() =~= s.to_multiset().insert(a),
{
    broadcast use vstd::multiset::group_multiset_axioms;

    let t = s.subrange(0, i);
    let u = s.subrange(i, s.len() as int);
    assert(s.insert(i, a) == t.push(a) + u);
    vstd::seq_lib::lemma_multiset_commutative(t.push(a), u);
    t.to_multiset_ensures();
    vstd::seq_lib::lemma_multiset_commutative(t, u);
    assert(t + u =~= s);
}

/// Sorts a population by ascending identifier; the result holds exactly the
/// members of the input.
pub fn sort_persons_by_id(v: &Vec<Person>) -> (r: Vec<Person>)
    ensures
        sorted_by_id(r@),
        r@.to_multiset() == v@.to_multiset(),
        r@.len() == v@.len(),
{
    let mut r: Vec<Person> = Vec::new();
    let mut i: usize = 0;
    proof {
        assert(r@ =~= v@.take(0));
        v@.take(0).to_multiset_ensures();
    }
    while i < v.len()
        invariant
            i <= v@.len(),
            r@.len() == i,
            sorted_by_id(r@),
            r@.to_multiset() == v@.take(i as int).to_multiset(),
        decreases v@.len() - i,
    {
        let p = v[i];
        let mut k: usize = r.len();
        while k > 0 && r[k - 1].id > p.id
            invariant
                k <= r@.len(),
                forall|j: int| k <= j < r@.len() ==> (#[trigger] r@[j]).id > p.id,
            decreases k,
        {
            k = k - 1;
        }
        let ghost r0 = r@;
        r.insert(k, p);
        proof {
            lemma_insert_to_multiset(r0, k as int, p);
            r0.insert_ensures(k as int, p);
            assert(v@.take(i as int + 1) =~= v@.take(i as int).push(p));
            v@.take(i as int).to_multiset_ensures();
            assert(r@.to_multiset() =~= v@.take(i as int + 1).to_multiset());
            assert forall|a: int, b: int| 0 <= a < b < r@.len() implies r@[a].id <= r@[b].id by {
                if b < k {
                    assert(r@[a] == r0[a] && r@[b] == r0[b]);
                } else if a > k {
                    assert(r@[a] == r0[a - 1] && r@[b] == r0[b - 1]);
                } else if a == k {
                    assert(r@[a] == p && r@[b] == r0[b - 1]);
                    assert(r0[b - 1].id > p.id);
                } else if b == k {
                    assert(r@[b] == p && r@[a] == r0[a]);
                    assert(r0[k - 1].id <= p.id);
                    if a < k - 1 {
                        assert(r0[a].id <= r0[k - 1].id);
                    }
                } else {
                    assert(r@[a] == r0[a]);
                    assert(r@[b] == r0[b - 1]);
                    assert(r0[k - 1].id <= p.id);
                    if a < k - 1 {
                        assert(r0[a].id <= r0[k - 1].id);
                    }
                    assert(r0[b - 1].id > p.id);
                }
            }
        }
        i = i + 1;
    }
    proof {
        assert(v@.take(v@.len() as int) =~= v@);
    }
    r
}

/// A pair is lexicographically before another.
pub open spec fn lex_pair_less(a: (usize, usize), b: (usize, usize)) -> bool {
    a.0 < b.0 || (a.0 == b.0 && a.1 < b.1)
}

impl Patch {
    /// Restores the population order after a sync: the merged population is
    /// re-sorted by person identifier and the positions index is rebuilt, so
    /// that the per-person tick order is deterministic again.
    pub fn sync_finish(&mut self)
        requires
            old(self).wf(),
        ensures
            final(self).wf(),
            same_config(*old(self), *final(self)),
            sorted_by_id(final(self).population@),
            final(self).population@.to_multiset() == old(self).population@.to_multiset(),
            final(self).population@.len() == old(self).population@.len(),
            final(self).ghosts@ == old(self).ghosts@,
            final(self).trace@ == old(self).trace@,
            final(self).statistics@ == old(self).statistics@,
    {
        let sorted = sort_persons_by_id(&self.population);
        self.population = sorted;
        self.positions = positions_of(&self.population);
        proof {
            self.population@.to_multiset_ensures();
            old(self).population@.to_multiset_ensures();
            assert forall|i: int| 0 <= i < self.population@.len() implies self.padded_patch
                .spec_contains((#[trigger] self.population@[i]).position) by {
                let q = self.population@[i];
                assert(self.population@.contains(q));
                assert(self.population@.to_multiset().count(q) > 0);
                assert(old(self).population@.contains(q));
                let k = choose|k: int|
                    0 <= k < old(self).population@.len() && old(self).population@[k] == q;
                assert(old(self).padded_patch.spec_contains(old(self).population@[k].position));
            }
        }
    }

    /// The unordered pairs of patch-local persons within infection range of
    /// each other, in ascending lexicographic order.  The contagion sweep
    /// evaluates, for each such pair, both infection directions.
    pub fn contagion_pairs(&self) -> (r: Vec<(usize, usize)>)
        requires
            self.wf(),
        ensures
            forall|k: int|
                0 <= k < r@.len() ==> (#[trigger] r@[k]).0 < r@[k].1 && r@[k].1
                    < self.population@.len() && spec_close(self.population@[r@[k].0 as int],
                    self.population@[r@[k].1 as int], self.infection_radius as int),
            forall|a: usize, b: usize|
                a < b && b < self.population@.len() && spec_close(self.population@[a as int],
                    self.population@[b as int], self.infection_radius as int) ==> r@.contains(
                    (a, b)),
            forall|k1: int, k2: int|
                0 <= k1 < k2 < r@.len() ==> lex_pair_less(#[trigger] r@[k1], #[trigger] r@[k2]),
    {
        let n = self.population.len();
        let mut r: Vec<(usize, usize)> = Vec::new();
        let mut i: usize = 0;
        while i < n
            invariant
                i <= n,
                n == self.population@.len(),
                self.wf(),
                forall|k: int|
                    0 <= k < r@.len() ==> (#[trigger] r@[k]).0 < r@[k].1 && r@[k].1 < n
                        && spec_close(self.population@[r@[k].0 as int],
                        self.population@[r@[k].1 as int], self.infection_radius as int),
                forall|a: usize, b: usize|
                    a < b && b < n && a < i && spec_close(self.population@[a as int],
                        self.population@[b as int], self.infection_radius as int) ==> r@.contains(
                        (a, b)),
                forall|k1: int, k2: int|
                    0 <= k1 < k2 < r@.len() ==> lex_pair_less(#[trigger] r@[k1], #[trigger] r@[k2]),
                forall|k: int| 0 <= k < r@.len() ==> (#[trigger] r@[k]).0 < i,
            decreases n - i,
        {
            let mut j: usize = i + 1;
            while j < n
                invariant
                    i < n,
                    i + 1 <= j <= n,
                    n == self.population@.len(),
                    self.wf(),
                    forall|k: int|
                        0 <= k < r@.len() ==> (#[trigger] r@[k]).0 < r@[k].1 && r@[k].1 < n
                            && spec_close(self.population@[r@[k].0 as int],
                            self.population@[r@[k].1 as int], self.infection_radius as int),
                    forall|a: usize, b: usize|
                        a < b && b < n && (a < i || (a == i && b < j)) && spec_close(
                            self.population@[a as int], self.population@[b as int],
                            self.infection_radius as int) ==> r@.contains((a, b)),
                    forall|k1: int, k2: int|
                        0 <= k1 < k2 < r@.len() ==> lex_pair_less(#[trigger] r@[k1],
                            #[trigger] r@[k2]),
                    forall|k: int|
                        0 <= k < r@.len() ==> (#[trigger] r@[k]).0 < i || ((#[trigger] r@[k]).0
                            == i && r@[k].1 < j),
                decreases n - j,
            {
                let pi = self.population[i].position;
                let pj = self.population[j].position;
                let dx = if pi.x >= pj.x {
                    pi.x - pj.x
                } else {
                    pj.x - pi.x
                };
                let dy = if pi.y >= pj.y {
                    pi.y - pj.y
                } else {
                    pj.y - pi.y
                };
                let ghost r0 = r@;
                if (dx + dy) as u64 <= self.infection_radius as u64 {
                    r.push((i, j));
                    proof {
                        assert(r@ == r0.push((i, j)));
                        assert(forall|k: int| 0 <= k < r0.len() ==> r@[k] == r0[k]);
                        assert(r@[r0.len() as int] == (i, j));
                        assert(spec_close(self.population@[i as int], self.population@[j as int],
                            self.infection_radius as int));
                    }
                }
                proof {
                    assert forall|a: usize, b: usize|
                        a < b && b < n && (a < i || (a == i && b < j + 1)) && spec_close(
                            self.population@[a as int], self.population@[b as int],
                            self.infection_radius as int) implies r@.contains((a, b)) by {
                        if a == i && b == j {
                            assert(r@[r@.len() - 1] == (a, b));
                        } else {
                            assert(r0.contains((a, b)));
                            let k = choose|k: int| 0 <= k < r0.len() && r0[k] == (a, b);
                            assert(r@[k] == (a, b));
                        }
                    }
                }
                j = j + 1;
            }
            i = i + 1;
        }
        r
    }

    /// Whether person `i` infects person `j` this tick: they stand within the
    /// infection radius, the source is infectious and coughing, and the
    /// target is breathing.  The infection itself is applied by the external
    /// person rule and recorded with [`Patch::set_health`].
    pub fn should_infect(&self, i: usize, j: usize) -> (r: bool)
        requires
            self.wf(),
            i < self.population@.len(),
            j < self.population@.len(),
        ensures
            r == (spec_close(self.population@[i as int], self.population@[j as int],
                self.infection_radius as int) && self.population@[i as int].health.infectious
                && self.population@[i as int].health.coughing
                && self.population@[j as int].health.breathing),
    {
        let pi = self.population[i].position;
        let pj = self.population[j].position;
        let dx = if pi.x >= pj.x {
            pi.x - pj.x
        } else {
            pj.x - pi.x
        };
        let dy = if pi.y >= pj.y {
            pi.y - pj.y
        } else {
            pj.y - pi.y
        };
        (dx + dy) as u64 <= self.infection_radius as u64 && self.population[i].is_infectious()
            && self.population[i].is_coughing() && self.population[j].is_breathing()
    }
}

} // verus!
