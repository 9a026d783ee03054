//! The data model of the simulation: persons, scenario, partition, queries,
//! statistics, and the final output.
//!
//! A person here is the observable record the driver works with: a stable
//! identifier, a grid position, and the health predicates that the contagion
//! sweep and the statistics read.  Moving a person and driving its health
//! state machine forward are the business of the single-person rule outside
//! this crate; the driver only records the outcomes.

use vstd::prelude::*;

use crate::geometry::{Rectangle, Xy, COORD_LIMIT};

verus! {

/// The health predicates of one person, as the driver observes them.
#[derive(Clone, Copy, PartialEq, Eq, Structural, Debug)]
pub struct Health {
    pub susceptible: bool,
    pub infected: bool,
    pub infectious: bool,
    pub coughing: bool,
    pub breathing: bool,
    pub recovered: bool,
}

/// What a trace records about one person: its position and health.
#[derive(Clone, Copy, PartialEq, Eq, Structural, Debug)]
pub struct PersonInfo {
    pub position: Xy,
    pub health: Health,
}

/// One member of a patch-local population.
#[derive(Clone, Copy, PartialEq, Eq, Structural, Debug)]
pub struct Person {
    pub id: u64,
    pub position: Xy,
    pub health: Health,
}

impl Person {
    pub open spec fn spec_info(self) -> PersonInfo {
        PersonInfo { position: self.position, health: self.health }
    }

    pub fn new(id: u64, info: &PersonInfo) -> (r: Person)
        ensures
            r.id == id,
            r.spec_info() == *info,
    {
        Person { id, position: info.position, health: info.health }
    }

    pub fn info(&self) -> (r: PersonInfo)
        ensures
            r == self.spec_info(),
    {
        PersonInfo { position: self.position, health: self.health }
    }

    pub fn is_susceptible(&self) -> (r: bool)
        ensures
            r == self.health.susceptible,
    {
        self.health.susceptible
    }

    pub fn is_infected(&self) -> (r: bool)
        ensures
            r == self.health.infected,
    {
        self.health.infected
    }

    pub fn is_infectious(&self) -> (r: bool)
        ensures
            r == self.health.infectious,
    {
        self.health.infectious
    }

    pub fn is_coughing(&self) -> (r: bool)
        ensures
            r == self.health.coughing,
    {
        self.health.coughing
    }

    pub fn is_breathing(&self) -> (r: bool)
        ensures
            r == self.health.breathing,
    {
        self.health.breathing
    }

    pub fn is_recovered(&self) -> (r: bool)
        ensures
            r == self.health.recovered,
    {
        self.health.recovered
    }
}

/// The initial population: one person per scenario record, with identifiers
/// assigned in scenario order.
pub fn persons_of(infos: &Vec<PersonInfo>) -> (r: Vec<Person>)
    requires
        infos@.len() <= u64::MAX,
    ensures
        r@.len() == infos@.len(),
        forall|i: int|
            0 <= i < infos@.len() ==> (#[trigger] r@[i]).id == i && r@[i].spec_info()
                == infos@[i],
{
    let mut r: Vec<Person> = Vec::new();
    let mut i: usize = 0;
    while i < infos.len()
        invariant
            i <= infos@.len(),
            infos@.len() <= u64::MAX,
            r@.len() == i,
            forall|k: int|
                0 <= k < i ==> (#[trigger] r@[k]).id == k && r@[k].spec_info() == infos@[k],
        decreases infos@.len() - i,
    {
        r.push(Person::new(i as u64, &infos[i]));
        i = i + 1;
    }
    r
}

/// Aggregate counts over one query rectangle at one tick.
#[derive(Clone, Copy, PartialEq, Eq, Structural, Debug)]
pub struct Statistics {
    pub susceptible: u64,
    pub infected: u64,
    pub infectious: u64,
    pub recovered: u64,
}

impl Statistics {
    pub fn new(susceptible: u64, infected: u64, infectious: u64, recovered: u64) -> (r: Statistics)
        ensures
            r == (Statistics { susceptible, infected, infectious, recovered }),
    {
        Statistics { susceptible, infected, infectious, recovered }
    }

    /// Field-wise accumulation, used when the driver merges per-patch counts.
    pub fn add(&mut self, other: &Statistics)
        requires
            old(self).susceptible + other.susceptible <= u64::MAX,
            old(self).infected + other.infected <= u64::MAX,
            old(self).infectious + other.infectious <= u64::MAX,
            old(self).recovered + other.recovered <= u64::MAX,
        ensures
            final(self).susceptible == old(self).susceptible + other.susceptible,
            final(self).infected == old(self).infected + other.infected,
            final(self).infectious == old(self).infectious + other.infectious,
            final(self).recovered == old(self).recovered + other.recovered,
    {
        self.susceptible = self.susceptible + other.susceptible;
        self.infected = self.infected + other.infected;
        self.infectious = self.infectious + other.infectious;
        self.recovered = self.recovered + other.recovered;
    }
}

/// A sequence is strictly increasing.
pub open spec fn strictly_increasing(s: Seq<i64>) -> bool {
    forall|i: int, j: int| 0 <= i < j < s.len() ==> s[i] < s[j]
}

/// Interior split coordinates lie strictly inside `(0, extent)` and increase.
pub open spec fn interior_splits_wf(s: Seq<i64>, extent: i64) -> bool {
    &&& strictly_increasing(s)
    &&& forall|i: int| 0 <= i < s.len() ==> 0 < #[trigger] s[i] < extent
}

/// Split coordinates extended with the grid bounds: they start at `0`, end at
/// the grid extent, and increase strictly.
pub open spec fn splits_wf(s: Seq<i64>) -> bool {
    &&& 2 <= s.len()
    &&& s[0] == 0
    &&& strictly_increasing(s)
    &&& s[s.len() - 1] <= COORD_LIMIT as int
}

/// The split coordinates of the grid partition on each axis.
#[derive(Clone, PartialEq, Eq, Debug)]
pub struct Partition {
    pub x: Vec<i64>,
    pub y: Vec<i64>,
}

impl Partition {
    pub fn new(x: Vec<i64>, y: Vec<i64>) -> (r: Partition)
        ensures
            r.x@ == x@,
            r.y@ == y@,
    {
        Partition { x, y }
    }

    /// Both axes carry interior splits for a grid of the given size.
    pub open spec fn interior_wf(self, grid_size: Xy) -> bool {
        &&& interior_splits_wf(self.x@, grid_size.x)
        &&& interior_splits_wf(self.y@, grid_size.y)
    }

    /// Both axes carry bound-extended splits.
    pub open spec fn wf(self) -> bool {
        &&& splits_wf(self.x@)
        &&& splits_wf(self.y@)
    }

    /// The interior splits with the grid bounds added on both ends: the patch
    /// tiles on one axis span consecutive entries of the result.
    pub fn with_bounds(&self, grid_size: Xy) -> (r: Partition)
        requires
            self.interior_wf(grid_size),
            0 < grid_size.x <= COORD_LIMIT as int,
            0 < grid_size.y <= COORD_LIMIT as int,
        ensures
            r.x@ == seq![0i64] + self.x@ + seq![grid_size.x],
            r.y@ == seq![0i64] + self.y@ + seq![grid_size.y],
            r.wf(),
    {
        let x = extend_axis(&self.x, grid_size.x);
        let y = extend_axis(&self.y, grid_size.y);
        Partition { x, y }
    }
}

/// One axis of interior splits with the grid bounds added on both ends.
fn extend_axis(s: &Vec<i64>, extent: i64) -> (r: Vec<i64>)
    requires
        interior_splits_wf(s@, extent),
        0 < extent <= COORD_LIMIT as int,
    ensures
        r@ == seq![0i64] + s@ + seq![extent],
        splits_wf(r@),
{
    let mut r: Vec<i64> = Vec::new();
    r.push(0);
    let mut i: usize = 0;
    while i < s.len()
        invariant
            i <= s.len(),
            r@ == seq![0i64] + s@.take(i as int),
            interior_splits_wf(s@, extent),
        decreases s.len() - i,
    {
        r.push(s[i]);
        proof {
            assert(r@ =~= seq![0i64] + s@.take(i + 1));
        }
        i = i + 1;
    }
    proof {
        assert(s@.take(s@.len() as int) =~= s@);
    }
    r.push(extent);
    proof {
        assert(r@ =~= seq![0i64] + s@ + seq![extent]);
    }
    r
}

/// A named query rectangle for the per-tick statistics.
#[derive(Clone, PartialEq, Eq, Debug)]
pub struct Query {
    pub name: String,
    pub area: Rectangle,
}

/// The pathogen parameters the driver consults.
#[derive(Clone, Copy, PartialEq, Eq, Structural, Debug)]
pub struct Parameters {
    pub infection_radius: usize,
    pub incubation_time: usize,
}

/// Everything a simulation run is given: the grid, its partition, the
/// obstacles, the queries, the tick count, and the initial population.
#[derive(Clone, PartialEq, Eq, Debug)]
pub struct Scenario {
    pub parameters: Parameters,
    pub grid_size: Xy,
    pub partition: Partition,
    pub obstacles: Vec<Rectangle>,
    pub queries: Vec<Query>,
    pub trace: bool,
    pub ticks: usize,
    pub population: Vec<PersonInfo>,
}

impl Scenario {
    pub open spec fn grid_rect(self) -> Rectangle {
        Rectangle { origin: Xy { x: 0, y: 0 }, size: self.grid_size }
    }

    pub open spec fn wf(self) -> bool {
        &&& 0 < self.grid_size.x <= COORD_LIMIT as int
        &&& 0 < self.grid_size.y <= COORD_LIMIT as int
        &&& self.partition.interior_wf(self.grid_size)
        &&& forall|i: int| 0 <= i < self.obstacles@.len() ==> (#[trigger] self.obstacles@[i]).wf()
        &&& forall|i: int| 0 <= i < self.queries@.len() ==> (#[trigger] self.queries@[i]).area.wf()
    }

    /// How many patches the partition defines: one per column and row pair.
    pub open spec fn spec_patch_count(self) -> int {
        (self.partition.x@.len() + 1) * (self.partition.y@.len() + 1) as int
    }
}

/// The X splits of a scenario extended with the grid bounds.
pub open spec fn spec_ext_xs(s: Scenario) -> Seq<i64> {
    seq![0i64] + s.partition.x@ + seq![s.grid_size.x]
}

/// The Y splits of a scenario extended with the grid bounds.
pub open spec fn spec_ext_ys(s: Scenario) -> Seq<i64> {
    seq![0i64] + s.partition.y@ + seq![s.grid_size.y]
}

/// The globally ordered trace of one tick: every person's record, in
/// ascending order of person identifier.
#[derive(Clone, PartialEq, Eq, Debug, Default)]
pub struct TraceEntry {
    pub population: Vec<PersonInfo>,
}

impl TraceEntry {
    pub fn new(population: Vec<PersonInfo>) -> (r: TraceEntry)
        ensures
            r.population@ == population@,
    {
        TraceEntry { population }
    }
}

/// The result of a run: the scenario it came from, one trace entry per tick
/// (when tracing is on), and one statistics row per query, indexed as the
/// scenario's queries are.
#[derive(Clone, PartialEq, Eq, Debug)]
pub struct Output {
    pub scenario: Scenario,
    pub trace: Vec<TraceEntry>,
    pub statistics: Vec<Vec<Statistics>>,
}

impl Output {
    pub fn new(scenario: Scenario, trace: Vec<TraceEntry>, statistics: Vec<Vec<Statistics>>) -> (r:
        Output)
        ensures
            r.scenario == scenario,
            r.trace@ == trace@,
            r.statistics@ == statistics@,
    {
        Output { scenario, trace, statistics }
    }
}

} // verus!
