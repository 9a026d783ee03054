//! The partial output one patch accumulates and hands to the driver.

use vstd::prelude::*;

use crate::model::{PersonInfo, Statistics};

verus! {

/// One tick's trace as a patch records it: the persons it owned at that tick,
/// each with its identifier so that the driver can order the merged trace.
#[derive(Clone, PartialEq, Eq, Debug, Default)]
pub struct TraceEntryWithId {
    pub population: Vec<(PersonInfo, u64)>,
}

impl TraceEntryWithId {
    pub fn new(population: Vec<(PersonInfo, u64)>) -> (r: TraceEntryWithId)
        ensures
            r.population@ == population@,
    {
        TraceEntryWithId { population }
    }
}

/// A patch's whole contribution: one trace entry per tick (when tracing is
/// on) and one statistics row per query of the scenario, indexed as the
/// scenario's queries are.
#[derive(Clone, PartialEq, Eq, Debug)]
pub struct OutputMod {
    pub statistics: Vec<Vec<Statistics>>,
    pub trace: Vec<TraceEntryWithId>,
}

impl OutputMod {
    pub fn new(trace: Vec<TraceEntryWithId>, statistics: Vec<Vec<Statistics>>) -> (r: OutputMod)
        ensures
            r.trace@ == trace@,
            r.statistics@ == statistics@,
    {
        OutputMod { trace, statistics }
    }
}

} // verus!
