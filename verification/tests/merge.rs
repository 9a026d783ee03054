use spread_sim_rocket::driver::{
    merge_outputs, overlap_pairs, patch_areas, sort_merged_trace, sort_trace_records,
    strip_trace_ids,
};
use spread_sim_rocket::geometry::{Rectangle, Xy};
use spread_sim_rocket::model::{Health, Partition, PersonInfo, Statistics};
use spread_sim_rocket::util::{OutputMod, TraceEntryWithId};

fn info(x: i64, y: i64) -> PersonInfo {
    PersonInfo {
        position: Xy::new(x, y),
        health: Health {
            susceptible: true,
            infected: false,
            infectious: false,
            coughing: false,
            breathing: true,
            recovered: false,
        },
    }
}

fn stat(s: u64, i: u64, ix: u64, r: u64) -> Statistics {
    Statistics {
        susceptible: s,
        infected: i,
        infectious: ix,
        recovered: r,
    }
}

#[test]
fn patch_areas_covers_every_patch() {
    let splits = Partition::new(vec![0, 5, 10], vec![0, 5, 10]);
    let (padded, owned) = patch_areas(&splits, 2);
    assert_eq!(padded.len(), 4);
    assert_eq!(owned.len(), 4);
    assert_eq!(owned[3], Rectangle::new(Xy::new(5, 5), Xy::new(5, 5)));
    assert_eq!(padded[3], Rectangle::new(Xy::new(3, 3), Xy::new(7, 7)));
    assert_eq!(owned[0], Rectangle::new(Xy::new(0, 0), Xy::new(5, 5)));
    assert_eq!(padded[0], Rectangle::new(Xy::new(0, 0), Xy::new(7, 7)));
}

#[test]
fn overlap_pairs_finds_halo_neighbors() {
    let splits = Partition::new(vec![0, 5, 10], vec![0, 10]);
    let (padded, owned) = patch_areas(&splits, 3);
    let pairs = overlap_pairs(&padded, &owned);
    assert_eq!(pairs, vec![(0, 1)]);
}

#[test]
fn overlap_pairs_empty_for_single_patch() {
    let splits = Partition::new(vec![0, 10], vec![0, 10]);
    let (padded, owned) = patch_areas(&splits, 3);
    let pairs = overlap_pairs(&padded, &owned);
    assert_eq!(pairs, Vec::<(usize, usize)>::new());
}

#[test]
fn merge_outputs_concatenates_and_sums() {
    let mut acc = OutputMod::new(
        vec![TraceEntryWithId::new(vec![(info(1, 1), 0), (info(2, 2), 2)])],
        vec![vec![stat(2, 0, 0, 0)]],
    );
    let part = OutputMod::new(
        vec![TraceEntryWithId::new(vec![(info(6, 1), 1)])],
        vec![vec![stat(1, 1, 0, 3)]],
    );
    merge_outputs(&mut acc, &part);
    let ids: Vec<u64> = acc.trace[0].population.iter().map(|r| r.1).collect();
    assert_eq!(ids, vec![0, 2, 1]);
    assert_eq!(acc.statistics[0][0], stat(3, 1, 0, 3));
}

#[test]
fn sort_trace_records_orders_by_id() {
    let v = vec![(info(3, 3), 7u64), (info(1, 1), 2u64), (info(2, 2), 5u64)];
    let sorted = sort_trace_records(&v);
    let ids: Vec<u64> = sorted.iter().map(|r| r.1).collect();
    assert_eq!(ids, vec![2, 5, 7]);
    assert_eq!(sorted[0].0, info(1, 1));
}

#[test]
fn merged_trace_is_canonical_whatever_the_arrival_order() {
    // Merging the two partial outputs in either order gives the same final
    // trace once it is sorted: the driver's output does not depend on which
    // worker finishes first.
    let a = OutputMod::new(
        vec![TraceEntryWithId::new(vec![(info(1, 1), 0), (info(2, 2), 2)])],
        vec![vec![stat(2, 0, 0, 0)]],
    );
    let b = OutputMod::new(
        vec![TraceEntryWithId::new(vec![(info(6, 1), 1)])],
        vec![vec![stat(1, 0, 0, 0)]],
    );
    let mut ab = a.clone();
    merge_outputs(&mut ab, &b);
    sort_merged_trace(&mut ab);
    let mut ba = b.clone();
    merge_outputs(&mut ba, &a);
    sort_merged_trace(&mut ba);
    assert_eq!(ab.trace, ba.trace);
    assert_eq!(ab.statistics, ba.statistics);
}

#[test]
fn strip_trace_ids_keeps_infos_in_order() {
    let out = OutputMod::new(
        vec![TraceEntryWithId::new(vec![
            (info(1, 1), 0),
            (info(2, 2), 1),
        ])],
        vec![],
    );
    let entries = strip_trace_ids(&out);
    assert_eq!(entries.len(), 1);
    assert_eq!(entries[0].population, vec![info(1, 1), info(2, 2)]);
}

#[test]
fn statistics_add_sums_fields() {
    let mut a = stat(1, 2, 3, 4);
    a.add(&stat(10, 20, 30, 40));
    assert_eq!(a, stat(11, 22, 33, 44));
}
