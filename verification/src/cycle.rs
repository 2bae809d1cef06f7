//! The yearly cycle on the whole grid: every cell lives its year, then the
//! staged migrations are resolved.

use vstd::prelude::*;
use crate::animal::Health;
use crate::animal::carnivore_constants;
use crate::animal::carnivore_params;
use crate::animal::herbivore_constants;
use crate::animal::herbivore_params;
use crate::biosim::BioSim;
use crate::biosim::YearTally;
use crate::biosim::animals_in;
use crate::biosim::carnivores_in;
use crate::biosim::first_at;
use crate::biosim::herbivores_in;
use crate::biosim::lemma_cell_within_total;
use crate::biosim::lemma_counts_change;
use crate::biosim::lemma_counts_grow;
use crate::biosim::lemma_counts_nonnegative;
use crate::biosim::lemma_same_first_at;
use crate::chart::closed;
use crate::chart::present;
use crate::herd::arrived;
use crate::herd::lemma_filter_all;
use crate::herd::records;
use crate::herd::stayers;
use crate::landscape::AnimalCount;
use crate::landscape::Coord;
use crate::landscape::Emigrants;
use crate::landscape::LandCell;
use crate::landscape::YearDraws;
use crate::landscape::YearReport;
use crate::landscape::dealt;
use crate::landscape::lemma_year_determined;
use crate::landscape::sample_birth_weights;
use crate::landscape::sampled;
use crate::landscape::year_with;
use crate::util::copy_range;

verus! {

/// The number of herbivores that are staged to leave the first `k` cells.
pub open spec fn leaving_herbivores(stage: Seq<Option<Emigrants>>, k: int) -> int
    decreases k,
{
    if k <= 0 {
        0
    } else {
        leaving_herbivores(stage, k - 1) + match stage[k - 1] {
            Some(e) => e.herbivores@.len() as int,
            None => 0,
        }
    }
}

/// The number of carnivores that are staged to leave the first `k` cells.
pub open spec fn leaving_carnivores(stage: Seq<Option<Emigrants>>, k: int) -> int
    decreases k,
{
    if k <= 0 {
        0
    } else {
        leaving_carnivores(stage, k - 1) + match stage[k - 1] {
            Some(e) => e.carnivores@.len() as int,
            None => 0,
        }
    }
}

/// The numbers that are staged to leave grow with the cells counted.
pub proof fn lemma_leaving_grows(stage: Seq<Option<Emigrants>>, k: int, n: int)
    requires
        0 <= k <= n,
    ensures
        0 <= leaving_herbivores(stage, k) <= leaving_herbivores(stage, n),
        0 <= leaving_carnivores(stage, k) <= leaving_carnivores(stage, n),
    decreases n,
{
    if n > 0 {
        if k < n {
            lemma_leaving_grows(stage, k, n - 1);
        } else {
            lemma_leaving_grows(stage, k - 1, n - 1);
        }
    }
}

/// Those that leave a cell are alive, each has a destination, and every
/// destination is a neighbour of the cell.
pub open spec fn routed(e: Emigrants, cell: LandCell) -> bool {
    &&& e.herbivores@.len() == e.herbivore_routes@.len()
    &&& e.carnivores@.len() == e.carnivore_routes@.len()
    &&& crate::herd::all_alive(crate::herd::records(e.herbivores@))
    &&& crate::herd::all_alive(crate::herd::records(e.carnivores@))
    &&& forall|i: int|
        0 <= i < e.herbivore_routes@.len() ==> cell.land_cell_neighbors@.contains(
            #[trigger] e.herbivore_routes@[i],
        )
    &&& forall|i: int|
        0 <= i < e.carnivore_routes@.len() ==> cell.land_cell_neighbors@.contains(
            #[trigger] e.carnivore_routes@[i],
        )
}

/// A grid on the same ground as a closed one is closed.
pub proof fn lemma_closed_same_ground(before: Seq<LandCell>, after: Seq<LandCell>)
    requires
        closed(before),
        before.len() == after.len(),
        forall|i: int| 0 <= i < after.len() ==> (#[trigger] after[i]).same_ground(&before[i]),
    ensures
        closed(after),
{
    assert forall|i: int, k: int|
        0 <= i < after.len() && 0 <= k < after[i].land_cell_neighbors@.len() implies present(
        after,
        #[trigger] after[i].land_cell_neighbors@[k],
    ) by {
        assert(after[i].same_ground(&before[i]));
        let place = before[i].land_cell_neighbors@[k];
        assert(present(before, place));
        let j = choose|j: int| 0 <= j < before.len() && (#[trigger] before[j]).location == place;
        assert(after[j].same_ground(&before[j]));
    }
}

/// The herbivores among the first `k` that left a cell which go to cell
/// `j`, as they arrive there, in their order.
pub open spec fn routed_herd(e: Emigrants, cells: Seq<LandCell>, j: int, k: int) -> Seq<Health>
    decreases k,
{
    if k <= 0 {
        Seq::empty()
    } else if first_at(cells, e.herbivore_routes@[k - 1]) == j {
        routed_herd(e, cells, j, k - 1).push(arrived(e.herbivores@[k - 1].health))
    } else {
        routed_herd(e, cells, j, k - 1)
    }
}

/// The carnivores among the first `k` that left a cell which go to cell
/// `j`, as they arrive there, in their order.
pub open spec fn routed_pack(e: Emigrants, cells: Seq<LandCell>, j: int, k: int) -> Seq<Health>
    decreases k,
{
    if k <= 0 {
        Seq::empty()
    } else if first_at(cells, e.carnivore_routes@[k - 1]) == j {
        routed_pack(e, cells, j, k - 1).push(arrived(e.carnivores@[k - 1].health))
    } else {
        routed_pack(e, cells, j, k - 1)
    }
}

/// The herbivores that go to cell `j` from the first `n` cells, as they
/// arrive there: cell by cell, and from each cell in their order.
pub open spec fn inflow_herd(stage: Seq<Option<Emigrants>>, cells: Seq<LandCell>, j: int, n: int) -> Seq<
    Health,
>
    decreases n,
{
    if n <= 0 {
        Seq::empty()
    } else {
        inflow_herd(stage, cells, j, n - 1) + match stage[n - 1] {
            Some(e) => routed_herd(e, cells, j, e.herbivores@.len() as int),
            None => Seq::empty(),
        }
    }
}

/// The carnivores that go to cell `j` from the first `n` cells, as they
/// arrive there.
pub open spec fn inflow_pack(stage: Seq<Option<Emigrants>>, cells: Seq<LandCell>, j: int, n: int) -> Seq<
    Health,
>
    decreases n,
{
    if n <= 0 {
        Seq::empty()
    } else {
        inflow_pack(stage, cells, j, n - 1) + match stage[n - 1] {
            Some(e) => routed_pack(e, cells, j, e.carnivores@.len() as int),
            None => Seq::empty(),
        }
    }
}

/// Where those that left go depends on the places of the cells only.
pub proof fn lemma_routed_same_ground(
    e: Emigrants,
    before: Seq<LandCell>,
    after: Seq<LandCell>,
    origin: int,
    j: int,
    k: int,
)
    requires
        before.len() == after.len(),
        forall|i: int| 0 <= i < after.len() ==> (#[trigger] after[i]).same_ground(&before[i]),
        closed(before),
        0 <= origin < before.len(),
        routed(e, before[origin]),
        0 <= k,
        k <= e.herbivores@.len() || k <= e.carnivores@.len(),
    ensures
        k <= e.herbivores@.len() ==> routed_herd(e, after, j, k) == routed_herd(e, before, j, k),
        k <= e.carnivores@.len() ==> routed_pack(e, after, j, k) == routed_pack(e, before, j, k),
    decreases k,
{
    if k > 0 {
        if k - 1 <= e.herbivores@.len() || k - 1 <= e.carnivores@.len() {
            lemma_routed_same_ground(e, before, after, origin, j, k - 1);
        }
        if k <= e.herbivores@.len() {
            lemma_route_present(e.herbivore_routes@[k - 1], before, origin);
            lemma_same_first_at(before, after, e.herbivore_routes@[k - 1]);
        }
        if k <= e.carnivores@.len() {
            lemma_route_present(e.carnivore_routes@[k - 1], before, origin);
            lemma_same_first_at(before, after, e.carnivore_routes@[k - 1]);
        }
    }
}

/// A neighbour that a cell of a closed grid names is the place of a cell.
pub proof fn lemma_route_present(place: Coord, cells: Seq<LandCell>, origin: int)
    requires
        closed(cells),
        0 <= origin < cells.len(),
        cells[origin].land_cell_neighbors@.contains(place),
    ensures
        present(cells, place),
{
    let q = choose|q: int|
        0 <= q < cells[origin].land_cell_neighbors@.len() && cells[origin].land_cell_neighbors@[q]
            == place;
    assert(present(cells, cells[origin].land_cell_neighbors@[q]));
}

/// Where everyone goes depends on the places of the cells only.
pub proof fn lemma_inflow_same_ground(
    stage: Seq<Option<Emigrants>>,
    before: Seq<LandCell>,
    after: Seq<LandCell>,
    j: int,
    n: int,
)
    requires
        before.len() == after.len(),
        forall|i: int| 0 <= i < after.len() ==> (#[trigger] after[i]).same_ground(&before[i]),
        closed(before),
        0 <= n <= before.len(),
        n <= stage.len(),
        forall|i: int|
            0 <= i < n ==> match #[trigger] stage[i] {
                None => true,
                Some(e) => routed(e, before[i]),
            },
    ensures
        inflow_herd(stage, after, j, n) == inflow_herd(stage, before, j, n),
        inflow_pack(stage, after, j, n) == inflow_pack(stage, before, j, n),
    decreases n,
{
    if n > 0 {
        lemma_inflow_same_ground(stage, before, after, j, n - 1);
        match stage[n - 1] {
            Some(e) => {
                lemma_routed_same_ground(e, before, after, n - 1, j, e.herbivores@.len() as int);
                lemma_routed_same_ground(e, before, after, n - 1, j, e.carnivores@.len() as int);
            },
            None => {},
        }
    }
}

/// The birth weights that fall to the herbivores of cell `i`: the weights
/// are dealt out cell by cell, one for each herbivore at the start of the
/// year.
pub open spec fn herbivore_share(cells: Seq<LandCell>, weights: Seq<u64>, i: int) -> Seq<u64> {
    weights.subrange(herbivores_in(cells, i), herbivores_in(cells, i + 1))
}

/// The birth weights that fall to the carnivores of cell `i`.
pub open spec fn carnivore_share(cells: Seq<LandCell>, weights: Seq<u64>, i: int) -> Seq<u64> {
    weights.subrange(carnivores_in(cells, i), carnivores_in(cells, i + 1))
}

/// The sum over one report more is the sum plus what is taken from that
/// report.
proof fn lemma_sum_of_push(reports: Seq<YearReport>, last: YearReport, pick: spec_fn(YearReport) -> int)
    ensures
        sum_of(reports.push(last), pick, reports.len() as int + 1) == sum_of(
            reports,
            pick,
            reports.len() as int,
        ) + pick(last),
{
    lemma_sum_of_same(reports, reports.push(last), pick, reports.len() as int);
}

/// The sum over the first `k` reports depends on those reports only.
proof fn lemma_sum_of_same(
    one: Seq<YearReport>,
    other: Seq<YearReport>,
    pick: spec_fn(YearReport) -> int,
    k: int,
)
    requires
        k <= one.len(),
        k <= other.len(),
        forall|i: int| 0 <= i < k ==> one[i] == other[i],
    ensures
        sum_of(one, pick, k) == sum_of(other, pick, k),
    decreases k,
{
    if k > 0 {
        lemma_sum_of_same(one, other, pick, k - 1);
    }
}

/// What each cell stages for migration, from the reports of the cells.
pub open spec fn leavings(reports: Seq<YearReport>) -> Seq<Option<Emigrants>> {
    reports.map_values(|r: YearReport| r.leaving)
}

/// The sum over the first `k` reports of what `pick` takes from each.
pub open spec fn sum_of(reports: Seq<YearReport>, pick: spec_fn(YearReport) -> int, k: int) -> int
    decreases k,
{
    if k <= 0 {
        0
    } else {
        sum_of(reports, pick, k - 1) + pick(reports[k - 1])
    }
}

/// The tally is the sum of the reports: of the kills, of the births and of
/// the deaths of each species.
pub open spec fn tallied(reports: Seq<YearReport>, tally: YearTally) -> bool {
    let n = reports.len() as int;
    &&& tally.killed == sum_of(reports, |r: YearReport| r.killed as int, n)
    &&& tally.born.herbivores == sum_of(reports, |r: YearReport| r.born.herbivores as int, n)
    &&& tally.born.carnivores == sum_of(reports, |r: YearReport| r.born.carnivores as int, n)
    &&& tally.died.herbivores == sum_of(reports, |r: YearReport| r.died.herbivores as int, n)
    &&& tally.died.carnivores == sum_of(reports, |r: YearReport| r.died.carnivores as int, n)
}

/// The cells `mid` and the reports are what the year makes of the cells
/// `before` with the draws `draws`, cell by cell: every cell lives its
/// year by itself, and the tally is the sum of the reports.
pub open spec fn toured(
    before: Seq<LandCell>,
    mid: Seq<LandCell>,
    reports: Seq<YearReport>,
    tally: YearTally,
    draws: Seq<YearDraws>,
) -> bool {
    &&& mid.len() == before.len()
    &&& reports.len() == before.len()
    &&& draws.len() == before.len()
    &&& tallied(reports, tally)
    &&& forall|i: int|
        0 <= i < before.len() ==> year_with(before[i], #[trigger] mid[i], reports[i], draws[i])
}

/// Every cell has for its birth weights its share of the weights given.
pub open spec fn shared_out(
    before: Seq<LandCell>,
    draws: Seq<YearDraws>,
    herbivore_weights: Seq<u64>,
    carnivore_weights: Seq<u64>,
) -> bool {
    &&& draws.len() == before.len()
    &&& forall|i: int|
        0 <= i < before.len() ==> dealt(
            before[i],
            #[trigger] draws[i],
            herbivore_share(before, herbivore_weights, i),
            carnivore_share(before, carnivore_weights, i),
        )
}

/// The grid `after` and the tally are what one year with the draws
/// `draws` makes of the grid `before`: every cell of `before` lives its
/// year by itself, which gives the cells `mid` and a report from each; then
/// in every cell those who stay are joined by those who come from the
/// other cells.
pub open spec fn cycled(
    before: Seq<LandCell>,
    mid: Seq<LandCell>,
    reports: Seq<YearReport>,
    after: Seq<LandCell>,
    tally: YearTally,
    draws: Seq<YearDraws>,
) -> bool {
    let stage = leavings(reports);
    &&& toured(before, mid, reports, tally, draws)
    &&& after.len() == before.len()
    &&& forall|j: int|
        0 <= j < before.len() ==> {
            &&& (#[trigger] after[j]).herd() == stayers(mid[j].herd()) + inflow_herd(
                stage,
                mid,
                j,
                stage.len() as int,
            )
            &&& after[j].pack() == stayers(mid[j].pack()) + inflow_pack(
                stage,
                mid,
                j,
                stage.len() as int,
            )
            &&& after[j].fodder == mid[j].fodder
        }
}

/// Two lots of emigrants with the same records and the same routes bring
/// the same animals to each cell of grids on the same ground.
proof fn lemma_routed_alike(
    e1: Emigrants,
    e2: Emigrants,
    cells1: Seq<LandCell>,
    cells2: Seq<LandCell>,
    origin: int,
    j: int,
    k: int,
)
    requires
        cells1.len() == cells2.len(),
        forall|i: int| 0 <= i < cells1.len() ==> (#[trigger] cells2[i]).same_ground(&cells1[i]),
        closed(cells1),
        0 <= origin < cells1.len(),
        e1.fits(&cells1[origin]),
        records(e1.herbivores@) == records(e2.herbivores@),
        records(e1.carnivores@) == records(e2.carnivores@),
        e1.herbivore_routes@ == e2.herbivore_routes@,
        e1.carnivore_routes@ == e2.carnivore_routes@,
        0 <= k,
        k <= e1.herbivores@.len() || k <= e1.carnivores@.len(),
    ensures
        k <= e1.herbivores@.len() ==> routed_herd(e1, cells1, j, k) == routed_herd(e2, cells2, j, k),
        k <= e1.carnivores@.len() ==> routed_pack(e1, cells1, j, k) == routed_pack(e2, cells2, j, k),
    decreases k,
{
    assert(records(e1.herbivores@).len() == records(e2.herbivores@).len());
    assert(records(e1.carnivores@).len() == records(e2.carnivores@).len());
    if k > 0 {
        if k - 1 <= e1.herbivores@.len() || k - 1 <= e1.carnivores@.len() {
            lemma_routed_alike(e1, e2, cells1, cells2, origin, j, k - 1);
        }
        if k <= e1.herbivores@.len() {
            assert(cells1[origin].land_cell_neighbors@.contains(e1.herbivore_routes@[k - 1]));
            lemma_route_present(e1.herbivore_routes@[k - 1], cells1, origin);
            lemma_same_first_at(cells1, cells2, e1.herbivore_routes@[k - 1]);
            assert(e1.herbivores@[k - 1].health == records(e1.herbivores@)[k - 1]);
            assert(e2.herbivores@[k - 1].health == records(e2.herbivores@)[k - 1]);
            assert(e2.herbivore_routes@[k - 1] == e1.herbivore_routes@[k - 1]);
        }
        if k <= e1.carnivores@.len() {
            assert(cells1[origin].land_cell_neighbors@.contains(e1.carnivore_routes@[k - 1]));
            lemma_route_present(e1.carnivore_routes@[k - 1], cells1, origin);
            lemma_same_first_at(cells1, cells2, e1.carnivore_routes@[k - 1]);
            assert(e1.carnivores@[k - 1].health == records(e1.carnivores@)[k - 1]);
            assert(e2.carnivores@[k - 1].health == records(e2.carnivores@)[k - 1]);
            assert(e2.carnivore_routes@[k - 1] == e1.carnivore_routes@[k - 1]);
        }
    }
}

/// The same start and the same draws give the same grid: two years from
/// one grid with one set of draws end with the same herd, the same pack
/// and the same food in every cell, and with the same tally.
pub proof fn lemma_same_draws_same_grid(
    before: Seq<LandCell>,
    draws: Seq<YearDraws>,
    mid1: Seq<LandCell>,
    reports1: Seq<YearReport>,
    after1: Seq<LandCell>,
    tally1: YearTally,
    mid2: Seq<LandCell>,
    reports2: Seq<YearReport>,
    after2: Seq<LandCell>,
    tally2: YearTally,
)
    requires
        closed(before),
        cycled(before, mid1, reports1, after1, tally1, draws),
        cycled(before, mid2, reports2, after2, tally2, draws),
    ensures
        after1.len() == after2.len(),
        forall|j: int|
            0 <= j < after1.len() ==> (#[trigger] after1[j]).herd() == after2[j].herd()
                && after1[j].pack() == after2[j].pack() && after1[j].fodder == after2[j].fodder,
        tally1 == tally2,
{
    let n = before.len() as int;
    assert forall|i: int| 0 <= i < n implies (#[trigger] mid1[i]).same_ground(&before[i])
        && mid1[i].herd() == mid2[i].herd() && mid1[i].pack() == mid2[i].pack() && mid1[i].fodder
        == mid2[i].fodder by {
        assert(year_with(before[i], mid1[i], reports1[i], draws[i]));
        assert(year_with(before[i], mid2[i], reports2[i], draws[i]));
        lemma_year_determined(before[i], mid1[i], reports1[i], mid2[i], reports2[i], draws[i]);
    }
    lemma_closed_same_ground(before, mid1);
    assert forall|j: int| 0 <= j < n implies (#[trigger] after1[j]).herd() == after2[j].herd()
        && after1[j].pack() == after2[j].pack() && after1[j].fodder == after2[j].fodder by {
        lemma_inflow_alike(before, draws, mid1, reports1, mid2, reports2, j, n);
        assert(mid1[j].herd() == mid2[j].herd());
    }
    lemma_sums_alike(before, draws, mid1, reports1, mid2, reports2, n);
}

/// With the same draws the same animals come to each cell.
proof fn lemma_inflow_alike(
    before: Seq<LandCell>,
    draws: Seq<YearDraws>,
    mid1: Seq<LandCell>,
    reports1: Seq<YearReport>,
    mid2: Seq<LandCell>,
    reports2: Seq<YearReport>,
    j: int,
    k: int,
)
    requires
        closed(mid1),
        mid1.len() == before.len(),
        mid2.len() == before.len(),
        reports1.len() == before.len(),
        reports2.len() == before.len(),
        draws.len() == before.len(),
        forall|i: int|
            0 <= i < before.len() ==> year_with(before[i], #[trigger] mid1[i], reports1[i], draws[i]),
        forall|i: int|
            0 <= i < before.len() ==> year_with(before[i], #[trigger] mid2[i], reports2[i], draws[i]),
        0 <= k <= before.len(),
    ensures
        inflow_herd(leavings(reports1), mid1, j, k) == inflow_herd(leavings(reports2), mid2, j, k),
        inflow_pack(leavings(reports1), mid1, j, k) == inflow_pack(leavings(reports2), mid2, j, k),
    decreases k,
{
    if k > 0 {
        lemma_inflow_alike(before, draws, mid1, reports1, mid2, reports2, j, k - 1);
        let i = k - 1;
        assert(year_with(before[i], mid1[i], reports1[i], draws[i]));
        assert(year_with(before[i], mid2[i], reports2[i], draws[i]));
        lemma_year_determined(before[i], mid1[i], reports1[i], mid2[i], reports2[i], draws[i]);
        assert(leavings(reports1)[i] == reports1[i].leaving);
        assert(leavings(reports2)[i] == reports2[i].leaving);
        assert forall|q: int| 0 <= q < mid1.len() implies (#[trigger] mid2[q]).same_ground(
            &mid1[q],
        ) by {
            assert(year_with(before[q], mid1[q], reports1[q], draws[q]));
            assert(year_with(before[q], mid2[q], reports2[q], draws[q]));
            lemma_year_determined(before[q], mid1[q], reports1[q], mid2[q], reports2[q], draws[q]);
        }
        match (reports1[i].leaving, reports2[i].leaving) {
            (Some(e1), Some(e2)) => {
                assert(records(e1.herbivores@).len() == e1.herbivores@.len());
                assert(records(e2.herbivores@).len() == e2.herbivores@.len());
                assert(records(e1.carnivores@).len() == e1.carnivores@.len());
                assert(records(e2.carnivores@).len() == e2.carnivores@.len());
                lemma_routed_alike(e1, e2, mid1, mid2, i, j, e1.herbivores@.len() as int);
                lemma_routed_alike(e1, e2, mid1, mid2, i, j, e1.carnivores@.len() as int);
            },
            _ => {},
        }
    }
}

/// With the same draws the reports add up to the same.
proof fn lemma_sums_alike(
    before: Seq<LandCell>,
    draws: Seq<YearDraws>,
    mid1: Seq<LandCell>,
    reports1: Seq<YearReport>,
    mid2: Seq<LandCell>,
    reports2: Seq<YearReport>,
    k: int,
)
    requires
        mid1.len() == before.len(),
        mid2.len() == before.len(),
        reports1.len() == before.len(),
        reports2.len() == before.len(),
        draws.len() == before.len(),
        forall|i: int|
            0 <= i < before.len() ==> year_with(before[i], #[trigger] mid1[i], reports1[i], draws[i]),
        forall|i: int|
            0 <= i < before.len() ==> year_with(before[i], #[trigger] mid2[i], reports2[i], draws[i]),
        0 <= k <= before.len(),
    ensures
        sum_of(reports1, |r: YearReport| r.killed as int, k) == sum_of(
            reports2,
            |r: YearReport| r.killed as int,
            k,
        ),
        sum_of(reports1, |r: YearReport| r.born.herbivores as int, k) == sum_of(
            reports2,
            |r: YearReport| r.born.herbivores as int,
            k,
        ),
        sum_of(reports1, |r: YearReport| r.born.carnivores as int, k) == sum_of(
            reports2,
            |r: YearReport| r.born.carnivores as int,
            k,
        ),
        sum_of(reports1, |r: YearReport| r.died.herbivores as int, k) == sum_of(
            reports2,
            |r: YearReport| r.died.herbivores as int,
            k,
        ),
        sum_of(reports1, |r: YearReport| r.died.carnivores as int, k) == sum_of(
            reports2,
            |r: YearReport| r.died.carnivores as int,
            k,
        ),
    decreases k,
{
    if k > 0 {
        lemma_sums_alike(before, draws, mid1, reports1, mid2, reports2, k - 1);
        let i = k - 1;
        assert(year_with(before[i], mid1[i], reports1[i], draws[i]));
        assert(year_with(before[i], mid2[i], reports2[i], draws[i]));
        lemma_year_determined(before[i], mid1[i], reports1[i], mid2[i], reports2[i], draws[i]);
    }
}

impl BioSim {
    /// The state between the staging of the migrations and their
    /// resolution: every cell is sound, no one is newborn any more, and who
    /// is marked in a cell is staged to leave it for a neighbour.
    pub open spec fn staged_with(&self, stage: Seq<Option<Emigrants>>) -> bool {
        &&& stage.len() == self.landscape@.len()
        &&& closed(self.landscape@)
        &&& forall|i: int|
            0 <= i < self.landscape@.len() ==> {
                &&& (#[trigger] self.landscape@[i]).wf()
                &&& self.landscape@[i].weaned_all()
                &&& match stage[i] {
                    None => self.landscape@[i].at_rest(),
                    Some(e) => e.fits(&self.landscape@[i]),
                }
            }
    }

    /// The state while the migrations are resolved: every cell is sound and
    /// at rest, and who is still to arrive somewhere has a neighbour of its
    /// old cell to go to.
    pub open spec fn resolving_with(&self, stage: Seq<Option<Emigrants>>) -> bool {
        &&& stage.len() == self.landscape@.len()
        &&& closed(self.landscape@)
        &&& forall|i: int|
            0 <= i < self.landscape@.len() ==> {
                &&& (#[trigger] self.landscape@[i]).wf()
                &&& self.landscape@[i].at_rest()
                &&& match stage[i] {
                    None => true,
                    Some(e) => routed(e, self.landscape@[i]),
                }
            }
    }

    /// Runs every cell through its year, one after the other, and gathers
    /// what each stages for migration. No cell sees anything of another.
    /// The birth weights are dealt out cell by cell, one for each animal of
    /// the species at the start of the year.
    pub fn stage_year(
        &mut self,
        herbivore_weights: &Vec<u64>,
        carnivore_weights: &Vec<u64>,
    ) -> (out: (YearTally, Vec<Option<Emigrants>>))
        requires
            old(self).wf(),
            2 * animals_in(old(self).landscape@) <= u32::MAX,
            old(self).animal_count.herbivores <= herbivore_weights@.len(),
            old(self).animal_count.carnivores <= carnivore_weights@.len(),
        ensures
            final(self).staged_with(out.1@),
            final(self).same_ground(old(self)),
            final(self).animal_count == old(self).animal_count,
            herbivores_in(final(self).landscape@, final(self).landscape@.len() as int) + out.0.killed
                + out.0.died.herbivores == old(self).animal_count.herbivores
                + out.0.born.herbivores,
            carnivores_in(final(self).landscape@, final(self).landscape@.len() as int)
                + out.0.died.carnivores == old(self).animal_count.carnivores
                + out.0.born.carnivores,
            out.0.born.herbivores <= old(self).animal_count.herbivores,
            out.0.born.carnivores <= old(self).animal_count.carnivores,
            out.0.killed <= old(self).animal_count.herbivores,
            (exists|reports: Seq<YearReport>, draws: Seq<YearDraws>|
                out.1@ == leavings(reports) && toured(
                    old(self).landscape@,
                    final(self).landscape@,
                    reports,
                    out.0,
                    draws,
                ) && shared_out(old(self).landscape@, draws, herbivore_weights@, carnivore_weights@)),
    {
        let ghost cells0 = self.landscape@;
        let n: usize = self.landscape.len();
        let ghost h0 = herbivores_in(cells0, n as int);
        let ghost c0 = carnivores_in(cells0, n as int);
        let mut stage: Vec<Option<Emigrants>> = Vec::new();
        let mut killed: u32 = 0;
        let mut born = AnimalCount { herbivores: 0, carnivores: 0 };
        let mut died = AnimalCount { herbivores: 0, carnivores: 0 };
        let mut herbivores_dealt: usize = 0;
        let mut carnivores_dealt: usize = 0;
        let ghost mut reports: Seq<YearReport> = Seq::empty();
        let ghost mut draws: Seq<YearDraws> = Seq::empty();
        let mut i: usize = 0;
        proof {
            lemma_counts_nonnegative(cells0, n as int);
        }
        while i < n
            invariant
                i <= n,
                n == cells0.len(),
                self.landscape@.len() == n,
                self.animal_count == old(self).animal_count,
                h0 == herbivores_in(cells0, n as int),
                c0 == carnivores_in(cells0, n as int),
                0 <= h0,
                0 <= c0,
                2 * (h0 + c0) <= u32::MAX,
                closed(cells0),
                stage@.len() == i,
                forall|j: int| 0 <= j < n ==> (#[trigger] self.landscape@[j]).same_ground(&cells0[j]),
                forall|j: int| i <= j < n ==> (#[trigger] self.landscape@[j]) == cells0[j],
                forall|j: int| 0 <= j < n ==> (#[trigger] cells0[j]).wf() && cells0[j].at_rest(),
                forall|j: int|
                    0 <= j < i ==> {
                        &&& (#[trigger] self.landscape@[j]).wf()
                        &&& self.landscape@[j].weaned_all()
                        &&& match stage@[j] {
                            None => self.landscape@[j].at_rest(),
                            Some(e) => e.fits(&self.landscape@[j]),
                        }
                    },
                herbivores_in(self.landscape@, n as int) + killed + died.herbivores == h0
                    + born.herbivores,
                carnivores_in(self.landscape@, n as int) + died.carnivores == c0 + born.carnivores,
                born.herbivores <= herbivores_in(cells0, i as int),
                born.carnivores <= carnivores_in(cells0, i as int),
                killed <= herbivores_in(cells0, i as int),
                reports.len() == i,
                draws.len() == i,
                stage@ == leavings(reports),
                forall|j: int|
                    0 <= j < i ==> year_with(
                        cells0[j],
                        #[trigger] self.landscape@[j],
                        reports[j],
                        draws[j],
                    ),
                forall|j: int|
                    0 <= j < i ==> dealt(
                        cells0[j],
                        #[trigger] draws[j],
                        herbivore_share(cells0, herbivore_weights@, j),
                        carnivore_share(cells0, carnivore_weights@, j),
                    ),
                killed == sum_of(reports, |r: YearReport| r.killed as int, i as int),
                born.herbivores == sum_of(reports, |r: YearReport| r.born.herbivores as int, i as int),
                born.carnivores == sum_of(reports, |r: YearReport| r.born.carnivores as int, i as int),
                died.herbivores == sum_of(reports, |r: YearReport| r.died.herbivores as int, i as int),
                died.carnivores == sum_of(reports, |r: YearReport| r.died.carnivores as int, i as int),
                h0 <= herbivore_weights@.len(),
                c0 <= carnivore_weights@.len(),
                herbivores_dealt == herbivores_in(cells0, i as int),
                carnivores_dealt == carnivores_in(cells0, i as int),
            decreases n - i,
        {
            let ghost cells1 = self.landscape@;
            proof {
                lemma_cell_within_total(cells0, i as int);
                lemma_counts_grow(cells0, i as int + 1, n as int);
                lemma_counts_nonnegative(cells0, i as int);
                lemma_counts_nonnegative(self.landscape@, n as int);
                assert(self.landscape@[i as int] == cells0[i as int]);
            }
            let herbivores_here: usize = self.landscape[i].herbivores.len();
            let carnivores_here: usize = self.landscape[i].carnivores.len();
            let herbivores_due: Vec<u64> = copy_range(
                herbivore_weights,
                herbivores_dealt,
                herbivores_here,
            );
            let carnivores_due: Vec<u64> = copy_range(
                carnivore_weights,
                carnivores_dealt,
                carnivores_here,
            );
            herbivores_dealt = herbivores_dealt + herbivores_here;
            carnivores_dealt = carnivores_dealt + carnivores_here;
            let report: YearReport = self.landscape[i].live_year(
                &mut self.rng,
                &herbivores_due,
                &carnivores_due,
            );
            proof {
                lemma_counts_change(cells1, self.landscape@, i as int, n as int);
                lemma_counts_nonnegative(self.landscape@, n as int);
                let earlier = reports;
                reports = reports.push(report);
                assert(leavings(reports) =~= leavings(earlier).push(report.leaving));
                lemma_sum_of_push(earlier, report, |r: YearReport| r.killed as int);
                lemma_sum_of_push(earlier, report, |r: YearReport| r.born.herbivores as int);
                lemma_sum_of_push(earlier, report, |r: YearReport| r.born.carnivores as int);
                lemma_sum_of_push(earlier, report, |r: YearReport| r.died.herbivores as int);
                lemma_sum_of_push(earlier, report, |r: YearReport| r.died.carnivores as int);
                let d = choose|d: YearDraws|
                    year_with(cells0[i as int], self.landscape@[i as int], report, d) && dealt(
                        cells0[i as int],
                        d,
                        herbivores_due@,
                        carnivores_due@,
                    );
                let drawn = draws;
                draws = draws.push(d);
                assert forall|j: int| 0 <= j < i + 1 implies year_with(
                    cells0[j],
                    #[trigger] self.landscape@[j],
                    reports[j],
                    draws[j],
                ) by {
                    if j < i {
                        assert(self.landscape@[j] == cells1[j]);
                        assert(reports[j] == earlier[j]);
                        assert(draws[j] == drawn[j]);
                    }
                }
                assert forall|j: int| 0 <= j < i + 1 implies dealt(
                    cells0[j],
                    #[trigger] draws[j],
                    herbivore_share(cells0, herbivore_weights@, j),
                    carnivore_share(cells0, carnivore_weights@, j),
                ) by {
                    if j < i {
                        assert(draws[j] == drawn[j]);
                    }
                }
            }
            killed = killed + report.killed;
            born.herbivores = born.herbivores + report.born.herbivores;
            born.carnivores = born.carnivores + report.born.carnivores;
            died.herbivores = died.herbivores + report.died.herbivores;
            died.carnivores = died.carnivores + report.died.carnivores;
            stage.push(report.leaving);
            i = i + 1;
        }
        proof {
            lemma_closed_same_ground(cells0, self.landscape@);
            assert(toured(cells0, self.landscape@, reports, YearTally { killed, born, died }, draws));
            assert(shared_out(cells0, draws, herbivore_weights@, carnivore_weights@));
        }
        (YearTally { killed, born, died }, stage)
    }
}

impl BioSim {
    /// Removes from every cell those that are staged to leave it. No one
    /// else is touched.
    pub fn depart(&mut self, stage: &Vec<Option<Emigrants>>)
        requires
            old(self).staged_with(stage@),
        ensures
            final(self).resolving_with(stage@),
            final(self).same_ground(old(self)),
            final(self).animal_count == old(self).animal_count,
            herbivores_in(final(self).landscape@, final(self).landscape@.len() as int)
                + leaving_herbivores(stage@, stage@.len() as int) == herbivores_in(
                old(self).landscape@,
                old(self).landscape@.len() as int,
            ),
            carnivores_in(final(self).landscape@, final(self).landscape@.len() as int)
                + leaving_carnivores(stage@, stage@.len() as int) == carnivores_in(
                old(self).landscape@,
                old(self).landscape@.len() as int,
            ),
            forall|i: int|
                0 <= i < final(self).landscape@.len() ==> {
                    &&& (#[trigger] final(self).landscape@[i]).herd() == stayers(
                        old(self).landscape@[i].herd(),
                    )
                    &&& final(self).landscape@[i].pack() == stayers(old(self).landscape@[i].pack())
                    &&& final(self).landscape@[i].fodder == old(self).landscape@[i].fodder
                },
    {
        let ghost cells0 = self.landscape@;
        let n: usize = self.landscape.len();
        let mut i: usize = 0;
        while i < n
            invariant
                i <= n,
                n == cells0.len(),
                stage@.len() == n,
                self.landscape@.len() == n,
                self.animal_count == old(self).animal_count,
                closed(cells0),
                forall|j: int| 0 <= j < n ==> (#[trigger] self.landscape@[j]).same_ground(&cells0[j]),
                forall|j: int| i <= j < n ==> (#[trigger] self.landscape@[j]) == cells0[j],
                forall|j: int|
                    0 <= j < n ==> {
                        &&& (#[trigger] cells0[j]).wf()
                        &&& cells0[j].weaned_all()
                        &&& match stage@[j] {
                            None => cells0[j].at_rest(),
                            Some(e) => e.fits(&cells0[j]),
                        }
                    },
                forall|j: int|
                    0 <= j < i ==> (#[trigger] self.landscape@[j]).wf() && self.landscape@[j].at_rest(),
                forall|j: int|
                    0 <= j < i ==> {
                        &&& (#[trigger] self.landscape@[j]).herd() == stayers(cells0[j].herd())
                        &&& self.landscape@[j].pack() == stayers(cells0[j].pack())
                        &&& self.landscape@[j].fodder == cells0[j].fodder
                    },
                herbivores_in(self.landscape@, n as int) + leaving_herbivores(stage@, i as int)
                    == herbivores_in(cells0, n as int),
                carnivores_in(self.landscape@, n as int) + leaving_carnivores(stage@, i as int)
                    == carnivores_in(cells0, n as int),
            decreases n - i,
        {
            let ghost cells1 = self.landscape@;
            assert(self.landscape@[i as int] == cells0[i as int]);
            if stage[i].is_some() {
                self.landscape[i].remove_moved();
                proof {
                    lemma_counts_change(cells1, self.landscape@, i as int, n as int);
                }
            } else {
                proof {
                    lemma_filter_all(cells0[i as int].herd(), |h: Health| !h.has_moved);
                    lemma_filter_all(cells0[i as int].pack(), |h: Health| !h.has_moved);
                }
            }
            i = i + 1;
        }
        proof {
            lemma_closed_same_ground(cells0, self.landscape@);
            assert forall|j: int| 0 <= j < n implies match stage@[j] {
                None => true,
                Some(e) => routed(e, #[trigger] self.landscape@[j]),
            } by {
                assert(self.landscape@[j].same_ground(&cells0[j]));
                assert(cells0[j].wf());
            }
        }
    }

    /// Hands those of one species that left one cell to the cells they go
    /// to: the carnivores where `hunters` says so, the herbivores else.
    fn arrive_from(&mut self, e: &Emigrants, hunters: bool, Ghost(origin): Ghost<int>)
        requires
            0 <= origin < old(self).landscape@.len(),
            closed(old(self).landscape@),
            forall|i: int|
                0 <= i < old(self).landscape@.len() ==> (#[trigger] old(self).landscape@[i]).wf()
                    && old(self).landscape@[i].at_rest(),
            routed(*e, old(self).landscape@[origin]),
            animals_in(old(self).landscape@) + (if hunters {
                e.carnivores@.len()
            } else {
                e.herbivores@.len()
            }) <= u32::MAX,
        ensures
            final(self).same_ground(old(self)),
            final(self).animal_count == old(self).animal_count,
            closed(final(self).landscape@),
            forall|i: int|
                0 <= i < final(self).landscape@.len() ==> (#[trigger] final(self).landscape@[i]).wf()
                    && final(self).landscape@[i].at_rest(),
            herbivores_in(final(self).landscape@, final(self).landscape@.len() as int)
                == herbivores_in(old(self).landscape@, old(self).landscape@.len() as int) + (
            if hunters {
                0
            } else {
                e.herbivores@.len() as int
            }),
            carnivores_in(final(self).landscape@, final(self).landscape@.len() as int)
                == carnivores_in(old(self).landscape@, old(self).landscape@.len() as int) + (
            if hunters {
                e.carnivores@.len() as int
            } else {
                0
            }),
            forall|j: int|
                0 <= j < final(self).landscape@.len() ==> (#[trigger] final(self).landscape@[j]).fodder
                    == old(self).landscape@[j].fodder,
            !hunters ==> forall|j: int|
                0 <= j < final(self).landscape@.len() ==> {
                    &&& (#[trigger] final(self).landscape@[j]).herd() == old(self).landscape@[j].herd()
                        + routed_herd(*e, old(self).landscape@, j, e.herbivores@.len() as int)
                    &&& final(self).landscape@[j].pack() == old(self).landscape@[j].pack()
                },
            hunters ==> forall|j: int|
                0 <= j < final(self).landscape@.len() ==> {
                    &&& (#[trigger] final(self).landscape@[j]).pack() == old(self).landscape@[j].pack()
                        + routed_pack(*e, old(self).landscape@, j, e.carnivores@.len() as int)
                    &&& final(self).landscape@[j].herd() == old(self).landscape@[j].herd()
                },
    {
        let ghost cells0 = self.landscape@;
        let n: usize = self.landscape.len();
        let m: usize = if hunters {
            e.carnivores.len()
        } else {
            e.herbivores.len()
        };
        let mut k: usize = 0;
        while k < m
            invariant
                k <= m,
                m == if hunters {
                    e.carnivores@.len()
                } else {
                    e.herbivores@.len()
                },
                n == cells0.len(),
                self.landscape@.len() == n,
                0 <= origin < n,
                self.animal_count == old(self).animal_count,
                closed(cells0),
                closed(self.landscape@),
                routed(*e, cells0[origin]),
                animals_in(cells0) + m <= u32::MAX,
                forall|j: int| 0 <= j < n ==> (#[trigger] self.landscape@[j]).same_ground(&cells0[j]),
                forall|j: int|
                    0 <= j < n ==> (#[trigger] self.landscape@[j]).wf() && self.landscape@[j].at_rest(),
                forall|j: int| 0 <= j < n ==> (#[trigger] self.landscape@[j]).fodder == cells0[j].fodder,
                herbivores_in(self.landscape@, n as int) == herbivores_in(cells0, n as int) + (
                if hunters {
                    0
                } else {
                    k as int
                }),
                carnivores_in(self.landscape@, n as int) == carnivores_in(cells0, n as int) + (
                if hunters {
                    k as int
                } else {
                    0
                }),
                !hunters ==> forall|j: int|
                    0 <= j < n ==> {
                        &&& (#[trigger] self.landscape@[j]).herd() == cells0[j].herd() + routed_herd(
                            *e,
                            cells0,
                            j,
                            k as int,
                        )
                        &&& self.landscape@[j].pack() == cells0[j].pack()
                    },
                hunters ==> forall|j: int|
                    0 <= j < n ==> {
                        &&& (#[trigger] self.landscape@[j]).pack() == cells0[j].pack() + routed_pack(
                            *e,
                            cells0,
                            j,
                            k as int,
                        )
                        &&& self.landscape@[j].herd() == cells0[j].herd()
                    },
            decreases m - k,
        {
            let ghost cells1 = self.landscape@;
            let place: Coord = if hunters {
                e.carnivore_routes[k]
            } else {
                e.herbivore_routes[k]
            };
            let record: Health = if hunters {
                e.carnivores[k].health
            } else {
                e.herbivores[k].health
            };
            proof {
                if hunters {
                    assert(cells0[origin].land_cell_neighbors@.contains(e.carnivore_routes@[k as int]));
                    assert(records(e.carnivores@)[k as int].is_alive);
                } else {
                    assert(cells0[origin].land_cell_neighbors@.contains(e.herbivore_routes@[k as int]));
                    assert(records(e.herbivores@)[k as int].is_alive);
                }
                lemma_route_present(place, cells0, origin);
                let j = choose|j: int| 0 <= j < n && (#[trigger] cells0[j]).location == place;
                assert(self.landscape@[j].same_ground(&cells0[j]));
                assert(present(self.landscape@, place));
                lemma_same_first_at(cells0, cells1, place);
            }
            match self.find_cell(place) {
                Some(j) => {
                    proof {
                        lemma_cell_within_total(self.landscape@, j as int);
                    }
                    self.landscape[j].receive(record, hunters);
                    proof {
                        lemma_counts_change(cells1, self.landscape@, j as int, n as int);
                        if hunters {
                            assert forall|i: int| 0 <= i < n implies {
                                &&& (#[trigger] self.landscape@[i]).pack() == cells0[i].pack()
                                    + routed_pack(*e, cells0, i, k as int + 1)
                                &&& self.landscape@[i].herd() == cells0[i].herd()
                            } by {
                                if i == j {
                                    assert(self.landscape@[i].pack() =~= cells0[i].pack() + routed_pack(
                                        *e,
                                        cells0,
                                        i,
                                        k as int + 1,
                                    ));
                                } else {
                                    assert(self.landscape@[i] == cells1[i]);
                                }
                            }
                        } else {
                            assert forall|i: int| 0 <= i < n implies {
                                &&& (#[trigger] self.landscape@[i]).herd() == cells0[i].herd()
                                    + routed_herd(*e, cells0, i, k as int + 1)
                                &&& self.landscape@[i].pack() == cells0[i].pack()
                            } by {
                                if i == j {
                                    assert(self.landscape@[i].herd() =~= cells0[i].herd() + routed_herd(
                                        *e,
                                        cells0,
                                        i,
                                        k as int + 1,
                                    ));
                                } else {
                                    assert(self.landscape@[i] == cells1[i]);
                                }
                            }
                        }
                        assert forall|i: int| 0 <= i < n implies (#[trigger] self.landscape@[i]).fodder
                            == cells0[i].fodder by {
                            if i != j {
                                assert(self.landscape@[i] == cells1[i]);
                            }
                        }
                    }
                },
                None => {},
            }
            proof {
                lemma_closed_same_ground(cells0, self.landscape@);
            }
            k = k + 1;
        }
    }

    /// Hands everyone who left a cell to the cell it goes to, with no mark
    /// on it. No one else is touched, and no one is lost or made.
    pub fn arrive(&mut self, stage: &Vec<Option<Emigrants>>)
        requires
            old(self).resolving_with(stage@),
            animals_in(old(self).landscape@) + leaving_herbivores(stage@, stage@.len() as int)
                + leaving_carnivores(stage@, stage@.len() as int) <= u32::MAX,
        ensures
            final(self).same_ground(old(self)),
            final(self).animal_count == old(self).animal_count,
            closed(final(self).landscape@),
            forall|i: int|
                0 <= i < final(self).landscape@.len() ==> (#[trigger] final(self).landscape@[i]).wf()
                    && final(self).landscape@[i].at_rest(),
            herbivores_in(final(self).landscape@, final(self).landscape@.len() as int)
                == herbivores_in(old(self).landscape@, old(self).landscape@.len() as int)
                + leaving_herbivores(stage@, stage@.len() as int),
            carnivores_in(final(self).landscape@, final(self).landscape@.len() as int)
                == carnivores_in(old(self).landscape@, old(self).landscape@.len() as int)
                + leaving_carnivores(stage@, stage@.len() as int),
            forall|j: int|
                0 <= j < final(self).landscape@.len() ==> {
                    &&& (#[trigger] final(self).landscape@[j]).herd() == old(self).landscape@[j].herd()
                        + inflow_herd(stage@, old(self).landscape@, j, stage@.len() as int)
                    &&& final(self).landscape@[j].pack() == old(self).landscape@[j].pack()
                        + inflow_pack(stage@, old(self).landscape@, j, stage@.len() as int)
                    &&& final(self).landscape@[j].fodder == old(self).landscape@[j].fodder
                },
    {
        let ghost cells0 = self.landscape@;
        let n: usize = self.landscape.len();
        let ghost all_h = leaving_herbivores(stage@, n as int);
        let ghost all_c = leaving_carnivores(stage@, n as int);
        let mut i: usize = 0;
        while i < n
            invariant
                i <= n,
                n == cells0.len(),
                stage@.len() == n,
                self.landscape@.len() == n,
                self.animal_count == old(self).animal_count,
                closed(cells0),
                closed(self.landscape@),
                all_h == leaving_herbivores(stage@, n as int),
                all_c == leaving_carnivores(stage@, n as int),
                animals_in(cells0) + all_h + all_c <= u32::MAX,
                forall|j: int| 0 <= j < n ==> (#[trigger] self.landscape@[j]).same_ground(&cells0[j]),
                forall|j: int|
                    0 <= j < n ==> (#[trigger] self.landscape@[j]).wf() && self.landscape@[j].at_rest(),
                forall|j: int|
                    0 <= j < n ==> match stage@[j] {
                        None => true,
                        Some(e) => routed(e, #[trigger] cells0[j]),
                    },
                herbivores_in(self.landscape@, n as int) == herbivores_in(cells0, n as int)
                    + leaving_herbivores(stage@, i as int),
                carnivores_in(self.landscape@, n as int) == carnivores_in(cells0, n as int)
                    + leaving_carnivores(stage@, i as int),
                forall|j: int|
                    0 <= j < n ==> {
                        &&& (#[trigger] self.landscape@[j]).herd() == cells0[j].herd() + inflow_herd(
                            stage@,
                            cells0,
                            j,
                            i as int,
                        )
                        &&& self.landscape@[j].pack() == cells0[j].pack() + inflow_pack(
                            stage@,
                            cells0,
                            j,
                            i as int,
                        )
                        &&& self.landscape@[j].fodder == cells0[j].fodder
                    },
            decreases n - i,
        {
            proof {
                lemma_leaving_grows(stage@, i as int + 1, n as int);
                lemma_leaving_grows(stage@, i as int, i as int + 1);
            }
            match &stage[i] {
                Some(e) => {
                    proof {
                        assert(routed(*e, cells0[i as int]));
                        assert(self.landscape@[i as int].same_ground(&cells0[i as int]));
                        assert(routed(*e, self.landscape@[i as int]));
                    }
                    let ghost cells1 = self.landscape@;
                    self.arrive_from(e, false, Ghost(i as int));
                    let ghost cells2 = self.landscape@;
                    proof {
                        assert(self.landscape@[i as int].same_ground(&cells1[i as int]));
                        assert(routed(*e, self.landscape@[i as int]));
                    }
                    self.arrive_from(e, true, Ghost(i as int));
                    proof {
                        assert forall|j: int| 0 <= j < n implies (#[trigger] cells2[j]).same_ground(
                            &cells0[j],
                        ) by {
                            assert(cells2[j].same_ground(&cells1[j]));
                            assert(cells1[j].same_ground(&cells0[j]));
                        }
                        assert forall|j: int| 0 <= j < n implies (#[trigger] self.landscape@[j]).same_ground(
                            &cells0[j],
                        ) by {
                            assert(self.landscape@[j].same_ground(&cells2[j]));
                        }
                        assert forall|j: int| 0 <= j < n implies {
                            &&& (#[trigger] self.landscape@[j]).herd() == cells0[j].herd()
                                + inflow_herd(stage@, cells0, j, i as int + 1)
                            &&& self.landscape@[j].pack() == cells0[j].pack() + inflow_pack(
                                stage@,
                                cells0,
                                j,
                                i as int + 1,
                            )
                            &&& self.landscape@[j].fodder == cells0[j].fodder
                        } by {
                            lemma_routed_same_ground(
                                *e,
                                cells0,
                                cells1,
                                i as int,
                                j,
                                e.herbivores@.len() as int,
                            );
                            lemma_routed_same_ground(
                                *e,
                                cells0,
                                cells2,
                                i as int,
                                j,
                                e.carnivores@.len() as int,
                            );
                            assert(cells2[j].herd() == cells1[j].herd() + routed_herd(
                                *e,
                                cells1,
                                j,
                                e.herbivores@.len() as int,
                            ));
                            assert(self.landscape@[j].herd() =~= cells0[j].herd() + inflow_herd(
                                stage@,
                                cells0,
                                j,
                                i as int + 1,
                            ));
                            assert(self.landscape@[j].pack() =~= cells0[j].pack() + inflow_pack(
                                stage@,
                                cells0,
                                j,
                                i as int + 1,
                            ));
                        }
                    }
                },
                None => {},
            }
            i = i + 1;
        }
    }

    /// Resolves the staged migrations: everyone who leaves is taken out of
    /// its cell and put into the neighbour it goes to. Migration alone
    /// loses and makes no one.
    pub fn resolve(&mut self, stage: &Vec<Option<Emigrants>>)
        requires
            old(self).staged_with(stage@),
            animals_in(old(self).landscape@) <= u32::MAX,
        ensures
            final(self).same_ground(old(self)),
            final(self).animal_count == old(self).animal_count,
            closed(final(self).landscape@),
            forall|i: int|
                0 <= i < final(self).landscape@.len() ==> (#[trigger] final(self).landscape@[i]).wf()
                    && final(self).landscape@[i].at_rest(),
            herbivores_in(final(self).landscape@, final(self).landscape@.len() as int)
                == herbivores_in(old(self).landscape@, old(self).landscape@.len() as int),
            carnivores_in(final(self).landscape@, final(self).landscape@.len() as int)
                == carnivores_in(old(self).landscape@, old(self).landscape@.len() as int),
            forall|j: int|
                0 <= j < final(self).landscape@.len() ==> {
                    &&& (#[trigger] final(self).landscape@[j]).herd() == stayers(
                        old(self).landscape@[j].herd(),
                    ) + inflow_herd(stage@, old(self).landscape@, j, stage@.len() as int)
                    &&& final(self).landscape@[j].pack() == stayers(old(self).landscape@[j].pack())
                        + inflow_pack(stage@, old(self).landscape@, j, stage@.len() as int)
                    &&& final(self).landscape@[j].fodder == old(self).landscape@[j].fodder
                },
    {
        let ghost cells0 = self.landscape@;
        self.depart(stage);
        let ghost cells1 = self.landscape@;
        self.arrive(stage);
        proof {
            assert forall|j: int| 0 <= j < cells0.len() implies (#[trigger] self.landscape@[j]).same_ground(
                &cells0[j],
            ) by {
                assert(cells1[j].same_ground(&cells0[j]));
            }
            assert forall|i: int| 0 <= i < cells0.len() implies match #[trigger] stage@[i] {
                None => true,
                Some(e) => routed(e, cells0[i]),
            } by {
                assert(cells0[i].wf());
            }
            assert forall|j: int| 0 <= j < cells0.len() implies {
                &&& (#[trigger] self.landscape@[j]).herd() == stayers(cells0[j].herd()) + inflow_herd(
                    stage@,
                    cells0,
                    j,
                    stage@.len() as int,
                )
                &&& self.landscape@[j].pack() == stayers(cells0[j].pack()) + inflow_pack(
                    stage@,
                    cells0,
                    j,
                    stage@.len() as int,
                )
            } by {
                lemma_inflow_same_ground(stage@, cells0, cells1, j, cells0.len() as int);
                assert(cells1[j].herd() == stayers(cells0[j].herd()));
            }
        }
    }

    /// One year on the whole grid, with the birth weights given: one for
    /// each animal of the species at the start of the year, dealt out cell
    /// by cell. Every cell goes through its phases and stages its
    /// migrations before anyone moves; then everyone who leaves is taken
    /// out of its cell and put into the neighbour it goes to; then the
    /// animals are counted. Migration loses and makes no one: the
    /// animals at the end are those at the start, less the killed and the
    /// dead, plus the born.
    pub fn run_year_cycle_with(
        &mut self,
        herbivore_weights: &Vec<u64>,
        carnivore_weights: &Vec<u64>,
    ) -> (tally: YearTally)
        requires
            old(self).wf(),
            2 * animals_in(old(self).landscape@) <= u32::MAX,
            old(self).animal_count.herbivores <= herbivore_weights@.len(),
            old(self).animal_count.carnivores <= carnivore_weights@.len(),
        ensures
            final(self).wf(),
            final(self).same_ground(old(self)),
            final(self).animal_count.herbivores + tally.killed + tally.died.herbivores
                == old(self).animal_count.herbivores + tally.born.herbivores,
            final(self).animal_count.carnivores + tally.died.carnivores
                == old(self).animal_count.carnivores + tally.born.carnivores,
            tally.born.herbivores <= old(self).animal_count.herbivores,
            tally.born.carnivores <= old(self).animal_count.carnivores,
            tally.killed <= old(self).animal_count.herbivores,
            (exists|mid: Seq<LandCell>, reports: Seq<YearReport>, draws: Seq<YearDraws>|
                cycled(old(self).landscape@, mid, reports, final(self).landscape@, tally, draws)
                    && shared_out(
                    old(self).landscape@,
                    draws,
                    herbivore_weights@,
                    carnivore_weights@,
                )),
    {
        let ghost cells0 = self.landscape@;
        let (tally, stage) = self.stage_year(herbivore_weights, carnivore_weights);
        let ghost cells1 = self.landscape@;
        let ghost (reports, draws) = choose|reports: Seq<YearReport>, draws: Seq<YearDraws>|
            stage@ == leavings(reports) && toured(cells0, cells1, reports, tally, draws)
                && shared_out(cells0, draws, herbivore_weights@, carnivore_weights@);
        proof {
            lemma_counts_nonnegative(cells1, cells1.len() as int);
        }
        self.resolve(&stage);
        proof {
            assert forall|j: int| 0 <= j < cells0.len() implies (#[trigger] self.landscape@[j]).same_ground(
                &cells0[j],
            ) by {
                assert(cells1[j].same_ground(&cells0[j]));
            }
        }
        proof {
            assert(cycled(cells0, cells1, reports, self.landscape@, tally, draws));
        }
        let count: AnimalCount = self.census();
        self.set_animal_count(count);
        tally
    }

    /// One year on the whole grid, with birth weights sampled from the
    /// random source. Migration loses and makes no one: the animals at the
    /// end are those at the start, less the killed and the dead, plus the
    /// born.
    pub fn run_year_cycle(&mut self) -> (tally: YearTally)
        requires
            old(self).wf(),
            2 * animals_in(old(self).landscape@) <= u32::MAX,
        ensures
            final(self).wf(),
            final(self).same_ground(old(self)),
            final(self).animal_count.herbivores + tally.killed + tally.died.herbivores
                == old(self).animal_count.herbivores + tally.born.herbivores,
            final(self).animal_count.carnivores + tally.died.carnivores
                == old(self).animal_count.carnivores + tally.born.carnivores,
            tally.born.herbivores <= old(self).animal_count.herbivores,
            tally.born.carnivores <= old(self).animal_count.carnivores,
            tally.killed <= old(self).animal_count.herbivores,
            (exists|
                mid: Seq<LandCell>,
                reports: Seq<YearReport>,
                draws: Seq<YearDraws>,
                herbivore_weights: Seq<u64>,
                carnivore_weights: Seq<u64>,
            |
                {
                    &&& cycled(
                        old(self).landscape@,
                        mid,
                        reports,
                        final(self).landscape@,
                        tally,
                        draws,
                    )
                    &&& shared_out(old(self).landscape@, draws, herbivore_weights, carnivore_weights)
                    &&& herbivore_weights.len() == old(self).animal_count.herbivores
                    &&& carnivore_weights.len() == old(self).animal_count.carnivores
                    &&& forall|i: int|
                        0 <= i < herbivore_weights.len() ==> sampled(
                            herbivore_constants(),
                            #[trigger] herbivore_weights[i],
                        )
                    &&& forall|i: int|
                        0 <= i < carnivore_weights.len() ==> sampled(
                            carnivore_constants(),
                            #[trigger] carnivore_weights[i],
                        )
                }),
    {
        let herbivore_weights: Vec<u64> = sample_birth_weights(
            &mut self.rng,
            &herbivore_params(),
            self.animal_count.herbivores as usize,
        );
        let carnivore_weights: Vec<u64> = sample_birth_weights(
            &mut self.rng,
            &carnivore_params(),
            self.animal_count.carnivores as usize,
        );
        self.run_year_cycle_with(&herbivore_weights, &carnivore_weights)
    }
}

} // verus!
