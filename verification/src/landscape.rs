//! The habitat cell: its food, its residents, and the phases of its year.

use vstd::prelude::*;
use rand::rngs::StdRng;
use crate::animal::AnimalTraits;
use crate::animal::Carnivore;
use crate::animal::Health;
use crate::animal::Herbivore;
use crate::animal::SpeciesParams;
use crate::animal::birth_weight_from;
use crate::animal::birth_weight_of;
use crate::animal::carnivore_constants;
use crate::animal::carnivore_params;
use crate::animal::consistent;
use crate::animal::herbivore_constants;
use crate::animal::herbivore_params;
use crate::feeding::fed_with;
use crate::feeding::graze_in_turn;
use crate::feeding::grazed;
use crate::feeding::herd_fed;
use crate::feeding::hunt_in_turn;
use crate::feeding::pack_after;
use crate::feeding::pack_ready;
use crate::feeding::pasture;
use crate::feeding::prey_after;
use crate::feeding::tapes;
use crate::herd::age_all;
use crate::herd::aged;
use crate::herd::all_alive;
use crate::herd::arrivals;
use crate::herd::arrived;
use crate::herd::average_age;
use crate::herd::average_weight;
use crate::herd::bred;
use crate::herd::breed;
use crate::herd::collect_movers;
use crate::herd::cull;
use crate::herd::drop_movers;
use crate::herd::healthy;
use crate::herd::lemma_movers_and_stayers;
use crate::herd::lemma_ranked;
use crate::herd::lemma_ranked_keeps;
use crate::herd::lemma_routes;
use crate::herd::lemma_selection_healthy;
use crate::herd::lemma_stayers_settled;
use crate::herd::lemma_survivors_have_weight;
use crate::herd::living;
use crate::herd::mean_age;
use crate::herd::mean_weight;
use crate::herd::movers;
use crate::herd::rank;
use crate::herd::ranked;
use crate::herd::records;
use crate::herd::refresh_all;
use crate::herd::refreshed;
use crate::herd::routes;
use crate::herd::settled;
use crate::herd::slim_all;
use crate::herd::stage_all;
use crate::herd::staged;
use crate::herd::stayers;
use crate::herd::survivors;
use crate::herd::take_in;
use crate::herd::thinned;
use crate::herd::unmoved;
use crate::herd::wean_all;
use crate::herd::weaned;
use crate::random::pick;
use crate::random::shuffle;
use crate::units::UNIT;
use crate::util::draw_many;
use crate::util::fractions;
use crate::util::standard_deviate;

verus! {

/// The terrain of a habitable cell.
#[derive(Debug, Copy, Clone, PartialEq, Eq, Structural)]
pub enum LandCellType {
    Lowland,
    Highland,
    Desert,
}

/// A place on the map: row, then column.
#[derive(Debug, Copy, Clone, Hash, PartialEq, PartialOrd, Eq, Structural)]
pub struct Coord(pub u32, pub u32);

/// Number of individuals of each species.
#[derive(Debug, Clone, Copy)]
pub struct AnimalCount {
    pub herbivores: u32,
    pub carnivores: u32,
}

impl AnimalCount {
    /// The number of individuals of both species.
    pub fn total(&self) -> (r: u32)
        requires
            self.herbivores + self.carnivores <= u32::MAX,
        ensures
            r == self.herbivores + self.carnivores,
    {
        self.herbivores + self.carnivores
    }

    /// Adds another count to this one, species by species.
    pub fn update(&mut self, animal_count: AnimalCount)
        requires
            old(self).herbivores + animal_count.herbivores <= u32::MAX,
            old(self).carnivores + animal_count.carnivores <= u32::MAX,
        ensures
            final(self).herbivores == old(self).herbivores + animal_count.herbivores,
            final(self).carnivores == old(self).carnivores + animal_count.carnivores,
    {
        self.herbivores = self.herbivores + animal_count.herbivores;
        self.carnivores = self.carnivores + animal_count.carnivores;
    }
}

/// The draws of one year in a cell: the order in which the herbivores eat,
/// and for every phase that chance has a part in, what is drawn for each
/// resident.
pub struct YearDraws {
    pub order: Seq<Herbivore>,
    pub kills: Seq<Seq<u64>>,
    pub herbivore_births: Seq<u64>,
    pub herbivore_weights: Seq<u64>,
    pub carnivore_births: Seq<u64>,
    pub carnivore_weights: Seq<u64>,
    pub herbivore_deaths: Seq<u64>,
    pub carnivore_deaths: Seq<u64>,
    pub herbivore_moves: Seq<u64>,
    pub carnivore_moves: Seq<u64>,
    pub herbivore_picks: Seq<Coord>,
    pub carnivore_picks: Seq<Coord>,
}

impl YearDraws {
    /// Every draw of the year is a fraction of one.
    pub open spec fn drawn_below_one(self) -> bool {
        &&& forall|c: int| 0 <= c < self.kills.len() ==> fractions(#[trigger] self.kills[c])
        &&& fractions(self.herbivore_births)
        &&& fractions(self.carnivore_births)
        &&& fractions(self.herbivore_deaths)
        &&& fractions(self.carnivore_deaths)
        &&& fractions(self.herbivore_moves)
        &&& fractions(self.carnivore_moves)
    }
}

/// The herd after the feeding phase of a year that started with the pack
/// `pack`, with all the food of the cell, and with these draws.
pub open spec fn herd_hunted(pack: Seq<Health>, food: u64, d: YearDraws) -> Seq<Health> {
    prey_after(pack_ready(pack), herd_fed(d.order, food), d.kills, pack.len() as int)
}

/// The herd after the breeding phase.
pub open spec fn herd_bred(pack: Seq<Health>, food: u64, d: YearDraws) -> Seq<Health> {
    bred(herd_hunted(pack, food, d), herbivore_constants(), d.herbivore_births, d.herbivore_weights)
}

/// The herd after ageing and the loss of weight.
pub open spec fn herd_worn(pack: Seq<Health>, food: u64, d: YearDraws) -> Seq<Health> {
    thinned(aged(herd_bred(pack, food, d)), herbivore_constants())
}

/// The herd after the death phase.
pub open spec fn herd_left(pack: Seq<Health>, food: u64, d: YearDraws) -> Seq<Health> {
    survivors(herd_worn(pack, food, d), herbivore_constants(), d.herbivore_deaths)
}

/// The herd at the end of the year: fed and hunted, then bred, then aged,
/// then thinned, then culled, then staged for migration where the cell has
/// a neighbour.
pub open spec fn herd_after_year(pack: Seq<Health>, food: u64, has_neighbors: bool, d: YearDraws) -> Seq<
    Health,
> {
    if has_neighbors {
        staged(herd_left(pack, food, d), herbivore_constants(), d.herbivore_moves)
    } else {
        weaned(herd_left(pack, food, d))
    }
}

/// The pack after the feeding phase.
pub open spec fn pack_hunted(pack: Seq<Health>, food: u64, d: YearDraws) -> Seq<Health> {
    pack_after(pack_ready(pack), herd_fed(d.order, food), d.kills)
}

/// The pack after the breeding phase.
pub open spec fn pack_bred(pack: Seq<Health>, food: u64, d: YearDraws) -> Seq<Health> {
    bred(pack_hunted(pack, food, d), carnivore_constants(), d.carnivore_births, d.carnivore_weights)
}

/// The pack after ageing and the loss of weight.
pub open spec fn pack_worn(pack: Seq<Health>, food: u64, d: YearDraws) -> Seq<Health> {
    thinned(aged(pack_bred(pack, food, d)), carnivore_constants())
}

/// The pack after the death phase.
pub open spec fn pack_left(pack: Seq<Health>, food: u64, d: YearDraws) -> Seq<Health> {
    survivors(pack_worn(pack, food, d), carnivore_constants(), d.carnivore_deaths)
}

/// The pack at the end of the year.
pub open spec fn pack_after_year(pack: Seq<Health>, food: u64, has_neighbors: bool, d: YearDraws) -> Seq<
    Health,
> {
    if has_neighbors {
        staged(pack_left(pack, food, d), carnivore_constants(), d.carnivore_moves)
    } else {
        weaned(pack_left(pack, food, d))
    }
}

/// The cell `after` and the report are what a year with the draws `d`
/// makes of the cell `before`: the residents have gone through the phases
/// in their order; the food is what the herbivores left of all the food of
/// the cell; the killed are those that the hunt took from the herd, the
/// born those that breeding added, the dead those that the death phase
/// took; and who is marked in the cell is staged to leave it, which no one
/// is in a cell without neighbours.
pub open spec fn lived_with(before: LandCell, after: LandCell, report: YearReport, d: YearDraws) -> bool {
    let pack = before.pack();
    let food = before.max_fodder;
    &&& after.same_ground(&before)
    &&& d.order.to_multiset() == before.herbivores@.to_multiset()
    &&& d.drawn_below_one()
    &&& after.herd() == herd_after_year(pack, food, before.land_cell_neighbors@.len() > 0, d)
    &&& after.pack() == pack_after_year(pack, food, before.land_cell_neighbors@.len() > 0, d)
    &&& after.fodder == pasture(herbivore_constants(), food, before.herbivores@.len() as int)
    &&& report.killed == before.herbivores@.len() - herd_hunted(pack, food, d).len()
    &&& report.born.herbivores == herd_bred(pack, food, d).len() - herd_hunted(pack, food, d).len()
    &&& report.born.carnivores == pack_bred(pack, food, d).len() - pack_hunted(pack, food, d).len()
    &&& report.died.herbivores == herd_worn(pack, food, d).len() - herd_left(pack, food, d).len()
    &&& report.died.carnivores == pack_worn(pack, food, d).len() - pack_left(pack, food, d).len()
    &&& report.leaving is None <==> before.land_cell_neighbors@.len() == 0
    &&& report.leaving is None ==> after.at_rest()
    &&& report.leaving matches Some(e) ==> e.outcome_of(&after, d.herbivore_picks, d.carnivore_picks)
}

/// The cell `after` and the report are what a year with the draws `d`
/// makes of the cell `before`: an empty cell only gets its food back, and
/// no draw has a part in it; elsewhere the residents go through all the
/// phases in their order.
pub open spec fn year_with(before: LandCell, after: LandCell, report: YearReport, d: YearDraws) -> bool {
    if before.population() == 0 {
        &&& after.same_ground(&before)
        &&& after.fodder == before.max_fodder
        &&& after.herbivores == before.herbivores
        &&& after.carnivores == before.carnivores
        &&& report.leaving is None
        &&& report.killed == 0
        &&& report.born.herbivores == 0
        &&& report.born.carnivores == 0
        &&& report.died.herbivores == 0
        &&& report.died.carnivores == 0
    } else {
        lived_with(before, after, report, d)
    }
}

/// The birth weights among the draws are the ones given; an empty cell
/// uses none.
pub open spec fn dealt(
    before: LandCell,
    d: YearDraws,
    herbivore_weights: Seq<u64>,
    carnivore_weights: Seq<u64>,
) -> bool {
    before.population() == 0 || (d.herbivore_weights == herbivore_weights && d.carnivore_weights
        == carnivore_weights)
}

/// The cell `after` and the report are what a year makes of the cell
/// `before` with the given birth weights, whatever else is drawn.
pub open spec fn year_of(
    before: LandCell,
    after: LandCell,
    report: YearReport,
    herbivore_weights: Seq<u64>,
    carnivore_weights: Seq<u64>,
) -> bool {
    exists|d: YearDraws|
        year_with(before, after, report, d) && dealt(
            before,
            d,
            herbivore_weights,
            carnivore_weights,
        )
}

/// Some draws; an empty cell lives its year with any.
pub open spec fn no_draws() -> YearDraws {
    YearDraws {
        order: Seq::empty(),
        kills: Seq::empty(),
        herbivore_births: Seq::empty(),
        herbivore_weights: Seq::empty(),
        carnivore_births: Seq::empty(),
        carnivore_weights: Seq::empty(),
        herbivore_deaths: Seq::empty(),
        carnivore_deaths: Seq::empty(),
        herbivore_moves: Seq::empty(),
        carnivore_moves: Seq::empty(),
        herbivore_picks: Seq::empty(),
        carnivore_picks: Seq::empty(),
    }
}

/// One start and one set of draws give one year, in an empty cell as in
/// any other: the same herd, the same pack, the same food, the same
/// counts, and the same animals sent to the same places.
pub proof fn lemma_year_determined(
    before: LandCell,
    one: LandCell,
    one_report: YearReport,
    other: LandCell,
    other_report: YearReport,
    d: YearDraws,
)
    requires
        year_with(before, one, one_report, d),
        year_with(before, other, other_report, d),
    ensures
        one.herd() == other.herd(),
        one.pack() == other.pack(),
        one.fodder == other.fodder,
        one.same_ground(&other),
        one_report.killed == other_report.killed,
        one_report.born == other_report.born,
        one_report.died == other_report.died,
        one_report.leaving is None <==> other_report.leaving is None,
        one_report.leaving matches Some(a) ==> (other_report.leaving matches Some(b) ==> records(
            a.herbivores@,
        ) == records(b.herbivores@) && records(a.carnivores@) == records(b.carnivores@)
            && a.herbivore_routes@ == b.herbivore_routes@ && a.carnivore_routes@
            == b.carnivore_routes@ && a.fits(&one) && b.fits(&other)),
{
}

/// Individuals of both species.
#[derive(Debug, Clone)]
pub struct AnimalList {
    pub herbivores: Vec<Herbivore>,
    pub carnivores: Vec<Carnivore>,
}

impl AnimalList {
    /// The number of individuals of each species in the list.
    pub fn animal_count(&self) -> (r: AnimalCount)
        requires
            self.herbivores@.len() <= u32::MAX,
            self.carnivores@.len() <= u32::MAX,
        ensures
            r.herbivores == self.herbivores@.len(),
            r.carnivores == self.carnivores@.len(),
    {
        AnimalCount {
            herbivores: self.herbivores.len() as u32,
            carnivores: self.carnivores.len() as u32,
        }
    }
}

/// Those that leave a cell in a year, each with the mark of the move taken
/// off, and for each the neighbouring cell that it goes to.
#[derive(Debug, Clone)]
pub struct Emigrants {
    pub herbivores: Vec<Herbivore>,
    /// `herbivore_routes[i]` is where `herbivores[i]` goes.
    pub herbivore_routes: Vec<Coord>,
    pub carnivores: Vec<Carnivore>,
    /// `carnivore_routes[i]` is where `carnivores[i]` goes.
    pub carnivore_routes: Vec<Coord>,
}

/// What a year brought to a cell.
#[derive(Debug, Clone)]
pub struct YearReport {
    /// Herbivores that fell prey.
    pub killed: u32,
    /// Births of each species.
    pub born: AnimalCount,
    /// Deaths of each species other than by predation.
    pub died: AnimalCount,
    /// Those that leave, where the cell has neighbours and residents.
    pub leaving: Option<Emigrants>,
}

/// The food, in millionths, that a cell of the given terrain offers each
/// year.
pub open spec fn food_capacity(cell_type: LandCellType) -> u64 {
    match cell_type {
        LandCellType::Lowland => 700_000_000,
        LandCellType::Highland => 300_000_000,
        LandCellType::Desert => 0,
    }
}

/// The food, in millionths, that a cell of the given terrain offers each
/// year.
pub fn get_max_fodder(cell_type: LandCellType) -> (r: u64)
    ensures
        r == food_capacity(cell_type),
{
    match cell_type {
        LandCellType::Lowland => 700_000_000,
        LandCellType::Highland => 300_000_000,
        LandCellType::Desert => 0,
    }
}

/// A habitable cell: its food, its residents and its habitable neighbours.
#[derive(Debug, Clone)]
pub struct LandCell {
    /// Food left this year, in millionths.
    pub fodder: u64,
    /// Food at the start of each year, in millionths.
    pub max_fodder: u64,
    pub cell_type: LandCellType,
    pub location: Coord,
    pub herbivores: Vec<Herbivore>,
    pub carnivores: Vec<Carnivore>,
    /// The habitable cells next to this one.
    pub land_cell_neighbors: Vec<Coord>,
}

/// For each of `rows` hunters, `cols` draws below one.
pub fn draw_table(rng: &mut StdRng, rows: usize, cols: usize) -> (table: Vec<Vec<u64>>)
    ensures
        table@.len() == rows,
        forall|c: int| 0 <= c < rows ==> (#[trigger] table@[c])@.len() == cols,
        forall|c: int| 0 <= c < rows ==> fractions((#[trigger] table@[c])@),
{
    let mut table: Vec<Vec<u64>> = Vec::new();
    let mut c: usize = 0;
    while c < rows
        invariant
            c <= rows,
            table@.len() == c,
            forall|j: int| 0 <= j < c ==> (#[trigger] table@[j])@.len() == cols,
            forall|j: int| 0 <= j < c ==> fractions((#[trigger] table@[j])@),
        decreases rows - c,
    {
        let row: Vec<u64> = draw_many(rng, cols);
        table.push(row);
        c = c + 1;
    }
    table
}

/// Whether the weight is the birth weight of the species for some deviate
/// within six standard deviations of zero.
pub open spec fn sampled(p: SpeciesParams, weight: u64) -> bool {
    exists|z: i64| -6 * UNIT <= z < 6 * UNIT && weight == #[trigger] birth_weight_of(p, z)
}

/// Some number of birth weights, each sampled for the given species.
pub fn sample_birth_weights(rng: &mut StdRng, p: &SpeciesParams, n: usize) -> (weights: Vec<u64>)
    ensures
        weights@.len() == n,
        forall|i: int| 0 <= i < n ==> sampled(*p, #[trigger] weights@[i]),
{
    let mut weights: Vec<u64> = Vec::new();
    let mut i: usize = 0;
    while i < n
        invariant
            i <= n,
            weights@.len() == i,
            forall|j: int| 0 <= j < i ==> sampled(*p, #[trigger] weights@[j]),
        decreases n - i,
    {
        let z: i64 = standard_deviate(rng);
        weights.push(birth_weight_from(p, z));
        i = i + 1;
    }
    weights
}

/// Some number of picks, each one of the given neighbours.
pub fn pick_many(neighbors: &Vec<Coord>, rng: &mut StdRng, n: usize) -> (picks: Vec<Coord>)
    requires
        neighbors@.len() > 0,
    ensures
        picks@.len() == n,
        forall|i: int| 0 <= i < n ==> neighbors@.contains(#[trigger] picks@[i]),
{
    let mut picks: Vec<Coord> = Vec::new();
    let mut i: usize = 0;
    while i < n
        invariant
            i <= n,
            neighbors@.len() > 0,
            picks@.len() == i,
            forall|j: int| 0 <= j < i ==> neighbors@.contains(#[trigger] picks@[j]),
        decreases n - i,
    {
        match pick(neighbors, rng) {
            Some(c) => {
                picks.push(c);
            },
            None => {
                picks.push(neighbors[0]);
            },
        }
        i = i + 1;
    }
    picks
}

impl LandCell {
    /// The records of the herbivores in the cell.
    pub open spec fn herd(&self) -> Seq<Health> {
        records(self.herbivores@)
    }

    /// The records of the carnivores in the cell.
    pub open spec fn pack(&self) -> Seq<Health> {
        records(self.carnivores@)
    }

    /// The number of residents of both species.
    pub open spec fn population(&self) -> nat {
        self.herbivores@.len() + self.carnivores@.len()
    }

    /// The cell holds no more food than its terrain offers, its residents
    /// are alive with their cached fitnesses right, and they can be counted.
    pub open spec fn wf(&self) -> bool {
        &&& self.max_fodder == food_capacity(self.cell_type)
        &&& self.fodder <= self.max_fodder
        &&& healthy(self.herd(), herbivore_constants())
        &&& healthy(self.pack(), carnivore_constants())
        &&& self.population() <= u32::MAX
    }

    /// No resident is marked as leaving or as newborn: the state of a cell
    /// between two years.
    pub open spec fn at_rest(&self) -> bool {
        settled(self.herd()) && settled(self.pack())
    }

    /// No resident is marked as newborn.
    pub open spec fn weaned_all(&self) -> bool {
        &&& forall|i: int| 0 <= i < self.herd().len() ==> !(#[trigger] self.herd()[i]).newborn
        &&& forall|i: int| 0 <= i < self.pack().len() ==> !(#[trigger] self.pack()[i]).newborn
    }

    /// No resident is marked as leaving.
    pub open spec fn unmarked(&self) -> bool {
        unmoved(self.herd()) && unmoved(self.pack())
    }

    /// The cell but for its residents and its food: terrain, place and
    /// neighbours.
    pub open spec fn same_ground(&self, other: &LandCell) -> bool {
        &&& self.cell_type == other.cell_type
        &&& self.max_fodder == other.max_fodder
        &&& self.location == other.location
        &&& self.land_cell_neighbors@ == other.land_cell_neighbors@
    }

    /// An empty cell of the given terrain, with all its food.
    pub fn new(cell_type: LandCellType, location: Coord, land_cell_neighbors: Vec<Coord>) -> (cell:
        Self)
        ensures
            cell.wf(),
            cell.at_rest(),
            cell.cell_type == cell_type,
            cell.location == location,
            cell.land_cell_neighbors == land_cell_neighbors,
            cell.fodder == food_capacity(cell_type),
            cell.herbivores@.len() == 0,
            cell.carnivores@.len() == 0,
    {
        let max_fodder: u64 = get_max_fodder(cell_type);
        Self {
            cell_type,
            location,
            max_fodder,
            land_cell_neighbors,
            fodder: max_fodder,
            herbivores: Vec::new(),
            carnivores: Vec::new(),
        }
    }

    /// The food grows back to what the terrain offers.
    pub fn reset_fodder(&mut self)
        ensures
            final(self).fodder == old(self).max_fodder,
            final(self).same_ground(old(self)),
            final(self).herbivores == old(self).herbivores,
            final(self).carnivores == old(self).carnivores,
    {
        self.fodder = self.max_fodder;
    }

    /// The herbivores eat in the order in which they stand: each takes its
    /// appetite, or what is left. The food never goes below zero.
    pub fn graze(&mut self)
        requires
            old(self).wf(),
        ensures
            final(self).wf(),
            final(self).herd() == grazed(old(self).herd(), herbivore_constants(), old(self).fodder),
            final(self).fodder == pasture(
                herbivore_constants(),
                old(self).fodder,
                old(self).herbivores@.len() as int,
            ),
            final(self).fodder <= old(self).fodder,
            final(self).same_ground(old(self)),
            final(self).carnivores == old(self).carnivores,
            final(self).herbivores@.len() == old(self).herbivores@.len(),
            old(self).at_rest() ==> final(self).at_rest(),
            old(self).unmarked() ==> final(self).unmarked(),
    {
        self.fodder = graze_in_turn(&mut self.herbivores, self.fodder);
    }

    /// The hunt: both species are put in order of fitness, the herbivores
    /// from the weakest up and the carnivores from the fittest down, and the
    /// carnivores hunt in turn, carnivore `c` with the draws `draws[c]`.
    /// Returns the number of herbivores killed.
    pub fn hunt(&mut self, draws: &Vec<Vec<u64>>) -> (killed: u32)
        requires
            old(self).wf(),
            old(self).carnivores@.len() <= draws@.len(),
            forall|c: int|
                0 <= c < old(self).carnivores@.len() ==> old(self).herbivores@.len() <= (
                #[trigger] draws@[c])@.len(),
        ensures
            final(self).wf(),
            final(self).herd() == prey_after(
                ranked(refreshed(old(self).pack(), carnivore_constants()), false),
                ranked(refreshed(old(self).herd(), herbivore_constants()), true),
                tapes(draws@),
                old(self).carnivores@.len() as int,
            ),
            final(self).pack() == pack_after(
                ranked(refreshed(old(self).pack(), carnivore_constants()), false),
                ranked(refreshed(old(self).herd(), herbivore_constants()), true),
                tapes(draws@),
            ),
            final(self).herbivores@.len() + killed == old(self).herbivores@.len(),
            final(self).carnivores@.len() == old(self).carnivores@.len(),
            final(self).fodder == old(self).fodder,
            final(self).same_ground(old(self)),
            old(self).unmarked() ==> final(self).unmarked(),
    {
        refresh_all(&mut self.herbivores);
        refresh_all(&mut self.carnivores);
        proof {
            lemma_ranked(self.herd(), true);
            lemma_ranked(self.pack(), false);
            lemma_ranked_keeps(self.herd(), true, herbivore_constants());
            lemma_ranked_keeps(self.pack(), false, carnivore_constants());
        }
        rank(&mut self.herbivores, true);
        rank(&mut self.carnivores, false);
        let ghost pack1 = self.pack();
        let killed: usize = hunt_in_turn(&mut self.carnivores, &mut self.herbivores, draws);
        proof {
            assert forall|c: int| 0 <= c < self.pack().len() implies (#[trigger] self.pack()[c]).is_alive
                && (old(self).unmarked() ==> !self.pack()[c].has_moved) by {
                assert(pack1[c].is_alive);
                if old(self).unmarked() {
                    assert(!pack1[c].has_moved);
                }
            }
        }
        killed as u32
    }

    /// The feeding phase: the herbivores eat in an order that the random
    /// source settles, then the carnivores hunt. Returns the number of
    /// herbivores killed. Whatever the order, the food goes down by what the
    /// herbivores can eat of it, and never below zero.
    pub fn feeding(&mut self, rng: &mut StdRng) -> (killed: u32)
        requires
            old(self).wf(),
        ensures
            final(self).wf(),
            final(self).fodder == pasture(
                herbivore_constants(),
                old(self).fodder,
                old(self).herbivores@.len() as int,
            ),
            final(self).herbivores@.len() + killed == old(self).herbivores@.len(),
            final(self).carnivores@.len() == old(self).carnivores@.len(),
            final(self).same_ground(old(self)),
            old(self).unmarked() ==> final(self).unmarked(),
            (exists|order: Seq<Herbivore>, draws: Seq<Seq<u64>>|
                fed_with(
                    old(self).herbivores@,
                    old(self).pack(),
                    old(self).fodder,
                    final(self).herd(),
                    final(self).pack(),
                    order,
                    draws,
                )),
    {
        let ghost herd0 = self.herbivores@;
        shuffle(&mut self.herbivores, rng);
        proof {
            broadcast use vstd::seq_lib::group_to_multiset_ensures;

            assert(self.herbivores@.len() == herd0.len()) by {
                herd0.to_multiset_ensures();
                self.herbivores@.to_multiset_ensures();
            }
            assert forall|i: int| 0 <= i < self.herd().len() implies (#[trigger] self.herd()[i]).is_alive
                && consistent(self.herd()[i], herbivore_constants()) && (old(self).unmarked()
                ==> !self.herd()[i].has_moved) by {
                let a = self.herbivores@[i];
                assert(self.herbivores@.to_multiset().count(a) > 0);
                assert(herd0.to_multiset().count(a) > 0);
                assert(herd0.contains(a));
                let j = choose|j: int| 0 <= j < herd0.len() && herd0[j] == a;
                assert(records(herd0)[j] == a.health);
            }
        }
        let ghost order = self.herbivores@;
        self.graze();
        let draws: Vec<Vec<u64>> = draw_table(rng, self.carnivores.len(), self.herbivores.len());
        let killed: u32 = self.hunt(&draws);
        proof {
            assert(fed_with(
                old(self).herbivores@,
                old(self).pack(),
                old(self).fodder,
                self.herd(),
                self.pack(),
                order,
                tapes(draws@),
            ));
        }
        killed
    }

    /// The ageing phase: every resident but the newborn is a year older.
    pub fn aging(&mut self)
        requires
            old(self).wf(),
        ensures
            final(self).wf(),
            final(self).herd() == aged(old(self).herd()),
            final(self).pack() == aged(old(self).pack()),
            final(self).herbivores@.len() == old(self).herbivores@.len(),
            final(self).carnivores@.len() == old(self).carnivores@.len(),
            final(self).fodder == old(self).fodder,
            final(self).same_ground(old(self)),
            old(self).unmarked() ==> final(self).unmarked(),
    {
        age_all(&mut self.herbivores);
        age_all(&mut self.carnivores);
    }

    /// The weight-loss phase: every resident but the newborn loses the
    /// yearly share of its weight.
    pub fn lose_weight(&mut self)
        requires
            old(self).wf(),
        ensures
            final(self).wf(),
            final(self).herd() == thinned(old(self).herd(), herbivore_constants()),
            final(self).pack() == thinned(old(self).pack(), carnivore_constants()),
            final(self).herbivores@.len() == old(self).herbivores@.len(),
            final(self).carnivores@.len() == old(self).carnivores@.len(),
            final(self).fodder == old(self).fodder,
            final(self).same_ground(old(self)),
            old(self).unmarked() ==> final(self).unmarked(),
    {
        slim_all(&mut self.herbivores);
        slim_all(&mut self.carnivores);
    }

    /// The death phase, given one draw for each resident: every resident
    /// stands the trial, and the dead are removed. Returns how many of each
    /// species died. No one without weight is left.
    pub fn death_with(&mut self, herbivore_draws: &Vec<u64>, carnivore_draws: &Vec<u64>) -> (dead:
        AnimalCount)
        requires
            old(self).wf(),
            old(self).herbivores@.len() <= herbivore_draws@.len(),
            old(self).carnivores@.len() <= carnivore_draws@.len(),
        ensures
            final(self).wf(),
            final(self).herd() == survivors(old(self).herd(), herbivore_constants(), herbivore_draws@),
            final(self).pack() == survivors(old(self).pack(), carnivore_constants(), carnivore_draws@),
            final(self).herbivores@.len() + dead.herbivores == old(self).herbivores@.len(),
            final(self).carnivores@.len() + dead.carnivores == old(self).carnivores@.len(),
            forall|i: int|
                0 <= i < final(self).herd().len() ==> (#[trigger] final(self).herd()[i]).weight > 0,
            forall|i: int|
                0 <= i < final(self).pack().len() ==> (#[trigger] final(self).pack()[i]).weight > 0,
            final(self).fodder == old(self).fodder,
            final(self).same_ground(old(self)),
            old(self).unmarked() ==> final(self).unmarked(),
    {
        proof {
            lemma_survivors_have_weight(self.herd(), herbivore_constants(), herbivore_draws@);
            lemma_survivors_have_weight(self.pack(), carnivore_constants(), carnivore_draws@);
        }
        let dead_herbs: usize = cull(&mut self.herbivores, herbivore_draws);
        let dead_carns: usize = cull(&mut self.carnivores, carnivore_draws);
        AnimalCount { herbivores: dead_herbs as u32, carnivores: dead_carns as u32 }
    }

    /// The death phase, with draws from the random source. Whatever is
    /// drawn, no one without weight is left.
    pub fn death(&mut self, rng: &mut StdRng) -> (dead: AnimalCount)
        requires
            old(self).wf(),
        ensures
            final(self).wf(),
            (exists|herbivore_draws: Seq<u64>, carnivore_draws: Seq<u64>|
                {
                    &&& fractions(herbivore_draws)
                    &&& fractions(carnivore_draws)
                    &&& final(self).herd() == survivors(
                        old(self).herd(),
                        herbivore_constants(),
                        herbivore_draws,
                    )
                    &&& final(self).pack() == survivors(
                        old(self).pack(),
                        carnivore_constants(),
                        carnivore_draws,
                    )
                }),
            old(self).unmarked() ==> final(self).unmarked(),
            final(self).herbivores@.len() + dead.herbivores == old(self).herbivores@.len(),
            final(self).carnivores@.len() + dead.carnivores == old(self).carnivores@.len(),
            forall|i: int|
                0 <= i < final(self).herd().len() ==> (#[trigger] final(self).herd()[i]).weight > 0,
            forall|i: int|
                0 <= i < final(self).pack().len() ==> (#[trigger] final(self).pack()[i]).weight > 0,
            final(self).fodder == old(self).fodder,
            final(self).same_ground(old(self)),
    {
        let herbivore_draws: Vec<u64> = draw_many(rng, self.herbivores.len());
        let carnivore_draws: Vec<u64> = draw_many(rng, self.carnivores.len());
        self.death_with(&herbivore_draws, &carnivore_draws)
    }

    /// The breeding phase, given for each resident a draw and a sampled
    /// birth weight: every resident makes its attempt among those of its
    /// species that were in the cell before the phase, and the offspring
    /// join the cell behind them, marked as newborn. Returns how many of
    /// each species were born.
    pub fn procreate_with(
        &mut self,
        herbivore_draws: &Vec<u64>,
        herbivore_weights: &Vec<u64>,
        carnivore_draws: &Vec<u64>,
        carnivore_weights: &Vec<u64>,
    ) -> (born: AnimalCount)
        requires
            old(self).wf(),
            2 * old(self).population() <= u32::MAX,
            old(self).herbivores@.len() <= herbivore_draws@.len(),
            old(self).herbivores@.len() <= herbivore_weights@.len(),
            old(self).carnivores@.len() <= carnivore_draws@.len(),
            old(self).carnivores@.len() <= carnivore_weights@.len(),
        ensures
            final(self).wf(),
            final(self).herd() == bred(
                old(self).herd(),
                herbivore_constants(),
                herbivore_draws@,
                herbivore_weights@,
            ),
            final(self).pack() == bred(
                old(self).pack(),
                carnivore_constants(),
                carnivore_draws@,
                carnivore_weights@,
            ),
            final(self).herbivores@.len() == old(self).herbivores@.len() + born.herbivores,
            final(self).carnivores@.len() == old(self).carnivores@.len() + born.carnivores,
            born.herbivores <= old(self).herbivores@.len(),
            born.carnivores <= old(self).carnivores@.len(),
            final(self).fodder == old(self).fodder,
            final(self).same_ground(old(self)),
            old(self).unmarked() ==> final(self).unmarked(),
    {
        let born_herbs: usize = breed(&mut self.herbivores, herbivore_draws, herbivore_weights);
        let born_carns: usize = breed(&mut self.carnivores, carnivore_draws, carnivore_weights);
        AnimalCount { herbivores: born_herbs as u32, carnivores: born_carns as u32 }
    }

    /// The breeding phase, with draws and birth weights from the random
    /// source.
    pub fn procreate(&mut self, rng: &mut StdRng) -> (born: AnimalCount)
        requires
            old(self).wf(),
            2 * old(self).population() <= u32::MAX,
        ensures
            final(self).wf(),
            (exists|hd: Seq<u64>, hw: Seq<u64>, cd: Seq<u64>, cw: Seq<u64>|
                {
                    &&& fractions(hd)
                    &&& fractions(cd)
                    &&& hw.len() == old(self).herbivores@.len()
                    &&& cw.len() == old(self).carnivores@.len()
                    &&& forall|i: int|
                        0 <= i < hw.len() ==> sampled(herbivore_constants(), #[trigger] hw[i])
                    &&& forall|i: int|
                        0 <= i < cw.len() ==> sampled(carnivore_constants(), #[trigger] cw[i])
                    &&& final(self).herd() == bred(old(self).herd(), herbivore_constants(), hd, hw)
                    &&& final(self).pack() == bred(old(self).pack(), carnivore_constants(), cd, cw)
                }),
            old(self).unmarked() ==> final(self).unmarked(),
            final(self).herbivores@.len() == old(self).herbivores@.len() + born.herbivores,
            final(self).carnivores@.len() == old(self).carnivores@.len() + born.carnivores,
            born.herbivores <= old(self).herbivores@.len(),
            born.carnivores <= old(self).carnivores@.len(),
            final(self).fodder == old(self).fodder,
            final(self).same_ground(old(self)),
    {
        let hp = herbivore_params();
        let cp = carnivore_params();
        let hd: Vec<u64> = draw_many(rng, self.herbivores.len());
        let hw: Vec<u64> = sample_birth_weights(rng, &hp, self.herbivores.len());
        let cd: Vec<u64> = draw_many(rng, self.carnivores.len());
        let cw: Vec<u64> = sample_birth_weights(rng, &cp, self.carnivores.len());
        self.procreate_with(&hd, &hw, &cd, &cw)
    }

    /// Stages the migrations, given for each resident a draw and the
    /// neighbour that it would go to. A cell without neighbours lets no one
    /// go. Elsewhere every resident but the newborn decides with its draw;
    /// who leaves is marked, and a copy with the mark taken off is handed
    /// out with its destination. No cell is changed but this one, and here
    /// no one is removed. The year of birth of the newborn ends here.
    pub fn migrate_with(
        &mut self,
        herbivore_draws: &Vec<u64>,
        herbivore_picks: &Vec<Coord>,
        carnivore_draws: &Vec<u64>,
        carnivore_picks: &Vec<Coord>,
    ) -> (leaving: Option<Emigrants>)
        requires
            old(self).wf(),
            unmoved(old(self).herd()),
            unmoved(old(self).pack()),
            old(self).herbivores@.len() <= herbivore_draws@.len(),
            old(self).herbivores@.len() <= herbivore_picks@.len(),
            old(self).carnivores@.len() <= carnivore_draws@.len(),
            old(self).carnivores@.len() <= carnivore_picks@.len(),
            forall|i: int|
                0 <= i < herbivore_picks@.len() ==> old(self).land_cell_neighbors@.contains(
                    #[trigger] herbivore_picks@[i],
                ),
            forall|i: int|
                0 <= i < carnivore_picks@.len() ==> old(self).land_cell_neighbors@.contains(
                    #[trigger] carnivore_picks@[i],
                ),
        ensures
            final(self).wf(),
            final(self).same_ground(old(self)),
            final(self).fodder == old(self).fodder,
            final(self).herbivores@.len() == old(self).herbivores@.len(),
            final(self).carnivores@.len() == old(self).carnivores@.len(),
            leaving is None <==> old(self).land_cell_neighbors@.len() == 0,
            leaving is None ==> {
                &&& final(self).herd() == weaned(old(self).herd())
                &&& final(self).pack() == weaned(old(self).pack())
                &&& final(self).at_rest()
            },
            leaving matches Some(e) ==> {
                &&& final(self).herd() == staged(
                    old(self).herd(),
                    herbivore_constants(),
                    herbivore_draws@,
                )
                &&& final(self).pack() == staged(
                    old(self).pack(),
                    carnivore_constants(),
                    carnivore_draws@,
                )
                &&& e.outcome_of(final(self), herbivore_picks@, carnivore_picks@)
            },
            forall|i: int|
                0 <= i < final(self).herd().len() ==> !(#[trigger] final(self).herd()[i]).newborn,
            forall|i: int|
                0 <= i < final(self).pack().len() ==> !(#[trigger] final(self).pack()[i]).newborn,
    {
        if self.land_cell_neighbors.len() == 0 {
            wean_all(&mut self.herbivores);
            wean_all(&mut self.carnivores);
            return None;
        }
        stage_all(&mut self.herbivores, herbivore_draws);
        stage_all(&mut self.carnivores, carnivore_draws);
        let (herbivore_routes, herbivores) = collect_movers(&self.herbivores, herbivore_picks);
        let (carnivore_routes, carnivores) = collect_movers(&self.carnivores, carnivore_picks);
        proof {
            lemma_routes(self.herd(), herbivore_picks@, self.herd().len() as int);
            lemma_routes(self.pack(), carnivore_picks@, self.pack().len() as int);
            lemma_selection_healthy(self.herd(), herbivore_constants());
            lemma_selection_healthy(self.pack(), carnivore_constants());
            assert(records(herbivores@).len() == movers(self.herd()).len());
            assert(records(carnivores@).len() == movers(self.pack()).len());
            assert forall|i: int| 0 <= i < herbivores@.len() implies (#[trigger] records(
                herbivores@,
            )[i]).is_alive by {
                assert(movers(self.herd())[i].is_alive);
            }
            assert forall|i: int| 0 <= i < carnivores@.len() implies (#[trigger] records(
                carnivores@,
            )[i]).is_alive by {
                assert(movers(self.pack())[i].is_alive);
            }
            assert(self.herd().take(self.herd().len() as int) =~= self.herd());
            assert(self.pack().take(self.pack().len() as int) =~= self.pack());
            assert forall|i: int| 0 <= i < herbivore_routes@.len() implies self.land_cell_neighbors@.contains(
                #[trigger] herbivore_routes@[i],
            ) by {
                let c = herbivore_routes@[i];
                assert(herbivore_picks@.contains(c));
                let k = choose|k: int| 0 <= k < herbivore_picks@.len() && herbivore_picks@[k] == c;
                assert(self.land_cell_neighbors@.contains(herbivore_picks@[k]));
            }
            assert forall|i: int| 0 <= i < carnivore_routes@.len() implies self.land_cell_neighbors@.contains(
                #[trigger] carnivore_routes@[i],
            ) by {
                let c = carnivore_routes@[i];
                assert(carnivore_picks@.contains(c));
                let k = choose|k: int| 0 <= k < carnivore_picks@.len() && carnivore_picks@[k] == c;
                assert(self.land_cell_neighbors@.contains(carnivore_picks@[k]));
            }
        }
        Some(Emigrants { herbivores, herbivore_routes, carnivores, carnivore_routes })
    }

    /// Stages the migrations, with draws and destinations from the random
    /// source. Whatever is drawn, everyone who leaves goes to a neighbour of
    /// this cell.
    pub fn migrate(&mut self, rng: &mut StdRng) -> (leaving: Option<Emigrants>)
        requires
            old(self).wf(),
            unmoved(old(self).herd()),
            unmoved(old(self).pack()),
        ensures
            final(self).wf(),
            final(self).same_ground(old(self)),
            final(self).fodder == old(self).fodder,
            final(self).herbivores@.len() == old(self).herbivores@.len(),
            final(self).carnivores@.len() == old(self).carnivores@.len(),
            leaving is None <==> old(self).land_cell_neighbors@.len() == 0,
            leaving is None ==> {
                &&& final(self).herd() == weaned(old(self).herd())
                &&& final(self).pack() == weaned(old(self).pack())
                &&& final(self).at_rest()
            },
            leaving matches Some(e) ==> (exists|hd: Seq<u64>, hp: Seq<Coord>, cd: Seq<u64>, cp: Seq<Coord>|
                {
                    &&& fractions(hd)
                    &&& fractions(cd)
                    &&& final(self).herd() == staged(old(self).herd(), herbivore_constants(), hd)
                    &&& final(self).pack() == staged(old(self).pack(), carnivore_constants(), cd)
                    &&& e.outcome_of(final(self), hp, cp)
                }),
            leaving matches Some(e) ==> e.fits(final(self)),
            forall|i: int|
                0 <= i < final(self).herd().len() ==> !(#[trigger] final(self).herd()[i]).newborn,
            forall|i: int|
                0 <= i < final(self).pack().len() ==> !(#[trigger] final(self).pack()[i]).newborn,
    {
        let nh: usize = self.herbivores.len();
        let nc: usize = self.carnivores.len();
        if self.land_cell_neighbors.len() == 0 {
            wean_all(&mut self.herbivores);
            wean_all(&mut self.carnivores);
            return None;
        }
        let hd: Vec<u64> = draw_many(rng, nh);
        let hp: Vec<Coord> = pick_many(&self.land_cell_neighbors, rng, nh);
        let cd: Vec<u64> = draw_many(rng, nc);
        let cp: Vec<Coord> = pick_many(&self.land_cell_neighbors, rng, nc);
        let leaving = self.migrate_with(&hd, &hp, &cd, &cp);
        leaving
    }

    /// Removes those that are marked as leaving.
    pub fn remove_moved(&mut self)
        requires
            old(self).wf(),
        ensures
            final(self).wf(),
            final(self).same_ground(old(self)),
            final(self).fodder == old(self).fodder,
            final(self).herd() == stayers(old(self).herd()),
            final(self).pack() == stayers(old(self).pack()),
            final(self).herbivores@.len() + movers(old(self).herd()).len() == old(self).herbivores@.len(),
            final(self).carnivores@.len() + movers(old(self).pack()).len() == old(self).carnivores@.len(),
            unmoved(final(self).herd()),
            unmoved(final(self).pack()),
            old(self).weaned_all() ==> final(self).at_rest(),
    {
        proof {
            lemma_selection_healthy(self.herd(), herbivore_constants());
            lemma_selection_healthy(self.pack(), carnivore_constants());
            lemma_movers_and_stayers(self.herd());
            lemma_movers_and_stayers(self.pack());
            if self.weaned_all() {
                lemma_stayers_settled(self.herd());
                lemma_stayers_settled(self.pack());
            }
        }
        drop_movers(&mut self.carnivores);
        drop_movers(&mut self.herbivores);
    }

    /// Where the cell lies.
    pub fn get_location(&self) -> (r: Coord)
        ensures
            r == self.location,
    {
        self.location
    }

    /// The number of carnivores in the cell.
    pub fn carn_count(&self) -> (r: u32)
        requires
            self.carnivores@.len() <= u32::MAX,
        ensures
            r == self.carnivores@.len(),
    {
        self.carnivores.len() as u32
    }

    /// The number of herbivores in the cell.
    pub fn herb_count(&self) -> (r: u32)
        requires
            self.herbivores@.len() <= u32::MAX,
        ensures
            r == self.herbivores@.len(),
    {
        self.herbivores.len() as u32
    }

    /// The number of residents of each species.
    pub fn animal_count(&self) -> (r: AnimalCount)
        requires
            self.herbivores@.len() <= u32::MAX,
            self.carnivores@.len() <= u32::MAX,
        ensures
            r.herbivores == self.herbivores@.len(),
            r.carnivores == self.carnivores@.len(),
    {
        let herb_count: u32 = self.herb_count();
        let carn_count: u32 = self.carn_count();
        AnimalCount { herbivores: herb_count, carnivores: carn_count }
    }

    /// The mean age of the carnivores in millionths of a year; zero where
    /// there are none.
    pub fn carn_avg_age(&self) -> (r: u64)
        requires
            self.carnivores@.len() <= u32::MAX,
        ensures
            r == mean_age(self.pack()),
    {
        average_age(&self.carnivores)
    }

    /// The mean weight of the carnivores in millionths; zero where there
    /// are none.
    pub fn carn_avg_weight(&self) -> (r: u64)
        requires
            self.carnivores@.len() <= u32::MAX,
        ensures
            r == mean_weight(self.pack()),
    {
        average_weight(&self.carnivores)
    }

    /// The mean weight of the herbivores in millionths; zero where there
    /// are none.
    pub fn herb_avg_weight(&self) -> (r: u64)
        requires
            self.herbivores@.len() <= u32::MAX,
        ensures
            r == mean_weight(self.herd()),
    {
        average_weight(&self.herbivores)
    }

    /// The mean age of the herbivores in millionths of a year; zero where
    /// there are none.
    pub fn herb_avg_age(&self) -> (r: u64)
        requires
            self.herbivores@.len() <= u32::MAX,
        ensures
            r == mean_age(self.herd()),
    {
        average_age(&self.herbivores)
    }

    /// Takes in the living of the list, each without a mark and without a
    /// cached fitness, behind the residents.
    pub fn add_animals(&mut self, animal_list: AnimalList)
        requires
            old(self).wf(),
            old(self).population() + animal_list.herbivores@.len() + animal_list.carnivores@.len()
                <= u32::MAX,
        ensures
            final(self).wf(),
            final(self).same_ground(old(self)),
            final(self).fodder == old(self).fodder,
            final(self).herd() == old(self).herd() + arrivals(living(records(animal_list.herbivores@))),
            final(self).pack() == old(self).pack() + arrivals(living(records(animal_list.carnivores@))),
            final(self).herbivores@.len() == old(self).herbivores@.len() + living(
                records(animal_list.herbivores@),
            ).len(),
            final(self).carnivores@.len() == old(self).carnivores@.len() + living(
                records(animal_list.carnivores@),
            ).len(),
            old(self).at_rest() ==> final(self).at_rest(),
            old(self).unmarked() ==> final(self).unmarked(),
    {
        self.take_in_list(&animal_list);
    }

    /// Takes in the living of the list, each without a mark and without a
    /// cached fitness, behind the residents.
    pub fn take_in_list(&mut self, animal_list: &AnimalList)
        requires
            old(self).wf(),
            old(self).population() + animal_list.herbivores@.len() + animal_list.carnivores@.len()
                <= u32::MAX,
        ensures
            final(self).wf(),
            final(self).same_ground(old(self)),
            final(self).fodder == old(self).fodder,
            final(self).herd() == old(self).herd() + arrivals(living(records(animal_list.herbivores@))),
            final(self).pack() == old(self).pack() + arrivals(living(records(animal_list.carnivores@))),
            final(self).herbivores@.len() <= old(self).herbivores@.len() + animal_list.herbivores@.len(),
            final(self).carnivores@.len() <= old(self).carnivores@.len() + animal_list.carnivores@.len(),
            final(self).herbivores@.len() == old(self).herbivores@.len() + living(
                records(animal_list.herbivores@),
            ).len(),
            final(self).carnivores@.len() == old(self).carnivores@.len() + living(
                records(animal_list.carnivores@),
            ).len(),
            old(self).at_rest() ==> final(self).at_rest(),
            old(self).unmarked() ==> final(self).unmarked(),
    {
        proof {
            records(animal_list.herbivores@).lemma_filter_len(|h: Health| h.is_alive);
            records(animal_list.carnivores@).lemma_filter_len(|h: Health| h.is_alive);
        }
        take_in(&mut self.herbivores, &animal_list.herbivores);
        take_in(&mut self.carnivores, &animal_list.carnivores);
        proof {
            assert(self.herd().len() == old(self).herd().len() + arrivals(
                living(records(animal_list.herbivores@)),
            ).len());
            assert(self.pack().len() == old(self).pack().len() + arrivals(
                living(records(animal_list.carnivores@)),
            ).len());
            assert(unmoved(old(self).herd()) ==> unmoved(self.herd())) by {
                if unmoved(old(self).herd()) {
                    assert forall|i: int| 0 <= i < self.herd().len() implies !(
                    #[trigger] self.herd()[i]).has_moved by {
                        if i < old(self).herd().len() {
                            assert(self.herd()[i] == old(self).herd()[i]);
                        }
                    }
                }
            }
            assert(unmoved(old(self).pack()) ==> unmoved(self.pack())) by {
                if unmoved(old(self).pack()) {
                    assert forall|i: int| 0 <= i < self.pack().len() implies !(
                    #[trigger] self.pack()[i]).has_moved by {
                        if i < old(self).pack().len() {
                            assert(self.pack()[i] == old(self).pack()[i]);
                        }
                    }
                }
            }
        }
    }
}

impl LandCell {
    /// Takes in one animal as it arrives, a carnivore where `hunter` says
    /// so and a herbivore else: without a mark and without a cached
    /// fitness, behind the residents of its species.
    pub fn receive(&mut self, record: Health, hunter: bool)
        requires
            old(self).wf(),
            old(self).population() < u32::MAX,
            record.is_alive,
        ensures
            final(self).wf(),
            final(self).same_ground(old(self)),
            final(self).fodder == old(self).fodder,
            hunter ==> final(self).pack() == old(self).pack().push(arrived(record))
                && final(self).herbivores == old(self).herbivores,
            !hunter ==> final(self).herd() == old(self).herd().push(arrived(record))
                && final(self).carnivores == old(self).carnivores,
            final(self).population() == old(self).population() + 1,
            old(self).at_rest() ==> final(self).at_rest(),
            old(self).unmarked() ==> final(self).unmarked(),
    {
        let mut h: Health = record;
        h.has_moved = false;
        h.newborn = false;
        h.fitness = 0;
        h.fitness_valid = false;
        let ghost herd0 = self.herd();
        let ghost pack0 = self.pack();
        if hunter {
            self.carnivores.push(Carnivore { health: h });
        } else {
            self.herbivores.push(Herbivore { health: h });
        }
        proof {
            if hunter {
                assert(self.pack() =~= pack0.push(h));
            } else {
                assert(self.herd() =~= herd0.push(h));
            }
            assert forall|i: int| 0 <= i < self.herd().len() implies (#[trigger] self.herd()[i]).is_alive
                && consistent(self.herd()[i], herbivore_constants()) && (old(self).at_rest()
                ==> !self.herd()[i].has_moved && !self.herd()[i].newborn) && (old(self).unmarked()
                ==> !self.herd()[i].has_moved) by {
                if i < herd0.len() {
                    assert(self.herd()[i] == herd0[i]);
                }
            }
            assert forall|i: int| 0 <= i < self.pack().len() implies (#[trigger] self.pack()[i]).is_alive
                && consistent(self.pack()[i], carnivore_constants()) && (old(self).at_rest()
                ==> !self.pack()[i].has_moved && !self.pack()[i].newborn) && (old(self).unmarked()
                ==> !self.pack()[i].has_moved) by {
                if i < pack0.len() {
                    assert(self.pack()[i] == pack0[i]);
                }
            }
        }
    }

    /// One year in the cell, in the order of its phases: the food grows
    /// back; then, where anyone lives here, feeding and hunting, breeding,
    /// ageing, loss of weight, death, and the staging of migrations. The
    /// draws come from the random source; the birth weights are given, one
    /// for each resident of the species at the start of the year. The
    /// residents at the end are those at the start, less the killed and the
    /// dead, plus the born; who leaves is still here, marked.
    pub fn live_year(
        &mut self,
        rng: &mut StdRng,
        herbivore_weights: &Vec<u64>,
        carnivore_weights: &Vec<u64>,
    ) -> (report: YearReport)
        requires
            old(self).wf(),
            old(self).unmarked(),
            2 * old(self).population() <= u32::MAX,
            old(self).herbivores@.len() <= herbivore_weights@.len(),
            old(self).carnivores@.len() <= carnivore_weights@.len(),
        ensures
            final(self).wf(),
            final(self).same_ground(old(self)),
            final(self).herbivores@.len() + report.killed + report.died.herbivores
                == old(self).herbivores@.len() + report.born.herbivores,
            final(self).carnivores@.len() + report.died.carnivores == old(self).carnivores@.len()
                + report.born.carnivores,
            report.born.herbivores <= old(self).herbivores@.len(),
            report.born.carnivores <= old(self).carnivores@.len(),
            report.killed <= old(self).herbivores@.len(),
            report.leaving is None ==> final(self).at_rest(),
            report.leaving matches Some(e) ==> e.fits(final(self)),
            final(self).weaned_all(),
            year_of(*old(self), *final(self), report, herbivore_weights@, carnivore_weights@),
    {
        let ghost herbs0 = self.herbivores@;
        let ghost pack0 = self.pack();
        let ghost food = self.max_fodder;
        let ghost has_neighbors = self.land_cell_neighbors@.len() > 0;
        self.reset_fodder();
        if self.herbivores.len() + self.carnivores.len() == 0 {
            let report = YearReport {
                killed: 0,
                born: AnimalCount { herbivores: 0, carnivores: 0 },
                died: AnimalCount { herbivores: 0, carnivores: 0 },
                leaving: None,
            };
            proof {
                assert(year_with(*old(self), *self, report, no_draws()));
            }
            return report;
        }
        let killed: u32 = self.feeding(rng);
        let ghost herd1 = self.herd();
        let ghost pack1 = self.pack();
        let ghost (order, kills) = choose|order: Seq<Herbivore>, kills: Seq<Seq<u64>>|
            fed_with(herbs0, pack0, food, herd1, pack1, order, kills);
        let herbivore_draws: Vec<u64> = draw_many(rng, self.herbivores.len());
        let carnivore_draws: Vec<u64> = draw_many(rng, self.carnivores.len());
        let born: AnimalCount = self.procreate_with(
            &herbivore_draws,
            herbivore_weights,
            &carnivore_draws,
            carnivore_weights,
        );
        let ghost hb = herbivore_draws@;
        let ghost hw = herbivore_weights@;
        let ghost cb = carnivore_draws@;
        let ghost cw = carnivore_weights@;
        let ghost herd2 = self.herd();
        let ghost pack2 = self.pack();
        self.aging();
        self.lose_weight();
        let ghost herd3 = self.herd();
        let ghost pack3 = self.pack();
        let died: AnimalCount = self.death(rng);
        let ghost herd4 = self.herd();
        let ghost pack4 = self.pack();
        let ghost (hd, cd) = choose|hd: Seq<u64>, cd: Seq<u64>|
            fractions(hd) && fractions(cd) && herd4 == survivors(herd3, herbivore_constants(), hd)
                && pack4 == survivors(pack3, carnivore_constants(), cd);
        let leaving: Option<Emigrants> = self.migrate(rng);
        proof {
            let (hm, hp, cm, cp) = if leaving is Some {
                choose|hm: Seq<u64>, hp: Seq<Coord>, cm: Seq<u64>, cp: Seq<Coord>|
                    fractions(hm) && fractions(cm) && self.herd() == staged(
                        herd4,
                        herbivore_constants(),
                        hm,
                    ) && self.pack() == staged(pack4, carnivore_constants(), cm)
                        && leaving->0.outcome_of(self, hp, cp)
            } else {
                (Seq::empty(), Seq::empty(), Seq::empty(), Seq::empty())
            };
            let d = YearDraws {
                order,
                kills,
                herbivore_births: hb,
                herbivore_weights: hw,
                carnivore_births: cb,
                carnivore_weights: cw,
                herbivore_deaths: hd,
                carnivore_deaths: cd,
                herbivore_moves: hm,
                carnivore_moves: cm,
                herbivore_picks: hp,
                carnivore_picks: cp,
            };
            assert(self.herd() == herd_after_year(pack0, food, has_neighbors, d));
            assert(self.pack() == pack_after_year(pack0, food, has_neighbors, d));
            assert(herd1 == herd_hunted(pack0, food, d));
            assert(herd2 == herd_bred(pack0, food, d));
            assert(herd3 == herd_worn(pack0, food, d));
            assert(herd4 == herd_left(pack0, food, d));
            assert(pack1 == pack_hunted(pack0, food, d));
            assert(pack2 == pack_bred(pack0, food, d));
            assert(pack3 == pack_worn(pack0, food, d));
            assert(pack4 == pack_left(pack0, food, d));
            assert(lived_with(*old(self), *self, YearReport { killed, born, died, leaving }, d));
            assert(year_with(*old(self), *self, YearReport { killed, born, died, leaving }, d));
        }
        YearReport { killed, born, died, leaving }
    }
}

impl Emigrants {
    /// There is a destination for each that leaves, and every destination
    /// is a neighbour of the cell; those that leave are as many as are
    /// marked in the cell.
    pub open spec fn fits(&self, cell: &LandCell) -> bool {
        &&& self.herbivores@.len() == self.herbivore_routes@.len()
        &&& self.carnivores@.len() == self.carnivore_routes@.len()
        &&& self.herbivores@.len() == movers(cell.herd()).len()
        &&& self.carnivores@.len() == movers(cell.pack()).len()
        &&& all_alive(records(self.herbivores@))
        &&& all_alive(records(self.carnivores@))
        &&& forall|i: int|
            0 <= i < self.herbivore_routes@.len() ==> cell.land_cell_neighbors@.contains(
                #[trigger] self.herbivore_routes@[i],
            )
        &&& forall|i: int|
            0 <= i < self.carnivore_routes@.len() ==> cell.land_cell_neighbors@.contains(
                #[trigger] self.carnivore_routes@[i],
            )
    }

    /// Those that leave are the marked residents of the staged cell, in
    /// their order, each as it will arrive, and resident `i` goes to the
    /// neighbour picked for it.
    pub open spec fn outcome_of(
        &self,
        cell: &LandCell,
        herbivore_picks: Seq<Coord>,
        carnivore_picks: Seq<Coord>,
    ) -> bool {
        &&& self.fits(cell)
        &&& records(self.herbivores@) == arrivals(movers(cell.herd()))
        &&& records(self.carnivores@) == arrivals(movers(cell.pack()))
        &&& self.herbivore_routes@ == routes(cell.herd(), herbivore_picks, cell.herd().len() as int)
        &&& self.carnivore_routes@ == routes(cell.pack(), carnivore_picks, cell.pack().len() as int)
    }
}

} // verus!
