//! The simulation: the grid of habitable cells with its random source, how
//! it is built from a map and stocked with animals, and what can be asked
//! of it.

use vstd::prelude::*;
use rand::rngs::StdRng;
use vstd::utf8::encode_utf8;
use crate::chart::ConfigError;
use crate::chart::charted;
use crate::chart::closed;
use crate::chart::first_unknown;
use crate::chart::lemma_rows_of;
use crate::chart::map_of;
use crate::chart::present;
use crate::chart::rows_of;
use crate::chart::split_rows;
use crate::chart::table;
use crate::cycle::lemma_closed_same_ground;
use crate::herd::mean_age;
use crate::herd::mean_weight;
use crate::landscape::AnimalCount;
use crate::landscape::AnimalList;
use crate::landscape::Coord;
use crate::landscape::LandCell;
use crate::util::landscape_repr_from_string;
use crate::util::seeded_source;
use crate::util::try_landscape_from_repr;

verus! {

/// The populations at the start of one year.
#[derive(Debug, Clone, Copy, PartialEq, Eq, Structural)]
pub struct SimYear {
    pub year: u32,
    pub num_herbs: u32,
    pub num_carns: u32,
}

/// The populations year by year.
#[derive(Debug, Clone)]
pub struct SimResult {
    pub res: Vec<SimYear>,
}

/// What a year brought to the whole grid.
#[derive(Debug, Clone, Copy)]
pub struct YearTally {
    /// Herbivores that fell prey.
    pub killed: u32,
    /// Births of each species.
    pub born: AnimalCount,
    /// Deaths of each species other than by predation.
    pub died: AnimalCount,
}

/// The simulation.
#[derive(Debug)]
pub struct BioSim {
    /// The habitable cells, in the order of the map.
    pub landscape: Vec<LandCell>,
    /// The number of animals of each species on the whole grid.
    pub animal_count: AnimalCount,
    /// The source of every draw.
    pub rng: StdRng,
}

/// The number of herbivores in the first `k` cells.
pub open spec fn herbivores_in(cells: Seq<LandCell>, k: int) -> int
    decreases k,
{
    if k <= 0 {
        0
    } else {
        herbivores_in(cells, k - 1) + cells[k - 1].herbivores@.len()
    }
}

/// The number of carnivores in the first `k` cells.
pub open spec fn carnivores_in(cells: Seq<LandCell>, k: int) -> int
    decreases k,
{
    if k <= 0 {
        0
    } else {
        carnivores_in(cells, k - 1) + cells[k - 1].carnivores@.len()
    }
}

/// The number of animals in all the cells.
pub open spec fn animals_in(cells: Seq<LandCell>) -> int {
    herbivores_in(cells, cells.len() as int) + carnivores_in(cells, cells.len() as int)
}

/// All rows are as long as the first.
pub open spec fn rectangular(rows: Seq<Seq<u8>>) -> bool {
    forall|i: int| 0 <= i < rows.len() ==> (#[trigger] rows[i]).len() == rows[0].len()
}

/// What is averaged over the animals of one species.
#[derive(Debug, Clone, Copy, PartialEq, Eq, Structural)]
pub enum Measure {
    HerbivoreAge,
    HerbivoreWeight,
    CarnivoreAge,
    CarnivoreWeight,
}

/// The mean of a measure in one cell, in millionths; zero where the cell
/// holds no one of the species.
pub open spec fn cell_mean(cell: LandCell, measure: Measure) -> int {
    match measure {
        Measure::HerbivoreAge => mean_age(cell.herd()),
        Measure::HerbivoreWeight => mean_weight(cell.herd()),
        Measure::CarnivoreAge => mean_age(cell.pack()),
        Measure::CarnivoreWeight => mean_weight(cell.pack()),
    }
}

/// The sum of the means of a measure in the first `k` cells.
pub open spec fn mean_sum(cells: Seq<LandCell>, measure: Measure, k: int) -> int
    decreases k,
{
    if k <= 0 {
        0
    } else {
        mean_sum(cells, measure, k - 1) + cell_mean(cells[k - 1], measure)
    }
}

/// The mean over the cells of a sum of per-cell means; zero without cells.
pub open spec fn mean_over(sum: int, cells: int) -> int {
    if cells <= 0 {
        0
    } else {
        sum / cells
    }
}

/// The counts up to a cell grow with the cell, and no cell holds more than
/// all of them together.
pub proof fn lemma_counts_grow(cells: Seq<LandCell>, k: int, n: int)
    requires
        0 <= k <= n,
    ensures
        0 <= herbivores_in(cells, k) <= herbivores_in(cells, n),
        0 <= carnivores_in(cells, k) <= carnivores_in(cells, n),
    decreases n - k,
{
    if k < n {
        lemma_counts_grow(cells, k, n - 1);
    } else {
        lemma_counts_nonnegative(cells, k);
    }
}

/// Counts are not negative.
pub proof fn lemma_counts_nonnegative(cells: Seq<LandCell>, k: int)
    ensures
        0 <= herbivores_in(cells, k),
        0 <= carnivores_in(cells, k),
    decreases k,
{
    if k > 0 {
        lemma_counts_nonnegative(cells, k - 1);
    }
}

/// No cell holds more than all the cells together.
pub proof fn lemma_cell_within_total(cells: Seq<LandCell>, i: int)
    requires
        0 <= i < cells.len(),
    ensures
        cells[i].herbivores@.len() <= herbivores_in(cells, cells.len() as int),
        cells[i].carnivores@.len() <= carnivores_in(cells, cells.len() as int),
        cells[i].population() <= animals_in(cells),
{
    lemma_counts_grow(cells, i + 1, cells.len() as int);
    lemma_counts_nonnegative(cells, i);
}

/// Where two grids differ in one cell only, their counts differ by what
/// that cell differs.
pub proof fn lemma_counts_change(before: Seq<LandCell>, after: Seq<LandCell>, i: int, k: int)
    requires
        before.len() == after.len(),
        0 <= i < before.len(),
        0 <= k <= before.len(),
        forall|j: int|
            0 <= j < before.len() && j != i ==> (#[trigger] after[j]).herbivores@.len()
                == before[j].herbivores@.len() && after[j].carnivores@.len()
                == before[j].carnivores@.len(),
    ensures
        herbivores_in(after, k) == herbivores_in(before, k) + if i < k {
            after[i].herbivores@.len() - before[i].herbivores@.len()
        } else {
            0
        },
        carnivores_in(after, k) == carnivores_in(before, k) + if i < k {
            after[i].carnivores@.len() - before[i].carnivores@.len()
        } else {
            0
        },
    decreases k,
{
    if k > 0 {
        lemma_counts_change(before, after, i, k - 1);
        if k - 1 != i {
            assert(after[k - 1].herbivores@.len() == before[k - 1].herbivores@.len());
        }
    }
}

impl BioSim {
    /// The cells are sound and at rest, every neighbour that a cell names
    /// is the place of a cell, and the counts are those of the cells.
    pub open spec fn wf(&self) -> bool {
        &&& forall|i: int|
            0 <= i < self.landscape@.len() ==> (#[trigger] self.landscape@[i]).wf()
                && self.landscape@[i].at_rest()
        &&& closed(self.landscape@)
        &&& self.animal_count.herbivores == herbivores_in(
            self.landscape@,
            self.landscape@.len() as int,
        )
        &&& self.animal_count.carnivores == carnivores_in(
            self.landscape@,
            self.landscape@.len() as int,
        )
        &&& animals_in(self.landscape@) <= u32::MAX
    }

    /// The same cells on the same ground: terrain, places and neighbours.
    pub open spec fn same_ground(&self, other: &BioSim) -> bool {
        &&& self.landscape@.len() == other.landscape@.len()
        &&& forall|i: int|
            0 <= i < self.landscape@.len() ==> (#[trigger] self.landscape@[i]).same_ground(
                &other.landscape@[i],
            )
    }

    /// Builds the grid from a map text, with a random source that starts
    /// from `seed`: every habitable place gets an empty cell. The text must
    /// be a map: no longer than a coordinate can count, with rows of one
    /// length, of tokens only.
    pub fn new(map_str: String, seed: u64) -> (sim: Self)
        requires
            encode_utf8(map_str@).len() <= u32::MAX,
            rectangular(rows_of(encode_utf8(map_str@))),
            first_unknown(
                map_of(encode_utf8(map_str@)),
                map_of(encode_utf8(map_str@)).len() as int,
            ) is None,
        ensures
            sim.wf(),
            charted(sim.landscape@, map_of(encode_utf8(map_str@))),
            sim.animal_count.herbivores == 0,
            sim.animal_count.carnivores == 0,
    {
        Self::try_new(map_str, seed).unwrap()
    }

    /// Builds the grid from a text that may be no map, with a random source
    /// that starts from `seed`. The text is turned down if it is too large,
    /// if its rows differ in length, or if it holds a byte that is no
    /// token; else every habitable place gets an empty cell.
    pub fn try_new(map_str: String, seed: u64) -> (made: Result<Self, ConfigError>)
        ensures
            encode_utf8(map_str@).len() > u32::MAX ==> made matches Err(ConfigError::TooLarge),
            encode_utf8(map_str@).len() <= u32::MAX && !rectangular(rows_of(encode_utf8(map_str@)))
                ==> made matches Err(ConfigError::RaggedRows),
            encode_utf8(map_str@).len() <= u32::MAX && rectangular(rows_of(encode_utf8(map_str@)))
                ==> match first_unknown(
                map_of(encode_utf8(map_str@)),
                map_of(encode_utf8(map_str@)).len() as int,
            ) {
                Some(t) => made matches Err(ConfigError::UnknownToken(u)) && u == t,
                None => made matches Ok(sim) && sim.wf() && charted(
                    sim.landscape@,
                    map_of(encode_utf8(map_str@)),
                ) && sim.animal_count.herbivores == 0 && sim.animal_count.carnivores == 0,
            },
    {
        let text: &[u8] = map_str.as_str().as_bytes();
        if text.len() > 0xFFFF_FFFF {
            return Err(ConfigError::TooLarge);
        }
        let rows: Vec<Vec<u8>> = split_rows(text);
        proof {
            lemma_rows_of(text@);
            assert(table(rows@).len() == rows@.len());
        }
        let width: usize = rows[0].len();
        let mut i: usize = 0;
        while i < rows.len()
            invariant
                i <= rows@.len(),
                rows@.len() >= 1,
                text@ == encode_utf8(map_str@),
                text@.len() <= u32::MAX,
                table(rows@) == rows_of(text@),
                width == rows@[0]@.len(),
                forall|j: int| 0 <= j < i ==> (#[trigger] rows@[j])@.len() == width,
            decreases rows@.len() - i,
        {
            if rows[i].len() != width {
                proof {
                    assert(table(rows@)[i as int].len() != table(rows@)[0].len());
                }
                return Err(ConfigError::RaggedRows);
            }
            i = i + 1;
        }
        proof {
            assert forall|j: int| 0 <= j < table(rows@).len() implies (#[trigger] table(
                rows@,
            )[j]).len() == table(rows@)[0].len() by {
                assert(rows@[j]@.len() == width);
            }
        }
        let repr: Vec<(Coord, u8)> = landscape_repr_from_string(map_str);
        match try_landscape_from_repr(repr) {
            Err(e) => Err(e),
            Ok(landscape) => {
                proof {
                    lemma_empty_grid(landscape@, map_of(text@), landscape@.len() as int);
                }
                Ok(
                    BioSim {
                        landscape,
                        animal_count: AnimalCount { herbivores: 0, carnivores: 0 },
                        rng: seeded_source(seed),
                    },
                )
            },
        }
    }

    /// The number of animals on the grid.
    pub fn get_num_animals(&self) -> (r: u32)
        requires
            self.animal_count.herbivores + self.animal_count.carnivores <= u32::MAX,
        ensures
            r == self.animal_count.herbivores + self.animal_count.carnivores,
    {
        self.animal_count.total()
    }

    /// The number of animals of each species on the grid.
    pub fn get_animal_count(&self) -> (r: AnimalCount)
        ensures
            r == self.animal_count,
    {
        self.animal_count
    }

    /// The number of carnivores on the grid.
    pub fn get_num_carns(&self) -> (r: u32)
        ensures
            r == self.animal_count.carnivores,
    {
        self.animal_count.carnivores
    }

    /// The number of herbivores on the grid.
    pub fn get_num_herbs(&self) -> (r: u32)
        ensures
            r == self.animal_count.herbivores,
    {
        self.animal_count.herbivores
    }

    pub(crate) fn set_animal_count(&mut self, new_count: AnimalCount)
        ensures
            final(self).animal_count == new_count,
            final(self).landscape == old(self).landscape,
    {
        self.animal_count = new_count;
    }

    /// The populations now, filed under the given year.
    pub fn snapshot(&self, year: u32) -> (r: SimYear)
        ensures
            r.year == year,
            r.num_herbs == self.animal_count.herbivores,
            r.num_carns == self.animal_count.carnivores,
    {
        SimYear {
            year,
            num_herbs: self.animal_count.herbivores,
            num_carns: self.animal_count.carnivores,
        }
    }

    /// The index of the first cell at the place, if there is one.
    pub fn find_cell(&self, place: Coord) -> (found: Option<usize>)
        ensures
            found matches Some(j) ==> j < self.landscape@.len() && self.landscape@[j as int].location
                == place,
            found is None ==> !present(self.landscape@, place),
            found is Some <==> present(self.landscape@, place),
            found matches Some(j) ==> j == first_at(self.landscape@, place),
    {
        let n: usize = self.landscape.len();
        let mut i: usize = 0;
        while i < n
            invariant
                i <= n,
                n == self.landscape@.len(),
                forall|j: int| 0 <= j < i ==> (#[trigger] self.landscape@[j]).location != place,
            decreases n - i,
        {
            if self.landscape[i].get_location() == place {
                proof {
                    lemma_first_at(self.landscape@, place, i as int);
                }
                return Some(i);
            }
            i = i + 1;
        }
        None
    }

    /// Counts the animals of each species in the cells.
    pub fn census(&self) -> (r: AnimalCount)
        requires
            animals_in(self.landscape@) <= u32::MAX,
        ensures
            r.herbivores == herbivores_in(self.landscape@, self.landscape@.len() as int),
            r.carnivores == carnivores_in(self.landscape@, self.landscape@.len() as int),
    {
        let n: usize = self.landscape.len();
        let mut count = AnimalCount { herbivores: 0, carnivores: 0 };
        let mut i: usize = 0;
        while i < n
            invariant
                i <= n,
                n == self.landscape@.len(),
                animals_in(self.landscape@) <= u32::MAX,
                count.herbivores == herbivores_in(self.landscape@, i as int),
                count.carnivores == carnivores_in(self.landscape@, i as int),
            decreases n - i,
        {
            proof {
                lemma_counts_grow(self.landscape@, i as int + 1, n as int);
                lemma_counts_nonnegative(self.landscape@, i as int);
                lemma_counts_nonnegative(self.landscape@, n as int);
            }
            count.update(self.landscape[i].animal_count());
            i = i + 1;
        }
        count
    }

    /// The number of herbivores in each cell, with the cell's place.
    pub fn herb_pop_matrix(&self) -> (matrix: Vec<(Coord, u32)>)
        requires
            animals_in(self.landscape@) <= u32::MAX,
        ensures
            matrix@.len() == self.landscape@.len(),
            forall|i: int|
                0 <= i < matrix@.len() ==> (#[trigger] matrix@[i]).0 == self.landscape@[i].location
                    && matrix@[i].1 == self.landscape@[i].herbivores@.len(),
    {
        let n: usize = self.landscape.len();
        let mut matrix: Vec<(Coord, u32)> = Vec::new();
        let mut i: usize = 0;
        while i < n
            invariant
                i <= n,
                n == self.landscape@.len(),
                animals_in(self.landscape@) <= u32::MAX,
                matrix@.len() == i,
                forall|j: int|
                    0 <= j < i ==> (#[trigger] matrix@[j]).0 == self.landscape@[j].location
                        && matrix@[j].1 == self.landscape@[j].herbivores@.len(),
            decreases n - i,
        {
            proof {
                lemma_cell_within_total(self.landscape@, i as int);
                lemma_counts_nonnegative(self.landscape@, n as int);
            }
            matrix.push((self.landscape[i].get_location(), self.landscape[i].herb_count()));
            i = i + 1;
        }
        matrix
    }

    /// The number of carnivores in each cell, with the cell's place.
    pub fn carn_pop_matrix(&self) -> (matrix: Vec<(Coord, u32)>)
        requires
            animals_in(self.landscape@) <= u32::MAX,
        ensures
            matrix@.len() == self.landscape@.len(),
            forall|i: int|
                0 <= i < matrix@.len() ==> (#[trigger] matrix@[i]).0 == self.landscape@[i].location
                    && matrix@[i].1 == self.landscape@[i].carnivores@.len(),
    {
        let n: usize = self.landscape.len();
        let mut matrix: Vec<(Coord, u32)> = Vec::new();
        let mut i: usize = 0;
        while i < n
            invariant
                i <= n,
                n == self.landscape@.len(),
                animals_in(self.landscape@) <= u32::MAX,
                matrix@.len() == i,
                forall|j: int|
                    0 <= j < i ==> (#[trigger] matrix@[j]).0 == self.landscape@[j].location
                        && matrix@[j].1 == self.landscape@[j].carnivores@.len(),
            decreases n - i,
        {
            proof {
                lemma_cell_within_total(self.landscape@, i as int);
                lemma_counts_nonnegative(self.landscape@, n as int);
            }
            matrix.push((self.landscape[i].get_location(), self.landscape[i].carn_count()));
            i = i + 1;
        }
        matrix
    }

    /// The mean over the cells of the mean of a measure in each; zero on a
    /// grid without cells.
    pub fn mean_of(&self, measure: Measure) -> (r: u64)
        requires
            animals_in(self.landscape@) <= u32::MAX,
        ensures
            r == mean_over(
                mean_sum(self.landscape@, measure, self.landscape@.len() as int),
                self.landscape@.len() as int,
            ),
    {
        let n: usize = self.landscape.len();
        if n == 0 {
            return 0;
        }
        let mut sum: u128 = 0;
        let mut i: usize = 0;
        while i < n
            invariant
                i <= n,
                n == self.landscape@.len(),
                animals_in(self.landscape@) <= u32::MAX,
                sum == mean_sum(self.landscape@, measure, i as int),
                sum <= i * 0xFFFF_FFFF_FFFF_FFFF,
            decreases n - i,
        {
            proof {
                lemma_cell_within_total(self.landscape@, i as int);
                lemma_counts_nonnegative(self.landscape@, n as int);
                assert(i * 0xFFFF_FFFF_FFFF_FFFF + 0xFFFF_FFFF_FFFF_FFFF <= 0xFFFF_FFFF_FFFF_FFFF
                    * 0xFFFF_FFFF_FFFF_FFFF) by (nonlinear_arith)
                    requires
                        i < 0xFFFF_FFFF_FFFF_FFFF,
                ;
            }
            let part: u64 = match measure {
                Measure::HerbivoreAge => self.landscape[i].herb_avg_age(),
                Measure::HerbivoreWeight => self.landscape[i].herb_avg_weight(),
                Measure::CarnivoreAge => self.landscape[i].carn_avg_age(),
                Measure::CarnivoreWeight => self.landscape[i].carn_avg_weight(),
            };
            sum = sum + part as u128;
            i = i + 1;
        }
        let wide: u128 = sum / (n as u128);
        assert(wide <= 0xFFFF_FFFF_FFFF_FFFF) by (nonlinear_arith)
            requires
                wide == (sum as int) / (n as int),
                sum <= n * 0xFFFF_FFFF_FFFF_FFFF,
                0 < n,
        ;
        wide as u64
    }

    /// The mean over the cells of the mean age of their carnivores, in
    /// millionths of a year; zero on a grid without cells.
    pub fn carn_avg_age(&self) -> (r: u64)
        requires
            animals_in(self.landscape@) <= u32::MAX,
        ensures
            r == mean_over(
                mean_sum(self.landscape@, Measure::CarnivoreAge, self.landscape@.len() as int),
                self.landscape@.len() as int,
            ),
    {
        self.mean_of(Measure::CarnivoreAge)
    }

    /// The mean over the cells of the mean weight of their carnivores, in
    /// millionths; zero on a grid without cells.
    pub fn carn_avg_weight(&self) -> (r: u64)
        requires
            animals_in(self.landscape@) <= u32::MAX,
        ensures
            r == mean_over(
                mean_sum(self.landscape@, Measure::CarnivoreWeight, self.landscape@.len() as int),
                self.landscape@.len() as int,
            ),
    {
        self.mean_of(Measure::CarnivoreWeight)
    }

    /// The mean over the cells of the mean age of their herbivores, in
    /// millionths of a year; zero on a grid without cells.
    pub fn herb_avg_age(&self) -> (r: u64)
        requires
            animals_in(self.landscape@) <= u32::MAX,
        ensures
            r == mean_over(
                mean_sum(self.landscape@, Measure::HerbivoreAge, self.landscape@.len() as int),
                self.landscape@.len() as int,
            ),
    {
        self.mean_of(Measure::HerbivoreAge)
    }

    /// The mean over the cells of the mean weight of their herbivores, in
    /// millionths; zero on a grid without cells.
    pub fn herb_avg_weight(&self) -> (r: u64)
        requires
            animals_in(self.landscape@) <= u32::MAX,
        ensures
            r == mean_over(
                mean_sum(self.landscape@, Measure::HerbivoreWeight, self.landscape@.len() as int),
                self.landscape@.len() as int,
            ),
    {
        self.mean_of(Measure::HerbivoreWeight)
    }
}

/// Whether `j` is the index of the first cell at the place.
pub open spec fn is_first_at(cells: Seq<LandCell>, place: Coord, j: int) -> bool {
    &&& 0 <= j < cells.len()
    &&& cells[j].location == place
    &&& forall|q: int| 0 <= q < j ==> (#[trigger] cells[q]).location != place
}

/// The index of the first cell at the place, where there is one.
pub open spec fn first_at(cells: Seq<LandCell>, place: Coord) -> int {
    choose|j: int| is_first_at(cells, place, j)
}

/// There is one first cell at a place at most.
pub proof fn lemma_first_at(cells: Seq<LandCell>, place: Coord, j: int)
    requires
        is_first_at(cells, place, j),
    ensures
        first_at(cells, place) == j,
{
    let k = first_at(cells, place);
    assert(is_first_at(cells, place, k));
    if k < j {
        assert(cells[k].location != place);
    } else if j < k {
        assert(cells[j].location != place);
    }
}

/// The first place among the first `k` entries at which no cell lies.
pub open spec fn first_absent(cells: Seq<LandCell>, entries: Seq<(Coord, AnimalList)>, k: int) -> Option<
    Coord,
>
    decreases k,
{
    if k <= 0 {
        None
    } else {
        match first_absent(cells, entries, k - 1) {
            Some(c) => Some(c),
            None => if present(cells, entries[k - 1].0) {
                None
            } else {
                Some(entries[k - 1].0)
            },
        }
    }
}

/// The number of animals in the first `k` entries.
pub open spec fn offered(entries: Seq<(Coord, AnimalList)>, k: int) -> int
    decreases k,
{
    if k <= 0 {
        0
    } else {
        offered(entries, k - 1) + entries[k - 1].1.herbivores@.len()
            + entries[k - 1].1.carnivores@.len()
    }
}

/// The herbivores that the first `k` entries bring to cell `j`, as they
/// arrive: the living of each entry for the place of that cell, entry by
/// entry.
pub open spec fn incoming_herd(
    cells: Seq<LandCell>,
    entries: Seq<(Coord, AnimalList)>,
    j: int,
    k: int,
) -> Seq<crate::animal::Health>
    decreases k,
{
    if k <= 0 {
        Seq::empty()
    } else if first_at(cells, entries[k - 1].0) == j {
        incoming_herd(cells, entries, j, k - 1) + crate::herd::arrivals(
            crate::herd::living(crate::herd::records(entries[k - 1].1.herbivores@)),
        )
    } else {
        incoming_herd(cells, entries, j, k - 1)
    }
}

/// The carnivores that the first `k` entries bring to cell `j`, as they
/// arrive.
pub open spec fn incoming_pack(
    cells: Seq<LandCell>,
    entries: Seq<(Coord, AnimalList)>,
    j: int,
    k: int,
) -> Seq<crate::animal::Health>
    decreases k,
{
    if k <= 0 {
        Seq::empty()
    } else if first_at(cells, entries[k - 1].0) == j {
        incoming_pack(cells, entries, j, k - 1) + crate::herd::arrivals(
            crate::herd::living(crate::herd::records(entries[k - 1].1.carnivores@)),
        )
    } else {
        incoming_pack(cells, entries, j, k - 1)
    }
}

/// A place that is absent, once found, stays the first of its kind.
proof fn lemma_first_absent_found(
    cells: Seq<LandCell>,
    entries: Seq<(Coord, AnimalList)>,
    k: int,
    n: int,
)
    requires
        0 <= k <= n,
        first_absent(cells, entries, k) is Some,
    ensures
        first_absent(cells, entries, n) == first_absent(cells, entries, k),
    decreases n - k,
{
    if k < n {
        lemma_first_absent_found(cells, entries, k, n - 1);
    }
}

/// The animals offered grow with the entries counted.
proof fn lemma_offered_grows(entries: Seq<(Coord, AnimalList)>, k: int, n: int)
    requires
        0 <= k <= n,
    ensures
        0 <= offered(entries, k) <= offered(entries, n),
    decreases n,
{
    if n > 0 {
        if k < n {
            lemma_offered_grows(entries, k, n - 1);
        } else {
            lemma_offered_grows(entries, k - 1, n - 1);
        }
    }
}

impl BioSim {
    /// Places animals on the grid: the living of each list join the cell
    /// at the place named with it, without marks. A cell must lie at every
    /// place named, and the animals must not be more than can be counted.
    pub fn add_animals(&mut self, animal_map: Vec<(Coord, AnimalList)>)
        requires
            old(self).wf(),
            first_absent(old(self).landscape@, animal_map@, animal_map@.len() as int) is None,
            animals_in(old(self).landscape@) + offered(animal_map@, animal_map@.len() as int)
                <= u32::MAX,
        ensures
            final(self).wf(),
            final(self).same_ground(old(self)),
            forall|j: int|
                0 <= j < final(self).landscape@.len() ==> {
                    &&& (#[trigger] final(self).landscape@[j]).herd() == old(self).landscape@[j].herd()
                        + incoming_herd(old(self).landscape@, animal_map@, j, animal_map@.len() as int)
                    &&& final(self).landscape@[j].pack() == old(self).landscape@[j].pack()
                        + incoming_pack(old(self).landscape@, animal_map@, j, animal_map@.len() as int)
                    &&& final(self).landscape@[j].fodder == old(self).landscape@[j].fodder
                },
    {
        self.try_add_animals(animal_map).unwrap()
    }

    /// Places animals on the grid after looking whether they can be
    /// placed: if a place is named at which no cell lies, or if the animals
    /// would be more than can be counted, nothing is placed at all; else
    /// the living of each list join the cell at the place named with it,
    /// without marks.
    pub fn try_add_animals(&mut self, animal_map: Vec<(Coord, AnimalList)>) -> (done: Result<
        (),
        ConfigError,
    >)
        requires
            old(self).wf(),
        ensures
            final(self).wf(),
            final(self).same_ground(old(self)),
            match first_absent(old(self).landscape@, animal_map@, animal_map@.len() as int) {
                Some(c) => done == Err::<(), ConfigError>(ConfigError::UnknownLocation(c)),
                None => if animals_in(old(self).landscape@) + offered(
                    animal_map@,
                    animal_map@.len() as int,
                ) > u32::MAX {
                    done == Err::<(), ConfigError>(ConfigError::TooManyAnimals)
                } else {
                    done is Ok
                },
            },
            done is Err ==> final(self).landscape == old(self).landscape && final(self).animal_count
                == old(self).animal_count,
            done is Ok ==> forall|j: int|
                0 <= j < final(self).landscape@.len() ==> {
                    &&& (#[trigger] final(self).landscape@[j]).herd() == old(self).landscape@[j].herd()
                        + incoming_herd(old(self).landscape@, animal_map@, j, animal_map@.len() as int)
                    &&& final(self).landscape@[j].pack() == old(self).landscape@[j].pack()
                        + incoming_pack(old(self).landscape@, animal_map@, j, animal_map@.len() as int)
                    &&& final(self).landscape@[j].fodder == old(self).landscape@[j].fodder
                },
    {
        let ghost cells0 = self.landscape@;
        let m: usize = animal_map.len();
        let ghost n = cells0.len() as int;
        let mut k: usize = 0;
        while k < m
            invariant
                k <= m,
                m == animal_map@.len(),
                *self == *old(self),
                self.wf(),
                self.landscape@ == cells0,
                first_absent(cells0, animal_map@, k as int) is None,
            decreases m - k,
        {
            let place: Coord = animal_map[k].0;
            if self.find_cell(place).is_none() {
                proof {
                    lemma_first_absent_found(cells0, animal_map@, k as int + 1, m as int);
                }
                return Err(ConfigError::UnknownLocation(place));
            }
            k = k + 1;
        }
        proof {
            lemma_counts_nonnegative(cells0, n);
        }
        let held: u64 = self.animal_count.herbivores as u64 + self.animal_count.carnivores as u64;
        let mut total: u128 = held as u128;
        let mut k: usize = 0;
        while k < m
            invariant
                k <= m,
                m == animal_map@.len(),
                *self == *old(self),
                self.wf(),
                self.landscape@ == cells0,
                first_absent(cells0, animal_map@, m as int) is None,
                total == animals_in(cells0) + offered(animal_map@, k as int),
                total <= u32::MAX,
            decreases m - k,
        {
            total = total + animal_map[k].1.herbivores.len() as u128
                + animal_map[k].1.carnivores.len() as u128;
            if total > 0xFFFF_FFFF {
                proof {
                    lemma_offered_grows(animal_map@, k as int + 1, m as int);
                }
                return Err(ConfigError::TooManyAnimals);
            }
            k = k + 1;
        }
        let mut k: usize = 0;
        while k < m
            invariant
                k <= m,
                m == animal_map@.len(),
                n == cells0.len(),
                self.landscape@.len() == n,
                closed(cells0),
                first_absent(cells0, animal_map@, m as int) is None,
                animals_in(cells0) + offered(animal_map@, m as int) <= u32::MAX,
                animals_in(self.landscape@) <= animals_in(cells0) + offered(animal_map@, k as int),
                forall|j: int| 0 <= j < n ==> (#[trigger] self.landscape@[j]).same_ground(&cells0[j]),
                forall|j: int|
                    0 <= j < n ==> (#[trigger] self.landscape@[j]).wf() && self.landscape@[j].at_rest(),
                forall|j: int|
                    0 <= j < n ==> {
                        &&& (#[trigger] self.landscape@[j]).herd() == cells0[j].herd() + incoming_herd(
                            cells0,
                            animal_map@,
                            j,
                            k as int,
                        )
                        &&& self.landscape@[j].pack() == cells0[j].pack() + incoming_pack(
                            cells0,
                            animal_map@,
                            j,
                            k as int,
                        )
                        &&& self.landscape@[j].fodder == cells0[j].fodder
                    },
            decreases m - k,
        {
            let ghost cells1 = self.landscape@;
            let place: Coord = animal_map[k].0;
            proof {
                lemma_first_absent_present(cells0, animal_map@, k as int, m as int);
                let q = choose|q: int| 0 <= q < n && (#[trigger] cells0[q]).location == place;
                assert(self.landscape@[q].same_ground(&cells0[q]));
                lemma_offered_grows(animal_map@, k as int + 1, m as int);
                lemma_offered_grows(animal_map@, 0, k as int);
            }
            match self.find_cell(place) {
                Some(j) => {
                    proof {
                        lemma_cell_within_total(self.landscape@, j as int);
                        lemma_same_first_at(cells0, self.landscape@, place);
                    }
                    self.landscape[j].take_in_list(&animal_map[k].1);
                    proof {
                        lemma_counts_change(cells1, self.landscape@, j as int, n);
                        assert forall|i: int| 0 <= i < n implies {
                            &&& (#[trigger] self.landscape@[i]).herd() == cells0[i].herd()
                                + incoming_herd(cells0, animal_map@, i, k as int + 1)
                            &&& self.landscape@[i].pack() == cells0[i].pack() + incoming_pack(
                                cells0,
                                animal_map@,
                                i,
                                k as int + 1,
                            )
                        } by {
                            if i == j {
                                assert(self.landscape@[i].herd() =~= cells0[i].herd() + incoming_herd(
                                    cells0,
                                    animal_map@,
                                    i,
                                    k as int + 1,
                                ));
                                assert(self.landscape@[i].pack() =~= cells0[i].pack() + incoming_pack(
                                    cells0,
                                    animal_map@,
                                    i,
                                    k as int + 1,
                                ));
                            } else {
                                assert(self.landscape@[i] == cells1[i]);
                            }
                        }
                    }
                },
                None => {},
            }
            k = k + 1;
        }
        proof {
            lemma_closed_same_ground(cells0, self.landscape@);
            lemma_offered_grows(animal_map@, m as int, m as int);
        }
        let count: AnimalCount = self.census();
        self.set_animal_count(count);
        Ok(())
    }
}

/// Where no place is absent among the entries, each entry's place is
/// present.
proof fn lemma_first_absent_present(
    cells: Seq<LandCell>,
    entries: Seq<(Coord, AnimalList)>,
    k: int,
    n: int,
)
    requires
        0 <= k < n,
        first_absent(cells, entries, n) is None,
    ensures
        present(cells, entries[k].0),
    decreases n,
{
    if k < n - 1 {
        lemma_first_absent_present(cells, entries, k, n - 1);
    }
}

/// On the same ground the first cell at a place is the same.
pub proof fn lemma_same_first_at(before: Seq<LandCell>, after: Seq<LandCell>, place: Coord)
    requires
        before.len() == after.len(),
        forall|i: int| 0 <= i < after.len() ==> (#[trigger] after[i]).same_ground(&before[i]),
        present(before, place),
    ensures
        first_at(after, place) == first_at(before, place),
        is_first_at(before, place, first_at(before, place)),
{
    lemma_first_exists(before, place, before.len() as int);
    let j = first_at(before, place);
    assert(is_first_at(before, place, j));
    assert(after[j].same_ground(&before[j]));
    assert forall|q: int| 0 <= q < j implies (#[trigger] after[q]).location != place by {
        assert(after[q].same_ground(&before[q]));
        assert(before[q].location != place);
    }
    lemma_first_at(after, place, j);
}

/// Where a cell lies at a place among the first `k`, there is a first one.
proof fn lemma_first_exists(cells: Seq<LandCell>, place: Coord, k: int)
    requires
        0 <= k <= cells.len(),
        exists|j: int| 0 <= j < k && (#[trigger] cells[j]).location == place,
    ensures
        exists|j: int| is_first_at(cells, place, j),
    decreases k,
{
    if exists|j: int| 0 <= j < k - 1 && (#[trigger] cells[j]).location == place {
        lemma_first_exists(cells, place, k - 1);
    } else {
        assert(cells[k - 1].location == place);
        assert(is_first_at(cells, place, k - 1));
    }
}

/// A grid fresh from the map holds no one, and its cells are at rest.
pub proof fn lemma_empty_grid(cells: Seq<LandCell>, repr: Seq<(Coord, u8)>, k: int)
    requires
        charted(cells, repr),
        0 <= k <= cells.len(),
    ensures
        herbivores_in(cells, k) == 0,
        carnivores_in(cells, k) == 0,
        forall|i: int| 0 <= i < cells.len() ==> (#[trigger] cells[i]).wf() && cells[i].at_rest(),
    decreases k,
{
    if k > 0 {
        lemma_empty_grid(cells, repr, k - 1);
        assert(crate::chart::charted_cell(cells[k - 1], repr, crate::chart::land_of(repr)[k - 1]));
    }
    assert forall|i: int| 0 <= i < cells.len() implies (#[trigger] cells[i]).wf()
        && cells[i].at_rest() by {
        assert(crate::chart::charted_cell(cells[i], repr, crate::chart::land_of(repr)[i]));
    }
}

} // verus!
