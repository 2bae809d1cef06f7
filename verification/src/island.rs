//! The map as a rectangle of places: a cell where the terrain is habitable,
//! nothing where it is water.

use vstd::prelude::*;
use vstd::utf8::encode_utf8;
use crate::chart::ConfigError;
use crate::chart::DESERT;
use crate::chart::HIGHLAND;
use crate::chart::LOWLAND;
use crate::chart::WATER;
use crate::chart::is_land;
use crate::chart::is_token;
use crate::chart::rows_of;
use crate::chart::split_rows;
use crate::chart::table;
use crate::chart::terrain_of;
use crate::landscape::Coord;
use crate::landscape::LandCell;
use crate::landscape::LandCellType;
use crate::landscape::food_capacity;

verus! {

/// The map with what lives on it.
#[derive(Debug)]
pub struct Island {
    /// Row by row, a cell for each habitable place.
    pub landscape: Vec<Vec<Option<LandCell>>>,
    /// Row by row, the tokens of the map.
    pub landscape_repr: Vec<Vec<u8>>,
    pub num_carns: u32,
    pub num_herbs: u32,
    /// Row by row, the number of herbivores at each place.
    pub herb_pop_matrix: Vec<Vec<u32>>,
    /// Row by row, the number of carnivores at each place.
    pub carn_pop_matrix: Vec<Vec<u32>>,
}

/// The rows of a grid of places, as sequences.
pub open spec fn places(grid: Seq<Vec<Option<LandCell>>>) -> Seq<Seq<Option<LandCell>>> {
    grid.map_values(|r: Vec<Option<LandCell>>| r@)
}

/// The rows of a table of counts, as sequences.
pub open spec fn counts(rows: Seq<Vec<u32>>) -> Seq<Seq<u32>> {
    rows.map_values(|r: Vec<u32>| r@)
}

/// The first byte among the first `k` of a row that is no token.
pub open spec fn stray_in_row(row: Seq<u8>, k: int) -> Option<u8>
    decreases k,
{
    if k <= 0 {
        None
    } else {
        match stray_in_row(row, k - 1) {
            Some(t) => Some(t),
            None => if is_token(row[k - 1]) {
                None
            } else {
                Some(row[k - 1])
            },
        }
    }
}

/// The first byte in the first `n` rows that is no token, going row by row.
pub open spec fn stray_in(map: Seq<Seq<u8>>, n: int) -> Option<u8>
    decreases n,
{
    if n <= 0 {
        None
    } else {
        match stray_in(map, n - 1) {
            Some(t) => Some(t),
            None => stray_in_row(map[n - 1], map[n - 1].len() as int),
        }
    }
}

/// Whether a coordinate can count the rows and the columns of the map.
pub open spec fn countable(map: Seq<Seq<u8>>) -> bool {
    &&& map.len() <= u32::MAX
    &&& forall|x: int| 0 <= x < map.len() ==> (#[trigger] map[x]).len() <= u32::MAX
}

/// What stands at a place for a token: nothing for water, else an empty
/// cell of the token's terrain at that place, with all its food and no
/// neighbours named yet.
pub open spec fn stands_for(place: Option<LandCell>, token: u8, x: int, y: int) -> bool {
    match place {
        None => token == WATER,
        Some(cell) => {
            &&& is_land(token)
            &&& cell.wf()
            &&& cell.cell_type == terrain_of(token)
            &&& cell.location == Coord(x as u32, y as u32)
            &&& cell.fodder == food_capacity(terrain_of(token))
            &&& cell.herbivores@.len() == 0
            &&& cell.carnivores@.len() == 0
            &&& cell.land_cell_neighbors@.len() == 0
        },
    }
}

/// The grid holds, place by place, what stands for the tokens of the map.
pub open spec fn laid_out(grid: Seq<Seq<Option<LandCell>>>, map: Seq<Seq<u8>>) -> bool {
    &&& grid.len() == map.len()
    &&& forall|x: int| 0 <= x < grid.len() ==> (#[trigger] grid[x]).len() == map[x].len()
    &&& forall|x: int, y: int|
        0 <= x < grid.len() && 0 <= y < grid[x].len() ==> stands_for(
            #[trigger] grid[x][y],
            map[x][y],
            x,
            y,
        )
}

/// Splits a map text into its rows of tokens.
pub fn map_repr_from_string(map_string: &String) -> (repr: Vec<Vec<u8>>)
    ensures
        table(repr@) == rows_of(encode_utf8(map_string@)),
{
    split_rows(map_string.as_str().as_bytes())
}

/// A byte that is no token, once found in a row, stays the first of its
/// kind.
proof fn lemma_stray_in_row_found(row: Seq<u8>, k: int, n: int)
    requires
        0 <= k <= n,
        stray_in_row(row, k) is Some,
    ensures
        stray_in_row(row, n) == stray_in_row(row, k),
    decreases n - k,
{
    if k < n {
        lemma_stray_in_row_found(row, k, n - 1);
    }
}

/// A byte that is no token, once found in a map, stays the first of its
/// kind.
proof fn lemma_stray_in_found(map: Seq<Seq<u8>>, k: int, n: int)
    requires
        0 <= k <= n,
        stray_in(map, k) is Some,
    ensures
        stray_in(map, n) == stray_in(map, k),
    decreases n - k,
{
    if k < n {
        lemma_stray_in_found(map, k, n - 1);
    }
}

/// Lays the map out: a cell for every token of habitable terrain, nothing
/// for water. A map too large for the coordinates or with a byte that is no
/// token is turned down.
pub fn map_from_string(map_repr: &Vec<Vec<u8>>) -> (made: Result<
    Vec<Vec<Option<LandCell>>>,
    ConfigError,
>)
    ensures
        !countable(table(map_repr@)) ==> made matches Err(ConfigError::TooLarge),
        countable(table(map_repr@)) ==> match stray_in(table(map_repr@), map_repr@.len() as int) {
            Some(t) => made matches Err(ConfigError::UnknownToken(u)) && u == t,
            None => made matches Ok(grid) && laid_out(places(grid@), table(map_repr@)),
        },
{
    let ghost map = table(map_repr@);
    let n: usize = map_repr.len();
    if n > 0xFFFF_FFFF {
        return Err(ConfigError::TooLarge);
    }
    let mut x: usize = 0;
    while x < n
        invariant
            x <= n,
            n == map_repr@.len(),
            n <= u32::MAX,
            map == table(map_repr@),
            forall|r: int| 0 <= r < x ==> (#[trigger] map[r]).len() <= u32::MAX,
        decreases n - x,
    {
        if map_repr[x].len() > 0xFFFF_FFFF {
            assert(map[x as int].len() > u32::MAX);
            return Err(ConfigError::TooLarge);
        }
        x = x + 1;
    }
    let mut grid: Vec<Vec<Option<LandCell>>> = Vec::new();
    let mut x: usize = 0;
    while x < n
        invariant
            x <= n,
            n == map_repr@.len(),
            n <= u32::MAX,
            map == table(map_repr@),
            countable(map),
            stray_in(map, x as int) is None,
            grid@.len() == x,
            forall|r: int| 0 <= r < x ==> (#[trigger] places(grid@)[r]).len() == map[r].len(),
            forall|r: int, c: int|
                0 <= r < x && 0 <= c < places(grid@)[r].len() ==> stands_for(
                    #[trigger] places(grid@)[r][c],
                    map[r][c],
                    r,
                    c,
                ),
        decreases n - x,
    {
        let tokens: &Vec<u8> = &map_repr[x];
        let m: usize = tokens.len();
        assert(tokens@ == map[x as int]);
        let mut row: Vec<Option<LandCell>> = Vec::new();
        let mut y: usize = 0;
        while y < m
            invariant
                y <= m,
                m == tokens@.len(),
                m <= u32::MAX,
                x < n,
                n <= u32::MAX,
                n == map.len(),
                n == map_repr@.len(),
                map == table(map_repr@),
                countable(map),
                tokens@ == map[x as int],
                stray_in(map, x as int) is None,
                stray_in_row(tokens@, y as int) is None,
                row@.len() == y,
                forall|c: int| 0 <= c < y ==> stands_for(#[trigger] row@[c], tokens@[c], x as int, c),
            decreases m - y,
        {
            let t: u8 = tokens[y];
            if t == WATER {
                row.push(None);
            } else if t == LOWLAND {
                row.push(Some(LandCell::new(LandCellType::Lowland, Coord(x as u32, y as u32), Vec::new())));
            } else if t == HIGHLAND {
                row.push(
                    Some(LandCell::new(LandCellType::Highland, Coord(x as u32, y as u32), Vec::new())),
                );
            } else if t == DESERT {
                row.push(Some(LandCell::new(LandCellType::Desert, Coord(x as u32, y as u32), Vec::new())));
            } else {
                proof {
                    lemma_stray_in_row_found(tokens@, y as int + 1, m as int);
                    lemma_stray_in_found(map, x as int + 1, n as int);
                }
                return Err(ConfigError::UnknownToken(t));
            }
            y = y + 1;
        }
        let ghost done = places(grid@);
        grid.push(row);
        proof {
            assert(places(grid@) =~= done.push(row@));
            assert forall|r: int, c: int|
                0 <= r < x + 1 && 0 <= c < places(grid@)[r].len() implies stands_for(
                #[trigger] places(grid@)[r][c],
                map[r][c],
                r,
                c,
            ) by {
                if r < x {
                    assert(places(grid@)[r] == done[r]);
                }
            }
        }
        x = x + 1;
    }
    Ok(grid)
}

/// Whether the map holds habitable terrain at row `x`, column `y`; beyond
/// its edge it holds none.
pub open spec fn land_at(map: Seq<Seq<u8>>, x: int, y: int) -> bool {
    0 <= x < map.len() && 0 <= y < map[x].len() && is_land(map[x][y])
}

/// The habitable places next to a place, in the order east, west, south,
/// north.
pub open spec fn land_around(map: Seq<Seq<u8>>, x: int, y: int) -> Seq<Coord> {
    let east = if land_at(map, x, y + 1) {
        seq![Coord(x as u32, (y + 1) as u32)]
    } else {
        Seq::empty()
    };
    let west = if land_at(map, x, y - 1) {
        seq![Coord(x as u32, (y - 1) as u32)]
    } else {
        Seq::empty()
    };
    let south = if land_at(map, x + 1, y) {
        seq![Coord((x + 1) as u32, y as u32)]
    } else {
        Seq::empty()
    };
    let north = if land_at(map, x - 1, y) {
        seq![Coord((x - 1) as u32, y as u32)]
    } else {
        Seq::empty()
    };
    east + west + south + north
}

/// The cells among the first `k` places of a row.
pub open spec fn cells_in_row(row: Seq<Option<LandCell>>, k: int) -> Seq<LandCell>
    decreases k,
{
    if k <= 0 {
        Seq::empty()
    } else {
        match row[k - 1] {
            Some(cell) => cells_in_row(row, k - 1).push(cell),
            None => cells_in_row(row, k - 1),
        }
    }
}

/// The cells in the first `n` rows of a grid, row by row.
pub open spec fn cells_in(grid: Seq<Seq<Option<LandCell>>>, n: int) -> Seq<LandCell>
    decreases n,
{
    if n <= 0 {
        Seq::empty()
    } else {
        cells_in(grid, n - 1) + cells_in_row(grid[n - 1], grid[n - 1].len() as int)
    }
}

/// Whether the animals at a place can be counted.
pub open spec fn can_count(place: Option<LandCell>) -> bool {
    match place {
        Some(cell) => cell.herbivores@.len() <= u32::MAX && cell.carnivores@.len() <= u32::MAX,
        None => true,
    }
}

/// The number of herbivores at a place.
pub open spec fn herbivores_at(place: Option<LandCell>) -> int {
    match place {
        Some(cell) => cell.herbivores@.len() as int,
        None => 0,
    }
}

/// The number of carnivores at a place.
pub open spec fn carnivores_at(place: Option<LandCell>) -> int {
    match place {
        Some(cell) => cell.carnivores@.len() as int,
        None => 0,
    }
}

/// What an island offers.
pub trait IslandTraits: Sized {
    /// The tokens of the island's map, row by row.
    spec fn chart(&self) -> Seq<Seq<u8>>;

    /// The places of the island, row by row.
    spec fn ground(&self) -> Seq<Seq<Option<LandCell>>>;

    /// The numbers of herbivores and of carnivores that the island counts.
    spec fn tally(&self) -> (int, int);

    /// The table of the number of herbivores at each place.
    spec fn herd_table(&self) -> Seq<Seq<u32>>;

    /// The table of the number of carnivores at each place.
    spec fn pack_table(&self) -> Seq<Seq<u32>>;

    /// An island from a map text, with no one on it and no neighbours
    /// named yet.
    fn new(map_string: String) -> (made: Result<Self, ConfigError>)
        ensures
            !countable(rows_of(encode_utf8(map_string@))) ==> made matches Err(ConfigError::TooLarge),
            countable(rows_of(encode_utf8(map_string@))) ==> match stray_in(
                rows_of(encode_utf8(map_string@)),
                rows_of(encode_utf8(map_string@)).len() as int,
            ) {
                Some(t) => made matches Err(ConfigError::UnknownToken(u)) && u == t,
                None => made matches Ok(island) && island.chart() == rows_of(
                    encode_utf8(map_string@),
                ) && laid_out(island.ground(), island.chart()) && island.tally() == (0int, 0int),
            },
    ;

    /// Counts more animals in.
    fn add_animals(&mut self, herb_count: u32, carn_count: u32)
        requires
            old(self).tally().0 + herb_count <= u32::MAX,
            old(self).tally().1 + carn_count <= u32::MAX,
        ensures
            final(self).tally() == (old(self).tally().0 + herb_count, old(self).tally().1 + carn_count),
            final(self).chart() == old(self).chart(),
            final(self).ground() == old(self).ground(),
    ;

    /// Counts animals out.
    fn del_animals(&mut self, herb_count: u32, carn_count: u32)
        requires
            herb_count <= old(self).tally().0,
            carn_count <= old(self).tally().1,
        ensures
            final(self).tally() == (old(self).tally().0 - herb_count, old(self).tally().1 - carn_count),
            final(self).chart() == old(self).chart(),
            final(self).ground() == old(self).ground(),
    ;

    /// Names to every cell its habitable neighbours: the places next to it
    /// that are neither water nor beyond the edge of the map.
    fn set_neighbors(&mut self)
        requires
            countable(old(self).chart()),
            old(self).ground().len() == old(self).chart().len(),
            forall|x: int|
                0 <= x < old(self).ground().len() ==> (#[trigger] old(self).ground()[x]).len()
                    == old(self).chart()[x].len(),
        ensures
            final(self).chart() == old(self).chart(),
            final(self).tally() == old(self).tally(),
            final(self).ground().len() == old(self).ground().len(),
            forall|x: int|
                0 <= x < final(self).ground().len() ==> (#[trigger] final(self).ground()[x]).len()
                    == old(self).ground()[x].len(),
            forall|x: int, y: int|
                0 <= x < final(self).ground().len() && 0 <= y < final(self).ground()[x].len()
                    ==> match #[trigger] final(self).ground()[x][y] {
                    None => old(self).ground()[x][y] is None,
                    Some(cell) => old(self).ground()[x][y] matches Some(before)
                        && cell.land_cell_neighbors@ == land_around(final(self).chart(), x, y)
                        && cell.location == before.location && cell.cell_type == before.cell_type
                        && cell.fodder == before.fodder && cell.max_fodder == before.max_fodder
                        && cell.herbivores == before.herbivores && cell.carnivores
                        == before.carnivores,
                },
    ;

    /// The number of animals that the island counts.
    fn get_num_animals(&self) -> (r: u32)
        requires
            self.tally().0 + self.tally().1 <= u32::MAX,
        ensures
            r == self.tally().0 + self.tally().1,
    ;

    /// The number of herbivores that the island counts.
    fn get_num_herbs(&self) -> (r: u32)
        ensures
            r == self.tally().0,
    ;

    /// The number of carnivores that the island counts.
    fn get_num_carns(&self) -> (r: u32)
        ensures
            r == self.tally().1,
    ;

    /// The habitable cells of the island, row by row.
    fn get_land_cells(&self) -> (cells: Vec<&LandCell>)
        ensures
            cells@.map_values(|c: &LandCell| *c) == cells_in(self.ground(), self.ground().len() as int),
    ;

    /// Brings the tables of the numbers of herbivores and of carnivores at
    /// each place up to date: at water there is no one.
    fn update_pop_matrix(&mut self)
        requires
            forall|x: int, y: int|
                0 <= x < old(self).ground().len() && 0 <= y < old(self).ground()[x].len()
                    ==> can_count(#[trigger] old(self).ground()[x][y]),
        ensures
            final(self).chart() == old(self).chart(),
            final(self).ground() == old(self).ground(),
            final(self).tally() == old(self).tally(),
            final(self).herd_table().len() == final(self).ground().len(),
            final(self).pack_table().len() == final(self).ground().len(),
            forall|x: int|
                0 <= x < final(self).ground().len() ==> (#[trigger] final(self).herd_table()[x]).len()
                    == final(self).ground()[x].len(),
            forall|x: int|
                0 <= x < final(self).ground().len() ==> (#[trigger] final(self).pack_table()[x]).len()
                    == final(self).ground()[x].len(),
            forall|x: int, y: int|
                0 <= x < final(self).ground().len() && 0 <= y < final(self).ground()[x].len() ==> (
                #[trigger] final(self).herd_table()[x][y]) == herbivores_at(final(self).ground()[x][y]),
            forall|x: int, y: int|
                0 <= x < final(self).ground().len() && 0 <= y < final(self).ground()[x].len() ==> (
                #[trigger] final(self).pack_table()[x][y]) == carnivores_at(final(self).ground()[x][y]),
    ;

    /// The numbers of the rows of the map, from zero.
    fn get_unique_rows(&self) -> (r: Vec<usize>)
        ensures
            r@.len() == self.chart().len(),
            forall|i: int| 0 <= i < r@.len() ==> (#[trigger] r@[i]) == i,
    ;

    /// The numbers of the columns of the first row of the map, from zero;
    /// none where the map has no row.
    fn get_unique_cols(&self) -> (r: Vec<usize>)
        ensures
            self.chart().len() == 0 ==> r@.len() == 0,
            self.chart().len() > 0 ==> r@.len() == self.chart()[0].len(),
            forall|i: int| 0 <= i < r@.len() ==> (#[trigger] r@[i]) == i,
    ;
}

/// The numbers from zero up to `n`.
fn count_up(n: usize) -> (r: Vec<usize>)
    ensures
        r@.len() == n,
        forall|i: int| 0 <= i < r@.len() ==> (#[trigger] r@[i]) == i,
{
    let mut r: Vec<usize> = Vec::new();
    let mut i: usize = 0;
    while i < n
        invariant
            i <= n,
            r@.len() == i,
            forall|j: int| 0 <= j < i ==> (#[trigger] r@[j]) == j,
        decreases n - i,
    {
        r.push(i);
        i = i + 1;
    }
    r
}

/// Whether the token is one of habitable terrain.
fn land_token(t: u8) -> (r: bool)
    ensures
        r == is_land(t),
{
    t == LOWLAND || t == HIGHLAND || t == DESERT
}

/// The habitable places next to a place of the map.
fn near_land(map: &Vec<Vec<u8>>, x: usize, y: usize) -> (near: Vec<Coord>)
    requires
        countable(table(map@)),
        x < map@.len(),
        y < map@[x as int]@.len(),
    ensures
        near@ == land_around(table(map@), x as int, y as int),
{
    let ghost chart = table(map@);
    let mut near: Vec<Coord> = Vec::new();
    assert(chart[x as int] == map@[x as int]@);
    if y + 1 < map[x].len() && land_token(map[x][y + 1]) {
        near.push(Coord(x as u32, (y + 1) as u32));
    }
    if y > 0 && land_token(map[x][y - 1]) {
        near.push(Coord(x as u32, (y - 1) as u32));
    }
    if x + 1 < map.len() {
        assert(chart[x as int + 1] == map@[x as int + 1]@);
        if y < map[x + 1].len() && land_token(map[x + 1][y]) {
            near.push(Coord((x + 1) as u32, y as u32));
        }
    }
    if x > 0 {
        assert(chart[x as int - 1] == map@[x as int - 1]@);
        if y < map[x - 1].len() && land_token(map[x - 1][y]) {
            near.push(Coord((x - 1) as u32, y as u32));
        }
    }
    assert(near@ =~= land_around(chart, x as int, y as int));
    near
}

impl IslandTraits for Island {
    open spec fn chart(&self) -> Seq<Seq<u8>> {
        table(self.landscape_repr@)
    }

    open spec fn ground(&self) -> Seq<Seq<Option<LandCell>>> {
        places(self.landscape@)
    }

    open spec fn tally(&self) -> (int, int) {
        (self.num_herbs as int, self.num_carns as int)
    }

    open spec fn herd_table(&self) -> Seq<Seq<u32>> {
        counts(self.herb_pop_matrix@)
    }

    open spec fn pack_table(&self) -> Seq<Seq<u32>> {
        counts(self.carn_pop_matrix@)
    }

    fn new(map_string: String) -> (made: Result<Self, ConfigError>) {
        let map_repr: Vec<Vec<u8>> = map_repr_from_string(&map_string);
        match map_from_string(&map_repr) {
            Err(e) => Err(e),
            Ok(landscape) => Ok(
                Island {
                    landscape,
                    landscape_repr: map_repr,
                    num_carns: 0,
                    num_herbs: 0,
                    herb_pop_matrix: Vec::new(),
                    carn_pop_matrix: Vec::new(),
                },
            ),
        }
    }

    fn add_animals(&mut self, herb_count: u32, carn_count: u32) {
        self.num_herbs = self.num_herbs + herb_count;
        self.num_carns = self.num_carns + carn_count;
    }

    fn del_animals(&mut self, herb_count: u32, carn_count: u32) {
        self.num_herbs = self.num_herbs - herb_count;
        self.num_carns = self.num_carns - carn_count;
    }

    fn set_neighbors(&mut self) {
        let ghost before = places(self.landscape@);
        let ghost chart = table(self.landscape_repr@);
        let n: usize = self.landscape.len();
        let mut x: usize = 0;
        while x < n
            invariant
                x <= n,
                n == before.len(),
                self.landscape@.len() == n,
                self.landscape_repr == old(self).landscape_repr,
                self.num_herbs == old(self).num_herbs,
                self.num_carns == old(self).num_carns,
                chart == table(self.landscape_repr@),
                countable(chart),
                before.len() == chart.len(),
                forall|r: int| 0 <= r < n ==> (#[trigger] before[r]).len() == chart[r].len(),
                forall|r: int| 0 <= r < n ==> (#[trigger] places(self.landscape@)[r]).len() == before[r].len(),
                forall|r: int| x <= r < n ==> (#[trigger] places(self.landscape@)[r]) == before[r],
                forall|r: int, c: int|
                    0 <= r < x && 0 <= c < before[r].len() ==> named(
                        #[trigger] places(self.landscape@)[r][c],
                        before[r][c],
                        chart,
                        r,
                        c,
                    ),
            decreases n - x,
        {
            let m: usize = self.landscape[x].len();
            let ghost rows1 = places(self.landscape@);
            proof {
                assert(rows1[x as int] == self.landscape@[x as int]@);
                assert(rows1.len() == n);
            }
            let mut y: usize = 0;
            while y < m
                invariant
                    y <= m,
                    x < n,
                    n == before.len(),
                    self.landscape@.len() == n,
                    self.landscape_repr == old(self).landscape_repr,
                    self.num_herbs == old(self).num_herbs,
                    self.num_carns == old(self).num_carns,
                    chart == table(self.landscape_repr@),
                    countable(chart),
                    before.len() == chart.len(),
                    m == before[x as int].len(),
                    m == chart[x as int].len(),
                    places(self.landscape@)[x as int].len() == m,
                    rows1.len() == n,
                    forall|r: int| 0 <= r < n && r != x ==> (#[trigger] places(self.landscape@)[r]) == rows1[r],
                    forall|c: int|
                        y <= c < m ==> (#[trigger] places(self.landscape@)[x as int][c])
                            == before[x as int][c],
                    forall|c: int|
                        0 <= c < y ==> named(
                            #[trigger] places(self.landscape@)[x as int][c],
                            before[x as int][c],
                            chart,
                            x as int,
                            c,
                        ),
                decreases m - y,
            {
                let near: Vec<Coord> = near_land(&self.landscape_repr, x, y);
                let ghost rows2 = places(self.landscape@);
                match &mut self.landscape[x][y] {
                    Some(cell) => {
                        cell.land_cell_neighbors = near;
                    },
                    None => {},
                }
                proof {
                    assert forall|r: int| 0 <= r < n && r != x implies (#[trigger] places(
                        self.landscape@,
                    )[r]) == rows1[r] by {
                        assert(places(self.landscape@)[r] == rows2[r]);
                    }
                    assert forall|c: int| 0 <= c < y implies named(
                        #[trigger] places(self.landscape@)[x as int][c],
                        before[x as int][c],
                        chart,
                        x as int,
                        c,
                    ) by {
                        assert(places(self.landscape@)[x as int][c] == rows2[x as int][c]);
                    }
                }
                y = y + 1;
            }
            x = x + 1;
        }
    }

    fn get_land_cells(&self) -> (cells: Vec<&LandCell>) {
        let ghost grid = places(self.landscape@);
        let mut cells: Vec<&LandCell> = Vec::new();
        let n: usize = self.landscape.len();
        let mut x: usize = 0;
        while x < n
            invariant
                x <= n,
                n == self.landscape@.len(),
                grid == places(self.landscape@),
                cells@.map_values(|c: &LandCell| *c) == cells_in(grid, x as int),
            decreases n - x,
        {
            let row: &Vec<Option<LandCell>> = &self.landscape[x];
            let m: usize = row.len();
            let ghost done = cells@.map_values(|c: &LandCell| *c);
            assert(grid[x as int] == row@);
            let mut y: usize = 0;
            while y < m
                invariant
                    y <= m,
                    m == row@.len(),
                    cells@.map_values(|c: &LandCell| *c) == done + cells_in_row(row@, y as int),
                decreases m - y,
            {
                let ghost so_far = cells@.map_values(|c: &LandCell| *c);
                match &row[y] {
                    Some(cell) => {
                        cells.push(cell);
                        assert(cells@.map_values(|c: &LandCell| *c) =~= so_far.push(*cell));
                    },
                    None => {},
                }
                y = y + 1;
            }
            x = x + 1;
        }
        cells
    }

    fn update_pop_matrix(&mut self) {
        let ghost grid = places(self.landscape@);
        proof {
            assert(self.ground() == grid);
            assert forall|r: int, c: int| 0 <= r < grid.len() && 0 <= c < grid[r].len() implies can_count(
                #[trigger] grid[r][c],
            ) by {
                assert(can_count(self.ground()[r][c]));
            }
        }
        let mut herds: Vec<Vec<u32>> = Vec::new();
        let mut packs: Vec<Vec<u32>> = Vec::new();
        let n: usize = self.landscape.len();
        let mut x: usize = 0;
        while x < n
            invariant
                x <= n,
                n == self.landscape@.len(),
                *self == *old(self),
                grid == places(self.landscape@),
                forall|r: int, c: int|
                    0 <= r < grid.len() && 0 <= c < grid[r].len() ==> can_count(#[trigger] grid[r][c]),
                herds@.len() == x,
                packs@.len() == x,
                forall|r: int| 0 <= r < x ==> (#[trigger] counts(herds@)[r]).len() == grid[r].len(),
                forall|r: int| 0 <= r < x ==> (#[trigger] counts(packs@)[r]).len() == grid[r].len(),
                forall|r: int, c: int|
                    0 <= r < x && 0 <= c < grid[r].len() ==> (#[trigger] counts(herds@)[r][c])
                        == herbivores_at(grid[r][c]),
                forall|r: int, c: int|
                    0 <= r < x && 0 <= c < grid[r].len() ==> (#[trigger] counts(packs@)[r][c])
                        == carnivores_at(grid[r][c]),
            decreases n - x,
        {
            let row: &Vec<Option<LandCell>> = &self.landscape[x];
            let m: usize = row.len();
            assert(grid[x as int] == row@);
            assert forall|c: int| 0 <= c < m implies can_count(#[trigger] row@[c]) by {
                assert(can_count(grid[x as int][c]));
            }
            let mut herd_row: Vec<u32> = Vec::new();
            let mut pack_row: Vec<u32> = Vec::new();
            let mut y: usize = 0;
            while y < m
                invariant
                    y <= m,
                    m == row@.len(),
                    x < grid.len(),
                    grid[x as int] == row@,
                    forall|c: int| 0 <= c < m ==> can_count(#[trigger] row@[c]),
                    herd_row@.len() == y,
                    pack_row@.len() == y,
                    forall|c: int| 0 <= c < y ==> (#[trigger] herd_row@[c]) == herbivores_at(row@[c]),
                    forall|c: int| 0 <= c < y ==> (#[trigger] pack_row@[c]) == carnivores_at(row@[c]),
                decreases m - y,
            {
                assert(can_count(row@[y as int]));
                match &row[y] {
                    Some(cell) => {
                        herd_row.push(cell.herb_count());
                        pack_row.push(cell.carn_count());
                    },
                    None => {
                        herd_row.push(0);
                        pack_row.push(0);
                    },
                }
                y = y + 1;
            }
            let ghost herds_done = counts(herds@);
            let ghost packs_done = counts(packs@);
            herds.push(herd_row);
            packs.push(pack_row);
            proof {
                assert(counts(herds@) =~= herds_done.push(herd_row@));
                assert(counts(packs@) =~= packs_done.push(pack_row@));
                assert forall|r: int| 0 <= r < x + 1 implies (#[trigger] counts(herds@)[r]).len()
                    == grid[r].len() by {
                    if r < x {
                        assert(counts(herds@)[r] == herds_done[r]);
                    }
                }
                assert forall|r: int| 0 <= r < x + 1 implies (#[trigger] counts(packs@)[r]).len()
                    == grid[r].len() by {
                    if r < x {
                        assert(counts(packs@)[r] == packs_done[r]);
                    }
                }
                assert forall|r: int, c: int| 0 <= r < x + 1 && 0 <= c < grid[r].len() implies (
                #[trigger] counts(herds@)[r][c]) == herbivores_at(grid[r][c]) by {
                    if r < x {
                        assert(counts(herds@)[r] == herds_done[r]);
                        assert(herds_done[r][c] == herbivores_at(grid[r][c]));
                    } else {
                        assert(counts(herds@)[r] == herd_row@);
                        assert(herd_row@[c] == herbivores_at(row@[c]));
                    }
                }
                assert forall|r: int, c: int| 0 <= r < x + 1 && 0 <= c < grid[r].len() implies (
                #[trigger] counts(packs@)[r][c]) == carnivores_at(grid[r][c]) by {
                    if r < x {
                        assert(counts(packs@)[r] == packs_done[r]);
                        assert(packs_done[r][c] == carnivores_at(grid[r][c]));
                    } else {
                        assert(counts(packs@)[r] == pack_row@);
                        assert(pack_row@[c] == carnivores_at(row@[c]));
                    }
                }
            }
            x = x + 1;
        }
        self.herb_pop_matrix = herds;
        self.carn_pop_matrix = packs;
        proof {
            assert(self.ground() == grid);
            assert(self.herd_table() == counts(herds@));
            assert(self.pack_table() == counts(packs@));
        }
    }

    fn get_num_animals(&self) -> (r: u32) {
        self.num_carns + self.num_herbs
    }

    fn get_num_herbs(&self) -> (r: u32) {
        self.num_herbs
    }

    fn get_num_carns(&self) -> (r: u32) {
        self.num_carns
    }

    fn get_unique_rows(&self) -> (r: Vec<usize>) {
        count_up(self.landscape_repr.len())
    }

    fn get_unique_cols(&self) -> (r: Vec<usize>) {
        if self.landscape_repr.len() == 0 {
            Vec::new()
        } else {
            assert(table(self.landscape_repr@)[0] == self.landscape_repr@[0]@);
            count_up(self.landscape_repr[0].len())
        }
    }
}

/// The place is as it was, but for the neighbours of its cell, which are
/// the habitable places around it.
pub open spec fn named(
    now: Option<LandCell>,
    before: Option<LandCell>,
    map: Seq<Seq<u8>>,
    x: int,
    y: int,
) -> bool {
    match now {
        None => before is None,
        Some(cell) => before matches Some(was) && cell.land_cell_neighbors@ == land_around(map, x, y)
            && cell.location == was.location && cell.cell_type == was.cell_type && cell.fodder
            == was.fodder && cell.max_fodder == was.max_fodder && cell.herbivores == was.herbivores
            && cell.carnivores == was.carnivores,
    }
}

} // verus!
