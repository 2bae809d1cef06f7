//! The map text: its tokens, its rows, the places it names and the cells
//! that it calls for.

use vstd::prelude::*;
use crate::landscape::Coord;
use crate::landscape::LandCell;
use crate::landscape::LandCellType;

verus! {

/// The token of water, which no one lives on or crosses.
pub const WATER: u8 = 87;

/// The token of lowland.
pub const LOWLAND: u8 = 76;

/// The token of highland.
pub const HIGHLAND: u8 = 72;

/// The token of desert.
pub const DESERT: u8 = 68;

/// The byte that ends a row of the map.
pub const ROW_END: u8 = 10;

/// Why a map or a population is turned down.
#[derive(Debug, Clone, Copy, PartialEq, Eq, Structural)]
pub enum ConfigError {
    /// The map has more bytes than a coordinate can count.
    TooLarge,
    /// The rows of the map are not all of one length.
    RaggedRows,
    /// The map holds this byte, which is no terrain.
    UnknownToken(u8),
    /// Animals were to be placed here, where no habitable cell lies.
    UnknownLocation(Coord),
    /// More animals than can be counted.
    TooManyAnimals,
}

/// The rows of a map text: what stands between its row ends. A text
/// without a row end is one row, and an empty text is one empty row.
pub open spec fn rows_of(text: Seq<u8>) -> Seq<Seq<u8>>
    decreases text.len(),
{
    if text.len() == 0 {
        seq![Seq::<u8>::empty()]
    } else if text.last() == ROW_END {
        rows_of(text.drop_last()).push(Seq::<u8>::empty())
    } else {
        let before = rows_of(text.drop_last());
        before.drop_last().push(before.last().push(text.last()))
    }
}

/// The rows of a table, as sequences.
pub open spec fn table(rows: Seq<Vec<u8>>) -> Seq<Seq<u8>> {
    rows.map_values(|r: Vec<u8>| r@)
}

/// A text has at least one row, no more rows than bytes and one, and no row
/// longer than the text.
pub proof fn lemma_rows_of(text: Seq<u8>)
    ensures
        1 <= rows_of(text).len() <= text.len() + 1,
        forall|i: int| 0 <= i < rows_of(text).len() ==> (#[trigger] rows_of(text)[i]).len() <= text.len(),
    decreases text.len(),
{
    if text.len() > 0 {
        lemma_rows_of(text.drop_last());
    }
}

/// Splits a map text into its rows.
pub fn split_rows(text: &[u8]) -> (rows: Vec<Vec<u8>>)
    ensures
        table(rows@) == rows_of(text@),
{
    let mut rows: Vec<Vec<u8>> = Vec::new();
    let mut current: Vec<u8> = Vec::new();
    let n: usize = text.len();
    let mut i: usize = 0;
    while i < n
        invariant
            i <= n,
            n == text@.len(),
            table(rows@).push(current@) == rows_of(text@.take(i as int)),
        decreases n - i,
    {
        let b: u8 = text[i];
        proof {
            assert(text@.take(i as int + 1).drop_last() =~= text@.take(i as int));
            assert(text@.take(i as int + 1).last() == b);
        }
        if b == ROW_END {
            rows.push(current);
            current = Vec::new();
            proof {
                assert(table(rows@) =~= rows_of(text@.take(i as int)));
            }
        } else {
            let ghost row = current@;
            current.push(b);
            proof {
                let before = rows_of(text@.take(i as int));
                assert(before.drop_last() =~= table(rows@));
                assert(before.last() == row);
            }
        }
        i = i + 1;
    }
    proof {
        assert(text@.take(n as int) =~= text@);
    }
    let ghost done = table(rows@);
    rows.push(current);
    proof {
        assert(table(rows@) =~= done.push(current@));
    }
    rows
}

/// The first `k` bytes of row `i`, each with its place.
pub open spec fn placed_row(row: Seq<u8>, i: int, k: int) -> Seq<(Coord, u8)>
    decreases k,
{
    if k <= 0 {
        Seq::empty()
    } else {
        placed_row(row, i, k - 1).push((Coord(i as u32, (k - 1) as u32), row[k - 1]))
    }
}

/// The bytes of the first `n` rows, each with its place, row by row.
pub open spec fn placed(rows: Seq<Seq<u8>>, n: int) -> Seq<(Coord, u8)>
    decreases n,
{
    if n <= 0 {
        Seq::empty()
    } else {
        placed(rows, n - 1) + placed_row(rows[n - 1], n - 1, rows[n - 1].len() as int)
    }
}

/// The bytes of a map text but for the row ends, each with its place: the
/// row first, then the column, both from zero.
pub open spec fn map_of(text: Seq<u8>) -> Seq<(Coord, u8)> {
    placed(rows_of(text), rows_of(text).len() as int)
}

/// Whether the byte is the token of a habitable terrain.
pub open spec fn is_land(token: u8) -> bool {
    token == LOWLAND || token == HIGHLAND || token == DESERT
}

/// Whether the byte is a token of the map.
pub open spec fn is_token(token: u8) -> bool {
    is_land(token) || token == WATER
}

/// The terrain that a token of habitable terrain stands for.
pub open spec fn terrain_of(token: u8) -> LandCellType {
    if token == LOWLAND {
        LandCellType::Lowland
    } else if token == HIGHLAND {
        LandCellType::Highland
    } else {
        LandCellType::Desert
    }
}

/// The token that the map holds at a place: that of the first entry for it
/// among the first `k`, if there is one.
pub open spec fn token_at(repr: Seq<(Coord, u8)>, place: Coord, k: int) -> Option<u8>
    decreases k,
{
    if k <= 0 {
        None
    } else {
        match token_at(repr, place, k - 1) {
            Some(t) => Some(t),
            None => if repr[k - 1].0 == place {
                Some(repr[k - 1].1)
            } else {
                None
            },
        }
    }
}

/// Whether the map holds habitable terrain at a place.
pub open spec fn habitable(repr: Seq<(Coord, u8)>, place: Coord) -> bool {
    match token_at(repr, place, repr.len() as int) {
        Some(t) => is_land(t),
        None => false,
    }
}

/// A token found at a place is that of an entry of the map.
pub proof fn lemma_token_at(repr: Seq<(Coord, u8)>, place: Coord, k: int)
    requires
        0 <= k <= repr.len(),
    ensures
        token_at(repr, place, k) matches Some(t) ==> exists|j: int|
            0 <= j < k && (#[trigger] repr[j]) == (place, t),
        token_at(repr, place, k) is None ==> forall|j: int| 0 <= j < k ==> (#[trigger] repr[j]).0 != place,
    decreases k,
{
    if k > 0 {
        lemma_token_at(repr, place, k - 1);
    }
}

/// Looks up the token at a place.
pub fn lookup(repr: &Vec<(Coord, u8)>, place: Coord) -> (r: Option<u8>)
    ensures
        r == token_at(repr@, place, repr@.len() as int),
{
    let n: usize = repr.len();
    let mut i: usize = 0;
    while i < n
        invariant
            i <= n,
            n == repr@.len(),
            token_at(repr@, place, i as int) is None,
        decreases n - i,
    {
        let entry: (Coord, u8) = repr[i];
        if entry.0.0 == place.0 && entry.0.1 == place.1 {
            proof {
                lemma_token_found(repr@, place, i as int + 1, n as int);
            }
            return Some(entry.1);
        }
        i = i + 1;
    }
    None
}

/// What is found among the first `k` entries is found among any more.
pub proof fn lemma_token_found(repr: Seq<(Coord, u8)>, place: Coord, k: int, n: int)
    requires
        0 <= k <= n,
        token_at(repr, place, k) is Some,
    ensures
        token_at(repr, place, n) == token_at(repr, place, k),
    decreases n - k,
{
    if k < n {
        lemma_token_found(repr, place, k, n - 1);
    }
}

/// The up to four places next to a place, in the order east, west, south,
/// north; a place beyond the range of the coordinates is left out.
pub open spec fn adjacent(place: Coord) -> Seq<Coord> {
    let east = if place.1 < u32::MAX {
        seq![Coord(place.0, (place.1 + 1) as u32)]
    } else {
        Seq::empty()
    };
    let west = if place.1 > 0 {
        seq![Coord(place.0, (place.1 - 1) as u32)]
    } else {
        Seq::empty()
    };
    let south = if place.0 < u32::MAX {
        seq![Coord((place.0 + 1) as u32, place.1)]
    } else {
        Seq::empty()
    };
    let north = if place.0 > 0 {
        seq![Coord((place.0 - 1) as u32, place.1)]
    } else {
        Seq::empty()
    };
    east + west + south + north
}

/// The habitable neighbours of a place on the map.
pub open spec fn neighbors_of(repr: Seq<(Coord, u8)>, place: Coord) -> Seq<Coord> {
    adjacent(place).filter(|c: Coord| habitable(repr, c))
}

/// The first byte among the first `k` entries of a map that is no token.
pub open spec fn first_unknown(repr: Seq<(Coord, u8)>, k: int) -> Option<u8>
    decreases k,
{
    if k <= 0 {
        None
    } else {
        match first_unknown(repr, k - 1) {
            Some(t) => Some(t),
            None => if is_token(repr[k - 1].1) {
                None
            } else {
                Some(repr[k - 1].1)
            },
        }
    }
}

/// The entries of a map that hold habitable terrain, in their order.
pub open spec fn land_of(repr: Seq<(Coord, u8)>) -> Seq<(Coord, u8)> {
    repr.filter(|e: (Coord, u8)| is_land(e.1))
}

/// The cell is the empty cell that the map calls for at an entry of
/// habitable terrain: of that terrain, at that place, with all its food and
/// with the habitable neighbours of the place.
pub open spec fn charted_cell(cell: LandCell, repr: Seq<(Coord, u8)>, entry: (Coord, u8)) -> bool {
    &&& cell.wf()
    &&& cell.cell_type == terrain_of(entry.1)
    &&& cell.location == entry.0
    &&& cell.land_cell_neighbors@ == neighbors_of(repr, entry.0)
    &&& cell.fodder == crate::landscape::food_capacity(terrain_of(entry.1))
    &&& cell.herbivores@.len() == 0
    &&& cell.carnivores@.len() == 0
}

/// The cells are those that the map calls for: one for each entry of
/// habitable terrain, in the order of the entries.
pub open spec fn charted(cells: Seq<LandCell>, repr: Seq<(Coord, u8)>) -> bool {
    &&& cells.len() == land_of(repr).len()
    &&& forall|j: int| 0 <= j < cells.len() ==> charted_cell(#[trigger] cells[j], repr, land_of(repr)[j])
}

/// Whether a cell lies at the place.
pub open spec fn present(cells: Seq<LandCell>, place: Coord) -> bool {
    exists|j: int| 0 <= j < cells.len() && (#[trigger] cells[j]).location == place
}

/// Every neighbour that a cell names is the place of a cell.
pub open spec fn closed(cells: Seq<LandCell>) -> bool {
    forall|i: int, k: int|
        0 <= i < cells.len() && 0 <= k < cells[i].land_cell_neighbors@.len() ==> present(
            cells,
            #[trigger] cells[i].land_cell_neighbors@[k],
        )
}

/// In the cells that a map calls for, every neighbour that a cell names is
/// the place of a cell: no one can be sent to water or off the map.
pub proof fn lemma_charted_closed(cells: Seq<LandCell>, repr: Seq<(Coord, u8)>)
    requires
        charted(cells, repr),
    ensures
        closed(cells),
{
    let land = |e: (Coord, u8)| is_land(e.1);
    assert forall|i: int, k: int|
        0 <= i < cells.len() && 0 <= k < cells[i].land_cell_neighbors@.len() implies present(
        cells,
        #[trigger] cells[i].land_cell_neighbors@[k],
    ) by {
        let place = land_of(repr)[i].0;
        let near = adjacent(place);
        let pred = |c: Coord| habitable(repr, c);
        let nb = cells[i].land_cell_neighbors@[k];
        assert(charted_cell(cells[i], repr, land_of(repr)[i]));
        assert(nb == near.filter(pred)[k]);
        near.lemma_filter_pred(pred, k);
        assert(habitable(repr, nb));
        let t = token_at(repr, nb, repr.len() as int)->0;
        lemma_token_at(repr, nb, repr.len() as int);
        let j0 = choose|j: int| 0 <= j < repr.len() && (#[trigger] repr[j]) == (nb, t);
        repr.lemma_filter_contains(land, j0);
        assert(land_of(repr).contains((nb, t)));
        let idx = choose|idx: int| 0 <= idx < land_of(repr).len() && land_of(repr)[idx] == (nb, t);
        assert(charted_cell(cells[idx], repr, land_of(repr)[idx]));
        assert(cells[idx].location == nb);
    }
}

/// A byte that is no token, once found, stays the first of its kind.
pub proof fn lemma_first_unknown_found(repr: Seq<(Coord, u8)>, k: int, n: int)
    requires
        0 <= k <= n,
        first_unknown(repr, k) is Some,
    ensures
        first_unknown(repr, n) == first_unknown(repr, k),
    decreases n - k,
{
    if k < n {
        lemma_first_unknown_found(repr, k, n - 1);
    }
}

} // verus!
