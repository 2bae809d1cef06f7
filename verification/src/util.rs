//! The logistic curve by its short name, the draws from the random source,
//! and the reading of a map text into cells.

use vstd::prelude::*;
use rand::rngs::StdRng;
use vstd::utf8::encode_utf8;
use crate::chart::ConfigError;
use crate::chart::DESERT;
use crate::chart::HIGHLAND;
use crate::chart::LOWLAND;
use crate::chart::WATER;
use crate::chart::adjacent;
use crate::chart::charted;
use crate::chart::charted_cell;
use crate::chart::closed;
use crate::chart::first_unknown;
use crate::chart::habitable;
use crate::chart::is_land;
use crate::chart::lemma_charted_closed;
use crate::chart::lemma_first_unknown_found;
use crate::chart::lemma_rows_of;
use crate::chart::lookup;
use crate::chart::map_of;
use crate::chart::neighbors_of;
use crate::chart::placed;
use crate::chart::placed_row;
use crate::chart::rows_of;
use crate::chart::split_rows;
use crate::chart::table;
use crate::landscape::Coord;
use crate::landscape::LandCell;
use crate::landscape::LandCellType;
use crate::logistic::DECAY_HORIZON;
use crate::logistic::exp_neg;
use crate::logistic::exponent;
use crate::logistic::lemma_decay_horizon;
use crate::logistic::lemma_logistic_bounds;
use crate::logistic::logistic;
use crate::logistic::steepness;
use crate::random::draw_below;
use crate::random::generator;
use crate::units::UNIT;

verus! {

/// The logistic curve `1 / (1 + e^(sgn * phi * (x - x_half)))`, all of
/// `x`, `x_half`, `phi` and the result in millionths; `sgn` is `1` for a
/// curve that falls as `x` grows and `-1` for one that rises.
pub fn q(sgn: i8, x: u64, x_half: u64, phi: u64) -> (r: u64)
    requires
        sgn == 1 || sgn == -1,
    ensures
        r == logistic(sgn as int, x as int, x_half as int, phi as int),
        r <= UNIT,
{
    proof {
        lemma_logistic_bounds(sgn as int, x as int, x_half as int, phi as int);
    }
    let u: u64 = exponent(x, x_half, phi);
    let d: u64 = exp_neg(u);
    proof {
        lemma_decay_horizon(DECAY_HORIZON as int);
        if steepness(x as int, x_half as int, phi as int) >= DECAY_HORIZON {
            lemma_decay_horizon(steepness(x as int, x_half as int, phi as int));
        }
    }
    if (sgn > 0 && x < x_half) || (sgn < 0 && x > x_half) {
        (UNIT * UNIT) / (UNIT + d)
    } else {
        (d * UNIT) / (UNIT + d)
    }
}

/// A random source whose draws are fixed by `seed`: two sources from one
/// seed give the same draws in the same order.
pub fn seeded_source(seed: u64) -> StdRng {
    generator(seed)
}

/// Draws a fraction of one, in millionths: some number below `UNIT`.
pub fn random_float(rng: &mut StdRng) -> (r: u64)
    ensures
        r < UNIT,
{
    draw_below(rng, UNIT)
}

/// Every one of the draws is a fraction of one.
pub open spec fn fractions(draws: Seq<u64>) -> bool {
    forall|i: int| 0 <= i < draws.len() ==> (#[trigger] draws[i]) < UNIT
}

/// Some number of draws below one.
pub fn draw_many(rng: &mut StdRng, n: usize) -> (draws: Vec<u64>)
    ensures
        draws@.len() == n,
        fractions(draws@),
{
    let mut draws: Vec<u64> = Vec::new();
    let mut i: usize = 0;
    while i < n
        invariant
            i <= n,
            draws@.len() == i,
            forall|j: int| 0 <= j < i ==> (#[trigger] draws@[j]) < UNIT,
        decreases n - i,
    {
        let d: u64 = random_float(rng);
        draws.push(d);
        i = i + 1;
    }
    draws
}

/// Copies `len` of the items, from the one at `from` on.
pub fn copy_range(items: &Vec<u64>, from: usize, len: usize) -> (out: Vec<u64>)
    requires
        from + len <= items@.len(),
    ensures
        out@ == items@.subrange(from as int, from + len),
{
    let n: usize = items.len();
    let mut out: Vec<u64> = Vec::new();
    let mut i: usize = 0;
    while i < len
        invariant
            i <= len,
            n == items@.len(),
            from + len <= n,
            out@ == items@.subrange(from as int, from + i),
        decreases len - i,
    {
        out.push(items[from + i]);
        assert(out@ =~= items@.subrange(from as int, from + i + 1));
        i = i + 1;
    }
    out
}

/// Number of uniform draws that are summed into one deviate.
pub const DEVIATE_DRAWS: usize = 12;

/// The sum of the first `k` draws.
pub open spec fn draw_sum(draws: Seq<u64>, k: int) -> int
    decreases k,
{
    if k <= 0 {
        0
    } else {
        draw_sum(draws, k - 1) + draws[k - 1]
    }
}

/// The deviate that twelve draws below one make: their sum, less six. The
/// sum of twelve uniform draws has mean six and variance one, and its
/// distribution is close to the normal one.
pub open spec fn bell(draws: Seq<u64>) -> int {
    draw_sum(draws, DEVIATE_DRAWS as int) - 6 * UNIT
}

/// Computes the deviate that twelve draws below one make.
pub fn deviate_of(draws: &Vec<u64>) -> (z: i64)
    requires
        draws@.len() >= DEVIATE_DRAWS,
        forall|i: int| 0 <= i < DEVIATE_DRAWS ==> (#[trigger] draws@[i]) < UNIT,
    ensures
        z == bell(draws@),
        -6 * UNIT <= z < 6 * UNIT,
{
    let mut sum: u64 = 0;
    let mut k: usize = 0;
    while k < DEVIATE_DRAWS
        invariant
            k <= DEVIATE_DRAWS,
            draws@.len() >= DEVIATE_DRAWS,
            forall|i: int| 0 <= i < DEVIATE_DRAWS ==> (#[trigger] draws@[i]) < UNIT,
            UNIT == 1_000_000,
            sum == draw_sum(draws@, k as int),
            sum <= k * 999_999,
        decreases DEVIATE_DRAWS - k,
    {
        sum = sum + draws[k];
        k = k + 1;
    }
    sum as i64 - 6_000_000
}

/// Draws a deviate of an approximately normal distribution with mean zero
/// and standard deviation one, in millionths: the deviate that twelve
/// draws from the random source make. It lies within six standard
/// deviations of zero.
pub fn standard_deviate(rng: &mut StdRng) -> (z: i64)
    ensures
        -6 * UNIT <= z < 6 * UNIT,
        (exists|draws: Seq<u64>| z == bell(draws)),
{
    let draws: Vec<u64> = draw_many(rng, DEVIATE_DRAWS);
    deviate_of(&draws)
}

/// Reads a map text into its tokens, each with its place, row by row.
pub fn landscape_repr_from_string(map_string: String) -> (repr: Vec<(Coord, u8)>)
    requires
        encode_utf8(map_string@).len() <= u32::MAX,
    ensures
        repr@ == map_of(encode_utf8(map_string@)),
{
    let text: &[u8] = map_string.as_str().as_bytes();
    let rows: Vec<Vec<u8>> = split_rows(text);
    proof {
        lemma_rows_of(text@);
        assert(table(rows@).len() == rows@.len());
    }
    let mut repr: Vec<(Coord, u8)> = Vec::new();
    let n: usize = rows.len();
    let mut i: usize = 0;
    while i < n
        invariant
            i <= n,
            n == rows@.len(),
            n <= text@.len() + 1,
            text@.len() <= u32::MAX,
            table(rows@) == rows_of(text@),
            forall|r: int| 0 <= r < n ==> (#[trigger] rows_of(text@)[r]).len() <= text@.len(),
            repr@ == placed(table(rows@), i as int),
        decreases n - i,
    {
        let row: &Vec<u8> = &rows[i];
        let m: usize = row.len();
        let ghost done = repr@;
        assert(row@ == table(rows@)[i as int]);
        let mut j: usize = 0;
        while j < m
            invariant
                j <= m,
                m == row@.len(),
                m <= u32::MAX,
                i <= u32::MAX,
                repr@ == done + placed_row(row@, i as int, j as int),
            decreases m - j,
        {
            repr.push((Coord(i as u32, j as u32), row[j]));
            j = j + 1;
        }
        i = i + 1;
    }
    repr
}

/// Finds the habitable neighbours of a place: those of the four places
/// next to it that the map holds as habitable terrain. The edge of the map
/// bounds like water.
pub fn find_neighbors(coord: Coord, landscape_repr: &Vec<(Coord, u8)>) -> (found: Vec<Coord>)
    ensures
        found@ == neighbors_of(landscape_repr@, coord),
        found@.len() <= 4,
        forall|i: int| 0 <= i < found@.len() ==> habitable(landscape_repr@, #[trigger] found@[i]),
{
    let mut near: Vec<Coord> = Vec::new();
    if coord.1 < u32::MAX {
        near.push(Coord(coord.0, coord.1 + 1));
    }
    if coord.1 > 0 {
        near.push(Coord(coord.0, coord.1 - 1));
    }
    if coord.0 < u32::MAX {
        near.push(Coord(coord.0 + 1, coord.1));
    }
    if coord.0 > 0 {
        near.push(Coord(coord.0 - 1, coord.1));
    }
    assert(near@ =~= adjacent(coord));
    let ghost land = |c: Coord| habitable(landscape_repr@, c);
    let mut found: Vec<Coord> = Vec::new();
    let n: usize = near.len();
    let mut i: usize = 0;
    while i < n
        invariant
            i <= n,
            n == near@.len(),
            n <= 4,
            land == (|c: Coord| habitable(landscape_repr@, c)),
            found@ == near@.take(i as int).filter(land),
            found@.len() <= i,
            forall|j: int| 0 <= j < found@.len() ==> habitable(landscape_repr@, #[trigger] found@[j]),
        decreases n - i,
    {
        let c: Coord = near[i];
        proof {
            assert(near@.take(i as int + 1) =~= near@.take(i as int).push(c));
            near@.take(i as int).lemma_filter_push(c, land);
        }
        let is_habitable: bool = match lookup(landscape_repr, c) {
            Some(t) => t == LOWLAND || t == HIGHLAND || t == DESERT,
            None => false,
        };
        if is_habitable {
            found.push(c);
        }
        i = i + 1;
    }
    assert(near@.take(n as int) =~= near@);
    found
}

/// Builds the habitable cells that a map of tokens calls for, each with
/// its neighbours; water leaves no cell. The map must hold tokens only.
pub fn landscape_from_repr(landscape_repr: Vec<(Coord, u8)>) -> (cells: Vec<LandCell>)
    requires
        first_unknown(landscape_repr@, landscape_repr@.len() as int) is None,
    ensures
        charted(cells@, landscape_repr@),
        closed(cells@),
{
    try_landscape_from_repr(landscape_repr).unwrap()
}

/// Builds the habitable cells that a map calls for, each with its
/// neighbours, after looking for a byte that is no token: the first such
/// byte turns the map down. Water leaves no cell.
pub fn try_landscape_from_repr(landscape_repr: Vec<(Coord, u8)>) -> (built: Result<
    Vec<LandCell>,
    ConfigError,
>)
    ensures
        first_unknown(landscape_repr@, landscape_repr@.len() as int) matches Some(t) ==> built == Err::<
            Vec<LandCell>,
            ConfigError,
        >(ConfigError::UnknownToken(t)),
        first_unknown(landscape_repr@, landscape_repr@.len() as int) is None ==> (built matches Ok(
            cells,
        ) && charted(cells@, landscape_repr@) && closed(cells@)),
{
    let n: usize = landscape_repr.len();
    let mut i: usize = 0;
    while i < n
        invariant
            i <= n,
            n == landscape_repr@.len(),
            first_unknown(landscape_repr@, i as int) is None,
        decreases n - i,
    {
        let t: u8 = landscape_repr[i].1;
        if !(t == LOWLAND || t == HIGHLAND || t == DESERT || t == WATER) {
            proof {
                lemma_first_unknown_found(landscape_repr@, i as int + 1, n as int);
            }
            return Err(ConfigError::UnknownToken(t));
        }
        i = i + 1;
    }
    let ghost land = |e: (Coord, u8)| is_land(e.1);
    let mut cells: Vec<LandCell> = Vec::new();
    let mut k: usize = 0;
    while k < n
        invariant
            k <= n,
            n == landscape_repr@.len(),
            land == (|e: (Coord, u8)| is_land(e.1)),
            cells@.len() == landscape_repr@.take(k as int).filter(land).len(),
            forall|j: int|
                0 <= j < cells@.len() ==> charted_cell(
                    #[trigger] cells@[j],
                    landscape_repr@,
                    landscape_repr@.take(k as int).filter(land)[j],
                ),
        decreases n - k,
    {
        let entry: (Coord, u8) = landscape_repr[k];
        proof {
            assert(landscape_repr@.take(k as int + 1) =~= landscape_repr@.take(k as int).push(entry));
            landscape_repr@.take(k as int).lemma_filter_push(entry, land);
        }
        let t: u8 = entry.1;
        if t == LOWLAND || t == HIGHLAND || t == DESERT {
            let terrain: LandCellType = if t == LOWLAND {
                LandCellType::Lowland
            } else if t == HIGHLAND {
                LandCellType::Highland
            } else {
                LandCellType::Desert
            };
            let near: Vec<Coord> = find_neighbors(entry.0, &landscape_repr);
            cells.push(LandCell::new(terrain, entry.0, near));
        }
        k = k + 1;
    }
    proof {
        assert(landscape_repr@.take(n as int) =~= landscape_repr@);
        lemma_charted_closed(cells@, landscape_repr@);
    }
    Ok(cells)
}

} // verus!
