//! The integer geometry of the disk-usage map: which sector a cell of the
//! flat grid, or a wedge of the circular platter drawing, stands for.

use vstd::prelude::*;

use crate::render::Geometry;

verus! {

/// Cells per row of the flat sector grid.
pub const MAP_COLUMNS: usize = 64;

/// The sector that grid cell (`row`, `col`) stands for.
pub open spec fn grid_index(row: int, col: int) -> int {
    row * 64 + col
}

/// Rows of the grid that holds `count` sectors, the last one possibly partial.
pub fn grid_rows(count: usize) -> (r: usize)
    ensures
        r as int == (count as int + 63) / 64,
{
    let whole = count / MAP_COLUMNS;
    if count % MAP_COLUMNS == 0 {
        whole
    } else {
        whole + 1
    }
}

/// The (row, column) at which sector `index` is drawn in the grid.
pub fn grid_cell(index: usize) -> (r: (usize, usize))
    ensures
        r.0 as int == index as int / 64,
        r.1 as int == index as int % 64,
        grid_index(r.0 as int, r.1 as int) == index,
{
    (index / MAP_COLUMNS, index % MAP_COLUMNS)
}

/// The sector under a click on grid cell (`row`, `col`): none past the last
/// sector.
pub fn grid_sector(row: usize, col: usize, count: usize) -> (r: Option<usize>)
    ensures
        r == (if grid_index(row as int, col as int) < count {
            Some(grid_index(row as int, col as int) as usize)
        } else {
            None::<usize>
        }),
{
    match row.checked_mul(MAP_COLUMNS) {
        Some(base) => match base.checked_add(col) {
            Some(idx) => {
                if idx < count {
                    Some(idx)
                } else {
                    None
                }
            },
            None => None,
        },
        None => None,
    }
}

/// A click on the cell where a sector is drawn selects that sector.
pub proof fn lemma_grid_round_trip(index: usize, count: usize)
    requires
        index < count,
    ensures
        grid_index(index as int / 64, index as int % 64) == index,
        grid_index(index as int / 64, index as int % 64) < count,
{
}

/// A geometry count as the platter drawing uses it: at least one.
pub open spec fn at_least_one(x: u16) -> int {
    if x == 0 {
        1
    } else {
        x as int
    }
}

/// The sector drawn in the wedge of `track`, `side` and `sector`:
/// `(track × sides + side) × sectors per track + sector`.
pub open spec fn platter_lba(geo: Geometry, track: int, side: int, sector: int) -> int {
    (track * at_least_one(geo.sides) + side) * at_least_one(geo.sectors_per_track) + sector
}

/// How many wedges the platter drawing has, over all sides.
pub open spec fn platter_cells(geo: Geometry) -> int {
    at_least_one(geo.sides) * at_least_one(geo.tracks) * at_least_one(geo.sectors_per_track)
}

/// The (side, track, sector) of the wedge in which sector `lba` is drawn.
pub open spec fn platter_place(geo: Geometry, lba: int) -> (int, int, int) {
    let spt = at_least_one(geo.sectors_per_track);
    let sides = at_least_one(geo.sides);
    ((lba / spt) % sides, (lba / spt) / sides, lba % spt)
}

/// The sector under a click on the ring of `track` and the wedge of `sector`
/// of platter `side`; a track or sector past the last is taken as the last.
pub open spec fn platter_click(
    geo: Geometry,
    count: int,
    side: int,
    track: int,
    sector: int,
) -> Option<int> {
    let t = if track < at_least_one(geo.tracks) - 1 { track } else { at_least_one(geo.tracks) - 1 };
    let s = if sector < at_least_one(geo.sectors_per_track) - 1 {
        sector
    } else {
        at_least_one(geo.sectors_per_track) - 1
    };
    let lba = platter_lba(geo, t, side, s);
    if lba < count {
        Some(lba)
    } else {
        None
    }
}

fn at_least_one_exec(x: u16) -> (r: u64)
    ensures
        r == at_least_one(x),
{
    if x == 0 {
        1
    } else {
        x as u64
    }
}

/// The sector under a click on the platter drawing, from the side, ring and
/// wedge the click fell in.
pub fn platter_sector(geo: Geometry, count: usize, side: usize, track: usize, sector: usize) -> (r:
    Option<usize>)
    requires
        side < at_least_one(geo.sides),
    ensures
        r == (match platter_click(geo, count as int, side as int, track as int, sector as int) {
            Some(lba) => Some(lba as usize),
            None => None::<usize>,
        }),
{
    let sides = at_least_one_exec(geo.sides);
    let tracks = at_least_one_exec(geo.tracks);
    let spt = at_least_one_exec(geo.sectors_per_track);
    let t: u64 = if (track as u128) < (tracks - 1) as u128 {
        track as u64
    } else {
        tracks - 1
    };
    let s: u64 = if (sector as u128) < (spt - 1) as u128 {
        sector as u64
    } else {
        spt - 1
    };
    let h: u64 = side as u64;
    proof {
        assert(t * sides <= 0xffff * 0xffff) by (nonlinear_arith)
            requires
                t <= 0xffff,
                sides <= 0xffff,
        ;
        assert((t * sides + h) * spt <= (0xffff * 0xffff + 0xffff) * 0xffff) by (nonlinear_arith)
            requires
                t * sides + h <= 0xffff * 0xffff + 0xffff,
                spt <= 0xffff,
                0 <= t * sides + h,
        ;
    }
    let lba: u64 = (t * sides + h) * spt + s;
    if (lba as u128) < (count as u128) {
        Some(lba as usize)
    } else {
        None
    }
}

/// The (side, track, sector) of the wedge in which sector `lba` is drawn.
pub fn platter_position(geo: Geometry, lba: usize) -> (r: (usize, usize, usize))
    ensures
        (r.0 as int, r.1 as int, r.2 as int) == platter_place(geo, lba as int),
{
    let spt = at_least_one_exec(geo.sectors_per_track) as usize;
    let sides = at_least_one_exec(geo.sides) as usize;
    let rest = lba / spt;
    (rest % sides, rest / sides, lba % spt)
}

/// Every wedge of the drawing holds a different sector, and the wedge of a
/// sector is found again from its number: the drawing and the click agree.
pub proof fn lemma_platter_round_trip(geo: Geometry, track: int, side: int, sector: int)
    requires
        0 <= track < at_least_one(geo.tracks),
        0 <= side < at_least_one(geo.sides),
        0 <= sector < at_least_one(geo.sectors_per_track),
    ensures
        0 <= platter_lba(geo, track, side, sector) < platter_cells(geo),
        platter_place(geo, platter_lba(geo, track, side, sector)) == (side, track, sector),
{
    let sides = at_least_one(geo.sides);
    let tracks = at_least_one(geo.tracks);
    let spt = at_least_one(geo.sectors_per_track);
    let row = track * sides + side;
    assert(0 <= row < tracks * sides) by (nonlinear_arith)
        requires
            0 <= track < tracks,
            0 <= side < sides,
            row == track * sides + side,
    ;
    assert(0 <= row * spt + sector < sides * tracks * spt) by (nonlinear_arith)
        requires
            0 <= row < tracks * sides,
            0 <= sector < spt,
    ;
    vstd::arithmetic::div_mod::lemma_fundamental_div_mod_converse(row * spt + sector, spt, row, sector);
    vstd::arithmetic::div_mod::lemma_fundamental_div_mod_converse(row, sides, track, side);
}

/// Every sector of the drawing lies in a wedge of the platter, and that wedge
/// stands for it.
pub proof fn lemma_platter_covers(geo: Geometry, lba: int)
    requires
        0 <= lba < platter_cells(geo),
    ensures
        0 <= platter_place(geo, lba).0 < at_least_one(geo.sides),
        0 <= platter_place(geo, lba).1 < at_least_one(geo.tracks),
        0 <= platter_place(geo, lba).2 < at_least_one(geo.sectors_per_track),
        platter_lba(geo, platter_place(geo, lba).1, platter_place(geo, lba).0, platter_place(geo, lba).2) == lba,
{
    let sides = at_least_one(geo.sides);
    let tracks = at_least_one(geo.tracks);
    let spt = at_least_one(geo.sectors_per_track);
    let rest = lba / spt;
    vstd::arithmetic::div_mod::lemma_fundamental_div_mod(lba, spt);
    vstd::arithmetic::div_mod::lemma_fundamental_div_mod(rest, sides);
    assert(0 <= rest < sides * tracks) by (nonlinear_arith)
        requires
            0 <= lba < sides * tracks * spt,
            lba == spt * rest + lba % spt,
            0 <= lba % spt < spt,
            spt > 0,
    ;
    assert(0 <= rest / sides < tracks) by (nonlinear_arith)
        requires
            0 <= rest < sides * tracks,
            rest == sides * (rest / sides) + rest % sides,
            0 <= rest % sides < sides,
    ;
    assert(platter_lba(geo, rest / sides, rest % sides, lba % spt) == lba) by (nonlinear_arith)
        requires
            lba == spt * rest + lba % spt,
            rest == sides * (rest / sides) + rest % sides,
            platter_lba(geo, rest / sides, rest % sides, lba % spt) == ((rest / sides) * sides
                + rest % sides) * spt + lba % spt,
    ;
}

/// A click on the wedge in which a sector is drawn selects that sector.
pub proof fn lemma_click_selects_drawn_sector(geo: Geometry, count: int, lba: int)
    requires
        0 <= lba < count,
        lba < platter_cells(geo),
    ensures
        platter_click(
            geo,
            count,
            platter_place(geo, lba).0,
            platter_place(geo, lba).1,
            platter_place(geo, lba).2,
        ) == Some(lba),
{
    lemma_platter_covers(geo, lba);
}

} // verus!
