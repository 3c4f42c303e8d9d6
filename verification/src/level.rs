//! Tiles, levels, and the rasterization of rooms onto the grid.

use vstd::prelude::*;
use vstd::arithmetic::div_mod::{lemma_fundamental_div_mod, lemma_fundamental_div_mod_converse};
use vstd::pervasive::VecAdditionalExecFns;
use crate::config::Config;
use crate::room::{placed_rooms, placed_state, room_in_grid, rooms, rooms_form_level, Room};

verus! {

/// One grid cell: its coordinates and whether a room occupies it.
#[derive(Clone, Copy, PartialEq, Eq, Structural, Debug)]
pub struct Tile {
    pub x: u32,
    pub y: u32,
    pub t: bool,
}

/// One generated level: the row-major tile grid and the rooms that were
/// stamped onto it, in acceptance order.
#[derive(Debug)]
pub struct Lev {
    pub tiles: Vec<Tile>,
    pub rooms: Vec<Room>,
}

/// The linear index `i` falls inside room `r`'s footprint: its row lies in
/// `[y, y + h]` and its column in `[x, x + w]`, both inclusive.
pub open spec fn idx_in_room(cfg: Config, r: Room, i: int) -> bool {
    &&& r.y <= i / (cfg.tile_dim as int) <= r.y + r.h
    &&& r.x <= i % (cfg.tile_dim as int) <= r.x + r.w
}

/// Every tile carries the coordinates its position encodes, row-major.
pub open spec fn grid_tile_coords(cfg: Config, ts: Seq<Tile>) -> bool {
    forall|i: int|
        0 <= i < ts.len() ==> (#[trigger] ts[i]).x == i % (cfg.tile_dim as int) && ts[i].y == i / (
        cfg.tile_dim as int)
}

/// A well-formed level: a full square grid of correctly addressed tiles, a
/// valid room list, and a tile occupied exactly when it lies in some
/// accepted room's footprint.
pub open spec fn lev_wf(cfg: Config, l: Lev) -> bool {
    &&& l.tiles@.len() == cfg.tile_dim * cfg.tile_dim
    &&& grid_tile_coords(cfg, l.tiles@)
    &&& rooms_form_level(cfg, l.rooms@)
    &&& forall|i: int|
        0 <= i < l.tiles@.len() ==> ((#[trigger] l.tiles@[i]).t <==> exists|j: int|
            0 <= j < l.rooms@.len() && idx_in_room(cfg, #[trigger] l.rooms@[j], i))
}

/// Stamps room `r` onto the grid: every tile whose index falls in the room's
/// inclusive `(w+1) x (h+1)` footprint becomes occupied; every other tile,
/// and all coordinates, stay as they were.
pub fn room_to_tiles(cfg: &Config, r: &Room, ts: &mut Vec<Tile>)
    requires
        cfg.wf(),
        old(ts)@.len() == cfg.tile_dim * cfg.tile_dim,
        room_in_grid(*cfg, *r),
    ensures
        final(ts)@.len() == old(ts)@.len(),
        forall|i: int|
            0 <= i < old(ts)@.len() ==> #[trigger] final(ts)@[i] == (Tile {
                x: old(ts)@[i].x,
                y: old(ts)@[i].y,
                t: old(ts)@[i].t || idx_in_room(*cfg, *r, i),
            }),
{
    let dim = cfg.tile_dim;
    let ghost dd = dim as int;
    let mut yi: u32 = r.y;
    while yi <= r.y + r.h
        invariant
            cfg.wf(),
            dim == cfg.tile_dim,
            dd == cfg.tile_dim as int,
            room_in_grid(*cfg, *r),
            r.y <= yi <= r.y + r.h + 1,
            ts@.len() == old(ts)@.len(),
            old(ts)@.len() == cfg.tile_dim * cfg.tile_dim,
            forall|i: int|
                0 <= i < ts@.len() ==> #[trigger] ts@[i] == (Tile {
                    x: old(ts)@[i].x,
                    y: old(ts)@[i].y,
                    t: old(ts)@[i].t || (r.y <= i / (cfg.tile_dim as int) < yi && r.x <= i % (
                    cfg.tile_dim as int) <= r.x + r.w),
                }),
        decreases r.y + r.h + 1 - yi,
    {
        let mut xi: u32 = r.x;
        let ghost row_entry = ts@;
        while xi <= r.x + r.w
            invariant
                cfg.wf(),
                dim == cfg.tile_dim,
                dd == cfg.tile_dim as int,
                room_in_grid(*cfg, *r),
                r.y <= yi <= r.y + r.h,
                r.x <= xi <= r.x + r.w + 1,
                ts@.len() == old(ts)@.len(),
                old(ts)@.len() == cfg.tile_dim * cfg.tile_dim,
                forall|i: int|
                    0 <= i < ts@.len() ==> #[trigger] ts@[i] == (Tile {
                        x: old(ts)@[i].x,
                        y: old(ts)@[i].y,
                        t: old(ts)@[i].t || (r.y <= i / (cfg.tile_dim as int) < yi && r.x <= i % (
                        cfg.tile_dim as int) <= r.x + r.w) || (i / (cfg.tile_dim as int) == yi
                            && r.x <= i % (cfg.tile_dim as int) < xi),
                    }),
            decreases r.x + r.w + 1 - xi,
        {
            proof {
                assert(yi < dim && xi < dim);
                assert(yi * dim + xi < dim * dim) by (nonlinear_arith)
                    requires
                        yi < dim,
                        xi < dim,
                ;
            }
            let num = yi * dim + xi;
            proof {
                lemma_fundamental_div_mod_converse(num as int, dd, yi as int, xi as int);
            }
            let told = ts[num as usize];
            ts.set(num as usize, Tile { x: told.x, y: told.y, t: true });
            proof {
                assert forall|i: int|
                    0 <= i < ts@.len() && i != num as int implies !(#[trigger] (i / dd) == yi as int
                    && i % dd == xi as int) by {
                    lemma_fundamental_div_mod(i, dd);
                    assert(i == dd * (i / dd) + (i % dd));
                    if i / dd == yi as int && i % dd == xi as int {
                        assert(dd * (yi as int) == (yi as int) * (dim as int))
                            by (nonlinear_arith)
                            requires
                                dd == dim as int,
                        ;
                        assert(i == num as int);
                    }
                }
            }
            xi += 1;
        }
        yi += 1;
    }
}

/// A fresh all-unoccupied grid of `tile_dim * tile_dim` tiles, row-major.
fn empty_grid(cfg: &Config) -> (ts: Vec<Tile>)
    requires
        cfg.wf(),
    ensures
        ts@.len() == cfg.tile_dim * cfg.tile_dim,
        grid_tile_coords(*cfg, ts@),
        forall|i: int| 0 <= i < ts@.len() ==> !(#[trigger] ts@[i]).t,
{
    let dim = cfg.tile_dim;
    let total: u32 = dim * dim;
    let mut ts: Vec<Tile> = Vec::new();
    let mut ii: u32 = 0;
    while ii < total
        invariant
            cfg.wf(),
            dim == cfg.tile_dim,
            total == cfg.tile_dim * cfg.tile_dim,
            ts@.len() == ii,
            ii <= total,
            forall|i: int|
                0 <= i < ts@.len() ==> #[trigger] ts@[i] == (Tile {
                    x: (i % (cfg.tile_dim as int)) as u32,
                    y: (i / (cfg.tile_dim as int)) as u32,
                    t: false,
                }),
        decreases total - ii,
    {
        ts.push(Tile { x: ii % dim, y: ii / dim, t: false });
        ii += 1;
    }
    proof {
        assert forall|i: int| 0 <= i < ts@.len() implies (#[trigger] ts@[i]).x == i % (cfg.tile_dim
            as int) && ts@[i].y == i / (cfg.tile_dim as int) by {
            assert(0 <= i % (cfg.tile_dim as int) < cfg.tile_dim as int);
        }
    }
    ts
}

/// Builds one level: places rooms with the configured target and budget, then
/// stamps each accepted room onto a fresh grid in acceptance order. The room
/// list and the final generator state are exactly those of the placement run;
/// a level with fewer rooms than the target is a normal outcome.
pub fn make_lev(cfg: &Config, gen: &mut u32) -> (l: Lev)
    requires
        cfg.wf(),
    ensures
        lev_wf(*cfg, l),
        l.rooms@ == placed_rooms(*cfg, cfg.target_rooms as nat, *old(gen)),
        *final(gen) == placed_state(*cfg, cfg.target_rooms as nat, *old(gen)),
{
    let rs = rooms(cfg, cfg.target_rooms, gen);
    let mut ts = empty_grid(cfg);
    let ghost ts0 = ts@;
    let mut k: usize = 0;
    while k < rs.len()
        invariant
            cfg.wf(),
            k <= rs@.len(),
            rooms_form_level(*cfg, rs@),
            ts@.len() == ts0.len(),
            ts0.len() == cfg.tile_dim * cfg.tile_dim,
            grid_tile_coords(*cfg, ts0),
            forall|i: int| 0 <= i < ts0.len() ==> !(#[trigger] ts0[i]).t,
            forall|i: int|
                0 <= i < ts@.len() ==> (#[trigger] ts@[i]).x == ts0[i].x && ts@[i].y == ts0[i].y,
            forall|i: int|
                0 <= i < ts@.len() ==> ((#[trigger] ts@[i]).t <==> exists|j: int|
                    0 <= j < k && idx_in_room(*cfg, #[trigger] rs@[j], i)),
        decreases rs@.len() - k,
    {
        let ghost before = ts@;
        let r = rs[k];
        room_to_tiles(cfg, &r, &mut ts);
        proof {
            assert forall|i: int| 0 <= i < ts@.len() implies ((#[trigger] ts@[i]).t <==> exists|
                j: int,
            | 0 <= j < k + 1 && idx_in_room(*cfg, #[trigger] rs@[j], i)) by {
                if ts@[i].t {
                    if before[i].t {
                        let j = choose|j: int| 0 <= j < k && idx_in_room(*cfg, #[trigger] rs@[j], i);
                        assert(0 <= j < k + 1 && idx_in_room(*cfg, rs@[j], i));
                    } else {
                        assert(idx_in_room(*cfg, rs@[k as int], i));
                    }
                }
            }
        }
        k += 1;
    }
    Lev { tiles: ts, rooms: rs }
}

} // verus!
