//! Rejection-sampling room placement.

use vstd::prelude::*;
use crate::config::Config;
use crate::rng::{next_state, GenRand};

verus! {

/// An axis-aligned rectangular room: top-left corner `(x, y)`, nominal
/// extents `w` and `h` (the occupied footprint is `(w+1) x (h+1)` cells),
/// and `n`, its 0-based index in its level's room list.
#[derive(Clone, Copy, PartialEq, Eq, Structural, Debug)]
pub struct Room {
    pub x: u32,
    pub y: u32,
    pub w: u32,
    pub h: u32,
    pub n: u32,
}

/// The margin-aware separation test between an accepted room `r` and a
/// candidate at `(nx, ny)` with extents `nw, nh`: the two are apart only if a
/// one-cell buffer separates them on some axis. Anything closer counts as a
/// collision.
pub open spec fn room_apart(r: Room, nx: u32, ny: u32, nw: u32, nh: u32) -> bool {
    ||| r.x + r.w + 1 < nx
    ||| r.x > nx + nw + 1
    ||| r.y + r.h + 1 < ny
    ||| r.y > ny + nh + 1
}

/// The candidate at `(nx, ny)` with extents `nw, nh` is apart from every room
/// in `rs`.
pub open spec fn no_crash(rs: Seq<Room>, nx: u32, ny: u32, nw: u32, nh: u32) -> bool {
    forall|i: int| 0 <= i < rs.len() ==> room_apart(#[trigger] rs[i], nx, ny, nw, nh)
}

/// The room sits strictly inside the grid, off the top and left edges and
/// leaving at least a one-cell border at the right and bottom.
pub open spec fn room_in_grid(cfg: Config, r: Room) -> bool {
    &&& 0 < r.x
    &&& 0 < r.y
    &&& r.x + r.w < cfg.tile_dim
    &&& r.y + r.h < cfg.tile_dim
}

/// Every later room is apart from every earlier one.
pub open spec fn rooms_disjoint(rs: Seq<Room>) -> bool {
    forall|i: int, j: int|
        0 <= i < j < rs.len() ==> room_apart(
            #[trigger] rs[i],
            (#[trigger] rs[j]).x,
            rs[j].y,
            rs[j].w,
            rs[j].h,
        )
}

/// A valid accepted room list: each room inside the grid, numbered by its
/// position, and pairwise apart under the margin rule.
pub open spec fn rooms_form_level(cfg: Config, rs: Seq<Room>) -> bool {
    &&& forall|i: int| 0 <= i < rs.len() ==> room_in_grid(cfg, #[trigger] rs[i]) && rs[i].n == i
    &&& rooms_disjoint(rs)
}

/// The candidate produced by the next four draws from state `s`, numbered
/// `count`, together with the state after those draws.
pub open spec fn candidate_of(cfg: Config, s: u32, count: nat) -> (Room, u32) {
    let s1 = next_state(s);
    let s2 = next_state(s1);
    let s3 = next_state(s2);
    let s4 = next_state(s3);
    (
        Room {
            x: (s1 % cfg.tile_dim) as u32,
            y: (s2 % cfg.tile_dim) as u32,
            w: (s3 % cfg.max_wid + cfg.min_wid) as u32,
            h: (s4 % cfg.max_wid + cfg.min_wid) as u32,
            n: count as u32,
        },
        s4,
    )
}

/// A candidate is accepted when it fits strictly inside the grid, touches
/// neither the top nor the left edge, and is apart from all rooms placed so
/// far.
pub open spec fn room_ok(cfg: Config, r: Room, prior: Seq<Room>) -> bool {
    &&& r.x + r.w < cfg.tile_dim
    &&& r.y + r.h < cfg.tile_dim
    &&& r.x != 0
    &&& r.y != 0
    &&& no_crash(prior, r.x, r.y, r.w, r.h)
}

/// The whole placement run: starting from `acc` with `tries` proposals left,
/// draw a candidate, keep it if accepted, and stop as soon as `target` rooms
/// have been kept or the budget is exhausted. Returns the final room list and
/// the final generator state. With `target == 0` the early stop never fires
/// and the full budget is spent.
pub open spec fn place_rooms_rec(
    cfg: Config,
    target: nat,
    tries: nat,
    s: u32,
    acc: Seq<Room>,
) -> (Seq<Room>, u32)
    decreases tries,
{
    if tries == 0 {
        (acc, s)
    } else {
        let (cand, s4) = candidate_of(cfg, s, acc.len());
        if room_ok(cfg, cand, acc) {
            let acc2 = acc.push(cand);
            if acc2.len() == target {
                (acc2, s4)
            } else {
                place_rooms_rec(cfg, target, (tries - 1) as nat, s4, acc2)
            }
        } else {
            place_rooms_rec(cfg, target, (tries - 1) as nat, s4, acc)
        }
    }
}

/// The room list a full placement run leaves, from state `s` with the
/// configured budget.
pub open spec fn placed_rooms(cfg: Config, target: nat, s: u32) -> Seq<Room> {
    place_rooms_rec(cfg, target, cfg.num_tries as nat, s, Seq::empty()).0
}

/// The generator state a full placement run leaves.
pub open spec fn placed_state(cfg: Config, target: nat, s: u32) -> u32 {
    place_rooms_rec(cfg, target, cfg.num_tries as nat, s, Seq::empty()).1
}

/// Reports whether the candidate at `(new_x, new_y)` with extents
/// `(new_w, new_h)` keeps the one-cell margin to every room in `rs`.
pub fn not_crash(new_x: u32, new_y: u32, new_w: u32, new_h: u32, rs: &Vec<Room>) -> (ok: bool)
    ensures
        ok == no_crash(rs@, new_x, new_y, new_w, new_h),
{
    let mut i: usize = 0;
    while i < rs.len()
        invariant
            i <= rs@.len(),
            forall|j: int| 0 <= j < i ==> room_apart(#[trigger] rs@[j], new_x, new_y, new_w, new_h),
        decreases rs@.len() - i,
    {
        let r = rs[i];
        let apart = r.x as u64 + r.w as u64 + 1 < new_x as u64 || r.x as u64 > new_x as u64
            + new_w as u64 + 1 || r.y as u64 + r.h as u64 + 1 < new_y as u64 || r.y as u64 > new_y
            as u64 + new_h as u64 + 1;
        if !apart {
            assert(!room_apart(rs@[i as int], new_x, new_y, new_w, new_h));
            return false;
        }
        i += 1;
    }
    true
}

/// Places up to `n` rooms by rejection sampling: repeatedly draws a candidate
/// from the generator and keeps it only when it fits inside the grid, avoids
/// the top and left edges, and keeps the margin to every room kept so far.
/// Stops once `n` rooms are kept or the try budget is spent; fewer than `n`
/// rooms is a normal outcome. The result and the final generator state are
/// exactly those of the placement run from the starting state.
pub fn rooms(cfg: &Config, n: usize, gen: &mut u32) -> (rs: Vec<Room>)
    requires
        cfg.wf(),
    ensures
        rs@ == placed_rooms(*cfg, n as nat, *old(gen)),
        *final(gen) == placed_state(*cfg, n as nat, *old(gen)),
        rooms_form_level(*cfg, rs@),
        n > 0 ==> rs@.len() <= n,
{
    let ghost s0 = *gen;
    let mut state: u32 = *gen;
    let mut rs: Vec<Room> = Vec::new();
    let mut t: usize = 0;
    while t < cfg.num_tries && (n == 0 || rs.len() < n)
        invariant
            cfg.wf(),
            t <= cfg.num_tries,
            rs@.len() <= t,
            n > 0 ==> rs@.len() <= n,
            rooms_form_level(*cfg, rs@),
            if n > 0 && rs@.len() == n {
                place_rooms_rec(*cfg, n as nat, cfg.num_tries as nat, s0, Seq::empty()) == (
                rs@,
                state,
                )
            } else {
                place_rooms_rec(*cfg, n as nat, cfg.num_tries as nat, s0, Seq::empty())
                    == place_rooms_rec(*cfg, n as nat, (cfg.num_tries - t) as nat, state, rs@)
            },
        decreases cfg.num_tries - t,
    {
        let ghost s_in = state;
        let ghost rs_in = rs@;
        let vx = GenRand(&mut state);
        let x = vx % cfg.tile_dim;
        let vy = GenRand(&mut state);
        let y = vy % cfg.tile_dim;
        let vw = GenRand(&mut state);
        let w = vw % cfg.max_wid + cfg.min_wid;
        let vh = GenRand(&mut state);
        let h = vh % cfg.max_wid + cfg.min_wid;
        let ghost cand = candidate_of(*cfg, s_in, rs_in.len()).0;
        proof {
            assert(cand.x == x && cand.y == y && cand.w == w && cand.h == h);
            assert(candidate_of(*cfg, s_in, rs_in.len()).1 == state);
        }
        let fits = (x as u64) + (w as u64) < (cfg.tile_dim as u64) && (y as u64) + (h as u64) < (
        cfg.tile_dim as u64) && x != 0 && y != 0;
        let accept = fits && not_crash(x, y, w, h, &rs);
        proof {
            assert(accept == room_ok(*cfg, cand, rs_in));
        }
        if accept {
            let num = rs.len() as u32;
            rs.push(Room { x, y, w, h, n: num });
            proof {
                assert(rs@ == rs_in.push(cand));
                assert forall|i: int, j: int| 0 <= i < j < rs@.len() implies room_apart(
                    #[trigger] rs@[i],
                    (#[trigger] rs@[j]).x,
                    rs@[j].y,
                    rs@[j].w,
                    rs@[j].h,
                ) by {
                    if j < rs_in.len() {
                        assert(room_apart(rs_in[i], rs_in[j].x, rs_in[j].y, rs_in[j].w, rs_in[j].h));
                    } else {
                        assert(room_apart(rs_in[i], cand.x, cand.y, cand.w, cand.h));
                    }
                }
            }
        }
        t += 1;
        proof {
            let tries_in = (cfg.num_tries - (t - 1)) as nat;
            assert(place_rooms_rec(*cfg, n as nat, tries_in, s_in, rs_in) == if room_ok(
                *cfg,
                cand,
                rs_in,
            ) {
                if rs_in.push(cand).len() == n as nat {
                    (rs_in.push(cand), state)
                } else {
                    place_rooms_rec(*cfg, n as nat, (tries_in - 1) as nat, state, rs_in.push(cand))
                }
            } else {
                place_rooms_rec(*cfg, n as nat, (tries_in - 1) as nat, state, rs_in)
            });
        }
    }
    *gen = state;
    rs
}

} // verus!
