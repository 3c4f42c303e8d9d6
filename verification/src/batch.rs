//! Batch generation and the partition of work across workers.

use vstd::prelude::*;
use vstd::arithmetic::div_mod::{
    lemma_fundamental_div_mod, lemma_mod_pos_bound, lemma_mul_mod_noop_left,
};
use crate::config::Config;
use crate::level::{lev_wf, make_lev, Lev};
use crate::room::{placed_rooms, placed_state, Room};

verus! {

/// The room lists of a batch of `count` levels generated from one stream
/// starting at `s`, appended to `acc`, together with the state the stream is
/// left in. Each level consumes however many draws its placement run needs;
/// the next level continues from there.
pub open spec fn levels_spec_rec(cfg: Config, count: nat, s: u32, acc: Seq<Seq<Room>>) -> (
    Seq<Seq<Room>>,
    u32,
)
    decreases count,
{
    if count == 0 {
        (acc, s)
    } else {
        let rs = placed_rooms(cfg, cfg.target_rooms as nat, s);
        let s1 = placed_state(cfg, cfg.target_rooms as nat, s);
        levels_spec_rec(cfg, (count - 1) as nat, s1, acc.push(rs))
    }
}

/// The room lists of a batch of `count` levels from starting state `s`.
pub open spec fn batch_rooms(cfg: Config, count: nat, s: u32) -> Seq<Seq<Room>> {
    levels_spec_rec(cfg, count, s, Seq::empty()).0
}

/// The generator state left after such a batch.
pub open spec fn batch_state(cfg: Config, count: nat, s: u32) -> u32 {
    levels_spec_rec(cfg, count, s, Seq::empty()).1
}

/// `levs` is exactly the batch of `count` levels generated from starting
/// state `s`: one well-formed level per entry, whose rooms are the entry's
/// room list of the batch run. Together with well-formedness this pins every
/// tile of every level.
pub open spec fn batch_matches(cfg: Config, count: nat, s: u32, levs: Seq<Lev>) -> bool {
    &&& levs.len() == count
    &&& forall|k: int|
        0 <= k < levs.len() ==> lev_wf(cfg, #[trigger] levs[k]) && levs[k].rooms@ == batch_rooms(
            cfg,
            count,
            s,
        )[k]
}

/// Builds `n` levels against one continuously advancing generator stream: no
/// reset between levels, so the whole batch is a pure function of the
/// starting state.
#[allow(non_snake_case)]
pub fn MakeLevs(cfg: &Config, n: usize, gen: &mut u32) -> (levs: Vec<Lev>)
    requires
        cfg.wf(),
    ensures
        batch_matches(*cfg, n as nat, *old(gen), levs@),
        *final(gen) == batch_state(*cfg, n as nat, *old(gen)),
{
    let ghost s0 = *gen;
    let mut levs: Vec<Lev> = Vec::new();
    let ghost mut rooms_acc: Seq<Seq<Room>> = Seq::empty();
    let mut k: usize = 0;
    while k < n
        invariant
            cfg.wf(),
            k <= n,
            levs@.len() == k,
            rooms_acc.len() == k,
            forall|j: int|
                0 <= j < k ==> lev_wf(*cfg, #[trigger] levs@[j]) && levs@[j].rooms@ == rooms_acc[j],
            levels_spec_rec(*cfg, n as nat, s0, Seq::empty()) == levels_spec_rec(
                *cfg,
                (n - k) as nat,
                *gen,
                rooms_acc,
            ),
        decreases n - k,
    {
        let ghost s_in = *gen;
        let ghost acc_in = rooms_acc;
        let l = make_lev(cfg, gen);
        proof {
            rooms_acc = acc_in.push(l.rooms@);
            assert(levels_spec_rec(*cfg, (n - k) as nat, s_in, acc_in) == levels_spec_rec(
                *cfg,
                (n - k - 1) as nat,
                *gen,
                rooms_acc,
            ));
        }
        levs.push(l);
        k += 1;
    }
    proof {
        assert(batch_rooms(*cfg, n as nat, s0) == rooms_acc);
    }
    levs
}

/// Batch determinism: two batches generated with the same parameters from the
/// same starting state agree level by level, in rooms and tiles alike.
pub proof fn lemma_batch_deterministic(cfg: Config, count: nat, s: u32, a: Seq<Lev>, b: Seq<Lev>)
    requires
        batch_matches(cfg, count, s, a),
        batch_matches(cfg, count, s, b),
    ensures
        a.len() == b.len(),
        forall|k: int|
            0 <= k < a.len() ==> (#[trigger] a[k]).rooms@ == b[k].rooms@ && a[k].tiles@
                == b[k].tiles@,
{
    assert forall|k: int|
        0 <= k < a.len() implies (#[trigger] a[k]).rooms@ == b[k].rooms@ && a[k].tiles@
        == b[k].tiles@ by {
        assert(a[k].rooms@ == batch_rooms(cfg, count, s)[k]);
        assert(b[k].rooms@ == batch_rooms(cfg, count, s)[k]);
        assert forall|i: int| 0 <= i < a[k].tiles@.len() implies a[k].tiles@[i] == b[k].tiles@[i] by {
            assert(a[k].tiles@[i].t <==> b[k].tiles@[i].t);
        }
        assert(a[k].tiles@ =~= b[k].tiles@);
    }
}

/// The starting state of worker `ordinal` (1-based): the base seed scaled by
/// the squared ordinal, modulo 2^32.
pub open spec fn worker_seed(seed: u32, ordinal: u32) -> u32 {
    ((seed * ordinal * ordinal) % 0x1_0000_0000) as u32
}

/// Computes a worker's starting state from the base seed and the worker's
/// 1-based ordinal, wrapping modulo 2^32.
pub fn derive_worker_seed(seed: u32, ordinal: u32) -> (s: u32)
    ensures
        s == worker_seed(seed, ordinal),
{
    let first = seed.wrapping_mul(ordinal);
    let s = first.wrapping_mul(ordinal);
    proof {
        lemma_mul_mod_noop_left(seed as int * ordinal as int, ordinal as int, 0x1_0000_0000);
    }
    s
}

/// The number of levels each worker builds: the total divided by the worker
/// count, any remainder dropped.
pub open spec fn per_worker(cfg: Config) -> int {
    cfg.num_levs as int / cfg.num_cores as int
}

/// `levs` is the concatenation, in worker order, of every worker's batch:
/// worker `wk` (0-based) contributes the slice of `per_worker` levels built
/// from its derived seed.
pub open spec fn workers_output_ok(cfg: Config, seed: u32, levs: Seq<Lev>) -> bool {
    &&& levs.len() == cfg.num_cores * per_worker(cfg)
    &&& forall|wk: int|
        0 <= wk < cfg.num_cores ==> batch_matches(
            cfg,
            per_worker(cfg) as nat,
            worker_seed(seed, (wk + 1) as u32),
            #[trigger] levs.subrange(wk * per_worker(cfg), (wk + 1) * per_worker(cfg)),
        )
}

/// Partitions the configured level total across the configured workers and
/// runs every worker's batch, concatenating the results in worker order. Each
/// worker's stream starts at its derived seed, so the whole collection is a
/// pure function of the base seed. A remainder of the division is dropped,
/// never redistributed.
pub fn run_workers(cfg: &Config, seed: u32) -> (levs: Vec<Lev>)
    requires
        cfg.wf(),
    ensures
        workers_output_ok(*cfg, seed, levs@),
        levs@.len() == cfg.num_cores * per_worker(*cfg),
{
    let per = cfg.num_levs / cfg.num_cores;
    proof {
        lemma_fundamental_div_mod(cfg.num_levs as int, cfg.num_cores as int);
        lemma_mod_pos_bound(cfg.num_levs as int, cfg.num_cores as int);
    }
    let mut levs: Vec<Lev> = Vec::new();
    let mut wk: usize = 0;
    while wk < cfg.num_cores
        invariant
            cfg.wf(),
            wk <= cfg.num_cores,
            per == per_worker(*cfg),
            cfg.num_cores * per_worker(*cfg) <= cfg.num_levs,
            levs@.len() == wk * per_worker(*cfg),
            forall|w: int|
                0 <= w < wk ==> batch_matches(
                    *cfg,
                    per_worker(*cfg) as nat,
                    worker_seed(seed, (w + 1) as u32),
                    #[trigger] levs@.subrange(w * per_worker(*cfg), (w + 1) * per_worker(*cfg)),
                ),
        decreases cfg.num_cores - wk,
    {
        proof {
            assert((wk + 1) * per_worker(*cfg) == wk * per_worker(*cfg) + per_worker(*cfg))
                by (nonlinear_arith);
            assert(wk * per_worker(*cfg) <= (wk + 1) * per_worker(*cfg) <= cfg.num_cores
                * per_worker(*cfg)) by (nonlinear_arith)
                requires
                    0 <= wk,
                    wk + 1 <= cfg.num_cores,
                    per_worker(*cfg) >= 0,
            ;
        }
        let ghost levs_in = levs@;
        let ordinal = (wk + 1) as u32;
        let mut wgen = derive_worker_seed(seed, ordinal);
        let mut b = MakeLevs(cfg, per, &mut wgen);
        let ghost b_view = b@;
        levs.append(&mut b);
        proof {
            assert(levs@ == levs_in + b_view);
            assert forall|w: int|
                0 <= w < wk + 1 implies batch_matches(
                *cfg,
                per_worker(*cfg) as nat,
                worker_seed(seed, (w + 1) as u32),
                #[trigger] levs@.subrange(w * per_worker(*cfg), (w + 1) * per_worker(*cfg)),
            ) by {
                let p = per_worker(*cfg);
                assert(0 <= w * p && w * p <= (w + 1) * p) by (nonlinear_arith)
                    requires
                        0 <= w,
                        p >= 0,
                ;
                if w < wk {
                    assert((w + 1) * p <= wk * p) by (nonlinear_arith)
                        requires
                            w + 1 <= wk,
                            p >= 0,
                    ;
                    assert(levs@.subrange(w * p, (w + 1) * p) =~= levs_in.subrange(
                        w * p,
                        (w + 1) * p,
                    ));
                } else {
                    assert(levs@.subrange(w * p, (w + 1) * p) =~= b_view);
                }
            }
        }
        wk += 1;
    }
    levs
}

} // verus!
