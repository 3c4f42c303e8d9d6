//! Rendering a level's tile grid as characters.

use vstd::prelude::*;
use vstd::arithmetic::div_mod::{
    lemma_div_is_ordered, lemma_fundamental_div_mod, lemma_fundamental_div_mod_converse,
    lemma_mod_pos_bound,
};
use crate::config::Config;
use crate::level::Lev;

verus! {

/// Renders the grid row-major as one character per tile — `'1'` where a room
/// occupies the tile, `'0'` elsewhere — with `'\n'` after every row. Tile `i`
/// lands at position `i + i / tile_dim` (one newline per completed row); row
/// `r`'s newline lands at position `r * (tile_dim + 1) + tile_dim`.
pub fn print_lev(cfg: &Config, l: &Lev) -> (out: Vec<char>)
    requires
        cfg.wf(),
        l.tiles@.len() == cfg.tile_dim * cfg.tile_dim,
    ensures
        out@.len() == l.tiles@.len() + cfg.tile_dim,
        forall|i: int|
            0 <= i < l.tiles@.len() ==> out@[i + i / (cfg.tile_dim as int)] == (if (
            #[trigger] l.tiles@[i]).t {
                '1'
            } else {
                '0'
            }),
        forall|row: int|
            0 <= row < cfg.tile_dim ==> #[trigger] out@[row * (cfg.tile_dim as int + 1)
                + cfg.tile_dim] == '\n',
{
    let dim = cfg.tile_dim;
    let ghost dd = dim as int;
    let len = l.tiles.len();
    let mut out: Vec<char> = Vec::new();
    let mut i: usize = 0;
    while i < len
        invariant
            cfg.wf(),
            dim == cfg.tile_dim,
            dd == dim as int,
            len == l.tiles@.len(),
            l.tiles@.len() == cfg.tile_dim * cfg.tile_dim,
            i <= len,
            out@.len() == i + i as int / dd,
            forall|k: int|
                0 <= k < i ==> out@[k + k / dd] == (if (#[trigger] l.tiles@[k]).t {
                    '1'
                } else {
                    '0'
                }),
            forall|row: int| 0 <= row < i as int / dd ==> #[trigger] out@[row * (dd + 1) + dd] == '\n',
        decreases len - i,
    {
        let ghost q = i as int / dd;
        let ghost r = i as int % dd;
        proof {
            lemma_fundamental_div_mod(i as int, dd);
            lemma_mod_pos_bound(i as int, dd);
        }
        if l.tiles[i].t {
            out.push('1');
        } else {
            out.push('0');
        }
        let col = (i as u64 % dim as u64) as u32;
        if col == dim - 1 {
            out.push('\n');
            proof {
                assert(i as int + 1 == (q + 1) * dd + 0) by (nonlinear_arith)
                    requires
                        i as int == dd * q + r,
                        r == dd - 1,
                ;
                lemma_fundamental_div_mod_converse(i as int + 1, dd, q + 1, 0);
                assert(q * (dd + 1) + dd == i as int + q + 1) by (nonlinear_arith)
                    requires
                        i as int == dd * q + (dd - 1),
                ;
            }
        } else {
            proof {
                assert(i as int + 1 == q * dd + (r + 1)) by (nonlinear_arith)
                    requires
                        i as int == dd * q + r,
                ;
                lemma_fundamental_div_mod_converse(i as int + 1, dd, q, r + 1);
            }
        }
        proof {
            assert forall|k: int|
                0 <= k < i + 1 implies out@[k + k / dd] == (if (#[trigger] l.tiles@[k]).t {
                '1'
            } else {
                '0'
            }) by {
                lemma_div_is_ordered(k, i as int, dd);
            }
            assert forall|row: int|
                0 <= row < (i + 1) as int / dd implies #[trigger] out@[row * (dd + 1) + dd]
                == '\n' by {
                if row < q {
                    assert(row * (dd + 1) + dd < i + q) by (nonlinear_arith)
                        requires
                            row <= q - 1,
                            i as int == dd * q + r,
                            r >= 0,
                            dd > 0,
                    ;
                }
            }
        }
        i += 1;
    }
    proof {
        assert(len as int / dd == dd) by (nonlinear_arith)
            requires
                len == dd * dd,
                dd > 0,
        ;
    }
    out
}

} // verus!
