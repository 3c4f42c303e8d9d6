use levgen::batch::{derive_worker_seed, MakeLevs};
use levgen::config::Config;
use levgen::level::{make_lev, room_to_tiles, Lev, Tile};
use levgen::rng::GenRand;
use levgen::room::{not_crash, rooms, Room};

fn small_config() -> Config {
    Config {
        tile_dim: 50,
        min_wid: 2,
        max_wid: 8,
        num_levs: 10,
        num_cores: 4,
        num_tries: 1000,
        target_rooms: 5,
    }
}

fn empty_tiles(dim: u32) -> Vec<Tile> {
    let mut ts = Vec::new();
    for i in 0..dim * dim {
        ts.push(Tile {
            x: i % dim,
            y: i / dim,
            t: false,
        });
    }
    ts
}

fn footprint_holds(l: &Lev, dim: u32, i: u32) -> bool {
    let (x, y) = (i % dim, i / dim);
    l.rooms
        .iter()
        .any(|r| r.y <= y && y <= r.y + r.h && r.x <= x && x <= r.x + r.w)
}

#[test]
fn gen_rand_golden_sequence() {
    let expected: [u32; 20] = [
        37, 75, 151, 303, 607, 1215, 2431, 4863, 9727, 19455, 38911, 77823, 155647, 311295,
        622591, 1245183, 2490367, 4980735, 9961471, 19922943,
    ];
    let mut g: u32 = 18;
    for e in expected {
        assert_eq!(GenRand(&mut g), e);
        assert_eq!(g, e);
    }
}

#[test]
fn gen_rand_wraps_and_mixes_sign_bit() {
    let mut g: u32 = 0x8000_0000;
    assert_eq!(GenRand(&mut g), 1);
    let mut g: u32 = 0x4000_0000;
    assert_eq!(GenRand(&mut g), 0x0888_8eee);
}

#[test]
fn not_crash_requires_one_cell_margin() {
    let placed = vec![Room {
        x: 10,
        y: 10,
        w: 2,
        h: 2,
        n: 0,
    }];
    // 13 == 10 + 2 + 1 is not strictly past the margin; 14 is.
    assert!(!not_crash(13, 10, 2, 2, &placed));
    assert!(not_crash(14, 10, 2, 2, &placed));
    assert!(!not_crash(10, 13, 2, 2, &placed));
    assert!(not_crash(10, 14, 2, 2, &placed));
    // the candidate may also sit before the placed room
    assert!(not_crash(7, 10, 1, 2, &placed));
    assert!(!not_crash(8, 10, 1, 2, &placed));
    // no placed rooms: nothing to collide with
    assert!(not_crash(0, 0, 9, 9, &Vec::new()));
}

#[test]
fn rooms_golden_run_for_seed_18() {
    let cfg = Config::standard();
    let mut g: u32 = 18;
    let rs = rooms(&cfg, 99, &mut g);
    assert_eq!(rs.len(), 30);
    assert_eq!(g, 1560728711);
    let first: Vec<(u32, u32, u32, u32, u32)> = rs[..3]
        .iter()
        .map(|r| (r.x, r.y, r.w, r.h, r.n))
        .collect();
    assert_eq!(
        first,
        vec![(37, 25, 9, 9, 0), (7, 15, 9, 9, 1), (27, 5, 9, 9, 2)]
    );
}

#[test]
fn accepted_rooms_stay_inside_grid() {
    let cfg = Config::standard();
    let mut g: u32 = 18;
    let rs = rooms(&cfg, 99, &mut g);
    assert!(!rs.is_empty());
    for r in &rs {
        assert!(r.x > 0 && r.y > 0);
        assert!(r.x + r.w < cfg.tile_dim);
        assert!(r.y + r.h < cfg.tile_dim);
    }
    for (i, r) in rs.iter().enumerate() {
        assert_eq!(r.n as usize, i);
    }
}

#[test]
fn accepted_rooms_keep_pairwise_margin() {
    let cfg = Config::standard();
    let mut g: u32 = 18;
    let rs = rooms(&cfg, 99, &mut g);
    assert!(rs.len() > 1);
    for j in 1..rs.len() {
        let earlier = rs[..j].to_vec();
        let c = &rs[j];
        assert!(not_crash(c.x, c.y, c.w, c.h, &earlier));
    }
}

#[test]
fn room_to_tiles_stamps_inclusive_footprint() {
    let cfg = Config {
        tile_dim: 10,
        min_wid: 2,
        max_wid: 8,
        num_levs: 1,
        num_cores: 1,
        num_tries: 10,
        target_rooms: 1,
    };
    let mut ts = empty_tiles(10);
    let r = Room {
        x: 2,
        y: 3,
        w: 2,
        h: 1,
        n: 0,
    };
    room_to_tiles(&cfg, &r, &mut ts);
    for i in 0..100u32 {
        let (x, y) = (i % 10, i / 10);
        let inside = (2..=4).contains(&x) && (3..=4).contains(&y);
        assert_eq!(ts[i as usize].t, inside, "tile ({}, {})", x, y);
        assert_eq!(ts[i as usize].x, x);
        assert_eq!(ts[i as usize].y, y);
    }
}

#[test]
fn level_tiles_match_room_footprints() {
    let cfg = Config::standard();
    let mut g: u32 = 18;
    let l = make_lev(&cfg, &mut g);
    assert_eq!(l.tiles.len(), 2500);
    for i in 0..2500u32 {
        assert_eq!(l.tiles[i as usize].t, footprint_holds(&l, 50, i));
    }
}

#[test]
fn make_batch_is_deterministic() {
    let cfg = small_config();
    let mut g1: u32 = 977;
    let mut g2: u32 = 977;
    let a = MakeLevs(&cfg, 3, &mut g1);
    let b = MakeLevs(&cfg, 3, &mut g2);
    assert_eq!(g1, g2);
    assert_eq!(a.len(), 3);
    assert_eq!(b.len(), 3);
    for (la, lb) in a.iter().zip(b.iter()) {
        assert_eq!(la.rooms, lb.rooms);
        assert_eq!(la.tiles, lb.tiles);
    }
}

#[test]
fn batch_threads_one_stream_across_levels() {
    let cfg = Config::standard();
    let mut g: u32 = 18;
    let levs = MakeLevs(&cfg, 2, &mut g);
    assert_eq!(levs[0].rooms.len(), 30);
    assert_eq!(levs[1].rooms.len(), 39);
    assert_eq!(g, 1878132470);
}

#[test]
fn worker_seed_is_squared_ordinal_scaling() {
    assert_eq!(derive_worker_seed(18, 1), 18);
    assert_eq!(derive_worker_seed(18, 2), 72);
    assert_eq!(derive_worker_seed(18, 3), 162);
    assert_eq!(derive_worker_seed(18, 4), 288);
    // wraps modulo 2^32
    assert_eq!(derive_worker_seed(0xFFFF_FFFF, 3), 0xFFFF_FFF7);
}
