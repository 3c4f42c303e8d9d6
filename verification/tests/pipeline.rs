use levgen::batch::{run_workers, MakeLevs};
use levgen::config::Config;
use levgen::level::Lev;
use levgen::render::print_lev;
use levgen::room::Room;
use levgen::select::{find_most_rooms, LevError};

fn level_with_room_count(count: u32, marker: u32) -> Lev {
    let mut rooms = Vec::new();
    for n in 0..count {
        rooms.push(Room {
            x: marker,
            y: 1,
            w: 1,
            h: 1,
            n,
        });
    }
    Lev {
        tiles: Vec::new(),
        rooms,
    }
}

#[test]
fn partition_drops_remainder() {
    let cfg = Config {
        tile_dim: 50,
        min_wid: 2,
        max_wid: 8,
        num_levs: 10,
        num_cores: 4,
        num_tries: 1000,
        target_rooms: 5,
    };
    let levs = run_workers(&cfg, 7);
    // 10 / 4 == 2 levels per worker; the remainder of 2 is dropped
    assert_eq!(levs.len(), 8);
}

#[test]
fn workers_concatenate_in_worker_order() {
    let cfg = Config {
        tile_dim: 50,
        min_wid: 2,
        max_wid: 8,
        num_levs: 4,
        num_cores: 2,
        num_tries: 1000,
        target_rooms: 5,
    };
    let all = run_workers(&cfg, 7);
    assert_eq!(all.len(), 4);
    let mut by_hand = Vec::new();
    for wk in 0..2u32 {
        let mut g = 7u32.wrapping_mul(wk + 1).wrapping_mul(wk + 1);
        by_hand.extend(MakeLevs(&cfg, 2, &mut g));
    }
    for (a, b) in all.iter().zip(by_hand.iter()) {
        assert_eq!(a.rooms, b.rooms);
        assert_eq!(a.tiles, b.tiles);
    }
}

#[test]
fn selector_returns_first_of_tied_maxima() {
    let ls = vec![
        level_with_room_count(3, 10),
        level_with_room_count(7, 11),
        level_with_room_count(2, 12),
        level_with_room_count(7, 13),
    ];
    let best = find_most_rooms(&ls).unwrap();
    assert_eq!(best.rooms.len(), 7);
    assert_eq!(best.rooms[0].x, 11);
}

#[test]
fn selector_rejects_empty_input() {
    let ls: Vec<Lev> = Vec::new();
    assert!(matches!(find_most_rooms(&ls), Err(LevError::EmptyInput)));
}

#[test]
fn render_places_rows_and_newlines() {
    let cfg = Config {
        tile_dim: 4,
        min_wid: 2,
        max_wid: 8,
        num_levs: 1,
        num_cores: 1,
        num_tries: 10,
        target_rooms: 1,
    };
    let mut tiles = Vec::new();
    for i in 0..16u32 {
        tiles.push(levgen::level::Tile {
            x: i % 4,
            y: i / 4,
            t: i == 5 || i == 6,
        });
    }
    let l = Lev {
        tiles,
        rooms: Vec::new(),
    };
    let out = print_lev(&cfg, &l);
    let text: String = out.into_iter().collect();
    assert_eq!(text, "0000\n0110\n0000\n0000\n");
}

#[test]
fn full_pipeline_seed_18() {
    let cfg = Config::standard();
    let levs = run_workers(&cfg, 18);
    assert_eq!(levs.len(), 800);
    let best = find_most_rooms(&levs).unwrap();
    assert_eq!(best.rooms.len(), 43);
    let out = print_lev(&cfg, best);
    assert_eq!(out.len(), 50 * 50 + 50);
    assert!(out.iter().any(|&c| c == '1'));
    assert!(out.iter().all(|&c| c == '1' || c == '0' || c == '\n'));
    assert_eq!(out.iter().filter(|&&c| c == '\n').count(), 50);
    assert_eq!(out.iter().filter(|&&c| c == '1').count(), 1200);
}
