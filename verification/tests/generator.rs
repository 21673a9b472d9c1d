use hauberk::dungeon::GenError;
use hauberk::dungeon::GenParams;
use hauberk::fully_connected;
use hauberk::make_map_hauberk;
use hauberk::Dungeon;

fn scenario_params() -> GenParams {
    GenParams {
        width: 21,
        height: 21,
        room_min: 4,
        room_max: 6,
        room_tries: 10,
        winding_percent: 10,
        extra_connector_chance: 25,
    }
}

const SEED_STATE: u64 = 0x844cfa4bf95ef68;
const SEED_STREAM: u64 = 0x2a04cd05868ddbcd;

fn generate(params: &GenParams) -> Dungeon {
    match make_map_hauberk(params, SEED_STATE, SEED_STREAM) {
        Ok(d) => d,
        Err(e) => panic!("generation failed: {:?}", e),
    }
}

fn grids_identical(a: &Dungeon, b: &Dungeon) -> bool {
    if a.grid.get_width() != b.grid.get_width() || a.grid.get_height() != b.grid.get_height() {
        return false;
    }
    for x in 0..a.grid.get_width() {
        for y in 0..a.grid.get_height() {
            if a.grid.get(x, y) != b.grid.get(x, y) {
                return false;
            }
        }
    }
    true
}

#[test]
fn fixed_seed_reproduces_identical_grids() {
    let params = scenario_params();
    let a = generate(&params);
    let b = generate(&params);
    assert!(grids_identical(&a, &b));
    assert_eq!(a.start, b.start);
    assert_eq!(a.rooms.len(), b.rooms.len());
    for i in 0..a.rooms.len() {
        assert_eq!(a.rooms[i], b.rooms[i]);
    }
}

#[test]
fn scenario_start_point_is_first_room_center() {
    let params = scenario_params();
    let d = generate(&params);
    assert!(!d.rooms.is_empty());
    let start = d.start.expect("a room was accepted, so a start point exists");
    let c = d.rooms[0].center();
    assert_eq!((start.x, start.y), c);
}

#[test]
fn scenario_full_connectivity() {
    let params = scenario_params();
    let d = generate(&params);
    let start = d.start.expect("start point");
    let sx = start.x as usize;
    let sy = start.y as usize;
    assert!(!d.grid.get(sx, sy).blocked);
    assert!(fully_connected(&d.grid, sx, sy));
    // independent flood fill over open cells
    let w = d.grid.get_width();
    let h = d.grid.get_height();
    let mut seen = vec![false; w * h];
    let mut work = vec![(sx, sy)];
    seen[sy * w + sx] = true;
    while let Some((cx, cy)) = work.pop() {
        let nbrs = [(cx, cy - 1), (cx, cy + 1), (cx - 1, cy), (cx + 1, cy)];
        for (nx, ny) in nbrs {
            if nx < w && ny < h && !d.grid.get(nx, ny).blocked && !seen[ny * w + nx] {
                seen[ny * w + nx] = true;
                work.push((nx, ny));
            }
        }
    }
    for x in 0..w {
        for y in 0..h {
            if !d.grid.get(x, y).blocked {
                assert!(seen[y * w + x], "open cell ({}, {}) unreachable", x, y);
            }
        }
    }
}

#[test]
fn scenario_no_dead_ends() {
    let params = scenario_params();
    let d = generate(&params);
    let w = d.grid.get_width();
    let h = d.grid.get_height();
    for x in 0..w {
        for y in 0..h {
            if !d.grid.get(x, y).blocked {
                let mut exits: usize = 0;
                if y >= 1 && !d.grid.get(x, y - 1).blocked {
                    exits += 1;
                }
                if y + 1 < h && !d.grid.get(x, y + 1).blocked {
                    exits += 1;
                }
                if x >= 1 && !d.grid.get(x - 1, y).blocked {
                    exits += 1;
                }
                if x + 1 < w && !d.grid.get(x + 1, y).blocked {
                    exits += 1;
                }
                // the map has many open cells, so every open cell must
                // keep at least two exits, not merely avoid exactly one
                assert!(exits >= 2, "dead end at ({}, {})", x, y);
            }
        }
    }
}

#[test]
fn scenario_rooms_do_not_intersect() {
    let params = scenario_params();
    let d = generate(&params);
    for i in 0..d.rooms.len() {
        for j in 0..d.rooms.len() {
            if i != j {
                assert!(!d.rooms[i].intersects_with(&d.rooms[j]));
            }
        }
    }
}

#[test]
fn scenario_rooms_sit_on_odd_lattice() {
    let params = scenario_params();
    let d = generate(&params);
    for room in &d.rooms {
        assert_eq!(room.x1 % 2, 1);
        assert_eq!(room.y1 % 2, 1);
        assert!(room.x1 >= 1);
        assert!(room.y1 >= 1);
        let side_x = room.x2 - room.x1;
        let side_y = room.y2 - room.y1;
        assert!(side_x >= 4 && side_x <= 6);
        assert!(side_y >= 4 && side_y <= 6);
    }
}

#[test]
fn scenario_border_stays_walled() {
    let params = scenario_params();
    let d = generate(&params);
    let w = d.grid.get_width();
    let h = d.grid.get_height();
    for x in 0..w {
        assert!(d.grid.get(x, 0).blocked);
        assert!(d.grid.get(x, h - 1).blocked);
    }
    for y in 0..h {
        assert!(d.grid.get(0, y).blocked);
        assert!(d.grid.get(w - 1, y).blocked);
    }
}

#[test]
fn even_dimensions_coerce_to_next_lower_odd() {
    let mut params = scenario_params();
    params.width = 10;
    params.height = 10;
    let d = generate(&params);
    assert_eq!(d.grid.get_width(), 9);
    assert_eq!(d.grid.get_height(), 9);
}

#[test]
fn odd_dimensions_stay_as_given() {
    let params = scenario_params();
    let d = generate(&params);
    assert_eq!(d.grid.get_width(), 21);
    assert_eq!(d.grid.get_height(), 21);
}

#[test]
fn tiny_grid_with_zero_tries_yields_all_maze_and_no_start() {
    let params = GenParams {
        width: 7,
        height: 7,
        room_min: 6,
        room_max: 6,
        room_tries: 0,
        winding_percent: 10,
        extra_connector_chance: 25,
    };
    let d = match make_map_hauberk(&params, SEED_STATE, SEED_STREAM) {
        Ok(d) => d,
        Err(e) => panic!("generation failed: {:?}", e),
    };
    assert!(d.rooms.is_empty());
    assert!(d.start.is_none());
    // every tile is one of the two canonical states
    for x in 0..d.grid.get_width() {
        for y in 0..d.grid.get_height() {
            let t = d.grid.get(x, y);
            assert_eq!(t.blocked, t.block_sight);
            assert!(!t.explored);
        }
    }
}

#[test]
fn zero_width_is_invalid() {
    let mut params = scenario_params();
    params.width = 0;
    assert_eq!(
        make_map_hauberk(&params, SEED_STATE, SEED_STREAM).err(),
        Some(GenError::InvalidParams)
    );
}

#[test]
fn oversized_width_is_invalid() {
    let mut params = scenario_params();
    params.width = 10000;
    assert_eq!(
        make_map_hauberk(&params, SEED_STATE, SEED_STREAM).err(),
        Some(GenError::InvalidParams)
    );
}

#[test]
fn zero_room_min_is_invalid() {
    let mut params = scenario_params();
    params.room_min = 0;
    assert_eq!(
        make_map_hauberk(&params, SEED_STATE, SEED_STREAM).err(),
        Some(GenError::InvalidParams)
    );
}

#[test]
fn room_min_above_room_max_is_invalid() {
    let mut params = scenario_params();
    params.room_min = 7;
    params.room_max = 6;
    assert_eq!(
        make_map_hauberk(&params, SEED_STATE, SEED_STREAM).err(),
        Some(GenError::InvalidParams)
    );
}

#[test]
fn winding_above_hundred_is_invalid() {
    let mut params = scenario_params();
    params.winding_percent = 101;
    assert_eq!(
        make_map_hauberk(&params, SEED_STATE, SEED_STREAM).err(),
        Some(GenError::InvalidParams)
    );
}

#[test]
fn extra_connector_chance_above_hundred_is_invalid() {
    let mut params = scenario_params();
    params.extra_connector_chance = 101;
    assert_eq!(
        make_map_hauberk(&params, SEED_STATE, SEED_STREAM).err(),
        Some(GenError::InvalidParams)
    );
}

#[test]
fn excessive_tries_are_invalid() {
    let mut params = scenario_params();
    params.room_tries = 1000001;
    assert_eq!(
        make_map_hauberk(&params, SEED_STATE, SEED_STREAM).err(),
        Some(GenError::InvalidParams)
    );
}

#[test]
fn scenario_respects_try_budget_and_keeps_room_cells_open() {
    let params = scenario_params();
    let d = generate(&params);
    assert!(d.rooms.len() <= (params.room_tries as usize) + 1);
    assert!(!d.rooms.is_empty());
    for room in &d.rooms {
        for x in room.x1..room.x2 {
            for y in room.y1..room.y2 {
                assert!(
                    !d.grid.get(x as usize, y as usize).blocked,
                    "room cell ({}, {}) was filled in",
                    x,
                    y
                );
            }
        }
    }
}

#[test]
fn extreme_winding_values_still_generate() {
    for winding in [0u32, 100u32] {
        let mut params = scenario_params();
        params.winding_percent = winding;
        let d = generate(&params);
        let start = d.start.expect("start point");
        assert!(fully_connected(&d.grid, start.x as usize, start.y as usize));
    }
}

#[test]
fn extreme_extra_connector_values_still_generate() {
    for extra in [0u32, 100u32] {
        let mut params = scenario_params();
        params.extra_connector_chance = extra;
        let d = generate(&params);
        let start = d.start.expect("start point");
        assert!(fully_connected(&d.grid, start.x as usize, start.y as usize));
    }
}

#[test]
fn larger_map_generates_and_connects() {
    // the dimensions and knobs of a full game-sized map
    let params = GenParams {
        width: 79,
        height: 43,
        room_min: 6,
        room_max: 10,
        room_tries: 100,
        winding_percent: 10,
        extra_connector_chance: 25,
    };
    let d = generate(&params);
    assert_eq!(d.grid.get_width(), 79);
    assert_eq!(d.grid.get_height(), 43);
    assert!(!d.rooms.is_empty());
    let start = d.start.expect("start point");
    assert!(fully_connected(&d.grid, start.x as usize, start.y as usize));
}
