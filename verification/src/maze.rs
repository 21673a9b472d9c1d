//! The growing-tree maze walk over the odd lattice.

use vstd::prelude::*;

use crate::builder::MapBuilder;
use crate::builder::REGION_MAX;
use crate::geom::Directions;
use crate::geom::Point;
use crate::geom::get_direction;
use crate::geom::spec_direction;
use crate::grid::Grid;
use crate::grid::count_open;
use crate::grid::lemma_count_open_bounds;
use crate::grid::lemma_count_open_update;
use crate::grid::lemma_idx_bounds;
use crate::grid::lemma_idx_injective;
use crate::rng::Pcg32;

verus! {

/// A direction is a carve candidate from `cell` when the cell three steps
/// past the near wall is strictly inside the grid and the far cell (two
/// steps out) is still a wall; carving the near and far cells then never
/// breaches the one-cell gap to other open space nor the border.
pub open spec fn candidate_ok(g: Grid, cell: Point, d: Directions) -> bool {
    let (dx, dy) = spec_direction(d);
    &&& 0 < cell.x + 4 * dx < g.width
    &&& 0 < cell.y + 4 * dy < g.height
    &&& !g.open_at(cell.x + 2 * dx, cell.y + 2 * dy)
}

impl Grid {
    /// Whether a coordinate lies outside the strict interior-or-far-edge
    /// test range: anything at or past an edge except the high edge.
    pub fn out_of_bounds(&self, x: i32, y: i32) -> (r: bool)
        requires
            self.wf(),
        ensures
            r == !(0 < x < self.width && 0 < y < self.height),
    {
        if x > 0 && y > 0 && (x as usize) < self.width && (y as usize) < self.height {
            false
        } else {
            true
        }
    }

    /// The lookahead test of the growing-tree walk: from the near cell
    /// `pos` (one step from the walk head) in direction `d`, the far side
    /// must stay in range and the cell one further must be uncarved.
    pub fn can_carve(&self, pos: Point, d: Directions) -> (r: bool)
        requires
            self.wf(),
            0 <= pos.x < self.width,
            0 <= pos.y < self.height,
        ensures
            ({
                let (dx, dy) = spec_direction(d);
                r <==> (0 < pos.x + 3 * dx < self.width && 0 < pos.y + 3 * dy < self.height
                    && !self.open_at(pos.x + dx, pos.y + dy))
            }),
    {
        let (dx, dy) = get_direction(&d);
        let tx = pos.x + 3 * dx;
        let ty = pos.y + 3 * dy;
        if self.out_of_bounds(tx, ty) {
            return false;
        }
        let target_x = (pos.x + dx) as usize;
        let target_y = (pos.y + dy) as usize;
        proof {
            lemma_idx_bounds(
                self.width as int,
                self.height as int,
                target_x as int,
                target_y as int,
            );
        }
        self.get(target_x, target_y).block_sight
    }
}

/// Whether the direction list contains `d`.
fn contains_dir(v: &Vec<Directions>, d: Directions) -> (r: bool)
    ensures
        r == exists|i: int| 0 <= i < v@.len() && v@[i] == d,
{
    let mut i: usize = 0;
    while i < v.len()
        invariant
            i <= v@.len(),
            forall|k: int| 0 <= k < i ==> v@[k] != d,
        decreases v@.len() - i,
    {
        if v[i] == d {
            return true;
        }
        i = i + 1;
    }
    false
}

impl MapBuilder {
    /// The randomized growing-tree maze walk, started at one odd-lattice
    /// seed cell that is still a wall. It opens a fresh region, carves
    /// the seed, and extends two cells at a time with an explicit
    /// backtracking stack, preferring to continue straight unless a draw
    /// under `winding` percent makes it turn. The walk carves a perfect
    /// maze over the odd lattice cells reachable from the seed.
    #[verifier::loop_isolation(false)]
    #[verifier::rlimit(100)]
    pub fn grow_maze(&mut self, start_x: usize, start_y: usize, winding: u32, rng: &mut Pcg32)
        requires
            old(self).wf(),
            old(self).grid.is_interior(start_x as int, start_y as int),
            start_x % 2 == 1,
            start_y % 2 == 1,
            !old(self).grid.open_at(start_x as int, start_y as int),
            old(self).current_region < REGION_MAX,
            winding <= 100,
        ensures
            final(self).wf(),
            final(self).grid.width == old(self).grid.width,
            final(self).grid.height == old(self).grid.height,
            final(self).current_region == old(self).current_region + 1,
            final(self).grid.open_at(start_x as int, start_y as int),
            forall|a: int, b: int|
                old(self).grid.open_at(a, b) ==> #[trigger] final(self).grid.open_at(a, b),
            (exists|d: Directions|
                #[trigger] candidate_ok(
                    old(self).grid,
                    (Point { x: start_x as i32, y: start_y as i32 }),
                    d,
                )) ==> count_open(final(self).grid.tiles@) >= count_open(old(self).grid.tiles@)
                + 2,
    {
        let ghost seed_pt = Point { x: start_x as i32, y: start_y as i32 };
        let ghost count_old = count_open(old(self).grid.tiles@);
        self.start_region();
        self.carve(start_x, start_y);
        let ghost area = self.grid.tiles@.len() as int;
        let ghost g_seed = self.grid;
        let ghost seed_tiles = self.grid.tiles@;
        let mut cells: Vec<Point> = Vec::new();
        cells.push(Point::new(start_x as i32, start_y as i32));
        let mut last_dir: Option<Directions> = None;
        proof {
            lemma_count_open_bounds(self.grid.tiles@, area);
            lemma_idx_bounds(
                self.grid.width as int,
                self.grid.height as int,
                start_x as int,
                start_y as int,
            );
            let empty_t = crate::tile::Tile {
                blocked: false,
                block_sight: false,
                explored: false,
            };
            lemma_count_open_update(
                old(self).grid.tiles@,
                old(self).grid.idx(start_x as int, start_y as int),
                empty_t,
                area,
            );
            assert(count_open(seed_tiles) == count_old + 1);
            // a carve candidate of the seed survives the seed's own carve
            if exists|d: Directions| candidate_ok(old(self).grid, seed_pt, d) {
                let d = choose|d: Directions| candidate_ok(old(self).grid, seed_pt, d);
                assert(spec_direction(d).0 != 0 || spec_direction(d).1 != 0);
                assert(candidate_ok(g_seed, seed_pt, d));
            }
        }
        let ghost seed_has_candidate = exists|d: Directions| candidate_ok(g_seed, seed_pt, d);
        while cells.len() > 0
            invariant
                self.wf(),
                self.grid.width == old(self).grid.width,
                self.grid.height == old(self).grid.height,
                self.grid.tiles@.len() == area,
                self.current_region == old(self).current_region + 1,
                forall|k: int|
                    0 <= k < cells@.len() ==> self.grid.is_interior(
                        (#[trigger] cells@[k]).x as int,
                        cells@[k].y as int,
                    ),
                self.grid.open_at(start_x as int, start_y as int),
                forall|a: int, b: int|
                    old(self).grid.open_at(a, b) ==> #[trigger] self.grid.open_at(a, b),
                0 <= count_open(self.grid.tiles@) <= area,
                count_open(self.grid.tiles@) >= count_old + 1,
                seed_has_candidate ==> (count_open(self.grid.tiles@) >= count_old + 2
                    || self.grid.tiles@ == seed_tiles),
                seed_has_candidate && self.grid.tiles@ == seed_tiles ==> cells@.len() == 1
                    && cells@[0] == seed_pt,
            decreases area - count_open(self.grid.tiles@), cells@.len(),
        {
            let cell = cells[cells.len() - 1];
            let mut unmade: Vec<Directions> = Vec::new();
            let mut di: usize = 0;
            while di < 4
                invariant
                    di <= 4,
                    forall|k: int|
                        0 <= k < unmade@.len() ==> candidate_ok(
                            self.grid,
                            cell,
                            #[trigger] unmade@[k],
                        ),
                    di >= 1 && candidate_ok(self.grid, cell, Directions::NORTH)
                        ==> unmade@.len() > 0,
                    di >= 2 && candidate_ok(self.grid, cell, Directions::SOUTH)
                        ==> unmade@.len() > 0,
                    di >= 3 && candidate_ok(self.grid, cell, Directions::EAST)
                        ==> unmade@.len() > 0,
                    di >= 4 && candidate_ok(self.grid, cell, Directions::WEST)
                        ==> unmade@.len() > 0,
                decreases 4 - di,
            {
                let d = Directions::by_index(di);
                let (dx, dy) = get_direction(&d);
                let pos = Point::new(cell.x + dx, cell.y + dy);
                if self.grid.can_carve(pos, d) {
                    proof {
                        let w = self.grid.width as int;
                        let h = self.grid.height as int;
                        lemma_idx_bounds(w, h, pos.x + dx, pos.y + dy);
                        assert(candidate_ok(self.grid, cell, d));
                    }
                    unmade.push(d);
                }
                di = di + 1;
            }
            if unmade.len() > 0 {
                let mut take_straight = false;
                let mut straight: Directions = Directions::NORTH;
                if let Some(ld) = last_dir {
                    if contains_dir(&unmade, ld) {
                        let draw = rng.next_u32();
                        if draw % 100 >= winding {
                            take_straight = true;
                            straight = ld;
                            proof {
                                let i = choose|i: int| 0 <= i < unmade@.len() && unmade@[i] == ld;
                                assert(candidate_ok(self.grid, cell, ld));
                            }
                        }
                    }
                }
                let dir: Directions;
                if take_straight {
                    dir = straight;
                } else {
                    let picked = match rng.pick_index(unmade.len()) {
                        Some(i) => i,
                        None => 0,
                    };
                    dir = unmade[picked];
                }
                let (dx, dy) = get_direction(&dir);
                let close_x = (cell.x + dx) as usize;
                let close_y = (cell.y + dy) as usize;
                let far_x = (cell.x + 2 * dx) as usize;
                let far_y = (cell.y + 2 * dy) as usize;
                let ghost tiles0 = self.grid.tiles@;
                let ghost w = self.grid.width as int;
                let ghost h = self.grid.height as int;
                let ghost idx_close = self.grid.idx(close_x as int, close_y as int);
                let ghost idx_far = self.grid.idx(far_x as int, far_y as int);
                self.carve(close_x, close_y);
                let ghost tiles1 = self.grid.tiles@;
                self.carve(far_x, far_y);
                cells.push(Point::new(far_x as i32, far_y as i32));
                last_dir = Some(dir);
                proof {
                    lemma_idx_bounds(w, h, close_x as int, close_y as int);
                    lemma_idx_bounds(w, h, far_x as int, far_y as int);
                    if idx_close == idx_far {
                        lemma_idx_injective(
                            w,
                            h,
                            close_x as int,
                            close_y as int,
                            far_x as int,
                            far_y as int,
                        );
                    }
                    let empty_t = crate::tile::Tile {
                        blocked: false,
                        block_sight: false,
                        explored: false,
                    };
                    lemma_count_open_update(tiles0, idx_close, empty_t, area);
                    lemma_count_open_update(tiles1, idx_far, empty_t, area);
                    lemma_count_open_bounds(self.grid.tiles@, area);
                }
            } else {
                proof {
                    // a seed with a carve candidate is never a dead end on
                    // first visit, so the walk makes progress before any pop
                    if seed_has_candidate && self.grid.tiles@ == seed_tiles {
                        let d = choose|d: Directions| candidate_ok(g_seed, seed_pt, d);
                        assert(candidate_ok(self.grid, cell, d));
                        assert(unmade@.len() > 0);
                    }
                }
                cells.pop();
                last_dir = None;
            }
        }
    }
}

} // verus!
