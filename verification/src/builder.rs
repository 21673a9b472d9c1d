//! The carving state shared by the generation phases: grid, region
//! map and region counter.

use vstd::prelude::*;

use crate::geom::Rect;
use crate::geom::in_rect;
use crate::grid::Grid;
use crate::grid::lemma_idx_bounds;
use crate::grid::lemma_idx_injective;
use crate::tile::Tile;

verus! {

/// A generous cap on region ids; the phases prove they stay under it,
/// so the counter can never overflow an `i32`.
pub const REGION_MAX: i32 = 0x2000_0000;

/// The mutable state shared by the carving phases: the tile grid, the
/// parallel region map, and the region id counter. The counter starts at
/// -1 (no region yet) and is incremented immediately before each room or
/// maze seed is carved; uninitialized region entries stay 0 and are never
/// read for wall cells.
pub struct MapBuilder {
    pub grid: Grid,
    pub regions: Vec<i32>,
    pub current_region: i32,
}

impl MapBuilder {
    /// The region id recorded for cell `(x, y)`.
    pub open spec fn region_at(self, x: int, y: int) -> int {
        self.regions@[self.grid.idx(x, y)] as int
    }

    /// Well-formedness: a well-formed grid, a full parallel region map,
    /// a bounded counter, and a real region id on every open cell.
    pub open spec fn wf(self) -> bool {
        &&& self.grid.wf()
        &&& self.regions@.len() == self.grid.tiles@.len()
        &&& -1 <= self.current_region <= REGION_MAX
        &&& forall|x: int, y: int| #[trigger]
            self.grid.open_at(x, y) ==> 0 <= self.region_at(x, y) <= self.current_region
    }

    /// A fresh builder over an all-wall grid; no region exists yet.
    pub fn new(width: usize, height: usize) -> (b: MapBuilder)
        requires
            1 <= width <= crate::grid::MAX_DIM,
            1 <= height <= crate::grid::MAX_DIM,
        ensures
            b.wf(),
            b.current_region == -1,
            b.grid.width == if width % 2 == 0 {
                width - 1
            } else {
                width as int
            },
            b.grid.height == if height % 2 == 0 {
                height - 1
            } else {
                height as int
            },
            b.grid.width % 2 == 1,
            b.grid.height % 2 == 1,
            forall|x: int, y: int| !b.grid.open_at(x, y),
    {
        let grid = Grid::new(width, height);
        let area = grid.tiles.len();
        let mut regions: Vec<i32> = Vec::new();
        let mut i: usize = 0;
        while i < area
            invariant
                i <= area,
                regions@.len() == i,
            decreases area - i,
        {
            regions.push(0);
            i = i + 1;
        }
        MapBuilder { grid, regions, current_region: -1 }
    }

    /// Opens a new region id for the cells carved next.
    pub fn start_region(&mut self)
        requires
            old(self).wf(),
            old(self).current_region < REGION_MAX,
        ensures
            final(self).wf(),
            final(self).current_region == old(self).current_region + 1,
            final(self).grid == old(self).grid,
            final(self).regions == old(self).regions,
    {
        self.current_region = self.current_region + 1;
    }

    /// Converts one interior wall or floor cell to an open floor cell and
    /// assigns it to the current region.
    pub fn carve(&mut self, x: usize, y: usize)
        requires
            old(self).wf(),
            old(self).grid.is_interior(x as int, y as int),
            0 <= old(self).current_region,
        ensures
            final(self).wf(),
            final(self).current_region == old(self).current_region,
            final(self).grid.width == old(self).grid.width,
            final(self).grid.height == old(self).grid.height,
            final(self).grid.tiles@ == old(self).grid.tiles@.update(
                old(self).grid.idx(x as int, y as int),
                (Tile { blocked: false, block_sight: false, explored: false }),
            ),
            final(self).grid.open_at(x as int, y as int),
            forall|a: int, b: int|
                a != x || b != y ==> #[trigger] final(self).grid.open_at(a, b) == old(
                    self,
                ).grid.open_at(a, b),
            forall|a: int, b: int|
                (a != x || b != y) && old(self).grid.in_bounds(a, b) ==> final(self).region_at(
                    a,
                    b,
                ) == old(self).region_at(a, b),
    {
        let w = self.grid.width;
        let h = self.grid.height;
        proof {
            lemma_idx_bounds(w as int, h as int, x as int, y as int);
        }
        self.grid.set_tile(x, y, Tile::empty());
        let i = y * w + x;
        self.regions.set(i, self.current_region);
        proof {
            assert forall|a: int, b: int|
                (a != x || b != y) && old(self).grid.in_bounds(a, b) implies self.region_at(a, b)
                == old(self).region_at(a, b) by {
                lemma_idx_bounds(w as int, h as int, a, b);
                if self.grid.idx(a, b) == i {
                    lemma_idx_injective(w as int, h as int, a, b, x as int, y as int);
                }
            }
            assert forall|a: int, b: int| #[trigger]
                self.grid.open_at(a, b) implies 0 <= self.region_at(a, b)
                <= self.current_region by {
                if a != x || b != y {
                    assert(old(self).grid.open_at(a, b));
                    assert(old(self).region_at(a, b) == self.region_at(a, b));
                }
            }
        }
    }

    /// Carves every cell of an accepted room into the current region.
    pub fn create_room_hauberk(&mut self, room: &Rect)
        requires
            old(self).wf(),
            0 <= old(self).current_region,
            1 <= room.x1 < room.x2 <= old(self).grid.width - 1,
            1 <= room.y1 < room.y2 <= old(self).grid.height - 1,
        ensures
            final(self).wf(),
            final(self).current_region == old(self).current_region,
            final(self).grid.width == old(self).grid.width,
            final(self).grid.height == old(self).grid.height,
            forall|a: int, b: int|
                !in_rect(*room, a, b) ==> #[trigger] final(self).grid.open_at(a, b) == old(
                    self,
                ).grid.open_at(a, b),
            forall|a: int, b: int| in_rect(*room, a, b) ==> #[trigger] final(self).grid.open_at(
                a,
                b,
            ),
    {
        let x1 = room.x1 as usize;
        let x2 = room.x2 as usize;
        let y1 = room.y1 as usize;
        let y2 = room.y2 as usize;
        let mut x = x1;
        while x < x2
            invariant
                self.wf(),
                self.current_region == old(self).current_region,
                self.grid.width == old(self).grid.width,
                self.grid.height == old(self).grid.height,
                0 <= self.current_region,
                1 <= room.x1 < room.x2 <= self.grid.width - 1,
                1 <= room.y1 < room.y2 <= self.grid.height - 1,
                x1 == room.x1 && x2 == room.x2 && y1 == room.y1 && y2 == room.y2,
                x1 <= x <= x2,
                forall|a: int, b: int|
                    !in_rect(*room, a, b) ==> #[trigger] self.grid.open_at(a, b) == old(
                        self,
                    ).grid.open_at(a, b),
                forall|a: int, b: int|
                    (room.x1 <= a < x && room.y1 <= b < room.y2) ==> #[trigger] self.grid.open_at(
                        a,
                        b,
                    ),
            decreases x2 - x,
        {
            let mut y = y1;
            while y < y2
                invariant
                    self.wf(),
                    self.current_region == old(self).current_region,
                    self.grid.width == old(self).grid.width,
                    self.grid.height == old(self).grid.height,
                    0 <= self.current_region,
                    1 <= room.x1 < room.x2 <= self.grid.width - 1,
                    1 <= room.y1 < room.y2 <= self.grid.height - 1,
                    x1 == room.x1 && x2 == room.x2 && y1 == room.y1 && y2 == room.y2,
                    x1 <= x < x2,
                    y1 <= y <= y2,
                    forall|a: int, b: int|
                        !in_rect(*room, a, b) ==> #[trigger] self.grid.open_at(a, b) == old(
                            self,
                        ).grid.open_at(a, b),
                    forall|a: int, b: int|
                        (room.x1 <= a < x && room.y1 <= b < room.y2) ==> #[trigger]
                            self.grid.open_at(a, b),
                    forall|a: int, b: int|
                        (a == x && room.y1 <= b < y) ==> #[trigger] self.grid.open_at(a, b),
                decreases y2 - y,
            {
                self.carve(x, y);
                y = y + 1;
            }
            x = x + 1;
        }
    }
}

} // verus!
