//! The rectangular tile grid and its well-formedness invariant.

use vstd::prelude::*;

use crate::tile::Tile;
use crate::tile::tile_canonical;

verus! {

/// Grid dimensions are capped so that every index computation fits
/// comfortably in the machine types and region ids fit in `i32`.
pub const MAX_DIM: usize = 9999;

/// The rectangular tile grid, stored row-major: cell `(x, y)` lives at
/// index `y * width + x`.
pub struct Grid {
    pub width: usize,
    pub height: usize,
    pub tiles: Vec<Tile>,
}

/// How many of the first `n` tiles are open floor cells.
pub open spec fn count_open_prefix(s: Seq<Tile>, n: int) -> int
    decreases n,
{
    if n <= 0 {
        0
    } else {
        count_open_prefix(s, n - 1) + if !s[n - 1].blocked {
            1int
        } else {
            0int
        }
    }
}

/// How many tiles of the whole sequence are open floor cells.
pub open spec fn count_open(s: Seq<Tile>) -> int {
    count_open_prefix(s, s.len() as int)
}

pub proof fn lemma_count_open_bounds(s: Seq<Tile>, n: int)
    requires
        n <= s.len(),
    ensures
        0 <= count_open_prefix(s, n) <= if n <= 0 {
            0int
        } else {
            n
        },
    decreases n,
{
    if n > 0 {
        lemma_count_open_bounds(s, n - 1);
    }
}

/// Updating one tile changes the open count by exactly the difference at
/// that position.
pub proof fn lemma_count_open_update(s: Seq<Tile>, i: int, t: Tile, n: int)
    requires
        0 <= i < s.len(),
        n <= s.len(),
    ensures
        count_open_prefix(s.update(i, t), n) == count_open_prefix(s, n) + if i < n {
            (if !t.blocked {
                1int
            } else {
                0int
            }) - (if !s[i].blocked {
                1int
            } else {
                0int
            })
        } else {
            0int
        },
    decreases n,
{
    if n > 0 {
        lemma_count_open_update(s, i, t, n - 1);
    }
}

/// The whole grid area stays small enough for every machine type used.
pub proof fn lemma_area_bound(w: int, h: int)
    requires
        1 <= w <= MAX_DIM,
        1 <= h <= MAX_DIM,
    ensures
        1 <= w * h <= 99980001,
{
    assert(1 <= w * h <= 99980001) by (nonlinear_arith)
        requires
            1 <= w <= 9999,
            1 <= h <= 9999,
    ;
}

/// Cell coordinates map to distinct indices, and every in-bounds cell's
/// index is within the tile vector.
pub proof fn lemma_idx_bounds(w: int, h: int, x: int, y: int)
    requires
        0 <= x < w,
        0 <= y < h,
    ensures
        0 <= y * w + x < w * h,
        w <= MAX_DIM && h <= MAX_DIM ==> y * w + x < 99980001,
{
    assert(y * w + x < w * h) by (nonlinear_arith)
        requires
            0 <= x < w,
            0 <= y < h,
    ;
    assert(w <= 9999 && h <= 9999 ==> w * h <= 99980001) by (nonlinear_arith)
        requires
            0 < w,
            0 < h,
    ;
}

/// Two distinct in-bounds cells have distinct indices.
pub proof fn lemma_idx_injective(w: int, h: int, x1: int, y1: int, x2: int, y2: int)
    requires
        0 <= x1 < w,
        0 <= y1 < h,
        0 <= x2 < w,
        0 <= y2 < h,
        y1 * w + x1 == y2 * w + x2,
    ensures
        x1 == x2 && y1 == y2,
{
    assert(x1 == x2 && y1 == y2) by (nonlinear_arith)
        requires
            0 <= x1 < w,
            0 <= y1 < h,
            0 <= x2 < w,
            0 <= y2 < h,
            y1 * w + x1 == y2 * w + x2,
    ;
}

impl Grid {
    /// The row-major tile index of cell `(x, y)`.
    pub open spec fn idx(self, x: int, y: int) -> int {
        y * self.width + x
    }

    pub open spec fn in_bounds(self, x: int, y: int) -> bool {
        0 <= x < self.width && 0 <= y < self.height
    }

    /// Interior cells: at least one cell away from every edge.
    pub open spec fn is_interior(self, x: int, y: int) -> bool {
        1 <= x < self.width - 1 && 1 <= y < self.height - 1
    }

    /// Whether cell `(x, y)` is an open floor cell; out-of-bounds
    /// coordinates count as closed.
    pub open spec fn open_at(self, x: int, y: int) -> bool {
        self.in_bounds(x, y) && !self.tiles@[self.idx(x, y)].blocked
    }

    /// How many of the four cardinal neighbors of `(x, y)` are open.
    pub open spec fn open_nbrs(self, x: int, y: int) -> int {
        (if self.open_at(x, y - 1) {
            1int
        } else {
            0int
        }) + (if self.open_at(x, y + 1) {
            1int
        } else {
            0int
        }) + (if self.open_at(x - 1, y) {
            1int
        } else {
            0int
        }) + (if self.open_at(x + 1, y) {
            1int
        } else {
            0int
        })
    }

    /// Well-formedness: bounded dimensions, a full tile vector, only
    /// canonical tiles, and a solid wall border (every open cell is
    /// interior).
    pub open spec fn wf(self) -> bool {
        &&& 1 <= self.width <= MAX_DIM
        &&& 1 <= self.height <= MAX_DIM
        &&& self.tiles@.len() == self.width * self.height
        &&& forall|i: int|
            0 <= i < self.tiles@.len() ==> tile_canonical(#[trigger] self.tiles@[i])
        &&& forall|x: int, y: int| #[trigger] self.open_at(x, y) ==> self.is_interior(x, y)
    }

    /// A fresh all-wall grid. Even dimensions are silently coerced down
    /// to the next odd value so the odd-lattice carving scheme has a
    /// consistent parity.
    pub fn new(width: usize, height: usize) -> (g: Grid)
        requires
            1 <= width <= MAX_DIM,
            1 <= height <= MAX_DIM,
        ensures
            g.wf(),
            g.width == if width % 2 == 0 {
                width - 1
            } else {
                width as int
            },
            g.height == if height % 2 == 0 {
                height - 1
            } else {
                height as int
            },
            g.width % 2 == 1,
            g.height % 2 == 1,
            forall|x: int, y: int| !g.open_at(x, y),
    {
        let w = if width % 2 == 0 {
            width - 1
        } else {
            width
        };
        let h = if height % 2 == 0 {
            height - 1
        } else {
            height
        };
        proof {
            lemma_area_bound(w as int, h as int);
        }
        let area = w * h;
        let mut tiles: Vec<Tile> = Vec::new();
        let mut i: usize = 0;
        while i < area
            invariant
                i <= area,
                tiles@.len() == i,
                forall|k: int|
                    0 <= k < i ==> #[trigger] tiles@[k] == (Tile {
                        blocked: true,
                        block_sight: true,
                        explored: false,
                    }),
            decreases area - i,
        {
            tiles.push(Tile::wall());
            i = i + 1;
        }
        let g = Grid { width: w, height: h, tiles };
        proof {
            assert forall|x: int, y: int| !g.open_at(x, y) by {
                if g.in_bounds(x, y) {
                    lemma_idx_bounds(w as int, h as int, x, y);
                }
            }
        }
        g
    }

    pub fn get_width(&self) -> (w: usize)
        ensures
            w == self.width,
    {
        self.width
    }

    pub fn get_height(&self) -> (h: usize)
        ensures
            h == self.height,
    {
        self.height
    }

    /// The tile at cell `(x, y)`.
    pub fn get(&self, x: usize, y: usize) -> (t: Tile)
        requires
            self.wf(),
            x < self.width,
            y < self.height,
        ensures
            t == self.tiles@[self.idx(x as int, y as int)],
    {
        proof {
            lemma_idx_bounds(self.width as int, self.height as int, x as int, y as int);
        }
        self.tiles[y * self.width + x]
    }

    /// Whether the cell is an open floor cell.
    pub fn is_open(&self, x: usize, y: usize) -> (r: bool)
        requires
            self.wf(),
            x < self.width,
            y < self.height,
        ensures
            r == self.open_at(x as int, y as int),
    {
        !self.get(x, y).blocked
    }

    /// Writes one canonical tile; an open tile may only be written to an
    /// interior cell, which keeps the border solid.
    pub fn set_tile(&mut self, x: usize, y: usize, t: Tile)
        requires
            old(self).wf(),
            x < old(self).width,
            y < old(self).height,
            tile_canonical(t),
            !t.blocked ==> old(self).is_interior(x as int, y as int),
        ensures
            final(self).wf(),
            final(self).width == old(self).width,
            final(self).height == old(self).height,
            final(self).tiles@ == old(self).tiles@.update(
                old(self).idx(x as int, y as int),
                t,
            ),
            final(self).open_at(x as int, y as int) == !t.blocked,
            forall|a: int, b: int|
                a != x || b != y ==> #[trigger] final(self).open_at(a, b) == old(self).open_at(
                    a,
                    b,
                ),
    {
        proof {
            lemma_idx_bounds(self.width as int, self.height as int, x as int, y as int);
        }
        let i = y * self.width + x;
        self.tiles.set(i, t);
        proof {
            let w = self.width as int;
            let h = self.height as int;
            assert forall|a: int, b: int|
                a != x || b != y implies #[trigger] self.open_at(a, b) == old(self).open_at(
                a,
                b,
            ) by {
                if old(self).in_bounds(a, b) {
                    lemma_idx_bounds(w, h, a, b);
                    if self.idx(a, b) == i {
                        lemma_idx_injective(w, h, a, b, x as int, y as int);
                    }
                }
            }
            assert forall|a: int, b: int| #[trigger]
                self.open_at(a, b) implies self.is_interior(a, b) by {
                if a != x || b != y {
                    assert(old(self).open_at(a, b));
                }
            }
        }
    }
}

} // verus!
