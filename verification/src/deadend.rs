//! The dead-end-removal fixed point.

use vstd::prelude::*;

use crate::geom::Rect;
use crate::geom::in_rect;
use crate::grid::Grid;
use crate::grid::count_open;
use crate::grid::lemma_count_open_bounds;
use crate::grid::lemma_count_open_update;
use crate::reach::lemma_fill_leaf_preserves;
use crate::reach::lemma_preserves_trans;
use crate::reach::preserves_reachability;
use crate::tile::Tile;

verus! {

/// Every cell of the rectangle is an open floor cell.
pub open spec fn rect_all_open(g: Grid, r: Rect) -> bool {
    forall|a: int, b: int| #[trigger] in_rect(r, a, b) ==> g.open_at(a, b)
}

/// Every fully open rectangle of at least 2 x 2 cells keeps all its
/// cells open: inside such a block each cell always has two open
/// neighbors, so dead-end removal never eats into it.
pub open spec fn wide_open_rects_kept(g_old: Grid, g_new: Grid) -> bool {
    forall|r: Rect, a: int, b: int|
        r.x2 - r.x1 >= 2 && r.y2 - r.y1 >= 2 && rect_all_open(g_old, r) && #[trigger] in_rect(
            r,
            a,
            b,
        ) ==> g_new.open_at(a, b)
}

impl Grid {
    /// How many of the four cardinal neighbors of an interior cell are
    /// open.
    pub fn open_neighbor_count(&self, x: usize, y: usize) -> (c: usize)
        requires
            self.wf(),
            self.is_interior(x as int, y as int),
        ensures
            c as int == self.open_nbrs(x as int, y as int),
    {
        let mut c: usize = 0;
        if self.is_open(x, y - 1) {
            c = c + 1;
        }
        if self.is_open(x, y + 1) {
            c = c + 1;
        }
        if self.is_open(x - 1, y) {
            c = c + 1;
        }
        if self.is_open(x + 1, y) {
            c = c + 1;
        }
        c
    }
}

/// One full scan: every open cell with exactly one open neighbor is
/// filled back in. Reports whether anything changed; an unchanged pass
/// certifies that no dead end remains.
#[verifier::loop_isolation(false)]
fn dead_end_pass(grid: &mut Grid) -> (changed: bool)
    requires
        old(grid).wf(),
    ensures
        final(grid).wf(),
        final(grid).width == old(grid).width,
        final(grid).height == old(grid).height,
        forall|a: int, b: int| #[trigger] final(grid).open_at(a, b) ==> old(grid).open_at(a, b),
        !changed ==> final(grid).tiles@ == old(grid).tiles@,
        !changed ==> forall|a: int, b: int| #[trigger]
            final(grid).open_at(a, b) ==> final(grid).open_nbrs(a, b) != 1,
        changed ==> count_open(final(grid).tiles@) < count_open(old(grid).tiles@),
        (forall|a: int, b: int| #[trigger]
            old(grid).open_at(a, b) ==> old(grid).open_nbrs(a, b) != 1) ==> !changed,
        wide_open_rects_kept(*old(grid), *final(grid)),
        preserves_reachability(*old(grid), *final(grid)),
{
    let w = grid.get_width();
    let h = grid.get_height();
    let mut changed = false;
    if w < 3 || h < 3 {
        return false;
    }
    let mut x: usize = 1;
    while x < w - 1
        invariant
            1 <= x <= w - 1,
            grid.wf(),
            grid.width == old(grid).width,
            grid.height == old(grid).height,
            forall|a: int, b: int| #[trigger] grid.open_at(a, b) ==> old(grid).open_at(a, b),
            !changed ==> grid.tiles@ == old(grid).tiles@,
            !changed ==> forall|a: int, b: int|
                (a < x && #[trigger] grid.open_at(a, b)) ==> grid.open_nbrs(a, b) != 1,
            changed ==> count_open(grid.tiles@) < count_open(old(grid).tiles@),
            (forall|a: int, b: int| #[trigger]
                old(grid).open_at(a, b) ==> old(grid).open_nbrs(a, b) != 1) ==> !changed,
            wide_open_rects_kept(*old(grid), *grid),
            preserves_reachability(*old(grid), *grid),
        decreases w - 1 - x,
    {
        let mut y: usize = 1;
        while y < h - 1
            invariant
                1 <= x < w - 1,
                1 <= y <= h - 1,
                grid.wf(),
                grid.width == old(grid).width,
                grid.height == old(grid).height,
                forall|a: int, b: int| #[trigger] grid.open_at(a, b) ==> old(grid).open_at(a, b),
                !changed ==> grid.tiles@ == old(grid).tiles@,
                !changed ==> forall|a: int, b: int|
                    (a < x && #[trigger] grid.open_at(a, b)) ==> grid.open_nbrs(a, b) != 1,
                !changed ==> forall|b: int|
                    (b < y && #[trigger] grid.open_at(x as int, b)) ==> grid.open_nbrs(x as int, b)
                        != 1,
                changed ==> count_open(grid.tiles@) < count_open(old(grid).tiles@),
                (forall|a: int, b: int| #[trigger]
                    old(grid).open_at(a, b) ==> old(grid).open_nbrs(a, b) != 1) ==> !changed,
                wide_open_rects_kept(*old(grid), *grid),
                preserves_reachability(*old(grid), *grid),
            decreases h - 1 - y,
        {
            if grid.is_open(x, y) {
                let exits = grid.open_neighbor_count(x, y);
                if exits == 1 {
                    let ghost before = *grid;
                    let ghost was_changed = changed;
                    grid.set_tile(x, y, Tile::wall());
                    changed = true;
                    proof {
                        let idx = old(grid).idx(x as int, y as int);
                        crate::grid::lemma_idx_bounds(
                            grid.width as int,
                            grid.height as int,
                            x as int,
                            y as int,
                        );
                        lemma_count_open_update(
                            before.tiles@,
                            idx,
                            (Tile { blocked: true, block_sight: true, explored: false }),
                            before.tiles@.len() as int,
                        );
                        if !was_changed {
                            assert(count_open(before.tiles@) == count_open(old(grid).tiles@));
                            // the grid was still untouched, so this dead
                            // end already existed at entry
                            assert(old(grid).open_at(x as int, y as int));
                            assert(old(grid).open_nbrs(x as int, y as int) == 1);
                        }
                        lemma_fill_leaf_preserves(before, *grid, x as int, y as int);
                        lemma_preserves_trans(*old(grid), before, *grid);
                        assert forall|r: Rect, a: int, b: int|
                            r.x2 - r.x1 >= 2 && r.y2 - r.y1 >= 2 && rect_all_open(
                                *old(grid),
                                r,
                            ) && #[trigger] in_rect(r, a, b) implies grid.open_at(a, b) by {
                            if a == x && b == y {
                                // a cell of a fully open block keeps two
                                // open neighbors, so it is no dead end
                                let nx: int = if a + 1 < r.x2 {
                                    a + 1
                                } else {
                                    a - 1
                                };
                                let ny: int = if b + 1 < r.y2 {
                                    b + 1
                                } else {
                                    b - 1
                                };
                                assert(in_rect(r, nx, b));
                                assert(in_rect(r, a, ny));
                                assert(before.open_at(nx, b));
                                assert(before.open_at(a, ny));
                                assert(before.open_nbrs(a, b) >= 2);
                                assert(false);
                            } else {
                                assert(before.open_at(a, b));
                            }
                        }
                    }
                }
            }
            y = y + 1;
        }
        x = x + 1;
    }
    changed
}

/// The dead-end-removal fixed point: full scans repeat until one makes
/// no change, so afterwards no open cell has exactly one open cardinal
/// neighbor. Open cells are only ever removed, never added.
#[verifier::loop_isolation(false)]
pub fn remove_dead_ends(grid: &mut Grid)
    requires
        old(grid).wf(),
    ensures
        final(grid).wf(),
        final(grid).width == old(grid).width,
        final(grid).height == old(grid).height,
        forall|a: int, b: int| #[trigger] final(grid).open_at(a, b) ==> old(grid).open_at(a, b),
        forall|a: int, b: int| #[trigger]
            final(grid).open_at(a, b) ==> final(grid).open_nbrs(a, b) != 1,
        (forall|a: int, b: int| #[trigger]
            old(grid).open_at(a, b) ==> old(grid).open_nbrs(a, b) != 1) ==> final(grid).tiles@
            == old(grid).tiles@,
        wide_open_rects_kept(*old(grid), *final(grid)),
        preserves_reachability(*old(grid), *final(grid)),
{
    proof {
        lemma_count_open_bounds(grid.tiles@, grid.tiles@.len() as int);
    }
    loop
        invariant
            grid.wf(),
            grid.width == old(grid).width,
            grid.height == old(grid).height,
            forall|a: int, b: int| #[trigger] grid.open_at(a, b) ==> old(grid).open_at(a, b),
            (forall|a: int, b: int| #[trigger]
                old(grid).open_at(a, b) ==> old(grid).open_nbrs(a, b) != 1) ==> grid.tiles@
                == old(grid).tiles@,
            wide_open_rects_kept(*old(grid), *grid),
            preserves_reachability(*old(grid), *grid),
            0 <= count_open(grid.tiles@),
        decreases count_open(grid.tiles@),
    {
        let ghost before_pass = *grid;
        proof {
            if forall|a: int, b: int| #[trigger]
                old(grid).open_at(a, b) ==> old(grid).open_nbrs(a, b) != 1 {
                assert forall|a: int, b: int| #[trigger]
                    grid.open_at(a, b) implies grid.open_nbrs(a, b) != 1 by {
                    assert(old(grid).open_at(a, b));
                }
            }
        }
        let changed = dead_end_pass(grid);
        proof {
            lemma_preserves_trans(*old(grid), before_pass, *grid);
            assert forall|r: Rect, a: int, b: int|
                r.x2 - r.x1 >= 2 && r.y2 - r.y1 >= 2 && rect_all_open(*old(grid), r)
                    && #[trigger] in_rect(r, a, b) implies grid.open_at(a, b) by {
                assert forall|a2: int, b2: int| #[trigger]
                    in_rect(r, a2, b2) implies before_pass.open_at(a2, b2) by {}
                assert(rect_all_open(before_pass, r));
            }
        }
        if !changed {
            return ;
        }
        proof {
            lemma_count_open_bounds(grid.tiles@, grid.tiles@.len() as int);
        }
    }
}

} // verus!
