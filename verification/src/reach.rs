//! Reachability over open cells and the verified flood-fill
//! connectivity check.

use vstd::prelude::*;

use crate::grid::Grid;
use crate::grid::lemma_idx_bounds;
use crate::grid::lemma_idx_injective;
use crate::tile::Tile;

verus! {

/// Two open cells one cardinal step apart.
pub open spec fn step_adj(g: Grid, x1: int, y1: int, x2: int, y2: int) -> bool {
    &&& g.open_at(x1, y1)
    &&& g.open_at(x2, y2)
    &&& ((x2 == x1 && (y2 == y1 + 1 || y2 == y1 - 1)) || (y2 == y1 && (x2 == x1 + 1 || x2 == x1
        - 1)))
}

/// A path of at most `n` steps over open cells leads from `(sx, sy)` to
/// `(x, y)`.
pub open spec fn reach_n(g: Grid, sx: int, sy: int, x: int, y: int, n: nat) -> bool
    decreases n,
{
    if x == sx && y == sy && g.open_at(x, y) {
        true
    } else if n == 0 {
        false
    } else {
        exists|px: int, py: int|
            reach_n(g, sx, sy, px, py, (n - 1) as nat) && step_adj(g, px, py, x, y)
    }
}

/// Some path over open cells leads from `(sx, sy)` to `(x, y)`: what a
/// flood fill from the start point reaches.
pub open spec fn reachable(g: Grid, sx: int, sy: int, x: int, y: int) -> bool {
    exists|n: nat| reach_n(g, sx, sy, x, y, n)
}

/// Every open cell of the grid is reachable from `(sx, sy)`.
pub open spec fn fully_connected_from(g: Grid, sx: int, sy: int) -> bool {
    forall|x: int, y: int| #[trigger] g.open_at(x, y) ==> reachable(g, sx, sy, x, y)
}

/// Extending a path by one adjacent step keeps it a path.
pub proof fn lemma_step_reachable(g: Grid, sx: int, sy: int, px: int, py: int, x: int, y: int)
    requires
        reachable(g, sx, sy, px, py),
        step_adj(g, px, py, x, y),
    ensures
        reachable(g, sx, sy, x, y),
{
    let n = choose|n: nat| reach_n(g, sx, sy, px, py, n);
    assert(reach_n(g, sx, sy, px, py, ((n + 1) - 1) as nat));
    assert(reach_n(g, sx, sy, x, y, n + 1));
}

/// An open cell adjacent to another open cell counts it among its open
/// cardinal neighbors, on both ends of the step.
proof fn lemma_adj_nbr(g: Grid, px: int, py: int, x: int, y: int)
    requires
        step_adj(g, px, py, x, y),
    ensures
        g.open_nbrs(x, y) >= 1,
        g.open_nbrs(px, py) >= 1,
{
}

/// Both ends of a nonempty path have at least one open neighbor.
proof fn lemma_path_ends_have_neighbors(g: Grid, sx: int, sy: int, x: int, y: int, n: nat)
    requires
        reach_n(g, sx, sy, x, y, n),
        !(x == sx && y == sy),
    ensures
        g.open_nbrs(x, y) >= 1,
        g.open_nbrs(sx, sy) >= 1,
    decreases n,
{
    let (px, py) = choose|px: int, py: int|
        reach_n(g, sx, sy, px, py, (n - 1) as nat) && step_adj(g, px, py, x, y);
    lemma_adj_nbr(g, px, py, x, y);
    if !(px == sx && py == sy) {
        lemma_path_ends_have_neighbors(g, sx, sy, px, py, (n - 1) as nat);
    }
}

/// Law: on a fully connected grid where no open cell has exactly one
/// open neighbor, every open cell has at least two open cardinal
/// neighbors as soon as a second open cell exists anywhere. (A grid
/// whose sole floor tile stands alone is the one shape with zero.)
pub proof fn lemma_open_cells_have_two_exits(
    g: Grid,
    sx: int,
    sy: int,
    x: int,
    y: int,
    ax: int,
    ay: int,
)
    requires
        forall|a: int, b: int| #[trigger] g.open_at(a, b) ==> g.open_nbrs(a, b) != 1,
        fully_connected_from(g, sx, sy),
        g.open_at(x, y),
        g.open_at(ax, ay),
        ax != x || ay != y,
    ensures
        g.open_nbrs(x, y) >= 2,
{
    if x == sx && y == sy {
        assert(reachable(g, sx, sy, ax, ay));
        let n = choose|n: nat| reach_n(g, sx, sy, ax, ay, n);
        lemma_path_ends_have_neighbors(g, sx, sy, ax, ay, n);
    } else {
        assert(reachable(g, sx, sy, x, y));
        let n = choose|n: nat| reach_n(g, sx, sy, x, y, n);
        lemma_path_ends_have_neighbors(g, sx, sy, x, y, n);
    }
}

/// Whatever was mutually reachable and stays open in the new grid is
/// still mutually reachable there.
pub open spec fn preserves_reachability(g_old: Grid, g_new: Grid) -> bool {
    forall|sx: int, sy: int, x: int, y: int|
        g_new.open_at(sx, sy) && g_new.open_at(x, y) && #[trigger] reachable(g_old, sx, sy, x, y)
            ==> reachable(g_new, sx, sy, x, y)
}

/// Filling one cell changes no other cell's openness.
proof fn lemma_fill_pointwise(g1: Grid, g2: Grid, lx: int, ly: int)
    requires
        g1.wf(),
        g2.width == g1.width,
        g2.height == g1.height,
        g2.tiles@ == g1.tiles@.update(
            g1.idx(lx, ly),
            (Tile { blocked: true, block_sight: true, explored: false }),
        ),
        g1.in_bounds(lx, ly),
    ensures
        !g2.open_at(lx, ly),
        forall|a: int, b: int|
            (a != lx || b != ly) ==> #[trigger] g2.open_at(a, b) == g1.open_at(a, b),
{
    let w = g1.width as int;
    let h = g1.height as int;
    lemma_idx_bounds(w, h, lx, ly);
    assert forall|a: int, b: int| (a != lx || b != ly) implies #[trigger] g2.open_at(a, b)
        == g1.open_at(a, b) by {
        if g1.in_bounds(a, b) {
            lemma_idx_bounds(w, h, a, b);
            if g1.idx(a, b) == g1.idx(lx, ly) {
                lemma_idx_injective(w, h, a, b, lx, ly);
            }
        }
    }
}

/// A cell with exactly one open cardinal neighbor has no second one.
proof fn lemma_unique_open_neighbor(
    g: Grid,
    lx: int,
    ly: int,
    ax: int,
    ay: int,
    bx: int,
    by: int,
)
    requires
        g.open_nbrs(lx, ly) == 1,
        step_adj(g, ax, ay, lx, ly),
        step_adj(g, lx, ly, bx, by),
    ensures
        ax == bx && ay == by,
{
}

/// A path that survives the filling of a dead-end cell can be rerouted:
/// a path visiting a cell with a single open neighbor must have entered
/// it from that neighbor, so the detour can be cut out.
proof fn lemma_fill_leaf_keeps_paths(
    g1: Grid,
    g2: Grid,
    lx: int,
    ly: int,
    sx: int,
    sy: int,
    x: int,
    y: int,
    n: nat,
)
    requires
        g1.wf(),
        g2.width == g1.width,
        g2.height == g1.height,
        g2.tiles@ == g1.tiles@.update(
            g1.idx(lx, ly),
            (Tile { blocked: true, block_sight: true, explored: false }),
        ),
        g1.in_bounds(lx, ly),
        g1.open_nbrs(lx, ly) == 1,
        reach_n(g1, sx, sy, x, y, n),
        !(sx == lx && sy == ly),
        !(x == lx && y == ly),
    ensures
        reachable(g2, sx, sy, x, y),
    decreases n,
{
    lemma_fill_pointwise(g1, g2, lx, ly);
    if x == sx && y == sy && g1.open_at(x, y) {
        assert(g2.open_at(x, y));
        assert(reach_n(g2, sx, sy, x, y, 0));
    } else {
        let (px, py) = choose|px: int, py: int|
            reach_n(g1, sx, sy, px, py, (n - 1) as nat) && step_adj(g1, px, py, x, y);
        if px == lx && py == ly {
            // the previous step came out of the dead end, so the step
            // before that entered it from its sole neighbor: (x, y)
            let m = (n - 1) as nat;
            let (qx, qy) = choose|qx: int, qy: int|
                reach_n(g1, sx, sy, qx, qy, (m - 1) as nat) && step_adj(g1, qx, qy, lx, ly);
            lemma_unique_open_neighbor(g1, lx, ly, qx, qy, x, y);
            lemma_fill_leaf_keeps_paths(g1, g2, lx, ly, sx, sy, x, y, (m - 1) as nat);
        } else {
            lemma_fill_leaf_keeps_paths(g1, g2, lx, ly, sx, sy, px, py, (n - 1) as nat);
            assert(step_adj(g2, px, py, x, y));
            lemma_step_reachable(g2, sx, sy, px, py, x, y);
        }
    }
}

/// Law: filling a cell with exactly one open cardinal neighbor never
/// disconnects the remaining open cells from one another.
pub proof fn lemma_fill_leaf_preserves(g1: Grid, g2: Grid, lx: int, ly: int)
    requires
        g1.wf(),
        g2.width == g1.width,
        g2.height == g1.height,
        g2.tiles@ == g1.tiles@.update(
            g1.idx(lx, ly),
            (Tile { blocked: true, block_sight: true, explored: false }),
        ),
        g1.in_bounds(lx, ly),
        g1.open_nbrs(lx, ly) == 1,
    ensures
        preserves_reachability(g1, g2),
{
    lemma_fill_pointwise(g1, g2, lx, ly);
    assert forall|sx: int, sy: int, x: int, y: int|
        g2.open_at(sx, sy) && g2.open_at(x, y) && #[trigger] reachable(
            g1,
            sx,
            sy,
            x,
            y,
        ) implies reachable(g2, sx, sy, x, y) by {
        let n = choose|n: nat| reach_n(g1, sx, sy, x, y, n);
        lemma_fill_leaf_keeps_paths(g1, g2, lx, ly, sx, sy, x, y, n);
    }
}

/// Preservation of reachability composes, as long as the final grid's
/// open cells all stayed open through the middle grid.
pub proof fn lemma_preserves_trans(ga: Grid, gb: Grid, gc: Grid)
    requires
        preserves_reachability(ga, gb),
        preserves_reachability(gb, gc),
        forall|a: int, b: int| #[trigger] gc.open_at(a, b) ==> gb.open_at(a, b),
    ensures
        preserves_reachability(ga, gc),
{
    assert forall|sx: int, sy: int, x: int, y: int|
        gc.open_at(sx, sy) && gc.open_at(x, y) && #[trigger] reachable(
            ga,
            sx,
            sy,
            x,
            y,
        ) implies reachable(gc, sx, sy, x, y) by {
        assert(gb.open_at(sx, sy) && gb.open_at(x, y));
        assert(reachable(gb, sx, sy, x, y));
    }
}

/// The visited flag of cell `(x, y)` in the flood-fill bookkeeping.
pub open spec fn vis_at(g: Grid, v: Seq<bool>, x: int, y: int) -> bool {
    v[g.idx(x, y)]
}

/// Every open cardinal neighbor of `(x, y)` is visited.
pub open spec fn nbrs_visited(g: Grid, v: Seq<bool>, x: int, y: int) -> bool {
    &&& (g.open_at(x, y - 1) ==> vis_at(g, v, x, y - 1))
    &&& (g.open_at(x, y + 1) ==> vis_at(g, v, x, y + 1))
    &&& (g.open_at(x - 1, y) ==> vis_at(g, v, x - 1, y))
    &&& (g.open_at(x + 1, y) ==> vis_at(g, v, x + 1, y))
}

/// The visited set is closed under steps to open neighbors.
pub open spec fn vis_closed(g: Grid, v: Seq<bool>) -> bool {
    forall|x: int, y: int|
        g.in_bounds(x, y) && #[trigger] vis_at(g, v, x, y) ==> nbrs_visited(g, v, x, y)
}

/// A visited set that contains the start and is closed under open
/// adjacency contains every reachable cell.
pub proof fn lemma_closed_covers(
    g: Grid,
    v: Seq<bool>,
    sx: int,
    sy: int,
    x: int,
    y: int,
    n: nat,
)
    requires
        g.wf(),
        g.in_bounds(sx, sy),
        vis_at(g, v, sx, sy),
        vis_closed(g, v),
        reach_n(g, sx, sy, x, y, n),
    ensures
        g.in_bounds(x, y),
        vis_at(g, v, x, y),
    decreases n,
{
    if x == sx && y == sy && g.open_at(x, y) {
    } else {
        let (px, py) = choose|px: int, py: int|
            reach_n(g, sx, sy, px, py, (n - 1) as nat) && step_adj(g, px, py, x, y);
        lemma_closed_covers(g, v, sx, sy, px, py, (n - 1) as nat);
        assert(g.in_bounds(px, py) && vis_at(g, v, px, py));
        assert(nbrs_visited(g, v, px, py));
        assert(g.open_at(x, y));
    }
}

/// How many of the first `n` flags are still unset.
pub open spec fn count_unvisited(v: Seq<bool>, n: int) -> int
    decreases n,
{
    if n <= 0 {
        0
    } else {
        count_unvisited(v, n - 1) + if !v[n - 1] {
            1int
        } else {
            0int
        }
    }
}

pub proof fn lemma_count_unvisited_bounds(v: Seq<bool>, n: int)
    requires
        n <= v.len(),
    ensures
        0 <= count_unvisited(v, n),
    decreases n,
{
    if n > 0 {
        lemma_count_unvisited_bounds(v, n - 1);
    }
}

pub proof fn lemma_count_unvisited_update(v: Seq<bool>, i: int, n: int)
    requires
        0 <= i < v.len(),
        n <= v.len(),
        !v[i],
    ensures
        count_unvisited(v.update(i, true), n) == count_unvisited(v, n) - if i < n {
            1int
        } else {
            0int
        },
    decreases n,
{
    if n > 0 {
        lemma_count_unvisited_update(v, i, n - 1);
    }
}

/// Whether the coordinate pair occurs in the worklist.
pub open spec fn in_stack(st: Seq<(usize, usize)>, x: int, y: int) -> bool {
    exists|k: int| 0 <= k < st.len() && st[k].0 == x && st[k].1 == y
}

/// Whether every open cell of the grid is reachable from the open start
/// cell `(sx, sy)`: a flood fill over open cells, verified sound and
/// complete against `reachable`.
#[verifier::loop_isolation(false)]
pub fn fully_connected(grid: &Grid, sx: usize, sy: usize) -> (r: bool)
    requires
        grid.wf(),
        grid.open_at(sx as int, sy as int),
    ensures
        r == fully_connected_from(*grid, sx as int, sy as int),
{
    let w = grid.get_width();
    let h = grid.get_height();
    let area = grid.tiles.len();
    let ghost g = *grid;
    let mut visited: Vec<bool> = Vec::new();
    let mut i: usize = 0;
    while i < area
        invariant
            i <= area,
            visited@.len() == i,
            forall|k: int| 0 <= k < i ==> !(#[trigger] visited@[k]),
        decreases area - i,
    {
        visited.push(false);
        i = i + 1;
    }
    proof {
        lemma_idx_bounds(w as int, h as int, sx as int, sy as int);
        lemma_count_unvisited_bounds(visited@, area as int);
    }
    let sidx = sy * w + sx;
    proof {
        lemma_count_unvisited_update(visited@, sidx as int, area as int);
    }
    visited.set(sidx, true);
    let mut stack: Vec<(usize, usize)> = Vec::new();
    stack.push((sx, sy));
    proof {
        assert(reach_n(g, sx as int, sy as int, sx as int, sy as int, 0));
        lemma_count_unvisited_bounds(visited@, area as int);
        assert forall|x: int, y: int|
            g.in_bounds(x, y) && #[trigger] vis_at(g, visited@, x, y) implies g.open_at(x, y)
            && reachable(g, sx as int, sy as int, x, y) by {
            lemma_idx_bounds(w as int, h as int, x, y);
            if g.idx(x, y) == sidx {
                lemma_idx_injective(w as int, h as int, x, y, sx as int, sy as int);
            }
        }
        assert forall|x: int, y: int|
            g.in_bounds(x, y) && #[trigger] vis_at(g, visited@, x, y) implies in_stack(
            stack@,
            x,
            y,
        ) by {
            lemma_idx_bounds(w as int, h as int, x, y);
            if g.idx(x, y) == sidx {
                lemma_idx_injective(w as int, h as int, x, y, sx as int, sy as int);
            }
            assert(stack@[0].0 == sx && stack@[0].1 == sy);
        }
    }
    while stack.len() > 0
        invariant
            visited@.len() == area,
            forall|x: int, y: int|
                g.in_bounds(x, y) && #[trigger] vis_at(g, visited@, x, y) ==> g.open_at(x, y)
                    && reachable(g, sx as int, sy as int, x, y),
            vis_at(g, visited@, sx as int, sy as int),
            forall|k: int|
                0 <= k < stack@.len() ==> g.in_bounds(
                    (#[trigger] stack@[k]).0 as int,
                    stack@[k].1 as int,
                ) && vis_at(g, visited@, stack@[k].0 as int, stack@[k].1 as int),
            forall|x: int, y: int|
                g.in_bounds(x, y) && #[trigger] vis_at(g, visited@, x, y) && !in_stack(stack@, x, y)
                    ==> nbrs_visited(g, visited@, x, y),
            0 <= count_unvisited(visited@, area as int),
        decreases count_unvisited(visited@, area as int), stack@.len(),
    {
        let top = stack[stack.len() - 1];
        let cx = top.0;
        let cy = top.1;
        let ghost stack_pre = stack@;
        stack.pop();
        proof {
            assert(g.open_at(cx as int, cy as int));
            assert(g.is_interior(cx as int, cy as int));
            assert forall|x: int, y: int|
                g.in_bounds(x, y) && #[trigger] vis_at(g, visited@, x, y) && !in_stack(
                    stack@,
                    x,
                    y,
                ) && (x != cx || y != cy) implies nbrs_visited(g, visited@, x, y) by {
                if in_stack(stack_pre, x, y) {
                    let k = choose|k: int|
                        0 <= k < stack_pre.len() && stack_pre[k].0 == x && stack_pre[k].1 == y;
                    if k < stack_pre.len() - 1 {
                        assert(stack@[k].0 == x && stack@[k].1 == y);
                        assert(false);
                    }
                }
            }
        }
        let ghost count0 = count_unvisited(visited@, area as int);
        let ghost stack0 = stack@.len();
        let mut di: usize = 0;
        while di < 4
            invariant
                visited@.len() == area,
                1 <= cx < w - 1,
                1 <= cy < h - 1,
                di <= 4,
                vis_at(g, visited@, cx as int, cy as int),
                forall|x: int, y: int|
                    g.in_bounds(x, y) && #[trigger] vis_at(g, visited@, x, y) ==> g.open_at(x, y)
                        && reachable(g, sx as int, sy as int, x, y),
                vis_at(g, visited@, sx as int, sy as int),
                forall|k: int|
                    0 <= k < stack@.len() ==> g.in_bounds(
                        (#[trigger] stack@[k]).0 as int,
                        stack@[k].1 as int,
                    ) && vis_at(g, visited@, stack@[k].0 as int, stack@[k].1 as int),
                forall|x: int, y: int|
                    g.in_bounds(x, y) && #[trigger] vis_at(g, visited@, x, y) && !in_stack(
                        stack@,
                        x,
                        y,
                    ) && (x != cx || y != cy) ==> nbrs_visited(g, visited@, x, y),
                di >= 1 ==> (g.open_at(cx as int, cy - 1) ==> vis_at(g, visited@, cx as int, cy
                    - 1)),
                di >= 2 ==> (g.open_at(cx as int, cy + 1) ==> vis_at(g, visited@, cx as int, cy
                    + 1)),
                di >= 3 ==> (g.open_at(cx - 1, cy as int) ==> vis_at(g, visited@, cx - 1, cy
                    as int)),
                di >= 4 ==> (g.open_at(cx + 1, cy as int) ==> vis_at(g, visited@, cx + 1, cy
                    as int)),
                0 <= count_unvisited(visited@, area as int),
                count_unvisited(visited@, area as int) <= count0,
                count_unvisited(visited@, area as int) == count0 ==> stack@.len() == stack0,
            decreases 4 - di,
        {
            let nx = if di == 2 {
                cx - 1
            } else if di == 3 {
                cx + 1
            } else {
                cx
            };
            let ny = if di == 0 {
                cy - 1
            } else if di == 1 {
                cy + 1
            } else {
                cy
            };
            proof {
                lemma_idx_bounds(w as int, h as int, nx as int, ny as int);
            }
            let nidx = ny * w + nx;
            if grid.is_open(nx, ny) && !visited[nidx] {
                let ghost visited_pre = visited@;
                let ghost stack_mid = stack@;
                proof {
                    lemma_count_unvisited_update(visited@, nidx as int, area as int);
                    assert(step_adj(g, cx as int, cy as int, nx as int, ny as int));
                    lemma_step_reachable(
                        g,
                        sx as int,
                        sy as int,
                        cx as int,
                        cy as int,
                        nx as int,
                        ny as int,
                    );
                }
                visited.set(nidx, true);
                stack.push((nx, ny));
                proof {
                    lemma_count_unvisited_bounds(visited@, area as int);
                    assert forall|x: int, y: int|
                        g.in_bounds(x, y) && vis_at(g, visited_pre, x, y) implies #[trigger] vis_at(
                        g,
                        visited@,
                        x,
                        y,
                    ) by {
                        lemma_idx_bounds(w as int, h as int, x, y);
                    }
                    assert(vis_at(g, visited@, nx as int, ny as int));
                    assert(in_stack(stack@, nx as int, ny as int)) by {
                        assert(stack@[stack@.len() - 1].0 == nx && stack@[stack@.len() - 1].1
                            == ny);
                    }
                    assert forall|x: int, y: int|
                        g.in_bounds(x, y) && #[trigger] vis_at(g, visited@, x, y) implies g.open_at(
                        x,
                        y,
                    ) && reachable(g, sx as int, sy as int, x, y) by {
                        lemma_idx_bounds(w as int, h as int, x, y);
                        if g.idx(x, y) == nidx {
                            lemma_idx_injective(w as int, h as int, x, y, nx as int, ny as int);
                            assert(x == nx as int && y == ny as int);
                        } else {
                            assert(vis_at(g, visited_pre, x, y));
                        }
                    }
                    assert forall|x: int, y: int|
                        g.in_bounds(x, y) && #[trigger] vis_at(g, visited@, x, y) && !in_stack(
                            stack@,
                            x,
                            y,
                        ) && (x != cx || y != cy) implies nbrs_visited(g, visited@, x, y) by {
                        lemma_idx_bounds(w as int, h as int, x, y);
                        if g.idx(x, y) == nidx {
                            lemma_idx_injective(w as int, h as int, x, y, nx as int, ny as int);
                            assert(in_stack(stack@, x, y));
                            assert(false);
                        } else {
                            assert(vis_at(g, visited_pre, x, y));
                            assert(!in_stack(stack_mid, x, y)) by {
                                if in_stack(stack_mid, x, y) {
                                    let k = choose|k: int|
                                        0 <= k < stack_mid.len() && stack_mid[k].0 == x
                                            && stack_mid[k].1 == y;
                                    assert(stack@[k].0 == x && stack@[k].1 == y);
                                }
                            }
                            assert(nbrs_visited(g, visited_pre, x, y));
                        }
                    }
                }
            }
            di = di + 1;
        }
    }
    // the visited set is now closed; check that it covers every open cell
    proof {
        assert(vis_closed(g, visited@));
    }
    let mut x: usize = 0;
    while x < w
        invariant
            x <= w,
            forall|a: int, b: int|
                0 <= a < x && #[trigger] g.open_at(a, b) ==> vis_at(g, visited@, a, b),
        decreases w - x,
    {
        let mut y: usize = 0;
        while y < h
            invariant
                x < w,
                y <= h,
                forall|a: int, b: int|
                    0 <= a < x && #[trigger] g.open_at(a, b) ==> vis_at(g, visited@, a, b),
                forall|b: int|
                    0 <= b < y && #[trigger] g.open_at(x as int, b) ==> vis_at(
                        g,
                        visited@,
                        x as int,
                        b,
                    ),
            decreases h - y,
        {
            proof {
                lemma_idx_bounds(w as int, h as int, x as int, y as int);
            }
            let vidx = y * w + x;
            if grid.is_open(x, y) && !visited[vidx] {
                proof {
                    if reachable(g, sx as int, sy as int, x as int, y as int) {
                        let n = choose|n: nat|
                            reach_n(g, sx as int, sy as int, x as int, y as int, n);
                        lemma_closed_covers(
                            g,
                            visited@,
                            sx as int,
                            sy as int,
                            x as int,
                            y as int,
                            n,
                        );
                    }
                    assert(!fully_connected_from(g, sx as int, sy as int));
                }
                return false;
            }
            y = y + 1;
        }
        x = x + 1;
    }
    true
}

} // verus!
