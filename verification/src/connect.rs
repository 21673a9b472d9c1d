//! The region-connection pass: junction carving and region merging.

use vstd::prelude::*;

use crate::builder::MapBuilder;
use crate::grid::lemma_idx_bounds;
use crate::rng::Pcg32;

verus! {

/// A wall cell adjacent to open cells of two or more distinct regions,
/// with the distinct region ids it touches.
pub struct Connector {
    pub x: usize,
    pub y: usize,
    pub rids: Vec<i32>,
}

/// What holds of every recorded connector: an interior cell, at least
/// two touching regions, and every touching region id below `n`.
pub open spec fn conn_wf(c: Connector, w: int, h: int, n: int) -> bool {
    &&& 1 <= c.x < w - 1
    &&& 1 <= c.y < h - 1
    &&& 2 <= c.rids@.len()
    &&& forall|k: int| 0 <= k < c.rids@.len() ==> 0 <= #[trigger] c.rids@[k] < n
}

/// The merge map is total over the region ids, and fully compressed:
/// every entry points directly at its representative.
pub open spec fn merged_wf(m: Seq<usize>) -> bool {
    forall|i: int| 0 <= i < m.len() ==> (#[trigger] m[i]) < m.len() && m[m[i] as int] == m[i]
}

/// How many of the first `k` entries are their own representative, i.e.
/// how many regions are still unmerged.
pub open spec fn spec_count_reps(m: Seq<usize>, k: int) -> int
    decreases k,
{
    if k <= 0 {
        0
    } else {
        spec_count_reps(m, k - 1) + if m[k - 1] == k - 1 {
            1int
        } else {
            0int
        }
    }
}

/// Counts the regions that are still their own representative.
fn count_reps(m: &Vec<usize>) -> (c: usize)
    ensures
        c as int == spec_count_reps(m@, m@.len() as int),
{
    let mut c: usize = 0;
    let mut i: usize = 0;
    while i < m.len()
        invariant
            i <= m@.len(),
            c <= i,
            c as int == spec_count_reps(m@, i as int),
        decreases m@.len() - i,
    {
        if m[i] == i {
            c = c + 1;
        }
        i = i + 1;
    }
    c
}

/// Whether the list contains the value.
fn contains_usize(v: &Vec<usize>, x: usize) -> (r: bool)
    ensures
        r == v@.contains(x),
{
    let mut i: usize = 0;
    while i < v.len()
        invariant
            i <= v@.len(),
            forall|k: int| 0 <= k < i ==> v@[k] != x,
        decreases v@.len() - i,
    {
        if v[i] == x {
            return true;
        }
        i = i + 1;
    }
    false
}

/// Whether the list contains the region id.
fn contains_i32(v: &Vec<i32>, x: i32) -> (r: bool)
    ensures
        r == v@.contains(x),
{
    let mut i: usize = 0;
    while i < v.len()
        invariant
            i <= v@.len(),
            forall|k: int| 0 <= k < i ==> v@[k] != x,
        decreases v@.len() - i,
    {
        if v[i] == x {
            return true;
        }
        i = i + 1;
    }
    false
}

/// Redirects every region whose representative is one of `reps` (other
/// than `dest` itself) to `dest`, keeping the map fully compressed.
fn merge_into(m: &mut Vec<usize>, reps: &Vec<usize>, dest: usize)
    requires
        merged_wf(old(m)@),
        dest < old(m)@.len(),
        old(m)@[dest as int] == dest,
    ensures
        final(m)@.len() == old(m)@.len(),
        merged_wf(final(m)@),
{
    let n = m.len();
    let ghost m0 = m@;
    let mut i: usize = 0;
    while i < n
        invariant
            m@.len() == n,
            m0.len() == n,
            merged_wf(m0),
            dest < n,
            m0[dest as int] == dest,
            i <= n,
            forall|j: int| i <= j < n ==> m@[j] == m0[j],
            forall|j: int|
                0 <= j < i ==> m@[j] == if m0[j] != dest && reps@.contains(#[trigger] m0[j]) {
                    dest
                } else {
                    m0[j]
                },
        decreases n - i,
    {
        let v = m[i];
        if v != dest && contains_usize(reps, v) {
            m.set(i, dest);
        }
        i = i + 1;
    }
    proof {
        assert forall|k: int| 0 <= k < n implies (#[trigger] m@[k]) < n && m@[m@[k] as int]
            == m@[k] by {
            if m@[k] == dest {
                assert(m@[dest as int] == dest);
            } else {
                let v = m@[k];
                assert(v == m0[k]);
                assert(m0[v as int] == v);
                assert(!(m0[k] != dest && reps@.contains(m0[k])));
                assert(m@[v as int] == v);
            }
        }
    }
}

impl MapBuilder {
    /// The recorded region id of a cell.
    pub fn region_get(&self, x: usize, y: usize) -> (r: i32)
        requires
            self.wf(),
            x < self.grid.width,
            y < self.grid.height,
        ensures
            r as int == self.region_at(x as int, y as int),
    {
        proof {
            lemma_idx_bounds(self.grid.width as int, self.grid.height as int, x as int, y as int);
        }
        self.regions[y * self.grid.width + x]
    }

    /// Collects every connector: each interior wall cell whose open
    /// cardinal neighbors belong to two or more distinct regions. The
    /// scan runs in row-major order, so the candidate list is in a fixed
    /// deterministic order without any sorting.
    #[verifier::loop_isolation(false)]
    fn scan_connectors(&self) -> (out: Vec<Connector>)
        requires
            self.wf(),
        ensures
            forall|k: int|
                0 <= k < out@.len() ==> conn_wf(
                    #[trigger] out@[k],
                    self.grid.width as int,
                    self.grid.height as int,
                    self.current_region + 1,
                ),
    {
        let w = self.grid.get_width();
        let h = self.grid.get_height();
        let mut out: Vec<Connector> = Vec::new();
        if w < 3 || h < 3 {
            return out;
        }
        let ghost n = self.current_region + 1;
        let mut x: usize = 1;
        while x < w - 1
            invariant
                1 <= x <= w - 1,
                forall|k: int|
                    0 <= k < out@.len() ==> conn_wf(#[trigger] out@[k], w as int, h as int, n),
            decreases w - 1 - x,
        {
            let mut y: usize = 1;
            while y < h - 1
                invariant
                    1 <= x < w - 1,
                    1 <= y <= h - 1,
                    forall|k: int|
                        0 <= k < out@.len() ==> conn_wf(#[trigger] out@[k], w as int, h as int, n),
                decreases h - 1 - y,
            {
                if !self.grid.is_open(x, y) {
                    let mut rids: Vec<i32> = Vec::new();
                    let mut di: usize = 0;
                    while di < 4
                        invariant
                            1 <= x < w - 1,
                            1 <= y < h - 1,
                            di <= 4,
                            forall|k: int| 0 <= k < rids@.len() ==> 0 <= #[trigger] rids@[k] < n,
                        decreases 4 - di,
                    {
                        let nx = if di == 2 {
                            x + 1
                        } else if di == 3 {
                            x - 1
                        } else {
                            x
                        };
                        let ny = if di == 0 {
                            y - 1
                        } else if di == 1 {
                            y + 1
                        } else {
                            y
                        };
                        if self.grid.is_open(nx, ny) {
                            let rid = self.region_get(nx, ny);
                            if !contains_i32(&rids, rid) {
                                rids.push(rid);
                            }
                        }
                        di = di + 1;
                    }
                    if rids.len() >= 2 {
                        out.push(Connector { x, y, rids });
                    }
                }
                y = y + 1;
            }
            x = x + 1;
        }
        out
    }

    /// The region-connection pass. It repeatedly picks a connector at
    /// random, carves it as a junction, merges the regions it joins, and
    /// purges connectors that sit within two cells of the junction or no
    /// longer join distinct regions — except that a purged redundant
    /// connector is first carved too with `extra_chance` percent
    /// probability, adding an intentional loop. Returns false when the
    /// candidate pool runs out while more than one region remains
    /// (connector starvation), instead of looping forever; the ghost
    /// half of the result is the final merge map, and the flag is true
    /// exactly when it has at most one representative left.
    #[verifier::loop_isolation(false)]
    pub fn connect_regions(&mut self, extra_chance: u32, rng: &mut Pcg32) -> (res: (
        bool,
        Ghost<Seq<usize>>,
    ))
        requires
            old(self).wf(),
            extra_chance <= 100,
        ensures
            final(self).wf(),
            final(self).grid.width == old(self).grid.width,
            final(self).grid.height == old(self).grid.height,
            final(self).current_region == old(self).current_region,
            forall|a: int, b: int|
                old(self).grid.open_at(a, b) ==> #[trigger] final(self).grid.open_at(a, b),
            old(self).current_region < 1 ==> res.0,
            old(self).current_region >= 1 ==> res.1@.len() == old(self).current_region + 1
                && merged_wf(res.1@) && (res.0 <==> spec_count_reps(res.1@, res.1@.len() as int)
                <= 1),
    {
        if self.current_region < 1 {
            // at most one region exists; nothing to connect
            return (true, Ghost(Seq::empty()));
        }
        let mut connectors = self.scan_connectors();
        let n: usize = (self.current_region + 1) as usize;
        let mut merged: Vec<usize> = Vec::new();
        let mut i: usize = 0;
        while i < n
            invariant
                i <= n,
                merged@.len() == i,
                forall|j: int| 0 <= j < i ==> (#[trigger] merged@[j]) == j,
            decreases n - i,
        {
            merged.push(i);
            i = i + 1;
        }
        let ghost w = self.grid.width as int;
        let ghost h = self.grid.height as int;
        loop
            invariant
                self.wf(),
                self.grid.width == old(self).grid.width,
                self.grid.height == old(self).grid.height,
                self.current_region == old(self).current_region,
                1 <= self.current_region,
                n == self.current_region + 1,
                merged@.len() == n,
                merged_wf(merged@),
                forall|a: int, b: int|
                    old(self).grid.open_at(a, b) ==> #[trigger] self.grid.open_at(a, b),
                forall|k: int|
                    0 <= k < connectors@.len() ==> conn_wf(#[trigger] connectors@[k], w, h, n as int),
            decreases connectors@.len(),
        {
            let reps_open = count_reps(&merged);
            if reps_open <= 1 {
                return (true, Ghost(merged@));
            }
            if connectors.len() == 0 {
                // connector starvation: disconnected pockets remain
                return (false, Ghost(merged@));
            }
            let pick = match rng.pick_index(connectors.len()) {
                Some(i) => i,
                None => 0,
            };
            let chosen = connectors.remove(pick);
            let ghost len_after_pick = connectors@.len();
            // the canonical junction: always carved
            self.carve(chosen.x, chosen.y);
            // resolve the regions the junction joins to representatives
            let mut reps: Vec<usize> = Vec::new();
            let rn = chosen.rids.len();
            let mut k: usize = 0;
            while k < rn
                invariant
                    k <= rn,
                    rn == chosen.rids@.len(),
                    k > 0 ==> reps@.len() >= 1,
                    forall|t: int|
                        0 <= t < reps@.len() ==> (#[trigger] reps@[t]) < n && merged@[reps@[t] as int]
                            == reps@[t],
                decreases rn - k,
            {
                let rid = chosen.rids[k];
                let rep = merged[rid as usize];
                if !contains_usize(&reps, rep) {
                    reps.push(rep);
                }
                k = k + 1;
            }
            let dest = reps[0];
            merge_into(&mut merged, &reps, dest);
            // purge: drop connectors near the junction and those that no
            // longer join distinct regions, carving the latter with
            // `extra_chance` percent probability first
            let mut j: usize = 0;
            while j < connectors.len()
                invariant
                    self.wf(),
                    self.grid.width == old(self).grid.width,
                    self.grid.height == old(self).grid.height,
                    self.current_region == old(self).current_region,
                    merged@.len() == n,
                    merged_wf(merged@),
                    forall|a: int, b: int|
                        old(self).grid.open_at(a, b) ==> #[trigger] self.grid.open_at(a, b),
                    j <= connectors@.len(),
                    connectors@.len() <= len_after_pick,
                    forall|k2: int|
                        0 <= k2 < connectors@.len() ==> conn_wf(
                            #[trigger] connectors@[k2],
                            w,
                            h,
                            n as int,
                        ),
                decreases connectors@.len() - j,
            {
                let cx = connectors[j].x;
                let cy = connectors[j].y;
                let ddx = if cx >= chosen.x {
                    cx - chosen.x
                } else {
                    chosen.x - cx
                };
                let ddy = if cy >= chosen.y {
                    cy - chosen.y
                } else {
                    chosen.y - cy
                };
                proof {
                    assert(ddx * ddx + ddy * ddy <= 2 * 99980001) by (nonlinear_arith)
                        requires
                            0 <= ddx <= 9999,
                            0 <= ddy <= 9999,
                    ;
                }
                let dist2 = ddx * ddx + ddy * ddy;
                let rlen = connectors[j].rids.len();
                let first_rid = connectors[j].rids[0];
                let first = merged[first_rid as usize];
                let mut multi = false;
                let mut t: usize = 1;
                while t < rlen
                    invariant
                        1 <= t <= rlen,
                        j < connectors@.len(),
                        rlen == connectors@[j as int].rids@.len(),
                        merged@.len() == n,
                        conn_wf(connectors@[j as int], w, h, n as int),
                    decreases rlen - t,
                {
                    let rid = connectors[j].rids[t];
                    let rep = merged[rid as usize];
                    if rep != first {
                        multi = true;
                    }
                    t = t + 1;
                }
                if multi {
                    // still joins distinct regions: a useful connector is
                    // never dropped by declustering, so the pool cannot
                    // starve while distinct regions stay adjacent
                    j = j + 1;
                } else if dist2 < 4 {
                    // redundant and clustered next to the junction
                    connectors.remove(j);
                } else {
                    // redundant: carve it anyway with `extra_chance`
                    // percent probability to add an intentional loop
                    let draw = rng.next_u32();
                    if draw % 100 < extra_chance {
                        self.carve(cx, cy);
                    }
                    connectors.remove(j);
                }
            }
        }
    }
}

} // verus!
