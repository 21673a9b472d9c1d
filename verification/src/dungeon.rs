//! The generation pipeline driver and its result type.

use vstd::prelude::*;

use crate::builder::MapBuilder;
use crate::deadend::rect_all_open;
use crate::deadend::remove_dead_ends;
use crate::geom::Point;
use crate::geom::Rect;
use crate::geom::in_rect;
use crate::geom::spec_intersects;
use crate::grid::Grid;
use crate::grid::MAX_DIM;
use crate::grid::lemma_area_bound;
use crate::reach::fully_connected;
use crate::reach::fully_connected_from;
use crate::rng::Pcg32;
use crate::rooms::room_center;
use crate::rooms::room_wf;

verus! {

/// The configuration of one generation run.
#[derive(Clone, Copy, Debug)]
pub struct GenParams {
    /// Grid width; an even value is silently coerced down to odd.
    pub width: usize,
    /// Grid height; an even value is silently coerced down to odd.
    pub height: usize,
    /// Smallest room side length.
    pub room_min: u32,
    /// Largest room side length.
    pub room_max: u32,
    /// Number of room placement attempts beyond the first.
    pub room_tries: u32,
    /// Probability in percent that the maze walk turns at a branch point.
    pub winding_percent: u32,
    /// Probability in percent that a redundant connector is still carved.
    pub extra_connector_chance: u32,
}

/// Why a generation run was refused or failed.
#[derive(Clone, Copy, Debug, PartialEq, Eq, Structural)]
pub enum GenError {
    /// A parameter was out of range.
    InvalidParams,
    /// The connector pool ran out while more than one region remained.
    ConnectorStarvation,
    /// The finished grid failed the final flood-fill connectivity check,
    /// or the start point was swallowed by dead-end removal.
    Disconnected,
}

/// The finished product: the tile grid, the accepted rooms in acceptance
/// order, and the start point (the first room's center), which is `None`
/// exactly when no room could be placed.
pub struct Dungeon {
    pub grid: Grid,
    pub rooms: Vec<Rect>,
    pub start: Option<Point>,
}

/// The parameter ranges a run accepts: percentages within 0..=100, room
/// sizes within the machine caps, and grid dimensions within the caps.
pub open spec fn valid_params(p: GenParams) -> bool {
    &&& 1 <= p.width <= MAX_DIM
    &&& 1 <= p.height <= MAX_DIM
    &&& 1 <= p.room_min <= p.room_max <= 9999
    &&& p.room_tries <= 1000000
    &&& p.winding_percent <= 100
    &&& p.extra_connector_chance <= 100
}

/// An even dimension is silently decremented to the next odd value.
pub open spec fn coerce_odd(n: int) -> int {
    if n % 2 == 0 {
        n - 1
    } else {
        n
    }
}

/// The full Hauberk generation pipeline, deterministic in the seed pair:
/// room placement, maze growth over every unclaimed odd-lattice cell,
/// region connection, dead-end removal, and a final verified flood-fill
/// check. An `Ok` result carries a grid on which no open cell has exactly
/// one open neighbor, pairwise non-intersecting rooms on the odd lattice,
/// and — whenever a start point exists — the guarantee that every open
/// cell is reachable from it.
#[verifier::loop_isolation(false)]
pub fn make_map_hauberk(params: &GenParams, state: u64, stream: u64) -> (r: Result<
    Dungeon,
    GenError,
>)
    ensures
        !valid_params(*params) <==> (r matches Err(e) && e == GenError::InvalidParams),
        r matches Ok(d) ==> {
            &&& d.grid.wf()
            &&& d.grid.width == coerce_odd(params.width as int)
            &&& d.grid.height == coerce_odd(params.height as int)
            &&& forall|i: int, j: int|
                #![trigger d.rooms@[i], d.rooms@[j]]
                0 <= i < j < d.rooms@.len() ==> !spec_intersects(d.rooms@[i], d.rooms@[j])
            &&& forall|i: int|
                0 <= i < d.rooms@.len() ==> room_wf(
                    #[trigger] d.rooms@[i],
                    d.grid.width as int,
                    d.grid.height as int,
                    params.room_min as int,
                    params.room_max as int,
                )
            &&& (d.rooms@.len() == 0 <==> d.start is None)
            &&& (d.rooms@.len() > 0 ==> d.start == Some(room_center(d.rooms@[0])))
            &&& d.rooms@.len() <= params.room_tries + 1
            &&& (params.room_min >= 2 ==> forall|i: int, a: int, b: int|
                0 <= i < d.rooms@.len() && #[trigger] in_rect(d.rooms@[i], a, b)
                    ==> d.grid.open_at(a, b))
            &&& forall|x: int, y: int|
                #[trigger] d.grid.open_at(x, y) ==> d.grid.open_nbrs(x, y) != 1
            &&& (d.start matches Some(p) ==> d.grid.open_at(p.x as int, p.y as int)
                && fully_connected_from(d.grid, p.x as int, p.y as int))
            &&& (d.start matches Some(p) ==> forall|x: int, y: int|
                #[trigger] d.grid.open_at(x, y) && (x != p.x || y != p.y) ==> d.grid.open_nbrs(
                    x,
                    y,
                ) >= 2 && d.grid.open_nbrs(p.x as int, p.y as int) >= 2)
        },
        valid_params(*params) && params.room_max + 2 <= coerce_odd(params.width as int)
            && params.room_max + 2 <= coerce_odd(params.height as int) ==> (r matches Ok(d)
            ==> d.rooms@.len() >= 1 && d.start is Some),
{
    if !(1 <= params.width && params.width <= MAX_DIM && 1 <= params.height && params.height
        <= MAX_DIM && 1 <= params.room_min && params.room_min <= params.room_max
        && params.room_max <= 9999 && params.room_tries <= 1000000 && params.winding_percent
        <= 100 && params.extra_connector_chance <= 100) {
        return Err(GenError::InvalidParams);
    }
    let mut rng = Pcg32::new(state, stream);
    let mut builder = MapBuilder::new(params.width, params.height);
    let (rooms, start) = builder.add_rooms(
        params.room_tries,
        params.room_min,
        params.room_max,
        &mut rng,
    );
    let w = builder.grid.get_width();
    let h = builder.grid.get_height();
    proof {
        lemma_area_bound(w as int, h as int);
    }
    let area = w * h;
    let ghost cr_rooms = builder.current_region;
    let mut i: usize = 0;
    while i < area
        invariant
            builder.wf(),
            builder.grid.width == w,
            builder.grid.height == h,
            1 <= w <= MAX_DIM,
            1 <= h <= MAX_DIM,
            area == w * h,
            area <= 99980001,
            i <= area,
            -1 <= cr_rooms <= 1000000,
            builder.current_region <= cr_rooms + i,
            forall|k: int, a: int, b: int|
                0 <= k < rooms@.len() && #[trigger] in_rect(rooms@[k], a, b)
                    ==> builder.grid.open_at(a, b),
        decreases area - i,
    {
        let x = i % w;
        let y = i / w;
        if x % 2 == 1 && y % 2 == 1 && x < w - 1 && y < h - 1 {
            if !builder.grid.is_open(x, y) {
                builder.grow_maze(x, y, params.winding_percent, &mut rng);
            }
        }
        i = i + 1;
    }
    let connect_result = builder.connect_regions(params.extra_connector_chance, &mut rng);
    if !connect_result.0 {
        return Err(GenError::ConnectorStarvation);
    }
    let MapBuilder { grid: mut grid, regions: _, current_region: _ } = builder;
    let ghost g_pre = grid;
    remove_dead_ends(&mut grid);
    proof {
        // rooms of two cells a side or more are never eaten by
        // dead-end removal
        if params.room_min >= 2 {
            assert forall|k: int, a: int, b: int|
                0 <= k < rooms@.len() && #[trigger] in_rect(rooms@[k], a, b) implies grid.open_at(
                a,
                b,
            ) by {
                let r = rooms@[k];
                assert(r.x2 - r.x1 >= 2 && r.y2 - r.y1 >= 2);
                assert forall|a2: int, b2: int| #[trigger] in_rect(r, a2, b2) implies g_pre.open_at(
                    a2,
                    b2,
                ) by {}
                assert(rect_all_open(g_pre, r));
            }
        }
    }
    match start {
        None => Ok(Dungeon { grid, rooms, start: None }),
        Some(p) => {
            if p.x >= 0 && p.y >= 0 && (p.x as usize) < w && (p.y as usize) < h && grid.is_open(
                p.x as usize,
                p.y as usize,
            ) {
                if fully_connected(&grid, p.x as usize, p.y as usize) {
                    proof {
                        assert forall|x: int, y: int|
                            #[trigger] grid.open_at(x, y) && (x != p.x || y
                                != p.y) implies grid.open_nbrs(x, y) >= 2 && grid.open_nbrs(
                            p.x as int,
                            p.y as int,
                        ) >= 2 by {
                            crate::reach::lemma_open_cells_have_two_exits(
                                grid,
                                p.x as int,
                                p.y as int,
                                x,
                                y,
                                p.x as int,
                                p.y as int,
                            );
                            crate::reach::lemma_open_cells_have_two_exits(
                                grid,
                                p.x as int,
                                p.y as int,
                                p.x as int,
                                p.y as int,
                                x,
                                y,
                            );
                        }
                    }
                    Ok(Dungeon { grid, rooms, start: Some(p) })
                } else {
                    Err(GenError::Disconnected)
                }
            } else {
                Err(GenError::Disconnected)
            }
        },
    }
}

} // verus!
