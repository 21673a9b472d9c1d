//! Room placement by rejection sampling on the odd lattice.

use vstd::prelude::*;

use crate::builder::MapBuilder;
use crate::builder::REGION_MAX;
use crate::geom::Point;
use crate::geom::Rect;
use crate::geom::in_rect;
use crate::geom::spec_intersects;
use crate::rng::Pcg32;

verus! {

/// What holds of every accepted room: it lies inside the grid with a
/// one-cell border, its origin is on the odd lattice, and its sides are
/// within the requested size range.
pub open spec fn room_wf(r: Rect, w: int, h: int, min: int, max: int) -> bool {
    &&& 1 <= r.x1 < r.x2 <= w - 1
    &&& 1 <= r.y1 < r.y2 <= h - 1
    &&& r.x1 % 2 == 1
    &&& r.y1 % 2 == 1
    &&& min <= r.x2 - r.x1 <= max
    &&& min <= r.y2 - r.y1 <= max
}

/// The start point the generator reports: the center of the first
/// accepted room.
pub open spec fn room_center(r: Rect) -> Point {
    Point { x: ((r.x1 + r.x2) / 2) as i32, y: ((r.y1 + r.y2) / 2) as i32 }
}

/// The relations placement keeps between the accepted rooms, the start
/// point and the grid: pairwise non-intersection, per-room
/// well-formedness, the start at the first room's center (or absent),
/// and every room cell carved open.
pub open spec fn rooms_state_ok(
    b: MapBuilder,
    rooms: Seq<Rect>,
    start: Option<Point>,
    min: int,
    max: int,
) -> bool {
    &&& forall|i: int, j: int|
        #![trigger rooms[i], rooms[j]]
        0 <= i < j < rooms.len() ==> !spec_intersects(rooms[i], rooms[j])
    &&& forall|i: int|
        0 <= i < rooms.len() ==> room_wf(
            #[trigger] rooms[i],
            b.grid.width as int,
            b.grid.height as int,
            min,
            max,
        )
    &&& (rooms.len() == 0 ==> start is None)
    &&& (rooms.len() > 0 ==> start == Some(room_center(rooms[0])))
    &&& forall|i: int, a: int, c: int|
        0 <= i < rooms.len() && #[trigger] in_rect(rooms[i], a, c) ==> b.grid.open_at(a, c)
}

impl MapBuilder {
    /// One placement attempt: draws a candidate size and odd-lattice
    /// origin, and accepts the candidate when a one-cell border fits and
    /// it intersects no accepted room. On a grid that can fit even the
    /// largest room, the first attempt always accepts.
    #[verifier::rlimit(100)]
    fn try_place_room(
        &mut self,
        rooms: &mut Vec<Rect>,
        start: &mut Option<Point>,
        room_min: u32,
        room_max: u32,
        rng: &mut Pcg32,
    )
        requires
            old(self).wf(),
            1 <= room_min <= room_max <= 9999,
            old(self).current_region < REGION_MAX,
            rooms_state_ok(
                *old(self),
                old(rooms)@,
                *old(start),
                room_min as int,
                room_max as int,
            ),
        ensures
            final(self).wf(),
            final(self).grid.width == old(self).grid.width,
            final(self).grid.height == old(self).grid.height,
            old(self).current_region <= final(self).current_region <= old(self).current_region
                + 1,
            old(rooms)@.len() <= final(rooms)@.len() <= old(rooms)@.len() + 1,
            final(rooms)@.len() > old(rooms)@.len() ==> final(rooms)@.subrange(
                0,
                old(rooms)@.len() as int,
            ) == old(rooms)@,
            final(rooms)@.len() == old(rooms)@.len() ==> *final(rooms) == *old(rooms)
                && *final(start) == *old(start),
            rooms_state_ok(
                *final(self),
                final(rooms)@,
                *final(start),
                room_min as int,
                room_max as int,
            ),
            room_max + 2 <= old(self).grid.width && room_max + 2 <= old(self).grid.height && old(
                rooms,
            )@.len() == 0 ==> final(rooms)@.len() == 1,
    {
        let gw = self.grid.get_width();
        let gh = self.grid.get_height();
        let w = match rng.next_bounded(room_min, room_max + 1) {
            Some(v) => v,
            None => 0,
        };
        let h = match rng.next_bounded(room_min, room_max + 1) {
            Some(v) => v,
            None => 0,
        };
        proof {
            if room_max + 2 <= old(self).grid.width && room_max + 2 <= old(self).grid.height {
                assert(room_min <= w <= room_max);
                assert(room_min <= h <= room_max);
                assert((w as usize) + 2 <= gw);
                assert((h as usize) + 2 <= gh);
            }
        }
        // A candidate of this size must leave room for the one-cell
        // border; on a grid too small for that, the attempt is spent
        // without a draw for its origin.
        if (w as usize) + 2 <= gw && (h as usize) + 2 <= gh {
            let xmax: u32 = (gw - (w as usize) - 1) as u32;
            let ymax: u32 = (gh - (h as usize) - 1) as u32;
            let x0 = match rng.next_bounded(0, xmax) {
                Some(v) => v,
                None => 0,
            };
            let y0 = match rng.next_bounded(0, ymax) {
                Some(v) => v,
                None => 0,
            };
            let x: u32 = (x0 / 2) * 2 + 1;
            let y: u32 = (y0 / 2) * 2 + 1;
            let new_room = Rect::new(x as i32, y as i32, w as i32, h as i32);
            let mut failed = false;
            let mut k: usize = 0;
            while k < rooms.len()
                invariant
                    k <= rooms@.len(),
                    rooms@.len() == 0 ==> !failed,
                    !failed ==> forall|i: int|
                        0 <= i < k ==> !spec_intersects(new_room, #[trigger] rooms@[i]),
                decreases rooms@.len() - k,
            {
                if new_room.intersects_with(&rooms[k]) {
                    failed = true;
                }
                k = k + 1;
            }
            proof {
                if old(rooms)@.len() == 0 {
                    assert(!failed);
                }
            }
            if !failed {
                self.start_region();
                self.create_room_hauberk(&new_room);
                if rooms.len() == 0 {
                    let c = new_room.center();
                    *start = Some(Point::new(c.0, c.1));
                }
                rooms.push(new_room);
            }
        }
    }

    /// Rejection-sampled room placement: `tries + 1` candidates are
    /// drawn on the odd lattice; a candidate is skipped when it would
    /// intersect (or touch) an already accepted room, and is otherwise
    /// carved into a fresh region. Returns the accepted rooms, in
    /// acceptance order, and the first accepted room's center as the
    /// start point (`None` when no room fit). Decoration of the accepted
    /// rooms is left to the caller.
    pub fn add_rooms(
        &mut self,
        tries: u32,
        room_min: u32,
        room_max: u32,
        rng: &mut Pcg32,
    ) -> (out: (Vec<Rect>, Option<Point>))
        requires
            old(self).wf(),
            1 <= room_min <= room_max <= 9999,
            tries <= 1000000,
            old(self).current_region + tries + 1 <= REGION_MAX,
        ensures
            final(self).wf(),
            final(self).grid.width == old(self).grid.width,
            final(self).grid.height == old(self).grid.height,
            old(self).current_region <= final(self).current_region <= old(self).current_region
                + tries + 1,
            rooms_state_ok(*final(self), out.0@, out.1, room_min as int, room_max as int),
            forall|i: int, j: int|
                #![trigger out.0@[i], out.0@[j]]
                0 <= i < j < out.0@.len() ==> !spec_intersects(out.0@[i], out.0@[j]),
            forall|i: int|
                0 <= i < out.0@.len() ==> room_wf(
                    #[trigger] out.0@[i],
                    old(self).grid.width as int,
                    old(self).grid.height as int,
                    room_min as int,
                    room_max as int,
                ),
            out.0@.len() == 0 ==> out.1 is None,
            out.0@.len() > 0 ==> out.1 == Some(room_center(out.0@[0])),
            out.0@.len() <= tries + 1,
            room_max + 2 <= old(self).grid.width && room_max + 2 <= old(self).grid.height
                ==> out.0@.len() >= 1,
            forall|i: int, a: int, b: int|
                0 <= i < out.0@.len() && #[trigger] in_rect(out.0@[i], a, b)
                    ==> final(self).grid.open_at(a, b),
    {
        let mut rooms: Vec<Rect> = Vec::new();
        let mut start: Option<Point> = None;
        let total: u32 = tries + 1;
        let mut attempt: u32 = 0;
        while attempt < total
            invariant
                self.wf(),
                self.grid.width == old(self).grid.width,
                self.grid.height == old(self).grid.height,
                1 <= room_min <= room_max <= 9999,
                total == tries + 1,
                attempt <= total,
                old(self).current_region <= self.current_region <= old(self).current_region
                    + attempt,
                old(self).current_region + tries + 1 <= REGION_MAX,
                rooms_state_ok(*self, rooms@, start, room_min as int, room_max as int),
                rooms@.len() <= attempt,
                room_max + 2 <= self.grid.width && room_max + 2 <= self.grid.height && attempt
                    >= 1 ==> rooms@.len() >= 1,
            decreases total - attempt,
        {
            self.try_place_room(&mut rooms, &mut start, room_min, room_max, rng);
            attempt = attempt + 1;
        }
        (rooms, start)
    }
}

} // verus!
