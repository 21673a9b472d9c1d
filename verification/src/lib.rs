//! A verified implementation of the "Hauberk" procedural dungeon
//! generator: rejection-sampled room placement on an odd lattice, a
//! growing-tree maze walk over the remaining cells, a region-connection
//! pass, and a dead-end-removal fixed point, all driven by a seedable
//! deterministic random source. The generator's result carries proved
//! guarantees: no remaining dead end, pairwise non-intersecting rooms on
//! the odd lattice, and full connectivity from the start point.

pub mod builder;
pub mod connect;
pub mod deadend;
pub mod dungeon;
pub mod geom;
pub mod grid;
pub mod maze;
pub mod reach;
pub mod rng;
pub mod rooms;
pub mod tile;

pub use dungeon::Dungeon;
pub use dungeon::GenError;
pub use dungeon::GenParams;
pub use dungeon::make_map_hauberk;
pub use geom::Directions;
pub use geom::Point;
pub use geom::Rect;
pub use grid::Grid;
pub use reach::fully_connected;
pub use rng::Pcg32;
pub use tile::Tile;
