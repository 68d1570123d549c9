//! The tile grid and the dungeon generator: rooms are placed by rejection
//! sampling under a fixed attempt budget, carved into the grid, and joined by
//! L-shaped tunnels, so that every accepted room is linked to the previous one.
use vstd::prelude::*;

use crate::object::{is_blocked, Color, Object};
use crate::rng::rng_range;

verus! {

/// Largest side of a generated room, bounding edge included.
pub const ROOM_MAX_SIZE: i32 = 10;

/// Smallest side of a generated room, bounding edge included.
pub const ROOM_MIN_SIZE: i32 = 6;

/// Attempt budget of the generator; a dungeon may hold fewer accepted rooms.
pub const MAX_ROOMS: i32 = 30;

/// Largest number of monsters placed into one accepted room.
pub const MAX_ROOM_MONSTERS: i32 = 3;

/// A tile of the map and its properties.
#[derive(Clone, Copy, PartialEq, Eq, Structural, Debug)]
pub struct Tile {
    pub blocked: bool,
    pub explored: bool,
    pub block_sight: bool,
}

impl Tile {
    /// An open floor tile, not yet explored.
    pub fn empty() -> (t: Tile)
        ensures
            t == (Tile { blocked: false, explored: false, block_sight: false }),
    {
        Tile { blocked: false, explored: false, block_sight: false }
    }

    /// A solid wall tile, not yet explored.
    pub fn wall() -> (t: Tile)
        ensures
            t == (Tile { blocked: true, explored: false, block_sight: true }),
    {
        Tile { blocked: true, explored: false, block_sight: true }
    }
}

/// The dungeon grid, indexed as `tiles[x][y]`. Its dimensions are fixed at
/// construction and never change.
pub struct TileGrid {
    pub tiles: Vec<Vec<Tile>>,
}

impl TileGrid {
    pub open spec fn width(self) -> int {
        self.tiles@.len() as int
    }

    pub open spec fn height(self) -> int {
        if self.tiles@.len() > 0 {
            self.tiles@[0]@.len() as int
        } else {
            0
        }
    }

    /// The grid is rectangular, and small enough that squared distances
    /// between any two cells fit the integer arithmetic of the engine.
    pub open spec fn wf(self) -> bool {
        &&& 0 < self.width() <= 0x10000
        &&& 0 < self.height() <= 0x10000
        &&& forall|x: int|
            0 <= x < self.width() ==> (#[trigger] self.tiles@[x])@.len() == self.height()
    }

    pub open spec fn in_bounds(self, x: int, y: int) -> bool {
        0 <= x < self.width() && 0 <= y < self.height()
    }

    pub open spec fn at(self, x: int, y: int) -> Tile {
        self.tiles@[x]@[y]
    }

    /// An open (walkable) cell.
    pub open spec fn open_at(self, x: int, y: int) -> bool {
        !self.at(x, y).blocked
    }

    /// Every cell of the grid's border is a wall; carving never touches it.
    pub open spec fn enclosed(self) -> bool {
        forall|x: int, y: int|
            self.in_bounds(x, y) && (x == 0 || x == self.width() - 1 || y == 0 || y
                == self.height() - 1) ==> (#[trigger] self.at(x, y)).blocked
    }

    pub fn get_width(&self) -> (w: usize)
        ensures
            w == self.width(),
    {
        self.tiles.len()
    }

    pub fn get_height(&self) -> (h: usize)
        requires
            self.wf(),
        ensures
            h == self.height(),
    {
        self.tiles[0].len()
    }

    pub fn tile_at(&self, x: i32, y: i32) -> (t: Tile)
        requires
            self.wf(),
            self.in_bounds(x as int, y as int),
        ensures
            t == self.at(x as int, y as int),
    {
        self.tiles[x as usize][y as usize]
    }

    /// A grid of the given dimensions made entirely of wall tiles.
    pub fn all_walls(width: i32, height: i32) -> (m: TileGrid)
        requires
            0 < width <= 0x10000,
            0 < height <= 0x10000,
        ensures
            m.wf(),
            m.width() == width as int,
            m.height() == height as int,
            forall|x: int, y: int| m.in_bounds(x, y) ==> #[trigger] m.at(x, y) == (Tile {
                blocked: true,
                explored: false,
                block_sight: true,
            }),
    {
        let mut tiles: Vec<Vec<Tile>> = Vec::new();
        let mut x: usize = 0;
        while x < width as usize
            invariant
                x <= width as usize,
                tiles@.len() == x,
                forall|i: int|
                    0 <= i < x ==> (#[trigger] tiles@[i])@.len() == height as usize,
                forall|i: int, j: int|
                    0 <= i < x && 0 <= j < height as int ==> (#[trigger] tiles@[i]@[j]) == (Tile {
                        blocked: true,
                        explored: false,
                        block_sight: true,
                    }),
            decreases width as usize - x,
        {
            let mut col: Vec<Tile> = Vec::new();
            let mut y: usize = 0;
            while y < height as usize
                invariant
                    y <= height as usize,
                    col@.len() == y,
                    forall|j: int|
                        0 <= j < y ==> (#[trigger] col@[j]) == (Tile {
                            blocked: true,
                            explored: false,
                            block_sight: true,
                        }),
                decreases height as usize - y,
            {
                col.push(Tile::wall());
                y = y + 1;
            }
            tiles.push(col);
            x = x + 1;
        }
        TileGrid { tiles }
    }
}

/// A rectangle on the map, used to characterise a room; `x2`/`y2` are the
/// inclusive bounding edge.
#[derive(Clone, Copy, PartialEq, Eq, Structural, Debug)]
pub struct Rect {
    pub x1: i32,
    pub y1: i32,
    pub x2: i32,
    pub y2: i32,
}

impl Rect {
    pub fn new(x: i32, y: i32, w: i32, h: i32) -> (r: Rect)
        requires
            i32::MIN <= x + w <= i32::MAX,
            i32::MIN <= y + h <= i32::MAX,
        ensures
            r == (Rect { x1: x, y1: y, x2: (x + w) as i32, y2: (y + h) as i32 }),
    {
        Rect { x1: x, y1: y, x2: x + w, y2: y + h }
    }

    /// Centre cell of the rectangle, rounded down.
    pub open spec fn spec_center(self) -> (int, int) {
        ((self.x1 + self.x2) / 2, (self.y1 + self.y2) / 2)
    }

    pub fn center(&self) -> (c: (i32, i32))
        requires
            0 <= self.x1 <= self.x2 <= 0x10000,
            0 <= self.y1 <= self.y2 <= 0x10000,
        ensures
            c.0 as int == self.spec_center().0,
            c.1 as int == self.spec_center().1,
    {
        ((self.x1 + self.x2) / 2, (self.y1 + self.y2) / 2)
    }

    /// Inclusive-bound intersection test between two rectangles.
    pub open spec fn spec_intersects(self, other: Rect) -> bool {
        self.x1 <= other.x2 && self.x2 >= other.x1 && self.y1 <= other.y2 && self.y2 >= other.y1
    }

    pub fn intersects_with(&self, other: &Rect) -> (r: bool)
        ensures
            r == self.spec_intersects(*other),
    {
        (self.x1 <= other.x2) && (self.x2 >= other.x1) && (self.y1 <= other.y2) && (self.y2
            >= other.y1)
    }
}

pub open spec fn seg_min(a: int, b: int) -> int {
    if a <= b {
        a
    } else {
        b
    }
}

pub open spec fn seg_max(a: int, b: int) -> int {
    if a <= b {
        b
    } else {
        a
    }
}

/// An in-bounds open cell: the one atom all carving facts are stated over.
pub open spec fn open_cell(m: TileGrid, x: int, y: int) -> bool {
    m.in_bounds(x, y) && m.open_at(x, y)
}

/// The whole horizontal run between the two columns, ends included, is open.
pub open spec fn h_open(m: TileGrid, xa: int, xb: int, y: int) -> bool {
    forall|x: int| seg_min(xa, xb) <= x <= seg_max(xa, xb) ==> #[trigger] open_cell(m, x, y)
}

/// The whole vertical run between the two rows, ends included, is open.
pub open spec fn v_open(m: TileGrid, ya: int, yb: int, x: int) -> bool {
    forall|y: int| seg_min(ya, yb) <= y <= seg_max(ya, yb) ==> #[trigger] open_cell(m, x, y)
}

/// The two cells are joined by an open L-shaped corridor, one bend either way.
pub open spec fn l_connected(m: TileGrid, p: (int, int), q: (int, int)) -> bool {
    ||| (h_open(m, p.0, q.0, p.1) && v_open(m, p.1, q.1, q.0))
    ||| (v_open(m, p.1, q.1, p.0) && h_open(m, p.0, q.0, q.1))
}

/// The second grid has the same shape and at least the open cells of the
/// first: carving only ever opens cells.
pub open spec fn opens_monotone(m1: TileGrid, m2: TileGrid) -> bool {
    &&& m1.width() == m2.width()
    &&& m1.height() == m2.height()
    &&& forall|x: int, y: int| open_cell(m1, x, y) ==> #[trigger] open_cell(m2, x, y)
}

/// The room's interior (bounding edge excluded) is fully carved open.
pub open spec fn room_carved(m: TileGrid, r: Rect) -> bool {
    forall|x: int, y: int|
        r.x1 < x < r.x2 && r.y1 < y < r.y2 ==> #[trigger] open_cell(m, x, y)
}

/// An accepted room lies fully inside the grid with its bounding edge off the
/// border, and its sides respect the configured size bounds.
pub open spec fn room_in_grid(r: Rect, w: int, h: int) -> bool {
    &&& 0 <= r.x1
    &&& r.x1 + ROOM_MIN_SIZE <= r.x2 <= w - 1
    &&& r.x2 - r.x1 <= ROOM_MAX_SIZE
    &&& 0 <= r.y1
    &&& r.y1 + ROOM_MIN_SIZE <= r.y2 <= h - 1
    &&& r.y2 - r.y1 <= ROOM_MAX_SIZE
}

pub proof fn lemma_h_open_monotone(m1: TileGrid, m2: TileGrid, xa: int, xb: int, y: int)
    requires
        opens_monotone(m1, m2),
        h_open(m1, xa, xb, y),
    ensures
        h_open(m2, xa, xb, y),
{
    assert forall|x: int| seg_min(xa, xb) <= x <= seg_max(xa, xb) implies #[trigger] open_cell(
        m2,
        x,
        y,
    ) by {
        assert(open_cell(m1, x, y));
    }
}

pub proof fn lemma_v_open_monotone(m1: TileGrid, m2: TileGrid, ya: int, yb: int, x: int)
    requires
        opens_monotone(m1, m2),
        v_open(m1, ya, yb, x),
    ensures
        v_open(m2, ya, yb, x),
{
    assert forall|y: int| seg_min(ya, yb) <= y <= seg_max(ya, yb) implies #[trigger] open_cell(
        m2,
        x,
        y,
    ) by {
        assert(open_cell(m1, x, y));
    }
}

/// Later carving never breaks an L-corridor that is already open.
pub proof fn lemma_l_connected_monotone(m1: TileGrid, m2: TileGrid, p: (int, int), q: (int, int))
    requires
        opens_monotone(m1, m2),
        l_connected(m1, p, q),
    ensures
        l_connected(m2, p, q),
{
    if h_open(m1, p.0, q.0, p.1) && v_open(m1, p.1, q.1, q.0) {
        lemma_h_open_monotone(m1, m2, p.0, q.0, p.1);
        lemma_v_open_monotone(m1, m2, p.1, q.1, q.0);
    } else {
        lemma_v_open_monotone(m1, m2, p.1, q.1, p.0);
        lemma_h_open_monotone(m1, m2, p.0, q.0, q.1);
    }
}

/// Later carving never closes a carved room.
pub proof fn lemma_room_carved_monotone(m1: TileGrid, m2: TileGrid, r: Rect)
    requires
        opens_monotone(m1, m2),
        room_carved(m1, r),
    ensures
        room_carved(m2, r),
{
    assert forall|x: int, y: int|
        r.x1 < x < r.x2 && r.y1 < y < r.y2 implies #[trigger] open_cell(m2, x, y) by {
        assert(open_cell(m1, x, y));
    }
}

/// The centre of a room sits strictly inside its carved interior.
pub proof fn lemma_center_in_room(r: Rect, w: int, h: int)
    requires
        room_in_grid(r, w, h),
    ensures
        r.x1 + 3 <= r.spec_center().0 <= r.x2 - 3,
        r.y1 + 3 <= r.spec_center().1 <= r.y2 - 3,
{
    assert(r.x1 + 3 <= (r.x1 + r.x2) / 2 <= r.x2 - 3);
    assert(r.y1 + 3 <= (r.y1 + r.y2) / 2 <= r.y2 - 3);
}

/// Overwrites one tile, leaving every other cell as it was.
pub(crate) fn set_tile(map: &mut TileGrid, x: i32, y: i32, t: Tile)
    requires
        old(map).wf(),
        old(map).in_bounds(x as int, y as int),
    ensures
        final(map).wf(),
        final(map).width() == old(map).width(),
        final(map).height() == old(map).height(),
        forall|a: int, b: int|
            old(map).in_bounds(a, b) ==> #[trigger] final(map).at(a, b) == (if a == x as int && b
                == y as int {
                t
            } else {
                old(map).at(a, b)
            }),
{
    let col = &mut map.tiles[x as usize];
    let cell = &mut col[y as usize];
    *cell = t;
}

/// Carves the room's interior (bounding edge excluded) to open floor.
pub fn create_room(room: Rect, map: &mut TileGrid)
    requires
        old(map).wf(),
        0 <= room.x1 <= room.x2 < old(map).width(),
        0 <= room.y1 <= room.y2 < old(map).height(),
    ensures
        final(map).wf(),
        final(map).width() == old(map).width(),
        final(map).height() == old(map).height(),
        forall|a: int, b: int|
            old(map).in_bounds(a, b) ==> #[trigger] final(map).at(a, b) == (if room.x1 < a
                < room.x2 && room.y1 < b < room.y2 {
                Tile { blocked: false, explored: false, block_sight: false }
            } else {
                old(map).at(a, b)
            }),
        opens_monotone(*old(map), *final(map)),
        room_carved(*final(map), room),
        old(map).enclosed() ==> final(map).enclosed(),
{
    let mut x: i32 = room.x1 + 1;
    while x < room.x2
        invariant
            map.wf(),
            map.width() == old(map).width(),
            map.height() == old(map).height(),
            0 <= room.x1 <= room.x2 < map.width(),
            0 <= room.y1 <= room.y2 < map.height(),
            room.x1 < x && (x <= room.x2 || x == room.x1 + 1),
            forall|a: int, b: int|
                old(map).in_bounds(a, b) ==> #[trigger] map.at(a, b) == (if room.x1 < a < x
                    && room.y1 < b < room.y2 {
                    Tile { blocked: false, explored: false, block_sight: false }
                } else {
                    old(map).at(a, b)
                }),
        decreases room.x2 - x,
    {
        let mut y: i32 = room.y1 + 1;
        while y < room.y2
            invariant
                map.wf(),
                map.width() == old(map).width(),
                map.height() == old(map).height(),
                0 <= room.x1 <= room.x2 < map.width(),
                0 <= room.y1 <= room.y2 < map.height(),
                room.x1 < x < room.x2,
                room.y1 < y && (y <= room.y2 || y == room.y1 + 1),
                forall|a: int, b: int|
                    old(map).in_bounds(a, b) ==> #[trigger] map.at(a, b) == (if (room.x1 < a < x
                        && room.y1 < b < room.y2) || (a == x as int && room.y1 < b < y) {
                        Tile { blocked: false, explored: false, block_sight: false }
                    } else {
                        old(map).at(a, b)
                    }),
            decreases room.y2 - y,
        {
            set_tile(map, x, y, Tile::empty());
            y = y + 1;
        }
        proof {
            assert forall|a: int, b: int|
                old(map).in_bounds(a, b) implies #[trigger] map.at(a, b) == (if room.x1 < a < x + 1
                && room.y1 < b < room.y2 {
                Tile { blocked: false, explored: false, block_sight: false }
            } else {
                old(map).at(a, b)
            }) by {
                assert(map.at(a, b) == (if (room.x1 < a < x && room.y1 < b < room.y2) || (a
                    == x as int && room.y1 < b < y) {
                    Tile { blocked: false, explored: false, block_sight: false }
                } else {
                    old(map).at(a, b)
                }));
            }
        }
        x = x + 1;
    }
    proof {
        assert forall|a: int, b: int|
            old(map).in_bounds(a, b) implies #[trigger] map.at(a, b) == (if room.x1 < a < room.x2
            && room.y1 < b < room.y2 {
            Tile { blocked: false, explored: false, block_sight: false }
        } else {
            old(map).at(a, b)
        }) by {
            assert(map.at(a, b) == (if room.x1 < a < x && room.y1 < b < room.y2 {
                Tile { blocked: false, explored: false, block_sight: false }
            } else {
                old(map).at(a, b)
            }));
        }
        assert forall|a: int, b: int| open_cell(*old(map), a, b) implies #[trigger] open_cell(
            *map,
            a,
            b,
        ) by {
            assert(map.at(a, b) == (if room.x1 < a < room.x2 && room.y1 < b < room.y2 {
                Tile { blocked: false, explored: false, block_sight: false }
            } else {
                old(map).at(a, b)
            }));
        }
        assert forall|a: int, b: int|
            room.x1 < a < room.x2 && room.y1 < b < room.y2 implies #[trigger] open_cell(
            *map,
            a,
            b,
        ) by {
            assert(map.at(a, b) == (Tile { blocked: false, explored: false, block_sight: false }));
        }
        if old(map).enclosed() {
            assert forall|a: int, b: int|
                map.in_bounds(a, b) && (a == 0 || a == map.width() - 1 || b == 0 || b
                == map.height() - 1) implies (#[trigger] map.at(a, b)).blocked by {
                assert(map.at(a, b) == old(map).at(a, b));
                assert(old(map).at(a, b).blocked);
            }
        }
    }
}

/// Carves a one-tile horizontal tunnel between the two columns, inclusive.
pub fn create_h_tunnel(x1: i32, x2: i32, y: i32, map: &mut TileGrid)
    requires
        old(map).wf(),
        old(map).in_bounds(x1 as int, y as int),
        old(map).in_bounds(x2 as int, y as int),
    ensures
        final(map).wf(),
        final(map).width() == old(map).width(),
        final(map).height() == old(map).height(),
        forall|a: int, b: int|
            old(map).in_bounds(a, b) ==> #[trigger] final(map).at(a, b) == (if seg_min(
                x1 as int,
                x2 as int,
            ) <= a <= seg_max(x1 as int, x2 as int) && b == y as int {
                Tile { blocked: false, explored: false, block_sight: false }
            } else {
                old(map).at(a, b)
            }),
        opens_monotone(*old(map), *final(map)),
        h_open(*final(map), x1 as int, x2 as int, y as int),
{
    let lo: i32 = if x1 <= x2 {
        x1
    } else {
        x2
    };
    let hi: i32 = if x1 <= x2 {
        x2
    } else {
        x1
    };
    let mut x: i32 = lo;
    while x <= hi
        invariant
            map.wf(),
            map.width() == old(map).width(),
            map.height() == old(map).height(),
            lo == seg_min(x1 as int, x2 as int),
            hi == seg_max(x1 as int, x2 as int),
            0 <= lo <= x <= hi + 1,
            hi < map.width(),
            0 <= y < map.height(),
            forall|a: int, b: int|
                old(map).in_bounds(a, b) ==> #[trigger] map.at(a, b) == (if lo <= a < x && b
                    == y as int {
                    Tile { blocked: false, explored: false, block_sight: false }
                } else {
                    old(map).at(a, b)
                }),
        decreases hi + 1 - x,
    {
        set_tile(map, x, y, Tile::empty());
        x = x + 1;
    }
}

/// Carves a one-tile vertical tunnel between the two rows, inclusive.
pub fn create_v_tunnel(y1: i32, y2: i32, x: i32, map: &mut TileGrid)
    requires
        old(map).wf(),
        old(map).in_bounds(x as int, y1 as int),
        old(map).in_bounds(x as int, y2 as int),
    ensures
        final(map).wf(),
        final(map).width() == old(map).width(),
        final(map).height() == old(map).height(),
        forall|a: int, b: int|
            old(map).in_bounds(a, b) ==> #[trigger] final(map).at(a, b) == (if seg_min(
                y1 as int,
                y2 as int,
            ) <= b <= seg_max(y1 as int, y2 as int) && a == x as int {
                Tile { blocked: false, explored: false, block_sight: false }
            } else {
                old(map).at(a, b)
            }),
        opens_monotone(*old(map), *final(map)),
        v_open(*final(map), y1 as int, y2 as int, x as int),
{
    let lo: i32 = if y1 <= y2 {
        y1
    } else {
        y2
    };
    let hi: i32 = if y1 <= y2 {
        y2
    } else {
        y1
    };
    let mut y: i32 = lo;
    while y <= hi
        invariant
            map.wf(),
            map.width() == old(map).width(),
            map.height() == old(map).height(),
            lo == seg_min(y1 as int, y2 as int),
            hi == seg_max(y1 as int, y2 as int),
            0 <= lo <= y <= hi + 1,
            hi < map.height(),
            0 <= x < map.width(),
            forall|a: int, b: int|
                old(map).in_bounds(a, b) ==> #[trigger] map.at(a, b) == (if lo <= b < y && a
                    == x as int {
                    Tile { blocked: false, explored: false, block_sight: false }
                } else {
                    old(map).at(a, b)
                }),
        decreases hi + 1 - y,
    {
        set_tile(map, x, y, Tile::empty());
        y = y + 1;
    }
}

/// Carves an L-shaped corridor between the two cells, horizontal leg first or
/// vertical leg first; both legs include both endpoints.
pub fn connect_rooms(prev: (i32, i32), cur: (i32, i32), horiz_first: bool, map: &mut TileGrid)
    requires
        old(map).wf(),
        1 <= prev.0 < old(map).width() - 1,
        1 <= prev.1 < old(map).height() - 1,
        1 <= cur.0 < old(map).width() - 1,
        1 <= cur.1 < old(map).height() - 1,
    ensures
        final(map).wf(),
        final(map).width() == old(map).width(),
        final(map).height() == old(map).height(),
        opens_monotone(*old(map), *final(map)),
        l_connected(
            *final(map),
            (prev.0 as int, prev.1 as int),
            (cur.0 as int, cur.1 as int),
        ),
        old(map).enclosed() ==> final(map).enclosed(),
{
    let ghost m0 = *map;
    if horiz_first {
        create_h_tunnel(prev.0, cur.0, prev.1, map);
        let ghost m1 = *map;
        create_v_tunnel(prev.1, cur.1, cur.0, map);
        proof {
            lemma_h_open_monotone(m1, *map, prev.0 as int, cur.0 as int, prev.1 as int);
        }
    } else {
        create_v_tunnel(prev.1, cur.1, prev.0, map);
        let ghost m1 = *map;
        create_h_tunnel(prev.0, cur.0, cur.1, map);
        proof {
            lemma_v_open_monotone(m1, *map, prev.1 as int, cur.1 as int, prev.0 as int);
        }
    }
    proof {
        if old(map).enclosed() {
            assert forall|x: int, y: int|
                map.in_bounds(x, y) && (x == 0 || x == map.width() - 1 || y == 0 || y
                    == map.height() - 1) implies (#[trigger] map.at(x, y)).blocked by {
                assert(map.at(x, y) == m0.at(x, y));
            }
        }
    }
}

/// A freshly spawned monster: alive, blocking, without capabilities yet, on
/// an open interior cell of its room, and one of the two monster kinds.
pub open spec fn spawned_monster(o: Object, room: Rect, m: TileGrid) -> bool {
    &&& room.x1 < o.x < room.x2
    &&& room.y1 < o.y < room.y2
    &&& o.alive
    &&& o.blocks
    &&& o.fighter is None
    &&& o.ai is None
    &&& open_cell(m, o.x as int, o.y as int)
    &&& ((o.glyph == 's' && o.name@ == "Baby Spider"@ && o.color == (Color {
        r: 255,
        g: 115,
        b: 115,
    })) || (o.glyph == 'Z' && o.name@ == "Zombie"@ && o.color == (Color {
        r: 115,
        g: 255,
        b: 115,
    })))
}

/// Entity `i` stands on no other blocking entity's cell.
pub open spec fn placed_clear(objects: Seq<Object>, i: int) -> bool {
    forall|j: int|
        0 <= j < i ==> !((#[trigger] objects[j]).blocks && objects[j].x == objects[i].x
            && objects[j].y == objects[i].y)
}

/// Populates an accepted room with up to `MAX_ROOM_MONSTERS` monsters, each
/// at a randomly drawn unblocked interior cell, weighted roughly 80%/20%
/// between the two monster kinds; colliding draws are discarded.
pub fn place_objects(
    room: Rect,
    objects: &mut Vec<Object>,
    map: &TileGrid,
    rng: &mut rand::rngs::StdRng,
)
    requires
        map.wf(),
        0 <= room.x1,
        room.x1 + 1 < room.x2 < map.width(),
        0 <= room.y1,
        room.y1 + 1 < room.y2 < map.height(),
    ensures
        old(objects)@.len() <= final(objects)@.len() <= old(objects)@.len()
            + MAX_ROOM_MONSTERS as int,
        final(objects)@.subrange(0, old(objects)@.len() as int) == old(objects)@,
        forall|i: int|
            old(objects)@.len() <= i < final(objects)@.len() ==> spawned_monster(
                #[trigger] final(objects)@[i],
                room,
                *map,
            ),
        forall|i: int|
            old(objects)@.len() <= i < final(objects)@.len() ==> placed_clear(final(objects)@, i),
{
    let num_monsters = rng_range(rng, 0, MAX_ROOM_MONSTERS + 1);
    let ghost n0 = objects@.len() as int;
    let mut k: i32 = 0;
    while k < num_monsters
        invariant
            map.wf(),
            0 <= room.x1,
            room.x1 + 1 < room.x2 < map.width(),
            0 <= room.y1,
            room.y1 + 1 < room.y2 < map.height(),
            0 <= k <= num_monsters <= MAX_ROOM_MONSTERS as i32,
            n0 == old(objects)@.len() as int,
            n0 <= objects@.len() <= n0 + k,
            objects@.subrange(0, n0) == old(objects)@,
            forall|i: int|
                n0 <= i < objects@.len() ==> spawned_monster(#[trigger] objects@[i], room, *map),
            forall|i: int| n0 <= i < objects@.len() ==> placed_clear(objects@, i),
        decreases num_monsters - k,
    {
        let x = rng_range(rng, room.x1 + 1, room.x2);
        let y = rng_range(rng, room.y1 + 1, room.y2);
        if !is_blocked(x, y, map, objects) {
            let kind = rng_range(rng, 0, 10);
            let mut monster = if kind < 8 {
                Object::new(x, y, 's', "Baby Spider", Color::light_red(), true)
            } else {
                Object::new(x, y, 'Z', "Zombie", Color::light_green(), true)
            };
            monster.alive = true;
            let ghost before = objects@;
            objects.push(monster);
            proof {
                assert(objects@.subrange(0, n0) =~= before.subrange(0, n0));
                assert forall|i: int| n0 <= i < objects@.len() implies placed_clear(
                    objects@,
                    i,
                ) by {
                    if i < objects@.len() - 1 {
                        assert(placed_clear(before, i));
                        assert forall|j: int|
                            0 <= j < i implies !((#[trigger] objects@[j]).blocks && objects@[j].x
                            == objects@[i].x && objects@[j].y == objects@[i].y) by {
                            assert(objects@[j] == before[j]);
                            assert(objects@[i] == before[i]);
                        }
                    }
                }
            }
        }
        k = k + 1;
    }
}

/// A monster as the generator leaves it in the store: a fresh spawn of some
/// accepted room, standing clear of every earlier entity.
pub open spec fn generated_monster(
    objects: Seq<Object>,
    i: int,
    rooms: Seq<Rect>,
    m: TileGrid,
) -> bool {
    &&& (exists|r: int| 0 <= r < rooms.len() && spawned_monster(objects[i], #[trigger] rooms[r], m))
    &&& placed_clear(objects, i)
}

/// Carving more of the grid keeps every accepted room carved.
pub proof fn lemma_rooms_preserved(m1: TileGrid, m2: TileGrid, rooms: Seq<Rect>)
    requires
        opens_monotone(m1, m2),
        forall|i: int| 0 <= i < rooms.len() ==> room_carved(m1, #[trigger] rooms[i]),
    ensures
        forall|i: int| 0 <= i < rooms.len() ==> room_carved(m2, #[trigger] rooms[i]),
{
    assert forall|i: int| 0 <= i < rooms.len() implies room_carved(m2, #[trigger] rooms[i]) by {
        lemma_room_carved_monotone(m1, m2, rooms[i]);
    }
}

/// Carving more of the grid keeps every pair of consecutive rooms linked.
pub proof fn lemma_links_preserved(m1: TileGrid, m2: TileGrid, rooms: Seq<Rect>)
    requires
        opens_monotone(m1, m2),
        forall|k: int|
            1 <= k < rooms.len() ==> l_connected(
                m1,
                (#[trigger] rooms[k - 1]).spec_center(),
                rooms[k].spec_center(),
            ),
    ensures
        forall|k: int|
            1 <= k < rooms.len() ==> l_connected(
                m2,
                (#[trigger] rooms[k - 1]).spec_center(),
                rooms[k].spec_center(),
            ),
{
    assert forall|k: int|
        1 <= k < rooms.len() implies l_connected(
        m2,
        (#[trigger] rooms[k - 1]).spec_center(),
        rooms[k].spec_center(),
    ) by {
        lemma_l_connected_monotone(m1, m2, rooms[k - 1].spec_center(), rooms[k].spec_center());
    }
}

/// Carving more of the grid keeps every placed monster on an open cell.
pub proof fn lemma_monsters_preserved(
    m1: TileGrid,
    m2: TileGrid,
    objects: Seq<Object>,
    rooms: Seq<Rect>,
    n0: int,
)
    requires
        opens_monotone(m1, m2),
        0 <= n0,
        forall|i: int| n0 <= i < objects.len() ==> generated_monster(objects, i, rooms, m1),
    ensures
        forall|i: int| n0 <= i < objects.len() ==> generated_monster(objects, i, rooms, m2),
{
    assert forall|i: int|
        n0 <= i < objects.len() implies generated_monster(objects, i, rooms, m2) by {
        assert(generated_monster(objects, i, rooms, m1));
        let r0 = choose|r: int|
            0 <= r < rooms.len() && spawned_monster(objects[i], #[trigger] rooms[r], m1);
        assert(spawned_monster(objects[i], rooms[r0], m1));
        assert(open_cell(m2, objects[i].x as int, objects[i].y as int));
        assert(spawned_monster(objects[i], rooms[r0], m2));
    }
}

/// A blocking-collision check against a prefix is unaffected by entities
/// appended after it.
pub proof fn lemma_clear_prefix(pre: Seq<Object>, post: Seq<Object>, i: int)
    requires
        0 <= i < pre.len(),
        pre.len() <= post.len(),
        post.subrange(0, pre.len() as int) == pre,
        placed_clear(pre, i),
    ensures
        placed_clear(post, i),
{
    assert forall|j: int|
        0 <= j < i implies !((#[trigger] post[j]).blocks && post[j].x == post[i].x && post[j].y
        == post[i].y) by {
        assert(post.subrange(0, pre.len() as int)[j] == post[j]);
        assert(post.subrange(0, pre.len() as int)[i] == post[i]);
    }
}

/// Whole contract of the dungeon generator, over the grid, the accepted
/// rooms and the entity store it leaves behind.
pub open spec fn dungeon_post(
    m: TileGrid,
    rooms: Seq<Rect>,
    pre: Seq<Object>,
    post: Seq<Object>,
    width: int,
    height: int,
) -> bool {
    &&& m.wf()
    &&& m.width() == width
    &&& m.height() == height
    &&& m.enclosed()
    &&& 1 <= rooms.len() <= MAX_ROOMS as int
    &&& (forall|i: int| 0 <= i < rooms.len() ==> room_in_grid(#[trigger] rooms[i], width, height))
    &&& (forall|i: int, j: int|
        0 <= i < j < rooms.len() ==> !(#[trigger] rooms[i]).spec_intersects(#[trigger] rooms[j]))
    &&& (forall|i: int| 0 <= i < rooms.len() ==> room_carved(m, #[trigger] rooms[i]))
    &&& (forall|k: int|
        1 <= k < rooms.len() ==> l_connected(
            m,
            (#[trigger] rooms[k - 1]).spec_center(),
            rooms[k].spec_center(),
        ))
    &&& post.len() >= pre.len()
    &&& (forall|j: int| 1 <= j < pre.len() ==> post[j] == #[trigger] pre[j])
    &&& post[0] == (Object {
        x: rooms[0].spec_center().0 as i32,
        y: rooms[0].spec_center().1 as i32,
        ..pre[0]
    })
    &&& open_cell(m, post[0].x as int, post[0].y as int)
    &&& (forall|i: int| pre.len() <= i < post.len() ==> generated_monster(post, i, rooms, m))
}

/// Builds the dungeon: up to `MAX_ROOMS` placement attempts, each drawing a
/// room size and position; a candidate that intersects an accepted room is
/// discarded. An accepted room is carved, populated (except the first, which
/// receives the player at its centre) and joined to the previous room's
/// centre by an L-shaped corridor.
pub fn build_dungeon(
    width: i32,
    height: i32,
    objects: &mut Vec<Object>,
    rng: &mut rand::rngs::StdRng,
) -> (r: (TileGrid, Vec<Rect>))
    requires
        ROOM_MAX_SIZE < width <= 0x10000,
        ROOM_MAX_SIZE < height <= 0x10000,
        old(objects)@.len() >= 1,
    ensures
        dungeon_post(r.0, r.1@, old(objects)@, final(objects)@, width as int, height as int),
{
    let mut grid = TileGrid::all_walls(width, height);
    let mut rooms: Vec<Rect> = Vec::new();
    let ghost n0 = objects@.len() as int;
    let mut attempt: i32 = 0;
    while attempt < MAX_ROOMS
        invariant
            ROOM_MAX_SIZE < width <= 0x10000,
            ROOM_MAX_SIZE < height <= 0x10000,
            grid.wf(),
            grid.width() == width as int,
            grid.height() == height as int,
            grid.enclosed(),
            0 <= attempt <= MAX_ROOMS,
            rooms@.len() <= attempt,
            attempt >= 1 ==> rooms@.len() >= 1,
            forall|i: int|
                0 <= i < rooms@.len() ==> room_in_grid(
                    #[trigger] rooms@[i],
                    width as int,
                    height as int,
                ),
            forall|i: int, j: int|
                0 <= i < j < rooms@.len() ==> !(#[trigger] rooms@[i]).spec_intersects(
                    #[trigger] rooms@[j],
                ),
            forall|i: int| 0 <= i < rooms@.len() ==> room_carved(grid, #[trigger] rooms@[i]),
            forall|k: int|
                1 <= k < rooms@.len() ==> l_connected(
                    grid,
                    (#[trigger] rooms@[k - 1]).spec_center(),
                    rooms@[k].spec_center(),
                ),
            n0 == old(objects)@.len() as int,
            n0 >= 1,
            objects@.len() >= n0,
            forall|j: int| 1 <= j < n0 ==> objects@[j] == #[trigger] old(objects)@[j],
            rooms@.len() == 0 ==> objects@ == old(objects)@,
            rooms@.len() >= 1 ==> objects@[0] == (Object {
                x: rooms@[0].spec_center().0 as i32,
                y: rooms@[0].spec_center().1 as i32,
                ..old(objects)@[0]
            }),
            rooms@.len() >= 1 ==> open_cell(grid, objects@[0].x as int, objects@[0].y as int),
            forall|i: int|
                n0 <= i < objects@.len() ==> generated_monster(objects@, i, rooms@, grid),
        decreases MAX_ROOMS - attempt,
    {
        let w = rng_range(rng, ROOM_MIN_SIZE, ROOM_MAX_SIZE + 1);
        let h = rng_range(rng, ROOM_MIN_SIZE, ROOM_MAX_SIZE + 1);
        let x = rng_range(rng, 0, width - w);
        let y = rng_range(rng, 0, height - h);
        let new_room = Rect::new(x, y, w, h);

        let mut failed = false;
        let mut j: usize = 0;
        while j < rooms.len()
            invariant
                j <= rooms@.len(),
                failed ==> exists|k: int|
                    0 <= k < rooms@.len() && new_room.spec_intersects(#[trigger] rooms@[k]),
                !failed ==> forall|k: int|
                    0 <= k < j ==> !new_room.spec_intersects(#[trigger] rooms@[k]),
            decreases rooms@.len() - j,
        {
            if new_room.intersects_with(&rooms[j]) {
                failed = true;
            }
            j = j + 1;
        }

        if !failed {
            let ghost g0 = grid;
            create_room(new_room, &mut grid);
            proof {
                lemma_rooms_preserved(g0, grid, rooms@);
                lemma_links_preserved(g0, grid, rooms@);
                lemma_monsters_preserved(g0, grid, objects@, rooms@, n0);
                lemma_center_in_room(new_room, width as int, height as int);
                if rooms@.len() >= 1 {
                    assert(open_cell(g0, objects@[0].x as int, objects@[0].y as int));
                    assert(open_cell(grid, objects@[0].x as int, objects@[0].y as int));
                }
            }
            let ghost pre_place = objects@;
            let c = new_room.center();
            proof {
                assert(open_cell(grid, c.0 as int, c.1 as int));
            }
            if rooms.len() == 0 {
                let p = &mut objects[0];
                p.x = c.0;
                p.y = c.1;
            } else {
                place_objects(new_room, objects, &grid, rng);
                proof {
                    assert forall|j2: int| 0 <= j2 < pre_place.len() implies objects@[j2]
                        == pre_place[j2] by {
                        assert(objects@.subrange(0, pre_place.len() as int)[j2] == objects@[j2]);
                    }
                    assert forall|i: int|
                        n0 <= i < pre_place.len() implies generated_monster(
                        objects@,
                        i,
                        rooms@,
                        grid,
                    ) by {
                        assert(generated_monster(pre_place, i, rooms@, grid));
                        let r0 = choose|r: int|
                            0 <= r < rooms@.len() && spawned_monster(
                                pre_place[i],
                                #[trigger] rooms@[r],
                                grid,
                            );
                        assert(spawned_monster(objects@[i], rooms@[r0], grid));
                        lemma_clear_prefix(pre_place, objects@, i);
                    }
                }
                let prev = rooms[rooms.len() - 1].center();
                proof {
                    lemma_center_in_room(rooms@[rooms@.len() - 1], width as int, height as int);
                }
                let coin = rng_range(rng, 0, 2) == 1;
                let ghost g1 = grid;
                connect_rooms(prev, c, coin, &mut grid);
                proof {
                    lemma_rooms_preserved(g1, grid, rooms@);
                    lemma_links_preserved(g1, grid, rooms@);
                    lemma_room_carved_monotone(g1, grid, new_room);
                    assert(open_cell(g1, objects@[0].x as int, objects@[0].y as int));
                    assert(open_cell(grid, objects@[0].x as int, objects@[0].y as int));
                    assert forall|i: int|
                        n0 <= i < pre_place.len() implies generated_monster(
                        objects@,
                        i,
                        rooms@,
                        grid,
                    ) by {
                        assert(generated_monster(objects@, i, rooms@, g1));
                        let r0 = choose|r: int|
                            0 <= r < rooms@.len() && spawned_monster(
                                objects@[i],
                                #[trigger] rooms@[r],
                                g1,
                            );
                        assert(open_cell(grid, objects@[i].x as int, objects@[i].y as int));
                        assert(spawned_monster(objects@[i], rooms@[r0], grid));
                    }
                    assert forall|i: int|
                        pre_place.len() <= i < objects@.len() implies spawned_monster(
                        objects@[i],
                        new_room,
                        grid,
                    ) && placed_clear(objects@, i) by {
                        assert(spawned_monster(objects@[i], new_room, g1));
                        assert(open_cell(grid, objects@[i].x as int, objects@[i].y as int));
                    }
                }
            }
            let ghost rooms_old = rooms@;
            rooms.push(new_room);
            proof {
                assert(rooms@[rooms@.len() - 1] == new_room);
                assert forall|i: int, j2: int|
                    0 <= i < j2 < rooms@.len() implies !(#[trigger] rooms@[i]).spec_intersects(
                    #[trigger] rooms@[j2],
                ) by {
                    if j2 == rooms@.len() - 1 {
                        assert(!new_room.spec_intersects(rooms_old[i]));
                    } else {
                        assert(!rooms_old[i].spec_intersects(rooms_old[j2]));
                    }
                }
                assert forall|i: int|
                    n0 <= i < objects@.len() implies generated_monster(
                    objects@,
                    i,
                    rooms@,
                    grid,
                ) by {
                    if i < pre_place.len() {
                        assert(generated_monster(objects@, i, rooms_old, grid));
                        let r0 = choose|r: int|
                            0 <= r < rooms_old.len() && spawned_monster(
                                objects@[i],
                                #[trigger] rooms_old[r],
                                grid,
                            );
                        assert(rooms@[r0] == rooms_old[r0]);
                        assert(spawned_monster(objects@[i], rooms@[r0], grid));
                    } else {
                        assert(spawned_monster(objects@[i], new_room, grid));
                        assert(spawned_monster(objects@[i], rooms@[rooms@.len() - 1], grid));
                    }
                }
            }
        }
        attempt = attempt + 1;
    }
    (grid, rooms)
}

/// Room `k`'s centre is joined to the first room's centre through the chain
/// of carved L-corridors between consecutive accepted rooms.
pub open spec fn chain_connected(m: TileGrid, rooms: Seq<Rect>, k: int) -> bool
    decreases k,
{
    if k <= 0 {
        true
    } else {
        chain_connected(m, rooms, k - 1) && l_connected(
            m,
            rooms[k - 1].spec_center(),
            rooms[k].spec_center(),
        )
    }
}

proof fn lemma_chain_step(m: TileGrid, rooms: Seq<Rect>, k: int)
    requires
        0 <= k < rooms.len(),
        forall|k2: int|
            1 <= k2 < rooms.len() ==> l_connected(
                m,
                (#[trigger] rooms[k2 - 1]).spec_center(),
                rooms[k2].spec_center(),
            ),
    ensures
        chain_connected(m, rooms, k),
    decreases k,
{
    if k > 0 {
        lemma_chain_step(m, rooms, k - 1);
    }
}

/// Every accepted room is reachable from the first: each consecutive pair of
/// room centres is joined by an open L-corridor, so the whole chain links
/// room 0's centre to every later room's centre through carved tunnels.
pub proof fn lemma_rooms_reachable(m: TileGrid, rooms: Seq<Rect>)
    requires
        forall|k: int|
            1 <= k < rooms.len() ==> l_connected(
                m,
                (#[trigger] rooms[k - 1]).spec_center(),
                rooms[k].spec_center(),
            ),
    ensures
        forall|k: int| 0 <= k < rooms.len() ==> chain_connected(m, rooms, k),
{
    assert forall|k: int| 0 <= k < rooms.len() implies chain_connected(m, rooms, k) by {
        lemma_chain_step(m, rooms, k);
    }
}

/// Corollary for the generator's own output: in any dungeon it builds, every
/// accepted room is reachable from the first one via the carved tunnels.
pub proof fn lemma_dungeon_connected(
    m: TileGrid,
    rooms: Seq<Rect>,
    pre: Seq<Object>,
    post: Seq<Object>,
    width: int,
    height: int,
)
    requires
        dungeon_post(m, rooms, pre, post, width, height),
    ensures
        forall|k: int| 0 <= k < rooms.len() ==> chain_connected(m, rooms, k),
{
    lemma_rooms_reachable(m, rooms);
}

/// Generates the dungeon grid, placing the player at the first accepted
/// room's centre and monsters into the later rooms. The accepted rooms are
/// returned by `build_dungeon`; this entry point keeps only the grid.
pub fn make_map(
    width: i32,
    height: i32,
    objects: &mut Vec<Object>,
    rng: &mut rand::rngs::StdRng,
) -> (m: TileGrid)
    requires
        ROOM_MAX_SIZE < width <= 0x10000,
        ROOM_MAX_SIZE < height <= 0x10000,
        old(objects)@.len() >= 1,
    ensures
        exists|rooms: Seq<Rect>|
            dungeon_post(m, rooms, old(objects)@, final(objects)@, width as int, height as int),
{
    let r = build_dungeon(width, height, objects, rng);
    let ghost rooms = r.1@;
    proof {
        assert(dungeon_post(r.0, rooms, old(objects)@, objects@, width as int, height as int));
    }
    r.0
}

} // verus!
