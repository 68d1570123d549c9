//! What the display layer shows, computed as data: the colour and glyph of
//! each explored cell, the permanent explored flag, and the order entities
//! are drawn in. The actual terminal work happens outside this crate.
use vstd::prelude::*;

use crate::engine::FovData;
use crate::map::{set_tile, Tile, TileGrid};
use crate::object::{Color, Object};

verus! {

/// One cell to draw: its position, glyph and colour.
#[derive(Clone, Copy, PartialEq, Eq, Structural, Debug)]
pub struct CellDraw {
    pub x: i32,
    pub y: i32,
    pub glyph: char,
    pub color: Color,
}

/// One of the four fixed cell colours: dark/lit wall, dark/lit ground.
pub open spec fn cell_color(visible: bool, wall: bool) -> Color {
    if visible {
        if wall {
            Color { r: 130, g: 110, b: 50 }
        } else {
            Color { r: 200, g: 180, b: 50 }
        }
    } else {
        if wall {
            Color { r: 0, g: 0, b: 100 }
        } else {
            Color { r: 50, g: 50, b: 150 }
        }
    }
}

/// A wall draws as '#', open floor as '.'.
pub open spec fn cell_glyph(blocked: bool) -> char {
    if blocked {
        '#'
    } else {
        '.'
    }
}

/// A tile after one render pass: a visible cell becomes explored, for good.
pub open spec fn tile_after_render(t: Tile, visible: bool) -> Tile {
    Tile { explored: t.explored || visible, ..t }
}

/// What one cell renders to: never-explored cells are not drawn; explored
/// ones draw their glyph with the colour picked by visibility and wall-ness.
pub open spec fn cell_draw_of(t: Tile, visible: bool, x: int, y: int) -> Option<CellDraw> {
    if t.explored || visible {
        Some(
            CellDraw {
                x: x as i32,
                y: y as i32,
                glyph: cell_glyph(t.blocked),
                color: cell_color(visible, t.block_sight),
            },
        )
    } else {
        None
    }
}

pub open spec fn opt_draw(d: Option<CellDraw>) -> Seq<CellDraw> {
    match d {
        Some(c) => seq![c],
        None => Seq::empty(),
    }
}

/// The draws of row `y`, columns `0 .. x`, in ascending column order.
pub open spec fn row_prefix(m: TileGrid, fov: FovData, y: int, x: int) -> Seq<CellDraw>
    decreases x,
{
    if x <= 0 {
        Seq::empty()
    } else {
        row_prefix(m, fov, y, x - 1) + opt_draw(
            cell_draw_of(m.at(x - 1, y), fov.at(x - 1, y), x - 1, y),
        )
    }
}

/// The draws of rows `0 .. y`, each row complete, in ascending row order.
pub open spec fn rows_prefix(m: TileGrid, fov: FovData, y: int) -> Seq<CellDraw>
    decreases y,
{
    if y <= 0 {
        Seq::empty()
    } else {
        rows_prefix(m, fov, y - 1) + row_prefix(m, fov, y - 1, m.width())
    }
}

/// Everything one render pass of the whole grid draws, row by row.
pub open spec fn render_draws(m: TileGrid, fov: FovData) -> Seq<CellDraw> {
    rows_prefix(m, fov, m.height())
}

/// The second grid keeps every explored flag of the first: exploration is
/// monotonic, a cell once explored is never observed unexplored again.
pub open spec fn explored_monotone(m1: TileGrid, m2: TileGrid) -> bool {
    &&& m1.width() == m2.width()
    &&& m1.height() == m2.height()
    &&& forall|x: int, y: int|
        m1.in_bounds(x, y) && m1.at(x, y).explored ==> (#[trigger] m2.at(x, y)).explored
}

/// Exploration monotonicity composes across any sequence of render passes.
pub proof fn lemma_explored_monotone_trans(m1: TileGrid, m2: TileGrid, m3: TileGrid)
    requires
        explored_monotone(m1, m2),
        explored_monotone(m2, m3),
    ensures
        explored_monotone(m1, m3),
{
    assert forall|x: int, y: int|
        m1.in_bounds(x, y) && m1.at(x, y).explored implies (#[trigger] m3.at(x, y)).explored by {
        assert(m2.at(x, y).explored);
    }
}

/// Re-rendering an unchanged cell without an intervening visibility change
/// yields the identical draw: the first pass may set the explored flag, and
/// a second pass of the resulting tile draws exactly the same output.
pub proof fn lemma_render_cell_idempotent(t: Tile, visible: bool, x: int, y: int)
    ensures
        cell_draw_of(tile_after_render(t, visible), visible, x, y) == cell_draw_of(t, visible, x, y),
        tile_after_render(tile_after_render(t, visible), visible) == tile_after_render(t, visible),
{
}

proof fn lemma_row_idempotent(m1: TileGrid, m2: TileGrid, fov: FovData, y: int, x: int)
    requires
        m1.width() == m2.width(),
        m1.height() == m2.height(),
        0 <= y < m1.height(),
        x <= m1.width(),
        forall|a: int, b: int|
            m1.in_bounds(a, b) ==> #[trigger] m2.at(a, b) == tile_after_render(
                m1.at(a, b),
                fov.at(a, b),
            ),
    ensures
        row_prefix(m2, fov, y, x) == row_prefix(m1, fov, y, x),
    decreases x,
{
    if x > 0 {
        lemma_row_idempotent(m1, m2, fov, y, x - 1);
        assert(m2.at(x - 1, y) == tile_after_render(m1.at(x - 1, y), fov.at(x - 1, y)));
        lemma_render_cell_idempotent(m1.at(x - 1, y), fov.at(x - 1, y), x - 1, y);
    }
}

/// A second render pass without an intervening visibility recompute draws
/// exactly what the first one drew.
pub proof fn lemma_render_idempotent(m1: TileGrid, m2: TileGrid, fov: FovData, y: int)
    requires
        m1.width() == m2.width(),
        m1.height() == m2.height(),
        0 <= y <= m1.height(),
        forall|a: int, b: int|
            m1.in_bounds(a, b) ==> #[trigger] m2.at(a, b) == tile_after_render(
                m1.at(a, b),
                fov.at(a, b),
            ),
    ensures
        rows_prefix(m2, fov, y) == rows_prefix(m1, fov, y),
    decreases y,
{
    if y > 0 {
        lemma_render_idempotent(m1, m2, fov, y - 1);
        lemma_row_idempotent(m1, m2, fov, y - 1, m1.width());
    }
}

/// Renders the whole grid: marks every visible cell explored (permanently)
/// and returns the draws of all explored cells, row by row.
pub fn render_map(map: &mut TileGrid, fov: &FovData) -> (draws: Vec<CellDraw>)
    requires
        old(map).wf(),
        fov.wf(),
        fov.covers(*old(map)),
    ensures
        final(map).wf(),
        final(map).width() == old(map).width(),
        final(map).height() == old(map).height(),
        forall|a: int, b: int|
            old(map).in_bounds(a, b) ==> #[trigger] final(map).at(a, b) == tile_after_render(
                old(map).at(a, b),
                fov.at(a, b),
            ),
        explored_monotone(*old(map), *final(map)),
        draws@ == render_draws(*old(map), *fov),
{
    let width = map.get_width();
    let height = map.get_height();
    let mut draws: Vec<CellDraw> = Vec::new();
    let mut y: usize = 0;
    while y < height
        invariant
            map.wf(),
            map.width() == old(map).width(),
            map.height() == old(map).height(),
            fov.wf(),
            fov.covers(*old(map)),
            width == map.width(),
            height == map.height(),
            y <= height,
            forall|a: int, b: int|
                old(map).in_bounds(a, b) ==> #[trigger] map.at(a, b) == (if b < y as int {
                    tile_after_render(old(map).at(a, b), fov.at(a, b))
                } else {
                    old(map).at(a, b)
                }),
            draws@ == rows_prefix(*old(map), *fov, y as int),
        decreases height - y,
    {
        let mut x: usize = 0;
        while x < width
            invariant
                map.wf(),
                map.width() == old(map).width(),
                map.height() == old(map).height(),
                fov.wf(),
                fov.covers(*old(map)),
                width == map.width(),
                height == map.height(),
                y < height,
                x <= width,
                forall|a: int, b: int|
                    old(map).in_bounds(a, b) ==> #[trigger] map.at(a, b) == (if b < y as int || (b
                        == y as int && a < x as int) {
                        tile_after_render(old(map).at(a, b), fov.at(a, b))
                    } else {
                        old(map).at(a, b)
                    }),
                draws@ == rows_prefix(*old(map), *fov, y as int) + row_prefix(
                    *old(map),
                    *fov,
                    y as int,
                    x as int,
                ),
            decreases width - x,
        {
            let xi = x as i32;
            let yi = y as i32;
            let visible = fov.is_in_fov(xi, yi);
            let t = map.tile_at(xi, yi);
            proof {
                assert(t == old(map).at(x as int, y as int));
            }
            if visible && !t.explored {
                set_tile(
                    map,
                    xi,
                    yi,
                    Tile { blocked: t.blocked, explored: true, block_sight: t.block_sight },
                );
            }
            let ghost pre_draws = draws@;
            if t.explored || visible {
                let glyph = if t.blocked {
                    '#'
                } else {
                    '.'
                };
                let color = if visible {
                    if t.block_sight {
                        Color { r: 130, g: 110, b: 50 }
                    } else {
                        Color { r: 200, g: 180, b: 50 }
                    }
                } else {
                    if t.block_sight {
                        Color { r: 0, g: 0, b: 100 }
                    } else {
                        Color { r: 50, g: 50, b: 150 }
                    }
                };
                draws.push(CellDraw { x: xi, y: yi, glyph, color });
            }
            proof {
                assert(draws@ =~= pre_draws + opt_draw(
                    cell_draw_of(
                        old(map).at(x as int, y as int),
                        fov.at(x as int, y as int),
                        x as int,
                        y as int,
                    ),
                ));
            }
            x = x + 1;
        }
        proof {
            assert forall|a: int, b: int|
                old(map).in_bounds(a, b) implies #[trigger] map.at(a, b) == (if b < y as int + 1 {
                tile_after_render(old(map).at(a, b), fov.at(a, b))
            } else {
                old(map).at(a, b)
            }) by {
                assert(map.at(a, b) == (if b < y as int || (b == y as int && a < x as int) {
                    tile_after_render(old(map).at(a, b), fov.at(a, b))
                } else {
                    old(map).at(a, b)
                }));
            }
        }
        y = y + 1;
    }
    draws
}

/// The indices of the entities with the given blocking flag that stand on a
/// visible cell, in ascending index order.
pub open spec fn visible_indices(objects: Seq<Object>, fov: FovData, blocks: bool, n: int) -> Seq<
    usize,
>
    decreases n,
{
    if n <= 0 {
        Seq::empty()
    } else {
        let r = visible_indices(objects, fov, blocks, n - 1);
        if fov.at(objects[n - 1].x as int, objects[n - 1].y as int) && objects[n - 1].blocks
            == blocks {
            r.push((n - 1) as usize)
        } else {
            r
        }
    }
}

/// The order entities are drawn in: only those inside the field of view, the
/// non-blocking ones (corpses) first, each group in ascending index order, so
/// that blocking entities end up on top.
pub fn draw_order(objects: &Vec<Object>, fov: &FovData) -> (order: Vec<usize>)
    requires
        fov.wf(),
        forall|j: int|
            0 <= j < objects@.len() ==> (0 <= (#[trigger] objects@[j]).x < fov.width() && 0
                <= objects@[j].y < fov.height()),
    ensures
        order@ == visible_indices(objects@, *fov, false, objects@.len() as int) + visible_indices(
            objects@,
            *fov,
            true,
            objects@.len() as int,
        ),
{
    let mut order: Vec<usize> = Vec::new();
    let mut j: usize = 0;
    while j < objects.len()
        invariant
            fov.wf(),
            forall|k: int|
                0 <= k < objects@.len() ==> (0 <= (#[trigger] objects@[k]).x < fov.width() && 0
                    <= objects@[k].y < fov.height()),
            j <= objects@.len(),
            order@ == visible_indices(objects@, *fov, false, j as int),
        decreases objects@.len() - j,
    {
        if fov.is_in_fov(objects[j].x, objects[j].y) && !objects[j].blocks {
            order.push(j);
        }
        j = j + 1;
    }
    let ghost first = order@;
    let mut k: usize = 0;
    while k < objects.len()
        invariant
            fov.wf(),
            forall|k2: int|
                0 <= k2 < objects@.len() ==> (0 <= (#[trigger] objects@[k2]).x < fov.width() && 0
                    <= objects@[k2].y < fov.height()),
            k <= objects@.len(),
            first == visible_indices(objects@, *fov, false, objects@.len() as int),
            order@ == first + visible_indices(objects@, *fov, true, k as int),
        decreases objects@.len() - k,
    {
        if fov.is_in_fov(objects[k].x, objects[k].y) && objects[k].blocks {
            let ghost pre = order@;
            order.push(k);
            proof {
                assert(order@ =~= pre + seq![k]);
                assert(order@ =~= first + visible_indices(objects@, *fov, true, k as int).push(k));
            }
        }
        k = k + 1;
    }
    order
}

} // verus!
