//! The turn engine: one blocking input intent per tick, player resolution,
//! then — only on a turn actually taken and with the player alive — every
//! monster with a behaviour capability acts once, in ascending index order.
use vstd::prelude::*;

use crate::log::{append_only, lemma_append_only_trans, Message, Messages};
use crate::map::TileGrid;
use crate::object::{
    attack_at, attack_post, blocked_for, defense_of, dist2, fighter_at, move_by, move_by_post,
    move_towards, player_attacked, pmoa_post, power_of, spec_damage, spec_step, stats_wf,
    take_damage_post, Object,
};
use crate::rng::rng_range;

verus! {

/// Per-cell visibility as computed by the out-of-scope field-of-view
/// collaborator, handed to the engine as plain booleans, indexed `[x][y]`.
pub struct FovData {
    pub visible: Vec<Vec<bool>>,
}

impl FovData {
    pub open spec fn width(self) -> int {
        self.visible@.len() as int
    }

    pub open spec fn height(self) -> int {
        if self.visible@.len() > 0 {
            self.visible@[0]@.len() as int
        } else {
            0
        }
    }

    pub open spec fn wf(self) -> bool {
        forall|x: int|
            0 <= x < self.width() ==> (#[trigger] self.visible@[x])@.len() == self.height()
    }

    pub open spec fn at(self, x: int, y: int) -> bool {
        self.visible@[x]@[y]
    }

    /// The visibility grid covers exactly the given tile grid.
    pub open spec fn covers(self, m: TileGrid) -> bool {
        self.width() == m.width() && self.height() == m.height()
    }

    /// An all-hidden visibility grid of the given dimensions.
    pub fn new_hidden(width: usize, height: usize) -> (f: FovData)
        requires
            1 <= width,
            1 <= height,
        ensures
            f.wf(),
            f.width() == width as int,
            f.height() == height as int,
            forall|x: int, y: int|
                0 <= x < width as int && 0 <= y < height as int ==> !#[trigger] f.at(x, y),
    {
        let mut visible: Vec<Vec<bool>> = Vec::new();
        let mut x: usize = 0;
        while x < width
            invariant
                x <= width,
                visible@.len() == x,
                forall|i: int| 0 <= i < x ==> (#[trigger] visible@[i])@.len() == height,
                forall|i: int, j: int|
                    0 <= i < x && 0 <= j < height as int ==> !(#[trigger] visible@[i]@[j]),
            decreases width - x,
        {
            let mut col: Vec<bool> = Vec::new();
            let mut y: usize = 0;
            while y < height
                invariant
                    y <= height,
                    col@.len() == y,
                    forall|j: int| 0 <= j < y ==> !(#[trigger] col@[j]),
                decreases height - y,
            {
                col.push(false);
                y = y + 1;
            }
            visible.push(col);
            x = x + 1;
        }
        FovData { visible }
    }

    /// Marks one cell visible or hidden.
    pub fn set(&mut self, x: usize, y: usize, v: bool)
        requires
            old(self).wf(),
            x < old(self).width(),
            y < old(self).height(),
        ensures
            final(self).wf(),
            final(self).width() == old(self).width(),
            final(self).height() == old(self).height(),
            forall|a: int, b: int|
                0 <= a < old(self).width() && 0 <= b < old(self).height()
                    ==> #[trigger] final(self).at(a, b) == (if a == x as int && b == y as int {
                    v
                } else {
                    old(self).at(a, b)
                }),
    {
        let col = &mut self.visible[x];
        let cell = &mut col[y];
        *cell = v;
    }

    pub fn is_in_fov(&self, x: i32, y: i32) -> (b: bool)
        requires
            self.wf(),
            0 <= x < self.width(),
            0 <= y < self.height(),
        ensures
            b == self.at(x as int, y as int),
    {
        self.visible[x as usize][y as usize]
    }
}

/// The entity stands strictly inside the grid's border.
pub open spec fn interior(map: TileGrid, o: Object) -> bool {
    1 <= o.x < map.width() - 1 && 1 <= o.y < map.height() - 1
}

/// The engine's store invariant: entity 0 is the player (the only one bound
/// to the player death transition), monsters carrying the combat capability
/// are alive, an entity's alive flag agrees with its hit points, all stats
/// are bounded, and every entity stands strictly inside the border.
pub open spec fn store_wf(objects: Seq<Object>, map: TileGrid) -> bool {
    &&& objects.len() >= 1
    &&& (forall|j: int| 0 <= j < objects.len() ==> stats_wf(#[trigger] objects[j]))
    &&& (forall|j: int|
        0 <= j < objects.len() ==> ((#[trigger] objects[j]).fighter matches Some(f) ==> (
        objects[j].alive <==> f.hp >= 1)))
    &&& (forall|j: int|
        1 <= j < objects.len() ==> ((#[trigger] objects[j]).fighter matches Some(f) ==> (
        f.on_death is Monster && objects[j].alive)))
    &&& (objects[0].fighter matches Some(f) ==> f.on_death is Player)
    &&& (forall|j: int| 0 <= j < objects.len() ==> interior(map, #[trigger] objects[j]))
}

/// What a tick's player phase answered: a turn was taken, nothing happened,
/// or the session ends.
#[derive(Clone, Copy, PartialEq, Eq, Structural, Debug)]
pub enum PlayerAction {
    TookTurn,
    DidntTakeTurn,
    Exit,
}

/// One input event, already mapped to an intent: one of the eight directional
/// deltas, a display toggle, quitting, or nothing.
#[derive(Clone, Copy, PartialEq, Eq, Structural, Debug)]
pub enum Intent {
    Move(i32, i32),
    ToggleDisplay,
    Quit,
    Wait,
}

/// A movement intent carries one of the eight directional deltas.
pub open spec fn intent_wf(intent: Intent) -> bool {
    match intent {
        Intent::Move(dx, dy) => -1 <= dx <= 1 && -1 <= dy <= 1 && !(dx == 0 && dy == 0),
        _ => true,
    }
}

/// The action a tick answers, as a function of the intent and the player.
pub open spec fn action_of(intent: Intent, objects: Seq<Object>) -> PlayerAction {
    match intent {
        Intent::Quit => PlayerAction::Exit,
        Intent::Move(dx, dy) => if objects[0].alive {
            PlayerAction::TookTurn
        } else {
            PlayerAction::DidntTakeTurn
        },
        _ => PlayerAction::DidntTakeTurn,
    }
}

/// The stateless per-tick decision of the basic monster policy: frozen
/// outside the field of view; seek the player at squared distance at least 4;
/// attack an adjacent living player; wander once the player is dead.
#[derive(Clone, Copy, PartialEq, Eq, Structural, Debug)]
pub enum AiChoice {
    Freeze,
    Seek,
    AttackPlayer,
    Wander,
}

pub open spec fn ai_choice_of(monster: Object, player: Object, in_fov: bool) -> AiChoice {
    if !in_fov {
        AiChoice::Freeze
    } else if dist2(monster.x as int, monster.y as int, player.x as int, player.y as int) >= 4 {
        AiChoice::Seek
    } else if player.fighter matches Some(f) && f.hp > 0 {
        AiChoice::AttackPlayer
    } else {
        AiChoice::Wander
    }
}

/// The whole behaviour of one monster's turn, keyed on the policy's choice.
pub open spec fn ai_turn_post(
    map: TileGrid,
    pre: Seq<Object>,
    post: Seq<Object>,
    id: int,
    in_fov: bool,
    log_pre: Seq<Message>,
    log_post: Seq<Message>,
) -> bool {
    let m = pre[id];
    let p = pre[0];
    let d2 = dist2(m.x as int, m.y as int, p.x as int, p.y as int);
    match ai_choice_of(m, p, in_fov) {
        AiChoice::Freeze => post == pre && log_post == log_pre,
        AiChoice::Seek => move_by_post(
            map,
            pre,
            post,
            id,
            spec_step(p.x - m.x, d2),
            spec_step(p.y - m.y, d2),
        ) && log_post == log_pre,
        AiChoice::AttackPlayer => {
            &&& post.len() == pre.len()
            &&& (forall|j: int| 0 < j < pre.len() ==> post[j] == pre[j])
            &&& attack_post(m.name@, power_of(m), p, post[0], log_pre, log_post)
        },
        AiChoice::Wander => (exists|ddx: int, ddy: int|
            -1 <= ddx <= 0 && -1 <= ddy <= 0 && #[trigger] wander_step(
                map,
                pre,
                post,
                id,
                ddx,
                ddy,
            )) && log_post == log_pre,
    }
}

/// One wandering step: a zero delta is a guaranteed no-op, anything else goes
/// through `move_by`.
pub open spec fn wander_step(
    map: TileGrid,
    pre: Seq<Object>,
    post: Seq<Object>,
    id: int,
    ddx: int,
    ddy: int,
) -> bool {
    if ddx == 0 && ddy == 0 {
        post == pre
    } else {
        move_by_post(map, pre, post, id, ddx, ddy)
    }
}

/// An in-bounds open cell of an enclosed grid lies strictly inside the border.
pub proof fn lemma_open_interior(m: TileGrid, x: int, y: int)
    requires
        m.wf(),
        m.enclosed(),
        m.in_bounds(x, y),
        m.open_at(x, y),
    ensures
        1 <= x < m.width() - 1,
        1 <= y < m.height() - 1,
{
    assert(!m.at(x, y).blocked);
}

/// After one movement request, the store invariant still holds.
proof fn lemma_wf_after_move(
    pre: Seq<Object>,
    post: Seq<Object>,
    id: int,
    dx: int,
    dy: int,
    map: TileGrid,
)
    requires
        map.wf(),
        map.enclosed(),
        store_wf(pre, map),
        0 <= id < pre.len(),
        map.in_bounds(pre[id].x + dx, pre[id].y + dy),
        move_by_post(map, pre, post, id, dx, dy),
    ensures
        store_wf(post, map),
{
    let x = pre[id].x + dx;
    let y = pre[id].y + dy;
    if !blocked_for(map, pre, id, x, y) {
        lemma_open_interior(map, x, y);
        assert forall|j: int| 0 <= j < post.len() implies interior(map, #[trigger] post[j]) by {
            if j != id {
                assert(post[j] == pre[j]);
            }
        }
        assert forall|j: int| 0 <= j < post.len() implies stats_wf(#[trigger] post[j]) by {
            if j != id {
                assert(post[j] == pre[j]);
            } else {
                assert(stats_wf(pre[id]));
            }
        }
    }
}

/// After one attack against a live target, the store invariant still holds.
proof fn lemma_wf_after_attack(
    pre: Seq<Object>,
    post: Seq<Object>,
    atk: int,
    tgt: int,
    map: TileGrid,
)
    requires
        map.wf(),
        store_wf(pre, map),
        post.len() == pre.len(),
        0 <= atk < pre.len(),
        0 <= tgt < pre.len(),
        atk != tgt,
        pre[tgt].fighter matches Some(f) ==> pre[tgt].alive,
        forall|j: int| 0 <= j < pre.len() && j != tgt ==> post[j] == pre[j],
        ({
            let d = spec_damage(power_of(pre[atk]), defense_of(pre[tgt]));
            if d > 0 {
                take_damage_post(pre[tgt], post[tgt], d)
            } else {
                post[tgt] == pre[tgt]
            }
        }),
    ensures
        store_wf(post, map),
{
    let d = spec_damage(power_of(pre[atk]), defense_of(pre[tgt]));
    assert(0 <= d <= 0xFFFF);
    assert forall|j: int| 0 <= j < post.len() implies stats_wf(#[trigger] post[j]) by {
        if j != tgt {
            assert(post[j] == pre[j]);
        }
    }
    assert forall|j: int| 0 <= j < post.len() implies interior(map, #[trigger] post[j]) by {
        if j != tgt {
            assert(post[j] == pre[j]);
        } else {
            assert(interior(map, pre[tgt]));
        }
    }
    assert forall|j: int|
        0 <= j < post.len() implies ((#[trigger] post[j]).fighter matches Some(f) ==> (
    post[j].alive <==> f.hp >= 1)) by {
        if j != tgt {
            assert(post[j] == pre[j]);
        }
    }
    assert forall|j: int|
        1 <= j < post.len() implies ((#[trigger] post[j]).fighter matches Some(f) ==> (
    f.on_death is Monster && post[j].alive)) by {
        if j != tgt {
            assert(post[j] == pre[j]);
        }
    }
}

/// One monster's turn: evaluated only when the monster is inside the field
/// of view (a hidden monster is frozen, regardless of distance); then the
/// stateless policy seeks, attacks, or wanders.
pub fn ai_take_turn(
    monster_id: usize,
    fov: &FovData,
    map: &TileGrid,
    objects: &mut Vec<Object>,
    rng: &mut rand::rngs::StdRng,
    log: &mut Messages,
)
    requires
        map.wf(),
        map.enclosed(),
        fov.wf(),
        fov.covers(*map),
        store_wf(old(objects)@, *map),
        0 < monster_id < old(objects)@.len(),
    ensures
        store_wf(final(objects)@, *map),
        final(objects)@.len() == old(objects)@.len(),
        ai_turn_post(
            *map,
            old(objects)@,
            final(objects)@,
            monster_id as int,
            fov.at(
                old(objects)@[monster_id as int].x as int,
                old(objects)@[monster_id as int].y as int,
            ),
            old(log).entries@,
            final(log).entries@,
        ),
{
    let mx = objects[monster_id].x;
    let my = objects[monster_id].y;
    if fov.is_in_fov(mx, my) {
        let d2 = objects[monster_id].distance2_to(&objects[0]);
        if d2 >= 4 {
            let px = objects[0].x;
            let py = objects[0].y;
            proof {
                if px == mx && py == my {
                    assert((px as int - mx as int) * (px as int - mx as int) + (py as int
                        - my as int) * (py as int - my as int) == 0) by (nonlinear_arith)
                        requires
                            px == mx && py == my,
                    ;
                    assert(dist2(mx as int, my as int, px as int, py as int) == 0);
                }
            }
            move_towards(monster_id, px, py, map, objects);
            proof {
                lemma_wf_after_move(
                    old(objects)@,
                    objects@,
                    monster_id as int,
                    spec_step(px - mx, d2 as int),
                    spec_step(py - my, d2 as int),
                    *map,
                );
            }
        } else {
            let player_alive = match &objects[0].fighter {
                Some(f) => f.hp > 0,
                None => false,
            };
            if player_alive {
                attack_at(monster_id, 0, objects, log);
                proof {
                    lemma_wf_after_attack(old(objects)@, objects@, monster_id as int, 0, *map);
                }
            } else {
                let ddx = rng_range(rng, -1, 1);
                let ddy = rng_range(rng, -1, 1);
                if !(ddx == 0 && ddy == 0) {
                    move_by(monster_id, ddx, ddy, map, objects);
                    proof {
                        lemma_wf_after_move(
                            old(objects)@,
                            objects@,
                            monster_id as int,
                            ddx as int,
                            ddy as int,
                            *map,
                        );
                    }
                }
                proof {
                    assert(wander_step(
                        *map,
                        old(objects)@,
                        objects@,
                        monster_id as int,
                        ddx as int,
                        ddy as int,
                    ));
                }
            }
        }
    }
}


/// What one full monster phase may change: the player never moves (monsters
/// only attack it), a monster keeps everything but its position, and an
/// entity without a behaviour capability does not act at all.
pub open spec fn turn_frame(pre: Seq<Object>, post: Seq<Object>) -> bool {
    &&& pre.len() >= 1
    &&& post.len() == pre.len()
    &&& post[0] == (Object {
        alive: post[0].alive,
        glyph: post[0].glyph,
        color: post[0].color,
        fighter: post[0].fighter,
        ..pre[0]
    })
    &&& (forall|j: int|
        1 <= j < pre.len() ==> (#[trigger] post[j]) == (Object {
            x: post[j].x,
            y: post[j].y,
            ..pre[j]
        }))
    &&& (forall|j: int|
        1 <= j < pre.len() ==> ((#[trigger] pre[j]).ai is None ==> post[j] == pre[j]))
}

pub proof fn lemma_turn_frame_refl(s: Seq<Object>)
    requires
        s.len() >= 1,
    ensures
        turn_frame(s, s),
{
}

/// The monster-phase frame composes across the per-monster steps.
pub proof fn lemma_turn_frame_trans(a: Seq<Object>, b: Seq<Object>, c: Seq<Object>)
    requires
        turn_frame(a, b),
        turn_frame(b, c),
    ensures
        turn_frame(a, c),
{
    assert forall|j: int|
        1 <= j < a.len() implies (#[trigger] c[j]) == (Object { x: c[j].x, y: c[j].y, ..a[j] }) by {
        assert(b[j] == (Object { x: b[j].x, y: b[j].y, ..a[j] }));
        assert(c[j] == (Object { x: c[j].x, y: c[j].y, ..b[j] }));
    }
    assert forall|j: int|
        1 <= j < a.len() implies ((#[trigger] a[j]).ai is None ==> c[j] == a[j]) by {
        if a[j].ai is None {
            assert(b[j] == a[j]);
            assert(b[j].ai is None);
            assert(c[j] == b[j]);
        }
    }
}

/// A single movement respects the monster-phase frame.
proof fn lemma_frame_move(
    map: TileGrid,
    pre: Seq<Object>,
    post: Seq<Object>,
    id: int,
    dx: int,
    dy: int,
)
    requires
        1 <= id < pre.len(),
        pre[id].ai is Some,
        move_by_post(map, pre, post, id, dx, dy),
    ensures
        turn_frame(pre, post),
{
    let x = pre[id].x + dx;
    let y = pre[id].y + dy;
    if blocked_for(map, pre, id, x, y) {
        lemma_turn_frame_refl(pre);
    } else {
        assert forall|j: int|
            1 <= j < pre.len() implies (#[trigger] post[j]) == (Object {
            x: post[j].x,
            y: post[j].y,
            ..pre[j]
        }) by {
            if j != id {
                assert(post[j] == pre[j]);
            }
        }
        assert forall|j: int|
            1 <= j < pre.len() && (#[trigger] pre[j]).ai is None implies post[j] == pre[j] by {
            assert(j != id);
            assert(post[j] == pre[j]);
        }
    }
}

/// One monster's turn respects the monster-phase frame and grows the log
/// append-only.
proof fn lemma_ai_frame(
    map: TileGrid,
    pre: Seq<Object>,
    post: Seq<Object>,
    id: int,
    in_fov: bool,
    log_pre: Seq<Message>,
    log_post: Seq<Message>,
)
    requires
        1 <= id < pre.len(),
        pre[id].ai is Some,
        post.len() == pre.len(),
        pre[0].fighter matches Some(f) ==> f.on_death is Player,
        ai_turn_post(map, pre, post, id, in_fov, log_pre, log_post),
    ensures
        turn_frame(pre, post),
        append_only(log_pre, log_post),
{
    let m = pre[id];
    let p = pre[0];
    let d2v = dist2(m.x as int, m.y as int, p.x as int, p.y as int);
    match ai_choice_of(m, p, in_fov) {
        AiChoice::Freeze => {
            lemma_turn_frame_refl(pre);
            assert(log_post.subrange(0, log_pre.len() as int) =~= log_pre);
        },
        AiChoice::Seek => {
            lemma_frame_move(map, pre, post, id, spec_step(p.x - m.x, d2v), spec_step(
                p.y - m.y,
                d2v,
            ));
            assert(log_post.subrange(0, log_pre.len() as int) =~= log_pre);
        },
        AiChoice::AttackPlayer => {
            assert forall|j: int|
                1 <= j < pre.len() implies (#[trigger] post[j]) == (Object {
                x: post[j].x,
                y: post[j].y,
                ..pre[j]
            }) by {
                assert(post[j] == pre[j]);
            }
            assert(append_only(log_pre, log_post));
        },
        AiChoice::Wander => {
            let (ddx, ddy) = choose|ddx: int, ddy: int|
                -1 <= ddx <= 0 && -1 <= ddy <= 0 && #[trigger] wander_step(
                    map,
                    pre,
                    post,
                    id,
                    ddx,
                    ddy,
                );
            if ddx == 0 && ddy == 0 {
                lemma_turn_frame_refl(pre);
            } else {
                lemma_frame_move(map, pre, post, id, ddx, ddy);
            }
            assert(log_post.subrange(0, log_pre.len() as int) =~= log_pre);
        },
    }
}

/// After the player's move-or-attack, the store invariant still holds.
proof fn lemma_wf_after_pmoa(
    map: TileGrid,
    pre: Seq<Object>,
    post: Seq<Object>,
    dx: int,
    dy: int,
    log_pre: Seq<Message>,
    log_post: Seq<Message>,
)
    requires
        map.wf(),
        map.enclosed(),
        store_wf(pre, map),
        -1 <= dx <= 1,
        -1 <= dy <= 1,
        !(dx == 0 && dy == 0),
        pmoa_post(map, pre, post, dx, dy, log_pre, log_post),
    ensures
        store_wf(post, map),
        post.len() == pre.len(),
        append_only(log_pre, log_post),
{
    let x = pre[0].x + dx;
    let y = pre[0].y + dy;
    if exists|j: int| #[trigger] fighter_at(pre, x, y, j) {
        let t = choose|t: int| #[trigger] player_attacked(pre, post, x, y, t, log_pre, log_post);
        lemma_wf_after_attack(pre, post, 0, t, map);
        assert(append_only(log_pre, log_post));
    } else {
        lemma_wf_after_move(pre, post, 0, dx, dy, map);
        assert(log_post.subrange(0, log_pre.len() as int) =~= log_pre);
    }
}

/// Resolves one input intent for the player: quitting ends the session, a
/// directional intent of a living player resolves as a move-or-attack and
/// counts as a taken turn, anything else does nothing.
pub fn handle_keys(
    intent: Intent,
    map: &TileGrid,
    objects: &mut Vec<Object>,
    log: &mut Messages,
) -> (r: PlayerAction)
    requires
        map.wf(),
        map.enclosed(),
        store_wf(old(objects)@, *map),
        intent_wf(intent),
    ensures
        store_wf(final(objects)@, *map),
        final(objects)@.len() == old(objects)@.len(),
        r == action_of(intent, old(objects)@),
        append_only(old(log).entries@, final(log).entries@),
        (match intent {
            Intent::Move(dx, dy) => old(objects)@[0].alive ==> pmoa_post(
                *map,
                old(objects)@,
                final(objects)@,
                dx as int,
                dy as int,
                old(log).entries@,
                final(log).entries@,
            ),
            _ => true,
        }),
        r != PlayerAction::TookTurn ==> final(objects)@ == old(objects)@ && final(log).entries@
            == old(log).entries@,
{
    proof {
        assert(old(log).entries@.subrange(0, old(log).entries@.len() as int)
            =~= old(log).entries@);
    }
    match intent {
        Intent::Quit => PlayerAction::Exit,
        Intent::Move(dx, dy) => {
            if objects[0].alive {
                Object::player_move_or_attack(dx, dy, map, objects, log);
                proof {
                    lemma_wf_after_pmoa(
                        *map,
                        old(objects)@,
                        objects@,
                        dx as int,
                        dy as int,
                        old(log).entries@,
                        log.entries@,
                    );
                }
                PlayerAction::TookTurn
            } else {
                PlayerAction::DidntTakeTurn
            }
        },
        Intent::ToggleDisplay => PlayerAction::DidntTakeTurn,
        Intent::Wait => PlayerAction::DidntTakeTurn,
    }
}

/// Runs the monster phase of a tick: every non-player entity carrying a
/// behaviour capability acts once, in strictly ascending index order — the
/// deliberate, deterministic turn order of the engine.
pub fn monsters_turn(
    fov: &FovData,
    map: &TileGrid,
    objects: &mut Vec<Object>,
    rng: &mut rand::rngs::StdRng,
    log: &mut Messages,
)
    requires
        map.wf(),
        map.enclosed(),
        fov.wf(),
        fov.covers(*map),
        store_wf(old(objects)@, *map),
    ensures
        store_wf(final(objects)@, *map),
        final(objects)@.len() == old(objects)@.len(),
        turn_frame(old(objects)@, final(objects)@),
        append_only(old(log).entries@, final(log).entries@),
{
    proof {
        lemma_turn_frame_refl(objects@);
        assert(log.entries@.subrange(0, log.entries@.len() as int) =~= log.entries@);
    }
    let mut id: usize = 1;
    while id < objects.len()
        invariant
            map.wf(),
            map.enclosed(),
            fov.wf(),
            fov.covers(*map),
            store_wf(objects@, *map),
            objects@.len() == old(objects)@.len(),
            turn_frame(old(objects)@, objects@),
            append_only(old(log).entries@, log.entries@),
            1 <= id,
        decreases objects@.len() - id,
    {
        if objects[id].ai.is_some() {
            let ghost pre_step = objects@;
            let ghost log_pre = log.entries@;
            ai_take_turn(id, fov, map, objects, rng, log);
            proof {
                lemma_ai_frame(
                    *map,
                    pre_step,
                    objects@,
                    id as int,
                    fov.at(pre_step[id as int].x as int, pre_step[id as int].y as int),
                    log_pre,
                    log.entries@,
                );
                lemma_turn_frame_trans(old(objects)@, pre_step, objects@);
                lemma_append_only_trans(old(log).entries@, log_pre, log.entries@);
            }
        }
        id = id + 1;
    }
}

/// One simulation tick: resolve the input intent for the player; then, only
/// if a turn was actually taken and the player is alive, run the monster
/// phase. A quit intent ends the tick before any monster acts.
pub fn game_tick(
    intent: Intent,
    fov: &FovData,
    map: &TileGrid,
    objects: &mut Vec<Object>,
    rng: &mut rand::rngs::StdRng,
    log: &mut Messages,
) -> (r: PlayerAction)
    requires
        map.wf(),
        map.enclosed(),
        fov.wf(),
        fov.covers(*map),
        store_wf(old(objects)@, *map),
        intent_wf(intent),
    ensures
        store_wf(final(objects)@, *map),
        final(objects)@.len() == old(objects)@.len(),
        r == action_of(intent, old(objects)@),
        append_only(old(log).entries@, final(log).entries@),
        r != PlayerAction::TookTurn ==> final(objects)@ == old(objects)@ && final(log).entries@
            == old(log).entries@,
        (match intent {
            Intent::Move(dx, dy) => (r == PlayerAction::TookTurn) ==> exists|
                mid: Seq<Object>,
                log_mid: Seq<Message>,
            |
                {
                    &&& #[trigger] pmoa_post(
                        *map,
                        old(objects)@,
                        mid,
                        dx as int,
                        dy as int,
                        old(log).entries@,
                        log_mid,
                    )
                    &&& turn_frame(mid, final(objects)@)
                    &&& append_only(log_mid, final(log).entries@)
                },
            _ => true,
        }),
{
    let action = handle_keys(intent, map, objects, log);
    let ghost mid = objects@;
    let ghost log_mid = log.entries@;
    if action == PlayerAction::TookTurn && objects[0].alive {
        monsters_turn(fov, map, objects, rng, log);
    }
    proof {
        if action == PlayerAction::TookTurn && !mid[0].alive {
            lemma_turn_frame_refl(mid);
        }
        lemma_append_only_trans(old(log).entries@, log_mid, log.entries@);
        if action == PlayerAction::TookTurn {
            assert(turn_frame(mid, objects@));
        }
    }
    action
}

/// The per-session state that the display layer reads: the grid and the log.
pub struct Game {
    pub map: TileGrid,
    pub messages: Messages,
}

impl Game {
    /// First entity standing exactly at `(x, y)`, if any.
    pub fn find_object(x: i32, y: i32, objects: &Vec<Object>) -> (r: Option<usize>)
        ensures
            match r {
                Some(i) => i < objects@.len() && objects@[i as int].x == x && objects@[i as int].y
                    == y && forall|k: int|
                    0 <= k < i ==> !((#[trigger] objects@[k]).x == x && objects@[k].y == y),
                None => forall|k: int|
                    0 <= k < objects@.len() ==> !((#[trigger] objects@[k]).x == x && objects@[k].y
                        == y),
            },
    {
        let mut i: usize = 0;
        while i < objects.len()
            invariant
                i <= objects@.len(),
                forall|k: int|
                    0 <= k < i ==> !((#[trigger] objects@[k]).x == x && objects@[k].y == y),
            decreases objects@.len() - i,
        {
            if objects[i].x == x && objects[i].y == y {
                return Some(i);
            }
            i = i + 1;
        }
        None
    }
}

} // verus!
