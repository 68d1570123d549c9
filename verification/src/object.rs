//! Entities and their capabilities: position and appearance, the optional
//! combat capability (`Fighter`) with its damage formula and death
//! transitions, and movement over the grid.
use vstd::prelude::*;
use vstd::string::*;

use crate::log::{appended, msg_is, Message, Messages};
use crate::map::TileGrid;

verus! {

/// An RGB colour; display glue maps it to the terminal.
#[derive(Clone, Copy, PartialEq, Eq, Structural, Debug)]
pub struct Color {
    pub r: u8,
    pub g: u8,
    pub b: u8,
}

impl Color {
    pub fn white() -> (c: Color)
        ensures
            c == (Color { r: 255, g: 255, b: 255 }),
    {
        Color { r: 255, g: 255, b: 255 }
    }

    pub fn black() -> (c: Color)
        ensures
            c == (Color { r: 0, g: 0, b: 0 }),
    {
        Color { r: 0, g: 0, b: 0 }
    }

    pub fn red() -> (c: Color)
        ensures
            c == (Color { r: 255, g: 0, b: 0 }),
    {
        Color { r: 255, g: 0, b: 0 }
    }

    pub fn dark_red() -> (c: Color)
        ensures
            c == (Color { r: 191, g: 0, b: 0 }),
    {
        Color { r: 191, g: 0, b: 0 }
    }

    pub fn yellow() -> (c: Color)
        ensures
            c == (Color { r: 255, g: 255, b: 0 }),
    {
        Color { r: 255, g: 255, b: 0 }
    }

    pub fn light_red() -> (c: Color)
        ensures
            c == (Color { r: 255, g: 115, b: 115 }),
    {
        Color { r: 255, g: 115, b: 115 }
    }

    pub fn light_green() -> (c: Color)
        ensures
            c == (Color { r: 115, g: 255, b: 115 }),
    {
        Color { r: 115, g: 255, b: 115 }
    }
}

/// Which death transition an entity's `Fighter` is bound to; fixed when the
/// capability is attached and never reassigned.
#[derive(Clone, Copy, PartialEq, Eq, Structural, Debug)]
pub enum DeathCallback {
    Player,
    Monster,
}

/// Behaviour capability: the closed set of per-tick decision policies.
#[derive(Clone, Copy, PartialEq, Eq, Structural, Debug)]
pub enum Ai {
    Basic,
}

/// Combat capability: hit points and damage stats.
#[derive(Clone, Copy, PartialEq, Eq, Structural, Debug)]
pub struct Fighter {
    pub max_hp: i32,
    pub hp: i32,
    pub defense: i32,
    pub power: i32,
    pub magic: i32,
    pub magic_defense: i32,
    pub on_death: DeathCallback,
}

/// A simulated actor: the player or a monster. Always drawn as one glyph.
pub struct Object {
    pub x: i32,
    pub y: i32,
    pub glyph: char,
    pub color: Color,
    pub name: String,
    pub blocks: bool,
    pub alive: bool,
    pub fighter: Option<Fighter>,
    pub ai: Option<Ai>,
}

/// Stat bounds every fighter respects; they keep all combat arithmetic inside
/// `i32` (machine limit, not a rule of the damage formula).
pub open spec fn stats_wf(o: Object) -> bool {
    match o.fighter {
        Some(f) => {
            &&& 0 <= f.power <= 0xFFFF
            &&& 0 <= f.defense <= 0xFFFF
            &&& 0 <= f.max_hp <= 0xFFFF
            &&& -0x10000 <= f.hp <= 0xFFFF
        },
        None => true,
    }
}

/// Attack power of an entity; an entity without the combat capability has 0.
pub open spec fn power_of(o: Object) -> int {
    match o.fighter {
        Some(f) => f.power as int,
        None => 0,
    }
}

/// Defense of an entity; an entity without the combat capability has 0.
pub open spec fn defense_of(o: Object) -> int {
    match o.fighter {
        Some(f) => f.defense as int,
        None => 0,
    }
}

/// The damage formula: `max(0, power - defense / 4)`, integer floor division.
pub open spec fn spec_damage(power: int, defense: int) -> int {
    if power - defense / 4 > 0 {
        power - defense / 4
    } else {
        0
    }
}

/// The combat capability after `damage` is applied: hit points drop only when
/// the damage is positive; an entity without the capability is unaffected.
pub open spec fn hp_after(pre: Object, damage: int) -> Option<Fighter> {
    match pre.fighter {
        Some(f) => if damage > 0 {
            Some(Fighter { hp: (f.hp - damage) as i32, ..f })
        } else {
            Some(f)
        },
        None => None,
    }
}

/// Whether applying `damage` kills the entity: it was still alive and its hit
/// points end at or below zero.
pub open spec fn spec_dies(pre: Object, damage: int) -> bool {
    pre.alive && match hp_after(pre, damage) {
        Some(f) => f.hp <= 0,
        None => false,
    }
}

/// Full state transition of `take_damage`: hit points drop, and on death the
/// callback bound to the entity runs — the player is frozen and marked dead,
/// a monster becomes a harmless corpse with a rewritten name.
pub open spec fn take_damage_post(pre: Object, post: Object, damage: int) -> bool {
    if spec_dies(pre, damage) {
        match pre.fighter {
            Some(f) => match f.on_death {
                DeathCallback::Player => post == (Object {
                    alive: false,
                    glyph: '%',
                    color: Color { r: 191, g: 0, b: 0 },
                    fighter: hp_after(pre, damage),
                    ..pre
                }),
                DeathCallback::Monster => {
                    &&& post.x == pre.x
                    &&& post.y == pre.y
                    &&& post.glyph == '%'
                    &&& post.color == (Color { r: 191, g: 0, b: 0 })
                    &&& !post.blocks
                    &&& !post.alive
                    &&& post.fighter is None
                    &&& post.ai is None
                    &&& post.name@ == "Corpse of "@ + pre.name@
                },
            },
            None => false,
        }
    } else {
        post == (Object { fighter: hp_after(pre, damage), ..pre })
    }
}

/// What `take_damage` logs: exactly one death notice when the entity dies,
/// nothing otherwise.
pub open spec fn damage_log_rel(
    pre: Object,
    damage: int,
    log_pre: Seq<Message>,
    log_post: Seq<Message>,
) -> bool {
    if spec_dies(pre, damage) {
        match pre.fighter {
            Some(f) => {
                &&& appended(log_pre, log_post, 1)
                &&& match f.on_death {
                    DeathCallback::Player => msg_is(
                        log_post.last(),
                        "You died!"@,
                        Color { r: 255, g: 0, b: 0 },
                    ),
                    DeathCallback::Monster => msg_is(
                        log_post.last(),
                        pre.name@ + " dies!"@,
                        Color { r: 255, g: 0, b: 0 },
                    ),
                }
            },
            None => false,
        }
    } else {
        log_post == log_pre
    }
}

/// The combat transition is a function of its inputs: any two outcomes of
/// applying the same damage to the same entity agree on every observable
/// field, so a fixed damage sequence replays to the same entity state.
pub proof fn lemma_take_damage_deterministic(pre: Object, post1: Object, post2: Object, damage: int)
    requires
        take_damage_post(pre, post1, damage),
        take_damage_post(pre, post2, damage),
    ensures
        post1.x == post2.x,
        post1.y == post2.y,
        post1.glyph == post2.glyph,
        post1.color == post2.color,
        post1.name@ == post2.name@,
        post1.blocks == post2.blocks,
        post1.alive == post2.alive,
        post1.fighter == post2.fighter,
        post1.ai == post2.ai,
{
}

impl Clone for Object {
    fn clone(&self) -> (r: Self)
        ensures
            r == *self,
    {
        Object {
            x: self.x,
            y: self.y,
            glyph: self.glyph,
            color: self.color,
            name: self.name.clone(),
            blocks: self.blocks,
            alive: self.alive,
            fighter: self.fighter,
            ai: self.ai,
        }
    }
}

impl Object {
    /// Creates a new entity, not yet alive and without capabilities.
    pub fn new(x: i32, y: i32, glyph: char, name: &str, color: Color, blocks: bool) -> (o: Object)
        ensures
            o.x == x,
            o.y == y,
            o.glyph == glyph,
            o.color == color,
            o.name@ == name@,
            o.blocks == blocks,
            !o.alive,
            o.fighter is None,
            o.ai is None,
    {
        Object {
            x,
            y,
            glyph,
            color,
            name: name.to_owned(),
            blocks,
            alive: false,
            fighter: None,
            ai: None,
        }
    }

    /// Sets the position of this entity.
    pub fn set_pos(&mut self, x: i32, y: i32)
        ensures
            *final(self) == (Object { x, y, ..*old(self) }),
    {
        self.x = x;
        self.y = y;
    }

    /// Returns the position.
    pub fn pos(&self) -> (p: (i32, i32))
        ensures
            p.0 == self.x,
            p.1 == self.y,
    {
        (self.x, self.y)
    }

    /// Squared Euclidean distance to another entity, in whole grid cells.
    pub fn distance2_to(&self, other: &Object) -> (d: i64)
        requires
            0 <= self.x <= 0x10000,
            0 <= self.y <= 0x10000,
            0 <= other.x <= 0x10000,
            0 <= other.y <= 0x10000,
        ensures
            d == dist2(self.x as int, self.y as int, other.x as int, other.y as int),
    {
        let dx: i64 = other.x as i64 - self.x as i64;
        let dy: i64 = other.y as i64 - self.y as i64;
        proof {
            lemma_square_bound(dx as int);
            lemma_square_bound(dy as int);
        }
        dx * dx + dy * dy
    }

    /// Applies damage, then dispatches the death transition when hit points
    /// end at or below zero while the entity is still alive.
    pub fn take_damage(&mut self, damage: i32, log: &mut Messages)
        requires
            old(self).fighter matches Some(f) ==> f.hp - damage >= i32::MIN,
        ensures
            take_damage_post(*old(self), *final(self), damage as int),
            damage_log_rel(*old(self), damage as int, old(log).entries@, final(log).entries@),
    {
        if damage > 0 {
            if let Some(f) = self.fighter {
                self.fighter = Some(
                    Fighter {
                        max_hp: f.max_hp,
                        hp: f.hp - damage,
                        defense: f.defense,
                        power: f.power,
                        magic: f.magic,
                        magic_defense: f.magic_defense,
                        on_death: f.on_death,
                    },
                );
            }
        }
        if let Some(f) = self.fighter {
            if f.hp <= 0 && self.alive {
                self.alive = false;
                match f.on_death {
                    DeathCallback::Player => {
                        self.glyph = '%';
                        self.color = Color::dark_red();
                        log.add("You died!".to_owned(), Color::red());
                        proof {
                            assert(log.entries@.subrange(0, old(log).entries@.len() as int)
                                =~= old(log).entries@);
                        }
                    },
                    DeathCallback::Monster => {
                        let text = self.name.clone().concat(" dies!");
                        log.add(text, Color::red());
                        proof {
                            assert(log.entries@.subrange(0, old(log).entries@.len() as int)
                                =~= old(log).entries@);
                        }
                        self.glyph = '%';
                        self.color = Color::dark_red();
                        self.blocks = false;
                        self.fighter = None;
                        self.ai = None;
                        self.name = "Corpse of ".to_owned().concat(self.name.as_str());
                    },
                }
            }
        }
    }

    /// Attacks the target with the damage formula; positive damage is applied
    /// through `take_damage` after a hit notice, non-positive damage only
    /// logs a "no effect" notice.
    pub fn attack(&mut self, target: &mut Object, log: &mut Messages)
        requires
            stats_wf(*old(self)),
            stats_wf(*old(target)),
        ensures
            *final(self) == *old(self),
            attack_post(
                old(self).name@,
                power_of(*old(self)),
                *old(target),
                *final(target),
                old(log).entries@,
                final(log).entries@,
            ),
    {
        let power = match self.fighter {
            Some(f) => f.power,
            None => 0,
        };
        attack_target(&self.name, power, target, log);
    }
}

pub open spec fn dist2(ax: int, ay: int, bx: int, by: int) -> int {
    (bx - ax) * (bx - ax) + (by - ay) * (by - ay)
}

proof fn lemma_square_bound(v: int)
    requires
        -0x20000 <= v <= 0x20000,
    ensures
        0 <= v * v <= 0x400000000,
{
    assert(0 <= v * v <= 0x400000000) by (nonlinear_arith)
        requires
            -0x20000 <= v <= 0x20000,
    ;
}

/// Full contract of one attack, keyed on the attacker's name and power: the
/// target's transition and the exact log growth.
pub open spec fn attack_post(
    atk_name: Seq<char>,
    power: int,
    tgt_pre: Object,
    tgt_post: Object,
    log_pre: Seq<Message>,
    log_post: Seq<Message>,
) -> bool {
    let d = spec_damage(power, defense_of(tgt_pre));
    &&& (if d > 0 {
        take_damage_post(tgt_pre, tgt_post, d)
    } else {
        tgt_post == tgt_pre
    })
    &&& attack_log_rel(atk_name, tgt_pre, d, log_pre, log_post)
}

/// What one attack logs: a hit notice then a possible death notice, or a
/// single "no effect" notice.
pub open spec fn attack_log_rel(
    atk_name: Seq<char>,
    tgt_pre: Object,
    d: int,
    log_pre: Seq<Message>,
    log_post: Seq<Message>,
) -> bool {
    if d > 0 {
        if spec_dies(tgt_pre, d) {
            &&& appended(log_pre, log_post, 2)
            &&& msg_is(
                log_post[log_pre.len() as int],
                atk_name + " attacks "@ + tgt_pre.name@ + "."@,
                Color { r: 255, g: 255, b: 255 },
            )
            &&& match tgt_pre.fighter {
                Some(f) => match f.on_death {
                    DeathCallback::Player => msg_is(
                        log_post.last(),
                        "You died!"@,
                        Color { r: 255, g: 0, b: 0 },
                    ),
                    DeathCallback::Monster => msg_is(
                        log_post.last(),
                        tgt_pre.name@ + " dies!"@,
                        Color { r: 255, g: 0, b: 0 },
                    ),
                },
                None => false,
            }
        } else {
            &&& appended(log_pre, log_post, 1)
            &&& msg_is(
                log_post.last(),
                atk_name + " attacks "@ + tgt_pre.name@ + "."@,
                Color { r: 255, g: 255, b: 255 },
            )
        }
    } else {
        &&& appended(log_pre, log_post, 1)
        &&& msg_is(
            log_post.last(),
            atk_name + " attacks "@ + tgt_pre.name@ + " but it has no effect!"@,
            Color { r: 255, g: 255, b: 255 },
        )
    }
}

/// Shared core of the two attack entry points: the damage formula, the hit or
/// "no effect" notice, and the application through `take_damage`.
fn attack_target(atk_name: &String, power: i32, target: &mut Object, log: &mut Messages)
    requires
        0 <= power <= 0xFFFF,
        stats_wf(*old(target)),
    ensures
        attack_post(
            atk_name@,
            power as int,
            *old(target),
            *final(target),
            old(log).entries@,
            final(log).entries@,
        ),
{
    let defense = match target.fighter {
        Some(f) => f.defense,
        None => 0,
    };
    let damage = power - defense / 4;
    if damage > 0 {
        let text = atk_name.clone().concat(" attacks ").concat(target.name.as_str()).concat(".");
        log.add(text, Color::white());
        let ghost mid = log.entries@;
        target.take_damage(damage, log);
        proof {
            let pre = old(log).entries@;
            let n = pre.len() as int;
            assert(mid.subrange(0, n) =~= pre);
            assert(appended(pre, mid, 1));
            if spec_dies(*old(target), damage as int) {
                crate::log::lemma_appended_trans(pre, mid, log.entries@, 1, 1);
                crate::log::lemma_appended_index(mid, log.entries@, 1);
                assert(log.entries@[n] == mid[n]);
            }
        }
    } else {
        let text = atk_name.clone().concat(" attacks ").concat(target.name.as_str()).concat(
            " but it has no effect!",
        );
        log.add(text, Color::white());
        proof {
            assert(log.entries@.subrange(0, old(log).entries@.len() as int)
                =~= old(log).entries@);
        }
    }
}

/// Attack between two entities of one store, named by distinct indices; the
/// only way the engine resolves combat (self-combat is ruled out by contract).
pub fn attack_at(attacker: usize, target: usize, objects: &mut Vec<Object>, log: &mut Messages)
    requires
        attacker != target,
        attacker < old(objects)@.len(),
        target < old(objects)@.len(),
        stats_wf(old(objects)@[attacker as int]),
        stats_wf(old(objects)@[target as int]),
    ensures
        final(objects)@.len() == old(objects)@.len(),
        forall|j: int|
            0 <= j < old(objects)@.len() && j != target ==> final(objects)@[j] == old(objects)@[j],
        attack_post(
            old(objects)@[attacker as int].name@,
            power_of(old(objects)@[attacker as int]),
            old(objects)@[target as int],
            final(objects)@[target as int],
            old(log).entries@,
            final(log).entries@,
        ),
{
    let power = match objects[attacker].fighter {
        Some(f) => f.power,
        None => 0,
    };
    let name = objects[attacker].name.clone();
    let t = &mut objects[target];
    attack_target(&name, power, t, log);
}

/// Occupancy test of one cell: a wall, or any blocking entity standing there.
pub open spec fn spec_is_blocked(map: TileGrid, objects: Seq<Object>, x: int, y: int) -> bool {
    map.at(x, y).blocked || exists|j: int|
        0 <= j < objects.len() && (#[trigger] objects[j]).blocks && objects[j].x == x
            && objects[j].y == y
}

/// Like `spec_is_blocked`, but the moving entity does not block its own
/// destination.
pub open spec fn blocked_for(map: TileGrid, objects: Seq<Object>, id: int, x: int, y: int) -> bool {
    map.at(x, y).blocked || exists|j: int|
        0 <= j < objects.len() && j != id && (#[trigger] objects[j]).blocks && objects[j].x == x
            && objects[j].y == y
}

pub fn is_blocked(x: i32, y: i32, map: &TileGrid, objects: &Vec<Object>) -> (b: bool)
    requires
        map.wf(),
        map.in_bounds(x as int, y as int),
    ensures
        b == spec_is_blocked(*map, objects@, x as int, y as int),
{
    if map.tile_at(x, y).blocked {
        return true;
    }
    let mut j: usize = 0;
    while j < objects.len()
        invariant
            j <= objects@.len(),
            forall|k: int|
                0 <= k < j ==> !((#[trigger] objects@[k]).blocks && objects@[k].x == x
                    && objects@[k].y == y),
        decreases objects@.len() - j,
    {
        if objects[j].blocks && objects[j].x == x && objects[j].y == y {
            return true;
        }
        j = j + 1;
    }
    false
}

/// What one movement request does: a no-op into a blocked cell, otherwise the
/// entity's position is updated and nothing else changes.
pub open spec fn move_by_post(
    map: TileGrid,
    pre: Seq<Object>,
    post: Seq<Object>,
    id: int,
    dx: int,
    dy: int,
) -> bool {
    let x = pre[id].x + dx;
    let y = pre[id].y + dy;
    if blocked_for(map, pre, id, x, y) {
        post == pre
    } else {
        post == pre.update(id, Object { x: x as i32, y: y as i32, ..pre[id] })
    }
}

/// Moves the entity by the given non-zero delta, unless the destination is a
/// wall or is occupied by another blocking entity (then the call is a no-op).
/// A zero delta is ruled out by contract; callers special-case it as a no-op.
pub fn move_by(id: usize, dx: i32, dy: i32, map: &TileGrid, objects: &mut Vec<Object>)
    requires
        map.wf(),
        id < old(objects)@.len(),
        !(dx == 0 && dy == 0),
        map.in_bounds(
            old(objects)@[id as int].x + dx,
            old(objects)@[id as int].y + dy,
        ),
    ensures
        move_by_post(*map, old(objects)@, final(objects)@, id as int, dx as int, dy as int),
{
    let x = objects[id].x + dx;
    let y = objects[id].y + dy;
    if map.tile_at(x, y).blocked {
        return ;
    }
    let mut j: usize = 0;
    while j < objects.len()
        invariant
            j <= objects@.len(),
            objects@ == old(objects)@,
            x == old(objects)@[id as int].x + dx,
            y == old(objects)@[id as int].y + dy,
            forall|k: int|
                0 <= k < j && k != id ==> !((#[trigger] objects@[k]).blocks && objects@[k].x == x
                    && objects@[k].y == y),
        decreases objects@.len() - j,
    {
        if j != id && objects[j].blocks && objects[j].x == x && objects[j].y == y {
            return ;
        }
        j = j + 1;
    }
    let o = &mut objects[id];
    o.x = x;
    o.y = y;
    proof {
        assert(objects@ =~= old(objects)@.update(
            id as int,
            Object { x: x as i32, y: y as i32, ..old(objects)@[id as int] },
        ));
    }
}

/// Index `j` holds a combat-capable entity standing at `(x, y)`.
pub open spec fn fighter_at(objects: Seq<Object>, x: int, y: int, j: int) -> bool {
    0 <= j < objects.len() && objects[j].fighter is Some && objects[j].x == x && objects[j].y == y
}

/// `j` is the lowest index of a combat-capable entity standing at `(x, y)`.
pub open spec fn first_fighter_at(objects: Seq<Object>, x: int, y: int, j: int) -> bool {
    fighter_at(objects, x, y, j) && forall|k: int|
        0 <= k < j ==> !#[trigger] fighter_at(objects, x, y, k)
}

/// The player attacked the first combat-capable entity at `(x, y)`, index
/// `t`: everything else stands, and the log grew by the attack's notices.
pub open spec fn player_attacked(
    pre: Seq<Object>,
    post: Seq<Object>,
    x: int,
    y: int,
    t: int,
    log_pre: Seq<Message>,
    log_post: Seq<Message>,
) -> bool {
    &&& first_fighter_at(pre, x, y, t)
    &&& t != 0
    &&& post.len() == pre.len()
    &&& (forall|j: int| 0 <= j < pre.len() && j != t ==> post[j] == pre[j])
    &&& attack_post(pre[0].name@, power_of(pre[0]), pre[t], post[t], log_pre, log_post)
}

/// Whole contract of one player move-or-attack request toward `(dx, dy)`: if
/// a combat-capable entity stands on the destination the first such entity is
/// attacked, otherwise the player moves by `move_by`.
pub open spec fn pmoa_post(
    map: TileGrid,
    pre: Seq<Object>,
    post: Seq<Object>,
    dx: int,
    dy: int,
    log_pre: Seq<Message>,
    log_post: Seq<Message>,
) -> bool {
    let x = pre[0].x + dx;
    let y = pre[0].y + dy;
    if exists|j: int| #[trigger] fighter_at(pre, x, y, j) {
        exists|t: int| #[trigger] player_attacked(pre, post, x, y, t, log_pre, log_post)
    } else {
        move_by_post(map, pre, post, 0, dx, dy) && log_post == log_pre
    }
}

impl Object {
    /// Resolves one directional request of the player (entity 0): an attack
    /// against the first combat-capable entity on the destination cell, or a
    /// move there. Self-combat cannot arise: the delta is non-zero, so the
    /// destination never holds the player itself.
    pub fn player_move_or_attack(
        dx: i32,
        dy: i32,
        map: &TileGrid,
        objects: &mut Vec<Object>,
        log: &mut Messages,
    )
        requires
            map.wf(),
            old(objects)@.len() >= 1,
            -1 <= dx <= 1,
            -1 <= dy <= 1,
            !(dx == 0 && dy == 0),
            map.in_bounds(old(objects)@[0].x + dx, old(objects)@[0].y + dy),
            forall|j: int| 0 <= j < old(objects)@.len() ==> stats_wf(#[trigger] old(objects)@[j]),
        ensures
            pmoa_post(
                *map,
                old(objects)@,
                final(objects)@,
                dx as int,
                dy as int,
                old(log).entries@,
                final(log).entries@,
            ),
    {
        let x = objects[0].x + dx;
        let y = objects[0].y + dy;
        let mut found = false;
        let mut target: usize = 0;
        let mut j: usize = 0;
        while j < objects.len()
            invariant
                j <= objects@.len(),
                x == objects@[0].x + dx || found,
                objects@ == old(objects)@,
                found ==> first_fighter_at(objects@, x as int, y as int, target as int),
                !found ==> forall|k: int|
                    0 <= k < j ==> !#[trigger] fighter_at(objects@, x as int, y as int, k),
            decreases objects@.len() - j,
        {
            if !found && objects[j].fighter.is_some() && objects[j].x == x && objects[j].y == y {
                found = true;
                target = j;
            }
            j = j + 1;
        }
        if found {
            proof {
                assert(fighter_at(objects@, x as int, y as int, target as int));
                if target == 0 {
                    assert(objects@[0].x == x && objects@[0].y == y);
                    assert(false);
                }
            }
            attack_at(0, target, objects, log);
            proof {
                assert(player_attacked(
                    old(objects)@,
                    objects@,
                    x as int,
                    y as int,
                    target as int,
                    old(log).entries@,
                    log.entries@,
                ));
            }
        } else {
            proof {
                assert forall|j2: int| !#[trigger] fighter_at(
                    objects@,
                    x as int,
                    y as int,
                    j2,
                ) by {
                    if 0 <= j2 < objects@.len() {
                        assert(!fighter_at(objects@, x as int, y as int, j2));
                    }
                }
            }
            move_by(0, dx, dy, map, objects);
        }
    }
}

/// Sign of the integer, one of -1, 0, 1.
pub open spec fn spec_sign(v: int) -> int {
    if v > 0 {
        1
    } else if v < 0 {
        -1
    } else {
        0
    }
}

/// One component of the rounded unit direction vector toward a target that is
/// `(dx, dy)` away: the step is taken exactly when `|d| / dist >= 1/2`,
/// written without division as `4*d*d >= dist2`.
pub open spec fn spec_step(d: int, dist2: int) -> int {
    if 4 * (d * d) >= dist2 {
        spec_sign(d)
    } else {
        0
    }
}

/// Moves the entity one step along the rounded unit direction vector toward
/// the target cell, through `move_by`.
pub fn move_towards(id: usize, target_x: i32, target_y: i32, map: &TileGrid, objects: &mut Vec<Object>)
    requires
        map.wf(),
        id < old(objects)@.len(),
        1 <= old(objects)@[id as int].x < map.width() - 1,
        1 <= old(objects)@[id as int].y < map.height() - 1,
        map.in_bounds(target_x as int, target_y as int),
        !(target_x == old(objects)@[id as int].x && target_y == old(objects)@[id as int].y),
    ensures
        move_by_post(
            *map,
            old(objects)@,
            final(objects)@,
            id as int,
            spec_step(
                target_x - old(objects)@[id as int].x,
                dist2(
                    old(objects)@[id as int].x as int,
                    old(objects)@[id as int].y as int,
                    target_x as int,
                    target_y as int,
                ),
            ),
            spec_step(
                target_y - old(objects)@[id as int].y,
                dist2(
                    old(objects)@[id as int].x as int,
                    old(objects)@[id as int].y as int,
                    target_x as int,
                    target_y as int,
                ),
            ),
        ),
{
    let px = objects[id].x;
    let py = objects[id].y;
    let dx: i64 = target_x as i64 - px as i64;
    let dy: i64 = target_y as i64 - py as i64;
    proof {
        lemma_square_bound(dx as int);
        lemma_square_bound(dy as int);
    }
    let qx: i64 = dx * dx;
    let qy: i64 = dy * dy;
    let d2: i64 = qx + qy;
    let sx: i32 = if 4 * qx >= d2 {
        if dx > 0 {
            1
        } else if dx < 0 {
            -1
        } else {
            0
        }
    } else {
        0
    };
    let sy: i32 = if 4 * qy >= d2 {
        if dy > 0 {
            1
        } else if dy < 0 {
            -1
        } else {
            0
        }
    } else {
        0
    };
    proof {
        lemma_step_nonzero(dx as int, dy as int);
    }
    move_by(id, sx, sy, map, objects);
}

/// Toward any cell other than the entity's own, the rounded unit direction
/// vector is never the zero step.
proof fn lemma_step_nonzero(dx: int, dy: int)
    requires
        !(dx == 0 && dy == 0),
    ensures
        !(spec_step(dx, dist2(0, 0, dx, dy)) == 0 && spec_step(dy, dist2(0, 0, dx, dy)) == 0),
{
    let s = dx * dx + dy * dy;
    assert(dx * dx + dy * dy > 0) by (nonlinear_arith)
        requires
            !(dx == 0 && dy == 0),
    ;
    if 4 * (dx * dx) < s && 4 * (dy * dy) < s {
        assert(false) by (nonlinear_arith)
            requires
                4 * (dx * dx) < s && 4 * (dy * dy) < s && s == dx * dx + dy * dy && s > 0,
        ;
    }
}

} // verus!
