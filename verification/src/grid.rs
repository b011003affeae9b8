//! The world engine: one value owning the maze, the player, the registries
//! and the render snapshot, with every rule of the game — maze carving,
//! movement legality, fog-of-war visibility, pickups, the monster chase step
//! and the win/loss verdict — stated as contracts over [`GridView`].

use vstd::prelude::*;

verus! {

use crate::combat::CombatOutcome;
use crate::data::{GameData, GameDataView};
use crate::entity::{EntityTrait, EntityView};
use crate::equipment::{Equipment, EquipmentManager, EquipmentType, EquipmentView};
use crate::item::{Item, ItemManager, ItemType, ItemView};
use crate::monster::{Monster, MonsterManager};
use crate::player::{has_equip, Player, PlayerView};
use crate::ui::{UI, UIView};
use crate::{chebyshev_check, chebyshev_within, fits_i32, text_rows, views};

/// Icon shown for a wall cell.
pub open spec fn wall_icon() -> Seq<char> {
    "🟧"@
}

/// Icon shown for a floor cell.
pub open spec fn no_wall_icon() -> Seq<char> {
    "⬛️"@
}

/// Icon shown for the goal cell.
pub open spec fn goal_icon() -> Seq<char> {
    "👑"@
}

/// Icon shown for a pickup whose kind the player cannot tell apart.
pub open spec fn default_item_icon() -> Seq<char> {
    "🎁"@
}

/// Icon shown for the player once dead.
pub open spec fn dead_player_icon() -> Seq<char> {
    "💀"@
}

/// Player icon once a Hat is worn.
pub open spec fn player_with_hat_icon() -> Seq<char> {
    "🤠"@
}

/// Player icon once Glasses are worn (and no Hat).
pub open spec fn player_with_glasses_icon() -> Seq<char> {
    "🤓"@
}

/// Icon shown where the player stands on a monster.
pub open spec fn combat_icon() -> Seq<char> {
    "❌"@
}

/// The verdict of a session tick: losing takes precedence over winning, so
/// the two terminal outcomes exclude each other.
#[derive(Clone, Copy, Debug, PartialEq, Eq, Structural)]
pub enum GameOutcome {
    Ongoing,
    Won,
    Lost,
}

/// The mathematical value of the whole world.
pub ghost struct GridView {
    pub size: usize,
    pub player: PlayerView,
    pub last_movement: char,
    pub just_flee: bool,
    pub monsters: Seq<EntityView>,
    pub items: Seq<ItemView>,
    pub equipments: Seq<EquipmentView>,
    pub goal: (usize, usize),
    pub walls: Seq<(usize, usize)>,
    pub visible_walls: Seq<(usize, usize)>,
    pub map: Seq<Seq<Seq<char>>>,
    pub ui: UIView,
    pub data: GameDataView,
}

pub struct Grid {
    size: usize,
    player: Player,
    last_movement: char,
    just_flee: bool,
    monsters: MonsterManager,
    items: ItemManager,
    equipments: EquipmentManager,
    goal: (usize, usize),
    walls: Vec<(usize, usize)>,
    visible_walls: Vec<(usize, usize)>,
    map_to_display: Vec<Vec<String>>,
    ui: UI,
    data: GameData,
}

impl View for Grid {
    type V = GridView;

    closed spec fn view(&self) -> GridView {
        GridView {
            size: self.size,
            player: self.player@,
            last_movement: self.last_movement,
            just_flee: self.just_flee,
            monsters: self.monsters@,
            items: self.items@,
            equipments: self.equipments@,
            goal: self.goal,
            walls: self.walls@,
            visible_walls: self.visible_walls@,
            map: text_rows(self.map_to_display@),
            ui: self.ui@,
            data: self.data@,
        }
    }
}

/// The sizes the engine accepts: at least 3 cells a side (the carve looks
/// two cells ahead) and an area that fits in a `usize`.
pub open spec fn size_ok(size: usize) -> bool {
    3 <= size && size * size <= usize::MAX
}

/// Whether `p` is a wall cell of `g`.
pub open spec fn is_wall(g: GridView, p: (usize, usize)) -> bool {
    g.walls.contains(p)
}

/// Whether `p` has entered the remembered set of wall cells.
pub open spec fn remembered(g: GridView, p: (usize, usize)) -> bool {
    g.visible_walls.contains(p)
}

/// Whether the player currently sees `p`.
pub open spec fn sees(g: GridView, p: (usize, usize)) -> bool {
    chebyshev_within(g.player.ent.position, p, g.player.range)
}

/// The fog-of-war rule for walls: a wall in sight is revealed (and then
/// remembered), and anything remembered stays rendered.
pub open spec fn displays_wall(g: GridView, p: (usize, usize)) -> bool {
    (sees(g, p) && is_wall(g, p)) || remembered(g, p)
}

/// The remembered set after one wall-visibility query at `p`.
pub open spec fn after_wall_query(g: GridView, p: (usize, usize)) -> Seq<(usize, usize)> {
    if sees(g, p) && is_wall(g, p) && !remembered(g, p) {
        g.visible_walls.push(p)
    } else {
        g.visible_walls
    }
}

/// Whether a cell is free of the player, the goal, walls and every
/// registered occupant: the cells new pickups and monsters may land on.
pub open spec fn cell_is_empty(g: GridView, p: (usize, usize)) -> bool {
    &&& p != g.player.ent.position
    &&& p != g.goal
    &&& !g.walls.contains(p)
    &&& !(exists|i: int| 0 <= i < g.equipments.len() && g.equipments[i].position == p)
    &&& !(exists|i: int| 0 <= i < g.items.len() && g.items[i].position == p)
    &&& !(exists|i: int| 0 <= i < g.monsters.len() && g.monsters[i].position == p)
}

/// The positions of a sequence of items.
pub open spec fn item_positions(items: Seq<ItemView>) -> Seq<(usize, usize)> {
    items.map_values(|it: ItemView| it.position)
}

/// The positions of a sequence of equipment pieces.
pub open spec fn equipment_positions(equipments: Seq<EquipmentView>) -> Seq<(usize, usize)> {
    equipments.map_values(|e: EquipmentView| e.position)
}

/// The index of the first occurrence of `pos`, or -1 if there is none.
pub open spec fn first_at(positions: Seq<(usize, usize)>, pos: (usize, usize)) -> int
    decreases positions.len(),
{
    if positions.len() == 0 {
        -1
    } else if positions[0] == pos {
        0
    } else {
        let r = first_at(positions.drop_first(), pos);
        if r < 0 {
            -1
        } else {
            r + 1
        }
    }
}

/// `first_at` names exactly the first occurrence of `pos`, when one exists.
pub proof fn lemma_first_at(positions: Seq<(usize, usize)>, pos: (usize, usize))
    ensures
        first_at(positions, pos) == -1 ==> forall|j: int|
            0 <= j < positions.len() ==> positions[j] != pos,
        first_at(positions, pos) >= 0 ==> {
            &&& 0 <= first_at(positions, pos) < positions.len()
            &&& positions[first_at(positions, pos)] == pos
            &&& forall|j: int| 0 <= j < first_at(positions, pos) ==> positions[j] != pos
        },
    decreases positions.len(),
{
    if positions.len() == 0 {
    } else if positions[0] == pos {
    } else {
        let rest = positions.drop_first();
        let r = first_at(rest, pos);
        lemma_first_at(rest, pos);
        if r == -1 {
            assert(first_at(positions, pos) == -1);
            assert forall|j: int| 0 <= j < positions.len() implies positions[j] != pos by {
                if j > 0 {
                    assert(rest[j - 1] == positions[j]);
                }
            }
        } else {
            assert(first_at(positions, pos) == r + 1);
            assert(positions[r + 1] == rest[r]);
            assert forall|j: int| 0 <= j < r + 1 implies positions[j] != pos by {
                if j > 0 {
                    assert(rest[j - 1] == positions[j]);
                }
            }
        }
    }
}

/// The healing potion the duplicate-equipment rule hands out.
pub open spec fn potion_view(data: GameDataView, position: (usize, usize)) -> ItemView {
    ItemView {
        name: data.healing_potion.name,
        icon: data.healing_potion.icon,
        description: data.healing_potion.description,
        item_type: ItemType::HealingPotion,
        position,
        visible: true,
        equiped: false,
    }
}

/// The world after one item-pickup check: if a not-yet-collected item sits
/// first at the player's cell, the player gains a copy of it and the
/// registry entry is marked invisible and collected; otherwise nothing
/// changes.
pub open spec fn check_item_spec(g: GridView) -> GridView {
    let pos = g.player.ent.position;
    let i = first_at(item_positions(g.items), pos);
    if 0 <= i < g.items.len() && !g.items[i].equiped {
        GridView {
            player: PlayerView { items: g.player.items.push(g.items[i]), ..g.player },
            items: g.items.update(i, ItemView { visible: false, equiped: true, ..g.items[i] }),
            ..g
        }
    } else {
        g
    }
}

/// The world after one equipment-pickup check. A new equipment type is worn
/// (a Hat extends sight to 5 and swaps the icon; Glasses swap the icon when
/// no Hat is worn); a type already owned turns into a healing potion
/// instead. Either way the registry copy is marked invisible and taken.
pub open spec fn check_equipment_spec(g: GridView) -> GridView {
    let pos = g.player.ent.position;
    let i = first_at(equipment_positions(g.equipments), pos);
    if 0 <= i < g.equipments.len() && !g.equipments[i].equiped {
        let e = g.equipments[i];
        let p1 = if has_equip(g.player.equipments, e.equipment_type) {
            PlayerView { items: g.player.items.push(potion_view(g.data, e.position)), ..g.player }
        } else {
            let p2 = if e.equipment_type == EquipmentType::Hat {
                PlayerView {
                    range: 5,
                    ent: EntityView { icon: player_with_hat_icon(), ..g.player.ent },
                    ..g.player
                }
            } else if e.equipment_type == EquipmentType::Glasses && !has_equip(
                g.player.equipments,
                EquipmentType::Hat,
            ) {
                PlayerView {
                    ent: EntityView { icon: player_with_glasses_icon(), ..g.player.ent },
                    ..g.player
                }
            } else {
                g.player
            };
            PlayerView { equipments: p2.equipments.push(e), ..p2 }
        };
        GridView {
            player: p1,
            equipments: g.equipments.update(
                i,
                EquipmentView { visible: false, equiped: true, ..e },
            ),
            ..g
        }
    } else {
        g
    }
}

/// The cell a movement key aims at, if the step stays on the grid: `z`,
/// `q`, `s`, `d` step up, left, down and right; their uppercase doubles,
/// available once Shoes are worn, step two cells at once.
pub open spec fn step_target(
    size: usize,
    pos: (usize, usize),
    movement: char,
    shoes: bool,
) -> Option<(usize, usize)> {
    let x = pos.0;
    let y = pos.1;
    if movement == 'z' && y > 0 {
        Some((x, (y - 1) as usize))
    } else if movement == 'q' && x > 0 {
        Some((((x - 1) as usize), y))
    } else if movement == 's' && y < size - 1 {
        Some((x, (y + 1) as usize))
    } else if movement == 'd' && x < size - 1 {
        Some((((x + 1) as usize), y))
    } else if shoes && movement == 'Z' && y > 1 {
        Some((x, (y - 2) as usize))
    } else if shoes && movement == 'Q' && x > 1 {
        Some((((x - 2) as usize), y))
    } else if shoes && movement == 'S' && y < size - 2 {
        Some((x, (y + 2) as usize))
    } else if shoes && movement == 'D' && x < size - 2 {
        Some((((x + 2) as usize), y))
    } else {
        None
    }
}

/// The world after one player-movement key: nothing changes on an ignored
/// key; otherwise the player moves unless a wall blocks the target cell,
/// the key is recorded as the last movement and the just-fled flag clears.
pub open spec fn move_player_spec(g: GridView, movement: char) -> GridView {
    let shoes = has_equip(g.player.equipments, EquipmentType::Shoes);
    match step_target(g.size, g.player.ent.position, movement, shoes) {
        None => g,
        Some(np) => GridView {
            player: PlayerView {
                ent: EntityView {
                    position: if g.walls.contains(np) {
                        g.player.ent.position
                    } else {
                        np
                    },
                    ..g.player.ent
                },
                ..g.player
            },
            last_movement: movement,
            just_flee: false,
            ..g
        },
    }
}

/// The geometric inverse of a movement key; a blank for anything else.
pub open spec fn inverse_move(c: char) -> char {
    if c == 'z' {
        's'
    } else if c == 'q' {
        'd'
    } else if c == 's' {
        'z'
    } else if c == 'd' {
        'q'
    } else if c == 'Z' {
        'S'
    } else if c == 'Q' {
        'D'
    } else if c == 'S' {
        'Z'
    } else if c == 'D' {
        'Q'
    } else {
        ' '
    }
}

/// The world after a flee: the inverse of the last movement is replayed (if
/// there is one) and the just-fled flag is set.
pub open spec fn flee_spec(g: GridView) -> GridView {
    let m = inverse_move(g.last_movement);
    let g2 = if m == ' ' {
        g
    } else {
        move_player_spec(g, m)
    };
    GridView { just_flee: true, ..g2 }
}

/// The cell contents of a maze held as rows of bytes.
pub open spec fn byte_rows(m: Seq<Vec<u8>>) -> Seq<Seq<u8>> {
    views(m)
}

/// How many cells of a row are still uncarved.
pub open spec fn row_zeros(row: Seq<u8>) -> int
    decreases row.len(),
{
    if row.len() == 0 {
        0
    } else {
        row_zeros(row.drop_last()) + if row.last() == 0 {
            1int
        } else {
            0int
        }
    }
}

/// How many cells of a maze are still uncarved.
pub open spec fn grid_zeros(m: Seq<Seq<u8>>) -> int
    decreases m.len(),
{
    if m.len() == 0 {
        0
    } else {
        grid_zeros(m.drop_last()) + row_zeros(m.last())
    }
}

proof fn lemma_row_zeros_nonneg(row: Seq<u8>)
    ensures
        row_zeros(row) >= 0,
    decreases row.len(),
{
    if row.len() > 0 {
        lemma_row_zeros_nonneg(row.drop_last());
    }
}

proof fn lemma_grid_zeros_nonneg(m: Seq<Seq<u8>>)
    ensures
        grid_zeros(m) >= 0,
    decreases m.len(),
{
    if m.len() > 0 {
        lemma_grid_zeros_nonneg(m.drop_last());
        lemma_row_zeros_nonneg(m.last());
    }
}

/// Carving one cell removes it from the uncarved count, or leaves the count
/// alone if it was already carved.
proof fn lemma_row_zeros_update(row: Seq<u8>, x: int)
    requires
        0 <= x < row.len(),
    ensures
        row_zeros(row.update(x, 1u8)) == row_zeros(row) - (if row[x] == 0 {
            1int
        } else {
            0int
        }),
    decreases row.len(),
{
    let upd = row.update(x, 1u8);
    if x == row.len() - 1 {
        assert(upd.drop_last() =~= row.drop_last());
    } else {
        assert(upd.drop_last() =~= row.drop_last().update(x, 1u8));
        lemma_row_zeros_update(row.drop_last(), x);
    }
}

proof fn lemma_grid_zeros_update(m: Seq<Seq<u8>>, x: int, y: int)
    requires
        0 <= y < m.len(),
        0 <= x < m[y].len(),
    ensures
        grid_zeros(m.update(y, m[y].update(x, 1u8))) == grid_zeros(m) - (if m[y][x] == 0 {
            1int
        } else {
            0int
        }),
    decreases m.len(),
{
    let upd = m.update(y, m[y].update(x, 1u8));
    if y == m.len() - 1 {
        assert(upd.drop_last() =~= m.drop_last());
        lemma_row_zeros_update(m[y], x);
    } else {
        assert(upd.drop_last() =~= m.drop_last().update(y, m[y].update(x, 1u8)));
        assert(upd.last() =~= m.last());
        lemma_grid_zeros_update(m.drop_last(), x, y);
    }
}

/// Marks cell `(x, y)` of the maze as carved.
fn set_cell(m: &mut Vec<Vec<u8>>, x: usize, y: usize)
    requires
        y < old(m)@.len(),
        x < byte_rows(old(m)@)[y as int].len(),
    ensures
        final(m)@.len() == old(m)@.len(),
        byte_rows(final(m)@) == byte_rows(old(m)@).update(
            y as int,
            byte_rows(old(m)@)[y as int].update(x as int, 1u8),
        ),
        forall|yy: int|
            0 <= yy < old(m)@.len() ==> (#[trigger] byte_rows(final(m)@)[yy]).len() == byte_rows(
                old(m)@,
            )[yy].len(),
{
    let row: &mut Vec<u8> = &mut m[y];
    row[x] = 1u8;
    proof {
        assert(byte_rows(m@) =~= byte_rows(old(m)@).update(
            y as int,
            byte_rows(old(m)@)[y as int].update(x as int, 1u8),
        ));
    }
}

/// No cell of the grid is free for another occupant.
pub open spec fn no_empty_cell(g: GridView) -> bool {
    forall|p: (usize, usize)|
        p.0 < g.size && p.1 < g.size ==> !cell_is_empty(g, p)
}

/// What holds of the item at index `k` when the placement pass put it
/// there: a visible, uncollected healing potion on a free floor cell that no
/// earlier entry occupies.
pub open spec fn new_item_ok(g: GridView, k: int) -> bool {
    let it = g.items[k];
    &&& it.item_type == ItemType::HealingPotion
    &&& it.visible
    &&& !it.equiped
    &&& it.position.0 < g.size
    &&& it.position.1 < g.size
    &&& it.position != g.player.ent.position
    &&& it.position != g.goal
    &&& !g.walls.contains(it.position)
    &&& forall|j: int| 0 <= j < g.equipments.len() ==> g.equipments[j].position != it.position
    &&& forall|j: int| 0 <= j < g.monsters.len() ==> g.monsters[j].position != it.position
    &&& forall|j: int| 0 <= j < k ==> g.items[j].position != it.position
}

/// What holds of the equipment at index `k` when the placement pass put it
/// there.
pub open spec fn new_equipment_ok(g: GridView, k: int) -> bool {
    let e = g.equipments[k];
    &&& e.visible
    &&& !e.equiped
    &&& e.position.0 < g.size
    &&& e.position.1 < g.size
    &&& e.position != g.player.ent.position
    &&& e.position != g.goal
    &&& !g.walls.contains(e.position)
    &&& forall|j: int| 0 <= j < g.items.len() ==> g.items[j].position != e.position
    &&& forall|j: int| 0 <= j < g.monsters.len() ==> g.monsters[j].position != e.position
    &&& forall|j: int| 0 <= j < k ==> g.equipments[j].position != e.position
}

/// What holds of the monster at index `k` when the placement pass put it
/// there: a freshly spawned species on a free floor cell.
pub open spec fn new_monster_ok(g: GridView, k: int) -> bool {
    let m = g.monsters[k];
    &&& (exists|t: crate::monster::MonsterType|
        t != crate::monster::MonsterType::Player && m == crate::monster::monster_view_of(
            g.data.monster(t),
            m.position,
        ))
    &&& m.visible
    &&& m.position.0 < g.size
    &&& m.position.1 < g.size
    &&& m.position != g.player.ent.position
    &&& m.position != g.goal
    &&& !g.walls.contains(m.position)
    &&& forall|j: int| 0 <= j < g.items.len() ==> g.items[j].position != m.position
    &&& forall|j: int| 0 <= j < g.equipments.len() ==> g.equipments[j].position != m.position
    &&& forall|j: int| 0 <= j < k ==> g.monsters[j].position != m.position
}

/// The positions of a sequence of monsters.
pub open spec fn monster_positions(monsters: Seq<EntityView>) -> Seq<(usize, usize)> {
    monsters.map_values(|m: EntityView| m.position)
}

/// Manhattan distance between two cells.
pub open spec fn manhattan(a: (usize, usize), b: (usize, usize)) -> int {
    crate::abs_diff(a.0, b.0) + crate::abs_diff(a.1, b.1)
}

/// The axis-adjacent cells a monster may try, in generation order: east,
/// west, south, north, keeping only those on the grid.
pub open spec fn chase_candidates(size: usize, pos: (usize, usize)) -> Seq<(usize, usize)> {
    let mx = pos.0;
    let my = pos.1;
    let s0 = Seq::<(usize, usize)>::empty();
    let s1 = if mx + 1 < size {
        s0.push((((mx + 1) as usize), my))
    } else {
        s0
    };
    let s2 = if mx > 0 {
        s1.push((((mx - 1) as usize), my))
    } else {
        s1
    };
    let s3 = if my + 1 < size {
        s2.push((mx, ((my + 1) as usize)))
    } else {
        s2
    };
    if my > 0 {
        s3.push((mx, ((my - 1) as usize)))
    } else {
        s3
    }
}

/// Whether a candidate cell is open to a moving monster: not a wall, not
/// already claimed by an earlier mover this tick, and not any monster's
/// pre-tick position.
pub open spec fn step_allowed(
    walls: Seq<(usize, usize)>,
    claimed: Seq<(usize, usize)>,
    olds: Seq<(usize, usize)>,
    c: (usize, usize),
) -> bool {
    !walls.contains(c) && !claimed.contains(c) && !olds.contains(c)
}

/// The earliest cell of `s` at minimal Manhattan distance to `player`: a
/// later cell displaces the running choice only by being strictly closer.
pub open spec fn first_min(s: Seq<(usize, usize)>, player: (usize, usize)) -> (usize, usize)
    recommends
        s.len() > 0,
    decreases s.len(),
{
    if s.len() <= 1 {
        s[0]
    } else {
        let m = first_min(s.drop_last(), player);
        if manhattan(s.last(), player) < manhattan(m, player) {
            s.last()
        } else {
            m
        }
    }
}

/// The candidates of `cands` that are open, in order.
pub open spec fn allowed_steps(
    walls: Seq<(usize, usize)>,
    claimed: Seq<(usize, usize)>,
    olds: Seq<(usize, usize)>,
    cands: Seq<(usize, usize)>,
) -> Seq<(usize, usize)>
    decreases cands.len(),
{
    if cands.len() == 0 {
        Seq::<(usize, usize)>::empty()
    } else {
        let rest = allowed_steps(walls, claimed, olds, cands.drop_last());
        if step_allowed(walls, claimed, olds, cands.last()) {
            rest.push(cands.last())
        } else {
            rest
        }
    }
}

/// The cell one monster moves to: the open candidate closest to the player
/// (ties broken by generation order), or its own cell when no candidate is
/// open.
pub open spec fn chase_step(
    walls: Seq<(usize, usize)>,
    claimed: Seq<(usize, usize)>,
    olds: Seq<(usize, usize)>,
    size: usize,
    mpos: (usize, usize),
    player: (usize, usize),
) -> (usize, usize) {
    let allowed = allowed_steps(walls, claimed, olds, chase_candidates(size, mpos));
    if allowed.len() == 0 {
        mpos
    } else {
        first_min(allowed, player)
    }
}

/// The cells the first `n` monsters claim this tick, in iteration order.
pub open spec fn chase_positions(g: GridView, n: int) -> Seq<(usize, usize)>
    decreases n,
{
    if n <= 0 {
        Seq::<(usize, usize)>::empty()
    } else {
        let prev = chase_positions(g, n - 1);
        prev.push(
            chase_step(
                g.walls,
                prev,
                monster_positions(g.monsters),
                g.size,
                g.monsters[n - 1].position,
                g.player.ent.position,
            ),
        )
    }
}

/// The world after one monster tick: each monster in turn takes its chase
/// step, or nothing moves at all on the tick after a flee.
pub open spec fn move_monsters_spec(g: GridView) -> GridView {
    if g.just_flee {
        g
    } else {
        GridView {
            monsters: Seq::new(
                g.monsters.len(),
                |i: int| EntityView { position: chase_positions(g, g.monsters.len() as int)[i], ..g.monsters[i] },
            ),
            ..g
        }
    }
}

/// The terrain layer of the render: walls under the fog-of-war rule, then
/// the player (a skull once dead), the goal crown, and bare floor.
pub open spec fn base_icon(g: GridView, x: int, y: int) -> Seq<char> {
    let p = ((x as usize), (y as usize));
    if displays_wall(g, p) {
        wall_icon()
    } else if g.player.ent.position == p {
        if g.player.ent.hp <= 0 {
            dead_player_icon()
        } else {
            g.player.ent.icon
        }
    } else if g.goal == p {
        goal_icon()
    } else {
        no_wall_icon()
    }
}

/// The whole terrain layer, indexed `[x][y]`.
pub open spec fn base_map(g: GridView) -> Seq<Seq<Seq<char>>> {
    Seq::new(g.size as nat, |x: int| Seq::new(g.size as nat, |y: int| base_icon(g, x, y)))
}

/// Whether an item is rendered: in sight, still visible, not hidden under a
/// monster and not under the player.
pub open spec fn item_drawn(g: GridView, it: ItemView) -> bool {
    &&& chebyshev_within(it.position, g.player.ent.position, g.player.range)
    &&& it.visible
    &&& !(exists|j: int| 0 <= j < g.monsters.len() && g.monsters[j].position == it.position)
    &&& g.player.ent.position != it.position
}

/// The icon an item renders as: its own icon only once the player wears
/// Glasses, a generic gift otherwise.
pub open spec fn pickup_icon(g: GridView, icon: Seq<char>) -> Seq<char> {
    if has_equip(g.player.equipments, EquipmentType::Glasses) {
        icon
    } else {
        default_item_icon()
    }
}

/// Whether an equipment piece is rendered; the rule matches `item_drawn`.
pub open spec fn equipment_drawn(g: GridView, e: EquipmentView) -> bool {
    &&& chebyshev_within(e.position, g.player.ent.position, g.player.range)
    &&& e.visible
    &&& !(exists|j: int| 0 <= j < g.monsters.len() && g.monsters[j].position == e.position)
    &&& g.player.ent.position != e.position
}

/// Whether a monster is rendered: in sight and not defeated.
pub open spec fn monster_drawn(g: GridView, m: EntityView) -> bool {
    chebyshev_within(m.position, g.player.ent.position, g.player.range) && m.visible
}

/// The icon a monster renders as: a combat cross on the player's own cell.
pub open spec fn monster_icon(g: GridView, m: EntityView) -> Seq<char> {
    if g.player.ent.position == m.position {
        combat_icon()
    } else {
        m.icon
    }
}

/// Paints one icon onto the map at `p`.
pub open spec fn paint_cell(
    m: Seq<Seq<Seq<char>>>,
    p: (usize, usize),
    icon: Seq<char>,
) -> Seq<Seq<Seq<char>>> {
    m.update(p.0 as int, m[p.0 as int].update(p.1 as int, icon))
}

/// The map after the item layer is painted, in insertion order.
pub open spec fn paint_items(
    g: GridView,
    m: Seq<Seq<Seq<char>>>,
    items: Seq<ItemView>,
) -> Seq<Seq<Seq<char>>>
    decreases items.len(),
{
    if items.len() == 0 {
        m
    } else {
        let prev = paint_items(g, m, items.drop_last());
        let it = items.last();
        if item_drawn(g, it) {
            paint_cell(prev, it.position, pickup_icon(g, it.icon))
        } else {
            prev
        }
    }
}

/// The map after the equipment layer is painted.
pub open spec fn paint_equipments(
    g: GridView,
    m: Seq<Seq<Seq<char>>>,
    equipments: Seq<EquipmentView>,
) -> Seq<Seq<Seq<char>>>
    decreases equipments.len(),
{
    if equipments.len() == 0 {
        m
    } else {
        let prev = paint_equipments(g, m, equipments.drop_last());
        let e = equipments.last();
        if equipment_drawn(g, e) {
            paint_cell(prev, e.position, pickup_icon(g, e.icon))
        } else {
            prev
        }
    }
}

/// The map after the monster layer is painted on top.
pub open spec fn paint_monsters(
    g: GridView,
    m: Seq<Seq<Seq<char>>>,
    monsters: Seq<EntityView>,
) -> Seq<Seq<Seq<char>>>
    decreases monsters.len(),
{
    if monsters.len() == 0 {
        m
    } else {
        let prev = paint_monsters(g, m, monsters.drop_last());
        let mo = monsters.last();
        if monster_drawn(g, mo) {
            paint_cell(prev, mo.position, monster_icon(g, mo))
        } else {
            prev
        }
    }
}

/// A square character map of side `size`.
pub open spec fn map_dims_ok(m: Seq<Seq<Seq<char>>>, size: usize) -> bool {
    m.len() == size && forall|a: int| 0 <= a < size ==> (#[trigger] m[a]).len() == size
}

/// The full display map of a world: terrain, then items, equipment and
/// monsters, later layers over earlier ones.
pub open spec fn render_map(g: GridView) -> Seq<Seq<Seq<char>>> {
    paint_monsters(
        g,
        paint_equipments(g, paint_items(g, base_map(g), g.items), g.equipments),
        g.monsters,
    )
}

/// Every open candidate comes from the candidate list.
proof fn lemma_allowed_steps_subset(
    walls: Seq<(usize, usize)>,
    claimed: Seq<(usize, usize)>,
    olds: Seq<(usize, usize)>,
    cands: Seq<(usize, usize)>,
)
    ensures
        forall|k: int|
            0 <= k < allowed_steps(walls, claimed, olds, cands).len() ==> cands.contains(
                #[trigger] allowed_steps(walls, claimed, olds, cands)[k],
            ),
    decreases cands.len(),
{
    if cands.len() > 0 {
        lemma_allowed_steps_subset(walls, claimed, olds, cands.drop_last());
        let rest = allowed_steps(walls, claimed, olds, cands.drop_last());
        assert forall|k: int|
            0 <= k < allowed_steps(walls, claimed, olds, cands).len() implies cands.contains(
            #[trigger] allowed_steps(walls, claimed, olds, cands)[k],
        ) by {
            if k < rest.len() {
                let e = rest[k];
                let j = choose|j: int| 0 <= j < cands.drop_last().len() && cands.drop_last()[j] == e;
                assert(cands[j] == e);
            } else {
                assert(cands[cands.len() - 1] == cands.last());
            }
        }
    }
}

/// A world out of free cells stays out of them as registries only grow.
proof fn lemma_no_empty_monotone(g1: GridView, g2: GridView)
    requires
        g2.size == g1.size,
        g2.player.ent.position == g1.player.ent.position,
        g2.goal == g1.goal,
        g2.walls == g1.walls,
        g1.items.len() <= g2.items.len(),
        forall|k: int| 0 <= k < g1.items.len() ==> g2.items[k] == g1.items[k],
        g1.equipments.len() <= g2.equipments.len(),
        forall|k: int| 0 <= k < g1.equipments.len() ==> g2.equipments[k] == g1.equipments[k],
        g1.monsters.len() <= g2.monsters.len(),
        forall|k: int| 0 <= k < g1.monsters.len() ==> g2.monsters[k] == g1.monsters[k],
        no_empty_cell(g1),
    ensures
        no_empty_cell(g2),
{
    assert forall|p: (usize, usize)|
        p.0 < g2.size && p.1 < g2.size implies !cell_is_empty(g2, p) by {
        assert(!cell_is_empty(g1, p));
        if cell_is_empty(g2, p) {
            if exists|i: int| 0 <= i < g1.items.len() && g1.items[i].position == p {
                let i = choose|i: int| 0 <= i < g1.items.len() && g1.items[i].position == p;
                assert(g2.items[i].position == p);
            }
            if exists|i: int| 0 <= i < g1.equipments.len() && g1.equipments[i].position == p {
                let i = choose|i: int|
                    0 <= i < g1.equipments.len() && g1.equipments[i].position == p;
                assert(g2.equipments[i].position == p);
            }
            if exists|i: int| 0 <= i < g1.monsters.len() && g1.monsters[i].position == p {
                let i = choose|i: int|
                    0 <= i < g1.monsters.len() && g1.monsters[i].position == p;
                assert(g2.monsters[i].position == p);
            }
        }
    }
}

/// Checking for an item pickup twice at the same spot changes the world
/// exactly as checking once does: the first pickup marks the registry entry
/// collected, which blocks the second.
pub proof fn lemma_pickup_item_idempotent(g: GridView)
    ensures
        check_item_spec(check_item_spec(g)) == check_item_spec(g),
{
    let pos = g.player.ent.position;
    let i = first_at(item_positions(g.items), pos);
    if 0 <= i < g.items.len() && !g.items[i].equiped {
        let g2 = check_item_spec(g);
        assert(item_positions(g2.items) =~= item_positions(g.items));
        assert(g2.items[i].equiped);
        assert(check_item_spec(g2) == g2);
    }
}

/// Checking for an equipment pickup twice at the same spot changes the
/// world exactly as checking once does.
pub proof fn lemma_pickup_equipment_idempotent(g: GridView)
    ensures
        check_equipment_spec(check_equipment_spec(g)) == check_equipment_spec(g),
{
    let pos = g.player.ent.position;
    let i = first_at(equipment_positions(g.equipments), pos);
    if 0 <= i < g.equipments.len() && !g.equipments[i].equiped {
        let g2 = check_equipment_spec(g);
        assert(equipment_positions(g2.equipments) =~= equipment_positions(g.equipments));
        assert(g2.equipments[i].equiped);
        assert(check_equipment_spec(g2) == g2);
    }
}

/// Exec computation of [`manhattan`].
fn manhattan_check(a: (usize, usize), b: (usize, usize), size: usize) -> (r: usize)
    requires
        a.0 < size,
        a.1 < size,
        b.0 < size,
        b.1 < size,
        size_ok(size),
    ensures
        r == manhattan(a, b),
{
    proof {
        assert(2 * size <= size * size) by (nonlinear_arith)
            requires
                3 <= size,
        ;
    }
    let dx = if a.0 >= b.0 {
        a.0 - b.0
    } else {
        b.0 - a.0
    };
    let dy = if a.1 >= b.1 {
        a.1 - b.1
    } else {
        b.1 - a.1
    };
    dx + dy
}

/// Whether `v` holds the position `p`.
fn contains_pos(v: &Vec<(usize, usize)>, p: (usize, usize)) -> (r: bool)
    ensures
        r == v@.contains(p),
{
    let n = v.len();
    let mut i: usize = 0;
    while i < n
        invariant
            n == v@.len(),
            i <= n,
            forall|j: int| 0 <= j < i ==> v@[j] != p,
        decreases n - i,
    {
        if v[i].0 == p.0 && v[i].1 == p.1 {
            assert(v@[i as int] == p);
            return true;
        }
        i = i + 1;
    }
    false
}

/// A deep copy of a display grid, row by row and string by string.
fn clone_text_grid(m: &Vec<Vec<String>>) -> (r: Vec<Vec<String>>)
    ensures
        text_rows(r@) == text_rows(m@),
{
    let mut r: Vec<Vec<String>> = Vec::new();
    let n = m.len();
    let mut i: usize = 0;
    while i < n
        invariant
            n == m@.len(),
            i <= n,
            r@.len() == i,
            forall|k: int| 0 <= k < i ==> #[trigger] text_rows(r@)[k] == text_rows(m@)[k],
        decreases n - i,
    {
        let src = &m[i];
        let mut row: Vec<String> = Vec::new();
        let w = src.len();
        let mut j: usize = 0;
        while j < w
            invariant
                w == src@.len(),
                j <= w,
                row@.len() == j,
                forall|k: int| 0 <= k < j ==> (#[trigger] row@[k])@ == (src@[k])@,
            decreases w - j,
        {
            row.push(src[j].clone());
            j = j + 1;
        }
        proof {
            assert(text_rows(r@.push(row))[i as int] =~= text_rows(m@)[i as int]);
            assert(forall|k: int|
                0 <= k < i ==> #[trigger] text_rows(r@.push(row))[k] == text_rows(r@)[k]);
        }
        r.push(row);
        i = i + 1;
    }
    proof {
        assert(text_rows(r@) =~= text_rows(m@));
    }
    r
}

/// A copy of an equipment list with the same contents.
fn clone_equipment_vec(v: &Vec<Equipment>) -> (r: Vec<Equipment>)
    ensures
        views(r@) == views(v@),
{
    let mut r: Vec<Equipment> = Vec::new();
    let n = v.len();
    let mut i: usize = 0;
    while i < n
        invariant
            n == v@.len(),
            i <= n,
            views(r@) == views(v@).take(i as int),
        decreases n - i,
    {
        let c = v[i].clone();
        proof {
            crate::lemma_views_push(r@, c);
            assert(views(r@).push(c@) =~= views(v@).take(i + 1));
        }
        r.push(c);
        i = i + 1;
    }
    proof {
        assert(views(v@).take(n as int) =~= views(v@));
    }
    r
}

/// A copy of an item list with the same contents.
fn clone_item_vec(v: &Vec<Item>) -> (r: Vec<Item>)
    ensures
        views(r@) == views(v@),
{
    let mut r: Vec<Item> = Vec::new();
    let n = v.len();
    let mut i: usize = 0;
    while i < n
        invariant
            n == v@.len(),
            i <= n,
            views(r@) == views(v@).take(i as int),
        decreases n - i,
    {
        let c = v[i].clone();
        proof {
            crate::lemma_views_push(r@, c);
            assert(views(r@).push(c@) =~= views(v@).take(i + 1));
        }
        r.push(c);
        i = i + 1;
    }
    proof {
        assert(views(v@).take(n as int) =~= views(v@));
    }
    r
}

/// Writes one icon string into the display map at `(x, y)`.
fn set_map_cell(m: &mut Vec<Vec<String>>, x: usize, y: usize, v: String)
    requires
        x < old(m)@.len(),
        y < text_rows(old(m)@)[x as int].len(),
    ensures
        final(m)@.len() == old(m)@.len(),
        text_rows(final(m)@) == paint_cell(text_rows(old(m)@), (x, y), v@),
{
    let ghost icon = v@;
    proof {
        assert(text_rows(old(m)@)[x as int].len() == old(m)@[x as int]@.len());
    }
    let row: &mut Vec<String> = &mut m[x];
    row[y] = v;
    proof {
        assert(text_rows(m@) =~~= paint_cell(text_rows(old(m)@), (x, y), icon));
    }
}

/// A `size` by `size` display grid of floor icons.
fn floor_map(size: usize) -> (r: Vec<Vec<String>>)
    requires
        size_ok(size),
    ensures
        text_rows(r@).len() == size,
        forall|a: int| 0 <= a < size ==> #[trigger] text_rows(r@)[a].len() == size,
        forall|a: int, b: int|
            0 <= a < size && 0 <= b < size ==> #[trigger] text_rows(r@)[a][b] == no_wall_icon(),
{
    let mut map: Vec<Vec<String>> = Vec::new();
    let mut a: usize = 0;
    while a < size
        invariant
            a <= size,
            text_rows(map@).len() == a,
            forall|j: int| 0 <= j < a ==> #[trigger] text_rows(map@)[j].len() == size,
            forall|j: int, b: int|
                0 <= j < a && 0 <= b < size ==> #[trigger] text_rows(map@)[j][b]
                    == no_wall_icon(),
        decreases size - a,
    {
        let mut row: Vec<String> = Vec::new();
        let mut b: usize = 0;
        while b < size
            invariant
                b <= size,
                row@.len() == b,
                forall|k: int| 0 <= k < b ==> (#[trigger] row@[k])@ == no_wall_icon(),
            decreases size - b,
        {
            row.push("⬛️".to_owned());
            b = b + 1;
        }
        proof {
            crate::lemma_text_rows_push(map@, row);
        }
        map.push(row);
        a = a + 1;
    }
    map
}

impl Grid {
    /// A fresh world of the given size: the player starts at the origin with
    /// the injected stats, the goal lands at random in the far quarter of the
    /// grid, and no walls, pickups or monsters exist yet.
    pub fn new(size: usize, ui: UI, data: GameData) -> (r: Grid)
        requires
            size_ok(size),
        ensures
            r@.size == size,
            r@.player == (PlayerView {
                ent: EntityView {
                    name: data@.player.name,
                    icon: data@.player.icon,
                    description: data@.player.description,
                    entity_type: crate::entity::EntityType::Monster,
                    hp: data@.player.hp,
                    atk: data@.player.atk,
                    position: (0, 0),
                    visible: true,
                },
                equipments: Seq::<EquipmentView>::empty(),
                items: Seq::<ItemView>::empty(),
                range: 2,
            }),
            r@.last_movement == ' ',
            r@.just_flee == false,
            r@.monsters == Seq::<EntityView>::empty(),
            r@.items == Seq::<ItemView>::empty(),
            r@.equipments == Seq::<EquipmentView>::empty(),
            size * 3 / 4 <= r@.goal.0 < size,
            size * 3 / 4 <= r@.goal.1 < size,
            r@.walls == Seq::<(usize, usize)>::empty(),
            r@.visible_walls == Seq::<(usize, usize)>::empty(),
            r@.map.len() == size,
            forall|a: int| 0 <= a < size ==> #[trigger] r@.map[a].len() == size,
            forall|a: int, b: int|
                0 <= a < size && 0 <= b < size ==> #[trigger] r@.map[a][b] == no_wall_icon(),
            r@.ui == ui@,
            r@.data == data@,
    {
        assert(size * 3 <= size * size) by (nonlinear_arith)
            requires
                3 <= size,
        ;
        let low = size * 3 / 4;
        let goal = (
            low + crate::rng::rand_below(size - low),
            low + crate::rng::rand_below(size - low),
        );
        let map_to_display = floor_map(size);
        let player = Player::new(&data.player, (0, 0));
        let r = Grid {
            size,
            player,
            last_movement: ' ',
            just_flee: false,
            monsters: MonsterManager::new(),
            items: ItemManager::new(),
            equipments: EquipmentManager::new(),
            goal,
            walls: Vec::new(),
            visible_walls: Vec::new(),
            map_to_display,
            ui,
            data,
        };
        proof {
            assert(r@.walls =~= Seq::<(usize, usize)>::empty());
            assert(r@.visible_walls =~= Seq::<(usize, usize)>::empty());
        }
        r
    }

    /// A world with a chosen goal and player: the deterministic counterpart
    /// of `new`, for callers that lay the world out themselves.
    pub fn from_parts(size: usize, goal: (usize, usize), player: Player, ui: UI, data: GameData)
        -> (r: Grid)
        requires
            size_ok(size),
            goal.0 < size,
            goal.1 < size,
        ensures
            r@.size == size,
            r@.player == player@,
            r@.last_movement == ' ',
            r@.just_flee == false,
            r@.monsters == Seq::<EntityView>::empty(),
            r@.items == Seq::<ItemView>::empty(),
            r@.equipments == Seq::<EquipmentView>::empty(),
            r@.goal == goal,
            r@.walls == Seq::<(usize, usize)>::empty(),
            r@.visible_walls == Seq::<(usize, usize)>::empty(),
            r@.map.len() == size,
            forall|a: int| 0 <= a < size ==> #[trigger] r@.map[a].len() == size,
            forall|a: int, b: int|
                0 <= a < size && 0 <= b < size ==> #[trigger] r@.map[a][b] == no_wall_icon(),
            r@.ui == ui@,
            r@.data == data@,
    {
        let map_to_display = floor_map(size);
        let r = Grid {
            size,
            player,
            last_movement: ' ',
            just_flee: false,
            monsters: MonsterManager::new(),
            items: ItemManager::new(),
            equipments: EquipmentManager::new(),
            goal,
            walls: Vec::new(),
            visible_walls: Vec::new(),
            map_to_display,
            ui,
            data,
        };
        proof {
            assert(r@.walls =~= Seq::<(usize, usize)>::empty());
            assert(r@.visible_walls =~= Seq::<(usize, usize)>::empty());
        }
        r
    }

    pub fn size(&self) -> (r: usize)
        ensures
            r == self@.size,
    {
        self.size
    }

    pub fn goal(&self) -> (r: (usize, usize))
        ensures
            r == self@.goal,
    {
        self.goal
    }

    pub fn player(&self) -> (r: &Player)
        ensures
            r@ == self@.player,
    {
        &self.player
    }

    pub fn monsters(&self) -> (r: &MonsterManager)
        ensures
            r@ == self@.monsters,
    {
        &self.monsters
    }

    pub fn items(&self) -> (r: &ItemManager)
        ensures
            r@ == self@.items,
    {
        &self.items
    }

    pub fn equipments(&self) -> (r: &EquipmentManager)
        ensures
            r@ == self@.equipments,
    {
        &self.equipments
    }

    pub fn walls(&self) -> (r: &Vec<(usize, usize)>)
        ensures
            r@ == self@.walls,
    {
        &self.walls
    }

    pub fn map(&self) -> (r: &Vec<Vec<String>>)
        ensures
            text_rows(r@) == self@.map,
    {
        &self.map_to_display
    }

    pub fn ui(&self) -> (r: &UI)
        ensures
            r@ == self@.ui,
    {
        &self.ui
    }

    /// Adds a wall cell; meant for callers laying out a world by hand.
    pub fn add_wall(&mut self, p: (usize, usize))
        ensures
            final(self)@ == (GridView { walls: old(self)@.walls.push(p), ..old(self)@ }),
    {
        self.walls.push(p);
    }

    /// Adds a monster to the registry; meant for callers laying out a world
    /// by hand.
    pub fn add_monster(&mut self, monster: Monster)
        ensures
            final(self)@ == (GridView { monsters: old(self)@.monsters.push(monster@), ..old(
                self,
            )@ }),
    {
        self.monsters.add(monster);
    }

    /// Adds an item pickup to the registry.
    pub fn add_item(&mut self, item: Item)
        ensures
            final(self)@ == (GridView { items: old(self)@.items.push(item@), ..old(self)@ }),
    {
        self.items.add(item);
    }

    /// Adds an equipment pickup to the registry.
    pub fn add_equipment(&mut self, equipment: Equipment)
        ensures
            final(self)@ == (GridView { equipments: old(self)@.equipments.push(equipment@), ..old(
                self,
            )@ }),
    {
        self.equipments.add(equipment);
    }

    /// Whether the player stands on the goal tile.
    pub fn has_won(&self) -> (r: bool)
        ensures
            r == (self@.player.ent.position == self@.goal),
    {
        let p = self.player.get_position();
        p.0 == self.goal.0 && p.1 == self.goal.1
    }

    /// Whether the player is dead.
    pub fn has_lost(&self) -> (r: bool)
        ensures
            r == (self@.player.ent.hp <= 0),
    {
        if self.player.is_dead() {
            true
        } else {
            false
        }
    }

    /// The session verdict. A dead player has lost even while standing on
    /// the goal: losing takes precedence, so winning and losing never hold
    /// at once.
    pub fn outcome(&self) -> (r: GameOutcome)
        ensures
            (r == GameOutcome::Lost) <==> self@.player.ent.hp <= 0,
            (r == GameOutcome::Won) <==> (self@.player.ent.position == self@.goal
                && self@.player.ent.hp > 0),
            (r == GameOutcome::Ongoing) <==> (self@.player.ent.position != self@.goal
                && self@.player.ent.hp > 0),
    {
        if self.has_lost() {
            GameOutcome::Lost
        } else if self.has_won() {
            GameOutcome::Won
        } else {
            GameOutcome::Ongoing
        }
    }

    /// Moves the player one step (or, with Shoes, possibly two) in the
    /// direction `movement` names. A move that would leave the grid is
    /// ignored entirely; one that lands on a wall changes no position but
    /// still counts as the last movement. Any successful key press clears
    /// the just-fled flag.
    pub fn move_player(&mut self, movement: char)
        requires
            size_ok(old(self)@.size),
        ensures
            final(self)@ == move_player_spec(old(self)@, movement),
    {
        let p = self.player.get_position();
        let x = p.0;
        let y = p.1;
        let new_position: (usize, usize);
        if self.player.has_equipment(EquipmentType::Shoes) {
            if movement == 'z' && y > 0 {
                new_position = (x, y - 1);
            } else if movement == 'q' && x > 0 {
                new_position = (x - 1, y);
            } else if movement == 's' && y < self.size - 1 {
                new_position = (x, y + 1);
            } else if movement == 'd' && x < self.size - 1 {
                new_position = (x + 1, y);
            } else if movement == 'Z' && y > 1 {
                new_position = (x, y - 2);
            } else if movement == 'Q' && x > 1 {
                new_position = (x - 2, y);
            } else if movement == 'S' && y < self.size - 2 {
                new_position = (x, y + 2);
            } else if movement == 'D' && x < self.size - 2 {
                new_position = (x + 2, y);
            } else {
                return ;
            }
        } else {
            if movement == 'z' && y > 0 {
                new_position = (x, y - 1);
            } else if movement == 'q' && x > 0 {
                new_position = (x - 1, y);
            } else if movement == 's' && y < self.size - 1 {
                new_position = (x, y + 1);
            } else if movement == 'd' && x < self.size - 1 {
                new_position = (x + 1, y);
            } else {
                return ;
            }
        }
        if !contains_pos(&self.walls, new_position) {
            self.player.set_position(new_position);
        }
        self.last_movement = movement;
        self.just_flee = false;
    }

    /// Carves a maze by randomized depth-first search over a half-resolution
    /// cell graph: from the player's start cell, repeatedly pick an uncarved
    /// neighbor two cells away, carve the wall cell between, and backtrack
    /// through an explicit stack when stuck. The goal cell is forced passable
    /// at the end whether or not the carve reached it. Termination holds
    /// because every carve step marks at least one uncarved cell.
    #[verifier::rlimit(80)]
    fn generate_maze(&self) -> (maze: Vec<Vec<u8>>)
        requires
            size_ok(self@.size),
            self@.player.ent.position.0 < self@.size,
            self@.player.ent.position.1 < self@.size,
            self@.goal.0 < self@.size,
            self@.goal.1 < self@.size,
        ensures
            maze@.len() == self@.size,
            forall|y: int|
                0 <= y < self@.size ==> #[trigger] byte_rows(maze@)[y].len() == self@.size,
            byte_rows(maze@)[self@.player.ent.position.1 as int][self@.player.ent.position.0 as int]
                == 1,
            byte_rows(maze@)[self@.goal.1 as int][self@.goal.0 as int] == 1,
    {
        let size = self.size;
        let mut maze: Vec<Vec<u8>> = Vec::new();
        let mut a: usize = 0;
        while a < size
            invariant
                a <= size,
                maze@.len() == a,
                forall|y: int| 0 <= y < a ==> #[trigger] byte_rows(maze@)[y].len() == size,
            decreases size - a,
        {
            let mut row: Vec<u8> = Vec::new();
            let mut b: usize = 0;
            while b < size
                invariant
                    b <= size,
                    row@.len() == b,
                decreases size - b,
            {
                row.push(0u8);
                b = b + 1;
            }
            proof {
                crate::lemma_views_push(maze@, row);
                assert(row@.len() == size);
                assert(byte_rows(maze@.push(row)) == byte_rows(maze@).push(row@));
                assert(byte_rows(maze@).len() == a);
                assert(byte_rows(maze@.push(row))[a as int] == row@);
                assert(forall|y: int|
                    0 <= y < a ==> byte_rows(maze@.push(row))[y] == byte_rows(maze@)[y]);
                assert(forall|y: int|
                    0 <= y < a + 1 ==> (#[trigger] byte_rows(maze@.push(row))[y]).len() == size);
            }
            maze.push(row);
            a = a + 1;
        }
        let start = self.player.get_position();
        let stop = self.goal;
        let sx = start.0;
        let sy = start.1;
        // The cell the carve stands on is marked when it is pushed; since a
        // pushed neighbor is the very next cell popped, this is the moment
        // the carve reaches it.
        set_cell(&mut maze, sx, sy);
        let mut stack: Vec<(usize, usize)> = Vec::new();
        stack.push((sx, sy));
        while stack.len() > 0
            invariant
                size_ok(size),
                maze@.len() == size,
                forall|y: int| 0 <= y < size ==> #[trigger] byte_rows(maze@)[y].len() == size,
                sx < size,
                sy < size,
                byte_rows(maze@)[sy as int][sx as int] == 1,
                forall|k: int|
                    0 <= k < stack@.len() ==> (#[trigger] stack@[k]).0 < size && stack@[k].1
                        < size,
                forall|k: int|
                    0 <= k < stack@.len() ==> byte_rows(maze@)[(#[trigger] stack@[k]).1 as int][(
                    stack@[k].0 as int)] == 1,
            decreases 2 * grid_zeros(byte_rows(maze@)) + stack@.len(),
        {
            proof {
                lemma_grid_zeros_nonneg(byte_rows(maze@));
            }
            let ghost measure0 = 2 * grid_zeros(byte_rows(maze@)) + stack@.len();
            let popped = stack.pop();
            let (x, y) = match popped {
                Some(p) => p,
                None => (0, 0),
            };
            proof {
                assert(x < size && y < size);
                lemma_grid_zeros_update(byte_rows(maze@), x as int, y as int);
            }
            set_cell(&mut maze, x, y);
            proof {
                assert(maze@[y as int]@ == byte_rows(maze@)[y as int]);
                assert(maze@[y as int]@.len() == size);
            }
            let mut neighbors: Vec<(usize, usize)> = Vec::new();
            if x > 1 && maze[y][x - 2] == 0 {
                neighbors.push((x - 2, y));
            }
            if x < size - 2 && maze[y][x + 2] == 0 {
                neighbors.push((x + 2, y));
            }
            if y > 1 {
                proof {
                    assert(maze@[y as int - 2]@ == byte_rows(maze@)[y as int - 2]);
                    assert(maze@[y as int - 2]@.len() == size);
                }
                if maze[y - 2][x] == 0 {
                    neighbors.push((x, y - 2));
                }
            }
            if y < size - 2 {
                proof {
                    assert(maze@[y as int + 2]@ == byte_rows(maze@)[y as int + 2]);
                    assert(maze@[y as int + 2]@.len() == size);
                }
                if maze[y + 2][x] == 0 {
                    neighbors.push((x, y + 2));
                }
            }
            assert(forall|k: int|
                0 <= k < neighbors@.len() ==> (#[trigger] neighbors@[k]).0 < size
                    && neighbors@[k].1 < size && byte_rows(maze@)[neighbors@[k].1 as int][(
                neighbors@[k].0 as int)] == 0);
            if neighbors.len() > 0 {
                let idx = crate::rng::rand_below(neighbors.len());
                let chosen = neighbors[idx];
                let nx = chosen.0;
                let ny = chosen.1;
                stack.push((x, y));
                stack.push((nx, ny));
                proof {
                    assert(2 * size <= size * size) by (nonlinear_arith)
                        requires
                            3 <= size,
                    ;
                }
                let mx = (x + nx) / 2;
                let my = (y + ny) / 2;
                proof {
                    lemma_grid_zeros_update(byte_rows(maze@), mx as int, my as int);
                }
                set_cell(&mut maze, mx, my);
                proof {
                    lemma_grid_zeros_update(byte_rows(maze@), nx as int, ny as int);
                }
                set_cell(&mut maze, nx, ny);
                proof {
                    lemma_grid_zeros_nonneg(byte_rows(maze@));
                    assert(2 * grid_zeros(byte_rows(maze@)) + stack@.len() < measure0);
                }
            }
        }
        set_cell(&mut maze, stop.0, stop.1);
        maze
    }

    /// Lays the walls of the session: carves a maze, then clears a few more
    /// cells at random (about one in twenty) to punch loops and shortcuts
    /// into it, and records every still-uncarved cell as a wall. The
    /// player's cell and the goal cell are never among the walls laid.
    pub fn place_walls(&mut self)
        requires
            size_ok(old(self)@.size),
            old(self)@.player.ent.position.0 < old(self)@.size,
            old(self)@.player.ent.position.1 < old(self)@.size,
            old(self)@.goal.0 < old(self)@.size,
            old(self)@.goal.1 < old(self)@.size,
        ensures
            final(self)@ == (GridView { walls: final(self)@.walls, ..old(self)@ }),
            old(self)@.walls.len() <= final(self)@.walls.len(),
            forall|k: int|
                0 <= k < old(self)@.walls.len() ==> final(self)@.walls[k] == old(self)@.walls[k],
            forall|k: int|
                old(self)@.walls.len() <= k < final(self)@.walls.len() ==> {
                    let p = #[trigger] final(self)@.walls[k];
                    &&& p.0 < old(self)@.size
                    &&& p.1 < old(self)@.size
                    &&& p != old(self)@.player.ent.position
                    &&& p != old(self)@.goal
                },
    {
        let size = self.size;
        let start = self.player.get_position();
        let stop = self.goal;
        let mut maze = self.generate_maze();
        let mut x: usize = 0;
        while x < size
            invariant
                x <= size,
                maze@.len() == size,
                forall|y: int| 0 <= y < size ==> #[trigger] byte_rows(maze@)[y].len() == size,
                start.0 < size && start.1 < size && stop.0 < size && stop.1 < size,
                byte_rows(maze@)[start.1 as int][start.0 as int] == 1,
                byte_rows(maze@)[stop.1 as int][stop.0 as int] == 1,
            decreases size - x,
        {
            let mut y: usize = 0;
            while y < size
                invariant
                    x < size,
                    y <= size,
                    maze@.len() == size,
                    forall|yy: int|
                        0 <= yy < size ==> #[trigger] byte_rows(maze@)[yy].len() == size,
                    start.0 < size && start.1 < size && stop.0 < size && stop.1 < size,
                    byte_rows(maze@)[start.1 as int][start.0 as int] == 1,
                    byte_rows(maze@)[stop.1 as int][stop.0 as int] == 1,
                decreases size - y,
            {
                if crate::rng::rand_below(100) < 5 {
                    set_cell(&mut maze, x, y);
                }
                y = y + 1;
            }
            x = x + 1;
        }
        let ghost walls0 = self.walls@;
        let mut x2: usize = 0;
        while x2 < size
            invariant
                x2 <= size,
                maze@.len() == size,
                forall|y: int| 0 <= y < size ==> #[trigger] byte_rows(maze@)[y].len() == size,
                start.0 < size && start.1 < size && stop.0 < size && stop.1 < size,
                byte_rows(maze@)[start.1 as int][start.0 as int] == 1,
                byte_rows(maze@)[stop.1 as int][stop.0 as int] == 1,
                self@ == (GridView { walls: self@.walls, ..old(self)@ }),
                walls0.len() <= self.walls@.len(),
                forall|k: int| 0 <= k < walls0.len() ==> self.walls@[k] == walls0[k],
                forall|k: int|
                    walls0.len() <= k < self.walls@.len() ==> {
                        let p = #[trigger] self.walls@[k];
                        &&& p.0 < size
                        &&& p.1 < size
                        &&& p != start
                        &&& p != stop
                    },
            decreases size - x2,
        {
            let mut y2: usize = 0;
            while y2 < size
                invariant
                    x2 < size,
                    y2 <= size,
                    maze@.len() == size,
                    forall|y: int| 0 <= y < size ==> #[trigger] byte_rows(maze@)[y].len() == size,
                    start.0 < size && start.1 < size && stop.0 < size && stop.1 < size,
                    byte_rows(maze@)[start.1 as int][start.0 as int] == 1,
                    byte_rows(maze@)[stop.1 as int][stop.0 as int] == 1,
                    self@ == (GridView { walls: self@.walls, ..old(self)@ }),
                    walls0.len() <= self.walls@.len(),
                    forall|k: int| 0 <= k < walls0.len() ==> self.walls@[k] == walls0[k],
                    forall|k: int|
                        walls0.len() <= k < self.walls@.len() ==> {
                            let p = #[trigger] self.walls@[k];
                            &&& p.0 < size
                            &&& p.1 < size
                            &&& p != start
                            &&& p != stop
                        },
                decreases size - y2,
            {
                proof {
                    assert(maze@[y2 as int]@ == byte_rows(maze@)[y2 as int]);
                }
                if maze[y2][x2] == 0 {
                    self.walls.push((x2, y2));
                }
                y2 = y2 + 1;
            }
            x2 = x2 + 1;
        }
    }

    /// Builds the session world: carves the maze and lays its walls, then
    /// scatters items and equipment (one per fifty cells each) and monsters
    /// (one per hundred cells) over free cells, and pushes the first render
    /// snapshot. The player's cell and the goal stay passable throughout.
    pub fn init(&mut self)
        requires
            size_ok(old(self)@.size),
            old(self)@.player.ent.position.0 < old(self)@.size,
            old(self)@.player.ent.position.1 < old(self)@.size,
            old(self)@.goal.0 < old(self)@.size,
            old(self)@.goal.1 < old(self)@.size,
            old(self)@.walls.len() == 0,
            old(self)@.items.len() == 0,
            old(self)@.equipments.len() == 0,
            old(self)@.monsters.len() == 0,
        ensures
            final(self)@.size == old(self)@.size,
            final(self)@.player == old(self)@.player,
            final(self)@.goal == old(self)@.goal,
            final(self)@.data == old(self)@.data,
            final(self)@.last_movement == old(self)@.last_movement,
            final(self)@.just_flee == old(self)@.just_flee,
            final(self)@.visible_walls == old(self)@.visible_walls,
            final(self)@.map == old(self)@.map,
            !final(self)@.walls.contains(final(self)@.player.ent.position),
            !final(self)@.walls.contains(final(self)@.goal),
            forall|k: int|
                0 <= k < final(self)@.walls.len() ==> (#[trigger] final(self)@.walls[k]).0 < old(
                    self,
                )@.size && final(self)@.walls[k].1 < old(self)@.size,
            forall|k: int| 0 <= k < final(self)@.items.len() ==> new_item_ok(final(self)@, k),
            forall|k: int|
                0 <= k < final(self)@.equipments.len() ==> new_equipment_ok(final(self)@, k),
            forall|k: int|
                0 <= k < final(self)@.monsters.len() ==> new_monster_ok(final(self)@, k),
            final(self)@.items.len() == (old(self)@.size * old(self)@.size) / 50 || no_empty_cell(
                final(self)@,
            ),
            final(self)@.equipments.len() == (old(self)@.size * old(self)@.size) / 50
                || no_empty_cell(final(self)@),
            final(self)@.monsters.len() == (old(self)@.size * old(self)@.size) / 100
                || no_empty_cell(final(self)@),
            final(self)@.ui == (UIView {
                map: final(self)@.map,
                equipments: final(self)@.player.equipments,
                items: final(self)@.player.items,
            }),
    {
        self.place_walls();
        let area = self.size * self.size;
        let ghost g_walls = self@;
        self.place_items(area / 50);
        let ghost g_items = self@;
        self.place_equipments(area / 50);
        let ghost g_equip = self@;
        self.place_monsters(area / 100);
        let ghost g_mon = self@;
        self.update_ui();
        proof {
            if exists|k: int|
                0 <= k < g_mon.walls.len() && g_mon.walls[k] == g_mon.player.ent.position {
                let k = choose|k: int|
                    0 <= k < g_mon.walls.len() && g_mon.walls[k] == g_mon.player.ent.position;
                assert(false);
            }
            if exists|k: int| 0 <= k < g_mon.walls.len() && g_mon.walls[k] == g_mon.goal {
                let k = choose|k: int|
                    0 <= k < g_mon.walls.len() && g_mon.walls[k] == g_mon.goal;
                assert(false);
            }
            assert forall|k: int| 0 <= k < g_mon.items.len() implies new_item_ok(g_mon, k) by {
                assert(new_item_ok(g_items, k));
                assert forall|j: int|
                    0 <= j < g_mon.equipments.len() implies g_mon.equipments[j].position
                    != g_mon.items[k].position by {
                    assert(new_equipment_ok(g_equip, j));
                }
                assert forall|j: int|
                    0 <= j < g_mon.monsters.len() implies g_mon.monsters[j].position
                    != g_mon.items[k].position by {
                    assert(new_monster_ok(g_mon, j));
                }
            }
            assert forall|k: int|
                0 <= k < g_mon.equipments.len() implies new_equipment_ok(g_mon, k) by {
                assert(new_equipment_ok(g_equip, k));
                assert forall|j: int|
                    0 <= j < g_mon.monsters.len() implies g_mon.monsters[j].position
                    != g_mon.equipments[k].position by {
                    assert(new_monster_ok(g_mon, j));
                }
            }
            if no_empty_cell(g_items) {
                lemma_no_empty_monotone(g_items, g_mon);
            }
            if no_empty_cell(g_equip) {
                lemma_no_empty_monotone(g_equip, g_mon);
            }
            let gf = self@;
            assert forall|k: int| 0 <= k < gf.items.len() implies new_item_ok(gf, k) by {
                assert(new_item_ok(g_mon, k));
            }
            assert forall|k: int| 0 <= k < gf.equipments.len() implies new_equipment_ok(
                gf,
                k,
            ) by {
                assert(new_equipment_ok(g_mon, k));
            }
            assert forall|k: int| 0 <= k < gf.monsters.len() implies new_monster_ok(gf, k) by {
                assert(new_monster_ok(g_mon, k));
            }
            if no_empty_cell(g_mon) {
                assert forall|p: (usize, usize)|
                    p.0 < gf.size && p.1 < gf.size implies !cell_is_empty(gf, p) by {
                    assert(!cell_is_empty(g_mon, p));
                }
            }
        }
    }

    /// A uniformly random free cell, or nothing when the grid has none
    /// left.
    fn random_empty_cell(&self) -> (r: Option<(usize, usize)>)
        requires
            size_ok(self@.size),
        ensures
            match r {
                Some(p) => p.0 < self@.size && p.1 < self@.size && cell_is_empty(self@, p),
                None => no_empty_cell(self@),
            },
    {
        let size = self.size;
        let mut cells: Vec<(usize, usize)> = Vec::new();
        let mut x: usize = 0;
        while x < size
            invariant
                x <= size,
                size == self@.size,
                forall|k: int|
                    0 <= k < cells@.len() ==> (#[trigger] cells@[k]).0 < size && cells@[k].1
                        < size && cell_is_empty(self@, cells@[k]),
                forall|p: (usize, usize)|
                    p.0 < x && p.1 < size && cell_is_empty(self@, p) ==> #[trigger] cells@.contains(
                        p,
                    ),
            decreases size - x,
        {
            let mut y: usize = 0;
            while y < size
                invariant
                    x < size,
                    y <= size,
                    size == self@.size,
                    forall|k: int|
                        0 <= k < cells@.len() ==> (#[trigger] cells@[k]).0 < size && cells@[k].1
                            < size && cell_is_empty(self@, cells@[k]),
                    forall|p: (usize, usize)|
                        (p.0 < x || (p.0 == x && p.1 < y)) && p.0 < size && p.1 < size
                            && cell_is_empty(self@, p) ==> #[trigger] cells@.contains(p),
                decreases size - y,
            {
                if self.is_position_empty((x, y)) {
                    let ghost cells0 = cells@;
                    cells.push((x, y));
                    proof {
                        assert(cells@.contains((x, y))) by {
                            assert(cells@[cells0.len() as int] == (x, y));
                        }
                        assert forall|p: (usize, usize)|
                            cells0.contains(p) implies #[trigger] cells@.contains(p) by {
                            let i = choose|i: int| 0 <= i < cells0.len() && cells0[i] == p;
                            assert(cells@[i] == p);
                        }
                    }
                }
                y = y + 1;
            }
            x = x + 1;
        }
        if cells.len() == 0 {
            proof {
                assert forall|p: (usize, usize)|
                    p.0 < self@.size && p.1 < self@.size implies !cell_is_empty(self@, p) by {
                    if cell_is_empty(self@, p) {
                        assert(cells@.contains(p));
                    }
                }
            }
            None
        } else {
            let idx = crate::rng::rand_below(cells.len());
            Some(cells[idx])
        }
    }

    /// Scatters `count` healing potions over free cells, each on its own
    /// cell; stops early only when no free cell remains.
    pub fn place_items(&mut self, count: usize)
        requires
            size_ok(old(self)@.size),
        ensures
            final(self)@ == (GridView { items: final(self)@.items, ..old(self)@ }),
            old(self)@.items.len() <= final(self)@.items.len() <= old(self)@.items.len() + count,
            forall|k: int|
                0 <= k < old(self)@.items.len() ==> final(self)@.items[k] == old(self)@.items[k],
            forall|k: int|
                old(self)@.items.len() <= k < final(self)@.items.len() ==> new_item_ok(
                    final(self)@,
                    k,
                ),
            final(self)@.items.len() == old(self)@.items.len() + count || no_empty_cell(
                final(self)@,
            ),
    {
        let mut i: usize = 0;
        while i < count
            invariant
                i <= count,
                size_ok(self@.size),
                self@ == (GridView { items: self@.items, ..old(self)@ }),
                self@.items.len() == old(self)@.items.len() + i,
                forall|k: int|
                    0 <= k < old(self)@.items.len() ==> self@.items[k] == old(self)@.items[k],
                forall|k: int|
                    old(self)@.items.len() <= k < self@.items.len() ==> new_item_ok(self@, k),
            decreases count - i,
        {
            match self.random_empty_cell() {
                None => {
                    return ;
                },
                Some(p) => {
                    let t = Item::random();
                    let it = Item::new(self.data.item_data(t), t, p);
                    let ghost before = self@;
                    self.items.add(it);
                    proof {
                        assert forall|k: int|
                            old(self)@.items.len() <= k < before.items.len() implies new_item_ok(
                            self@,
                            k,
                        ) by {
                            assert(new_item_ok(before, k));
                            assert(self@.items[k] == before.items[k]);
                            assert(forall|j: int|
                                0 <= j < k ==> self@.items[j] == before.items[j]);
                        }
                        assert(new_item_ok(self@, before.items.len() as int));
                    }
                },
            }
            i = i + 1;
        }
    }

    /// Scatters `count` random equipment pieces over free cells.
    pub fn place_equipments(&mut self, count: usize)
        requires
            size_ok(old(self)@.size),
        ensures
            final(self)@ == (GridView { equipments: final(self)@.equipments, ..old(self)@ }),
            old(self)@.equipments.len() <= final(self)@.equipments.len() <= old(
                self,
            )@.equipments.len() + count,
            forall|k: int|
                0 <= k < old(self)@.equipments.len() ==> final(self)@.equipments[k] == old(
                    self,
                )@.equipments[k],
            forall|k: int|
                old(self)@.equipments.len() <= k < final(self)@.equipments.len()
                    ==> new_equipment_ok(final(self)@, k),
            final(self)@.equipments.len() == old(self)@.equipments.len() + count || no_empty_cell(
                final(self)@,
            ),
    {
        let mut i: usize = 0;
        while i < count
            invariant
                i <= count,
                size_ok(self@.size),
                self@ == (GridView { equipments: self@.equipments, ..old(self)@ }),
                self@.equipments.len() == old(self)@.equipments.len() + i,
                forall|k: int|
                    0 <= k < old(self)@.equipments.len() ==> self@.equipments[k] == old(
                        self,
                    )@.equipments[k],
                forall|k: int|
                    old(self)@.equipments.len() <= k < self@.equipments.len()
                        ==> new_equipment_ok(self@, k),
            decreases count - i,
        {
            match self.random_empty_cell() {
                None => {
                    return ;
                },
                Some(p) => {
                    let t = Equipment::random();
                    let e = Equipment::new(self.data.equipment_data(t), t, p);
                    let ghost before = self@;
                    self.equipments.add(e);
                    proof {
                        assert forall|k: int|
                            old(self)@.equipments.len() <= k < before.equipments.len() implies new_equipment_ok(
                            self@,
                            k,
                        ) by {
                            assert(new_equipment_ok(before, k));
                            assert(self@.equipments[k] == before.equipments[k]);
                            assert(forall|j: int|
                                0 <= j < k ==> self@.equipments[j] == before.equipments[j]);
                        }
                        assert(new_equipment_ok(self@, before.equipments.len() as int));
                    }
                },
            }
            i = i + 1;
        }
    }

    /// Spawns `count` random monsters on free cells.
    pub fn place_monsters(&mut self, count: usize)
        requires
            size_ok(old(self)@.size),
        ensures
            final(self)@ == (GridView { monsters: final(self)@.monsters, ..old(self)@ }),
            old(self)@.monsters.len() <= final(self)@.monsters.len() <= old(
                self,
            )@.monsters.len() + count,
            forall|k: int|
                0 <= k < old(self)@.monsters.len() ==> final(self)@.monsters[k] == old(
                    self,
                )@.monsters[k],
            forall|k: int|
                old(self)@.monsters.len() <= k < final(self)@.monsters.len() ==> new_monster_ok(
                    final(self)@,
                    k,
                ),
            final(self)@.monsters.len() == old(self)@.monsters.len() + count || no_empty_cell(
                final(self)@,
            ),
    {
        let mut i: usize = 0;
        while i < count
            invariant
                i <= count,
                size_ok(self@.size),
                self@ == (GridView { monsters: self@.monsters, ..old(self)@ }),
                self@.monsters.len() == old(self)@.monsters.len() + i,
                forall|k: int|
                    0 <= k < old(self)@.monsters.len() ==> self@.monsters[k] == old(
                        self,
                    )@.monsters[k],
                forall|k: int|
                    old(self)@.monsters.len() <= k < self@.monsters.len() ==> new_monster_ok(
                        self@,
                        k,
                    ),
            decreases count - i,
        {
            match self.random_empty_cell() {
                None => {
                    return ;
                },
                Some(p) => {
                    let m = crate::monster::get_random_monster(&self.data, p);
                    let ghost before = self@;
                    self.monsters.add(m);
                    proof {
                        assert forall|k: int|
                            old(self)@.monsters.len() <= k < before.monsters.len() implies new_monster_ok(
                            self@,
                            k,
                        ) by {
                            assert(new_monster_ok(before, k));
                            assert(self@.monsters[k] == before.monsters[k]);
                            assert(forall|j: int|
                                0 <= j < k ==> self@.monsters[j] == before.monsters[j]);
                        }
                        assert(new_monster_ok(self@, before.monsters.len() as int));
                    }
                },
            }
            i = i + 1;
        }
    }

    /// One monster tick: every monster takes a single greedy step toward
    /// the player, never through walls, never onto a cell another monster
    /// claimed this tick or held before it, staying put when boxed in. The
    /// whole tick is skipped right after the player fled.
    #[verifier::rlimit(100)]
    pub fn move_monsters(&mut self)
        requires
            size_ok(old(self)@.size),
            old(self)@.player.ent.position.0 < old(self)@.size,
            old(self)@.player.ent.position.1 < old(self)@.size,
            forall|k: int|
                0 <= k < old(self)@.monsters.len() ==> (#[trigger] old(
                    self,
                )@.monsters[k]).position.0 < old(self)@.size && old(self)@.monsters[k].position.1
                    < old(self)@.size,
        ensures
            final(self)@ == move_monsters_spec(old(self)@),
    {
        if self.just_flee {
            return ;
        }
        let size = self.size;
        let player_position = self.player.get_position();
        let n = self.monsters.len();
        let mut olds_v: Vec<(usize, usize)> = Vec::new();
        let mut t: usize = 0;
        while t < n
            invariant
                t <= n,
                n == self@.monsters.len(),
                self@ == old(self)@,
                olds_v@.len() == t,
                forall|k: int| 0 <= k < t ==> olds_v@[k] == self@.monsters[k].position,
            decreases n - t,
        {
            let m = self.monsters.get(t);
            olds_v.push(m.get_position());
            t = t + 1;
        }
        proof {
            assert(olds_v@ =~= monster_positions(old(self)@.monsters));
        }
        let mut new_positions: Vec<(usize, usize)> = Vec::new();
        let mut i: usize = 0;
        while i < n
            invariant
                i <= n,
                size == old(self)@.size,
                size_ok(size),
                player_position == old(self)@.player.ent.position,
                player_position.0 < size,
                player_position.1 < size,
                n == old(self)@.monsters.len(),
                forall|k: int|
                    0 <= k < n ==> (#[trigger] old(self)@.monsters[k]).position.0 < size && old(
                        self,
                    )@.monsters[k].position.1 < size,
                olds_v@ == monster_positions(old(self)@.monsters),
                new_positions@ == chase_positions(old(self)@, i as int),
                new_positions@.len() == i,
                self@.monsters.len() == n,
                forall|k: int|
                    0 <= k < i ==> self@.monsters[k] == (EntityView {
                        position: new_positions@[k],
                        ..old(self)@.monsters[k]
                    }),
                forall|k: int| i <= k < n ==> self@.monsters[k] == old(self)@.monsters[k],
                self@ == (GridView { monsters: self@.monsters, ..old(self)@ }),
            decreases n - i,
        {
            let mp = olds_v[i];
            let mx = mp.0;
            let my = mp.1;
            proof {
                assert(mp == old(self)@.monsters[i as int].position);
            }
            let mut possible_moves: Vec<(usize, usize)> = Vec::new();
            if mx + 1 < size {
                possible_moves.push((mx + 1, my));
            }
            if mx > 0 {
                possible_moves.push((mx - 1, my));
            }
            if my + 1 < size {
                possible_moves.push((mx, my + 1));
            }
            if my > 0 {
                possible_moves.push((mx, my - 1));
            }
            proof {
                assert(possible_moves@ =~= chase_candidates(size, mp));
            }
            let ghost claimed = new_positions@;
            let ghost olds = olds_v@;
            let ghost walls = self@.walls;
            let mut allowed_v: Vec<(usize, usize)> = Vec::new();
            let pm = possible_moves.len();
            let mut j: usize = 0;
            while j < pm
                invariant
                    j <= pm,
                    pm == possible_moves@.len(),
                    walls == self@.walls,
                    claimed == new_positions@,
                    olds == olds_v@,
                    forall|k: int|
                        0 <= k < pm ==> (#[trigger] possible_moves@[k]).0 < size
                            && possible_moves@[k].1 < size,
                    allowed_v@ == allowed_steps(walls, claimed, olds, possible_moves@.take(
                        j as int,
                    )),
                decreases pm - j,
            {
                let c = possible_moves[j];
                proof {
                    assert(possible_moves@.take(j + 1).drop_last() =~= possible_moves@.take(
                        j as int,
                    ));
                    assert(possible_moves@.take(j + 1).last() == c);
                }
                let wall_hit = contains_pos(&self.walls, c);
                let claimed_hit = contains_pos(&new_positions, c);
                let old_hit = contains_pos(&olds_v, c);
                if !wall_hit && !claimed_hit && !old_hit {
                    allowed_v.push(c);
                }
                j = j + 1;
            }
            proof {
                assert(possible_moves@.take(pm as int) =~= possible_moves@);
                assert(allowed_v@ == allowed_steps(
                    walls,
                    claimed,
                    olds,
                    chase_candidates(size, mp),
                ));
            }
            if allowed_v.len() == 0 {
                new_positions.push((mx, my));
                proof {
                    assert(chase_step(walls, claimed, olds, size, mp, player_position) == mp);
                    assert(new_positions@ =~= chase_positions(old(self)@, i + 1));
                }
            } else {
                proof {
                    assert(forall|k: int|
                        0 <= k < allowed_v@.len() ==> (#[trigger] allowed_v@[k]).0 < size
                            && allowed_v@[k].1 < size) by {
                        assert(forall|k: int|
                            0 <= k < allowed_v@.len() ==> chase_candidates(size, mp).contains(
                                #[trigger] allowed_v@[k],
                            )) by {
                            lemma_allowed_steps_subset(
                                walls,
                                claimed,
                                olds,
                                chase_candidates(size, mp),
                            );
                        }
                    }
                }
                let mut best = allowed_v[0];
                let al = allowed_v.len();
                let mut j2: usize = 1;
                proof {
                    assert(allowed_v@.take(1).len() == 1);
                    assert(allowed_v@.take(1)[0] == allowed_v@[0]);
                    assert(best == first_min(allowed_v@.take(1), player_position));
                }
                while j2 < al
                    invariant
                        1 <= j2 <= al,
                        al == allowed_v@.len(),
                        size_ok(size),
                        player_position.0 < size,
                        player_position.1 < size,
                        forall|k: int|
                            0 <= k < al ==> (#[trigger] allowed_v@[k]).0 < size
                                && allowed_v@[k].1 < size,
                        best.0 < size,
                        best.1 < size,
                        best == first_min(allowed_v@.take(j2 as int), player_position),
                    decreases al - j2,
                {
                    let c = allowed_v[j2];
                    proof {
                        assert(allowed_v@.take(j2 + 1).drop_last() =~= allowed_v@.take(
                            j2 as int,
                        ));
                        assert(allowed_v@.take(j2 + 1).last() == c);
                    }
                    if manhattan_check(c, player_position, size) < manhattan_check(
                        best,
                        player_position,
                        size,
                    ) {
                        best = c;
                    }
                    j2 = j2 + 1;
                }
                proof {
                    assert(allowed_v@.take(al as int) =~= allowed_v@);
                    assert(chase_step(walls, claimed, olds, size, mp, player_position) == best);
                }
                new_positions.push(best);
                self.monsters.set_position_at(i, best);
                proof {
                    assert(new_positions@ =~= chase_positions(old(self)@, i + 1));
                }
            }
            i = i + 1;
        }
        proof {
            assert(self@.monsters =~= move_monsters_spec(old(self)@).monsters);
            assert(self@ == move_monsters_spec(old(self)@));
        }
    }

    /// Whether a wall at `position` should be rendered this tick, with the
    /// sticky-reveal side effect: a wall inside sight range enters the
    /// remembered set and stays rendered forever after.
    fn should_display_wall(&mut self, position: (usize, usize)) -> (r: bool)
        ensures
            r == displays_wall(old(self)@, position),
            final(self)@ == (GridView {
                visible_walls: after_wall_query(old(self)@, position),
                ..old(self)@
            }),
    {
        let ppos = self.player.get_position();
        let in_range = chebyshev_check(ppos, position, self.player.get_range());
        if in_range && contains_pos(&self.walls, position) {
            if !contains_pos(&self.visible_walls, position) {
                self.visible_walls.push(position);
            }
            true
        } else {
            contains_pos(&self.visible_walls, position)
        }
    }

    /// Whether `position` is free of the player, the goal, walls and every
    /// registered occupant.
    fn is_position_empty(&self, position: (usize, usize)) -> (r: bool)
        ensures
            r == cell_is_empty(self@, position),
    {
        let ppos = self.player.get_position();
        (ppos.0 != position.0 || ppos.1 != position.1) && (self.goal.0 != position.0
            || self.goal.1 != position.1) && !contains_pos(&self.walls, position)
            && !self.equipments.is_position_occupied(position) && !self.items.is_position_occupied(
            position,
        ) && !self.monsters.is_position_occupied(position)
    }

    /// Collects the item under the player, if one sits there and has not
    /// been collected yet: the player receives a copy and the registry entry
    /// is marked invisible and collected.
    pub fn check_for_item(&mut self)
        ensures
            final(self)@ == check_item_spec(old(self)@),
    {
        proof {
            lemma_first_at(item_positions(old(self)@.items), old(self)@.player.ent.position);
        }
        let pos = self.player.get_position();
        match self.items.find_at(pos) {
            None => {},
            Some(i) => {
                proof {
                    assert(item_positions(self@.items)[i as int] == self@.items[i as int].position);
                    assert(first_at(item_positions(self@.items), pos) == i);
                }
                if !self.items.get(i).is_equiped() {
                    let c = self.items.get(i).clone();
                    self.player.add_item(c);
                    self.items.set_visible_at(i, false);
                    self.items.set_equiped_at(i, true);
                    proof {
                        assert(final(self)@.items =~= check_item_spec(old(self)@).items);
                    }
                }
            },
        }
    }

    /// Collects the equipment under the player, if a not-yet-taken piece
    /// sits there. A type not yet owned is worn, with the Hat and Glasses
    /// effects applied; a duplicate type turns into a healing potion.
    pub fn check_for_equipment(&mut self)
        ensures
            final(self)@ == check_equipment_spec(old(self)@),
    {
        proof {
            lemma_first_at(
                equipment_positions(old(self)@.equipments),
                old(self)@.player.ent.position,
            );
        }
        let pos = self.player.get_position();
        match self.equipments.find_at(pos) {
            None => {},
            Some(i) => {
                proof {
                    assert(equipment_positions(self@.equipments)[i as int]
                        == self@.equipments[i as int].position);
                    assert(first_at(equipment_positions(self@.equipments), pos) == i);
                }
                if !self.equipments.get(i).is_equiped() {
                    let etype = self.equipments.get(i).get_type();
                    if self.player.has_equipment(etype) {
                        let epos = self.equipments.get(i).get_position();
                        let potion = Item::new(
                            self.data.item_data(ItemType::HealingPotion),
                            ItemType::HealingPotion,
                            epos,
                        );
                        self.player.add_item(potion);
                    } else {
                        if etype == EquipmentType::Hat {
                            self.player.set_range(5);
                            self.player.set_icon("🤠");
                        } else if etype == EquipmentType::Glasses && !self.player.has_equipment(
                            EquipmentType::Hat,
                        ) {
                            self.player.set_icon("🤓");
                        }
                        let c = self.equipments.get(i).clone();
                        self.player.add_equipment(c);
                    }
                    self.equipments.set_visible_at(i, false);
                    self.equipments.set_equiped_at(i, true);
                    proof {
                        assert(final(self)@.equipments =~= check_equipment_spec(
                            old(self)@,
                        ).equipments);
                    }
                }
            },
        }
    }

    /// Recomputes the full display map: the terrain layer (with the sticky
    /// wall reveal as a side effect on the remembered set), then every
    /// rendered item, equipment piece and monster painted over it.
    #[verifier::rlimit(100)]
    pub fn build_map(&mut self)
        requires
            size_ok(old(self)@.size),
            old(self)@.player.ent.position.0 < old(self)@.size,
            old(self)@.player.ent.position.1 < old(self)@.size,
            old(self)@.goal.0 < old(self)@.size,
            old(self)@.goal.1 < old(self)@.size,
            forall|k: int|
                0 <= k < old(self)@.items.len() ==> (#[trigger] old(self)@.items[k]).position.0
                    < old(self)@.size && old(self)@.items[k].position.1 < old(self)@.size,
            forall|k: int|
                0 <= k < old(self)@.equipments.len() ==> (#[trigger] old(
                    self,
                )@.equipments[k]).position.0 < old(self)@.size && old(
                    self,
                )@.equipments[k].position.1 < old(self)@.size,
            forall|k: int|
                0 <= k < old(self)@.monsters.len() ==> (#[trigger] old(
                    self,
                )@.monsters[k]).position.0 < old(self)@.size && old(self)@.monsters[k].position.1
                    < old(self)@.size,
        ensures
            final(self)@ == (GridView {
                visible_walls: final(self)@.visible_walls,
                map: final(self)@.map,
                ..old(self)@
            }),
            forall|p: (usize, usize)|
                remembered(final(self)@, p) <==> (remembered(old(self)@, p) || (p.0 < old(
                    self,
                )@.size && p.1 < old(self)@.size && sees(old(self)@, p) && is_wall(
                    old(self)@,
                    p,
                ))),
            final(self)@.map == render_map(old(self)@),
    {
        let ghost g0 = self@;
        let size = self.size;
        let mut new_map: Vec<Vec<String>> = Vec::new();
        let mut x: usize = 0;
        while x < size
            invariant
                x <= size,
                size == g0.size,
                size_ok(size),
                g0 == old(self)@,
                g0.player.ent.position.0 < size,
                g0.player.ent.position.1 < size,
                g0.goal.0 < size,
                g0.goal.1 < size,
                self@ == (GridView { visible_walls: self@.visible_walls, ..g0 }),
                forall|p: (usize, usize)|
                    remembered(self@, p) <==> (remembered(g0, p) || (p.0 < x && p.1 < size && sees(
                        g0,
                        p,
                    ) && is_wall(g0, p))),
                new_map@.len() == x,
                forall|a: int| 0 <= a < x ==> (#[trigger] text_rows(new_map@)[a]).len() == size,
                forall|a: int, b: int|
                    0 <= a < x && 0 <= b < size ==> #[trigger] text_rows(new_map@)[a][b]
                        == base_icon(g0, a, b),
            decreases size - x,
        {
            let mut rowv: Vec<String> = Vec::new();
            let mut y: usize = 0;
            while y < size
                invariant
                    x < size,
                    y <= size,
                    size == g0.size,
                    size_ok(size),
                    g0 == old(self)@,
                    g0.player.ent.position.0 < size,
                    g0.player.ent.position.1 < size,
                    g0.goal.0 < size,
                    g0.goal.1 < size,
                    self@ == (GridView { visible_walls: self@.visible_walls, ..g0 }),
                    forall|p: (usize, usize)|
                        remembered(self@, p) <==> (remembered(g0, p) || ((p.0 < x || (p.0 == x
                            && p.1 < y)) && p.0 < size && p.1 < size && sees(g0, p) && is_wall(
                            g0,
                            p,
                        ))),
                    rowv@.len() == y,
                    forall|b: int|
                        0 <= b < y ==> ((#[trigger] rowv@[b])@) == base_icon(g0, x as int, b),
                decreases size - y,
            {
                let ghost before = self@;
                let disp = self.should_display_wall((x, y));
                proof {
                    assert(remembered(before, (x, y)) == remembered(g0, (x, y)));
                    assert(disp == displays_wall(g0, (x, y)));
                }
                let ppos = self.player.get_position();
                let icon_s: String = if disp {
                    "🟧".to_owned()
                } else if ppos.0 == x && ppos.1 == y {
                    if self.player.is_dead() {
                        "💀".to_owned()
                    } else {
                        self.player.get_icon().to_owned()
                    }
                } else if self.goal.0 == x && self.goal.1 == y {
                    "👑".to_owned()
                } else {
                    "⬛️".to_owned()
                };
                proof {
                    assert(icon_s@ == base_icon(g0, x as int, y as int));
                    let vw_new = self@.visible_walls;
                    let vw_old = before.visible_walls;
                    assert forall|p: (usize, usize)|
                        vw_new.contains(p) implies (vw_old.contains(p) || p == (x, y)) by {
                        let idx = choose|idx: int| 0 <= idx < vw_new.len() && vw_new[idx] == p;
                        if idx < vw_old.len() {
                            assert(vw_old[idx] == p);
                        }
                    }
                    assert forall|p: (usize, usize)|
                        vw_old.contains(p) implies vw_new.contains(p) by {
                        let idx = choose|idx: int| 0 <= idx < vw_old.len() && vw_old[idx] == p;
                        assert(vw_new[idx] == p);
                    }
                    if sees(g0, (x, y)) && is_wall(g0, (x, y)) && !remembered(before, (x, y)) {
                        assert(vw_new[vw_old.len() as int] == (x, y));
                        assert(vw_new.contains((x, y)));
                    }
                }
                rowv.push(icon_s);
                y = y + 1;
            }
            proof {
                assert(text_rows(new_map@.push(rowv))[x as int].len() == size);
                assert(forall|b: int|
                    0 <= b < size ==> #[trigger] text_rows(new_map@.push(rowv))[x as int][b]
                        == base_icon(g0, x as int, b));
                assert(forall|a: int|
                    0 <= a < x ==> #[trigger] text_rows(new_map@.push(rowv))[a] == text_rows(
                        new_map@,
                    )[a]);
            }
            new_map.push(rowv);
            x = x + 1;
        }
        self.map_to_display = new_map;
        let ghost g_base = self@;
        proof {
            assert(g_base.map =~~= base_map(g0));
        }
        let ppos = self.player.get_position();
        let range = self.player.get_range();
        let glasses = self.player.has_equipment(EquipmentType::Glasses);
        let ni = self.items.len();
        let mut i: usize = 0;
        while i < ni
            invariant
                i <= ni,
                ni == g0.items.len(),
                size == g0.size,
                size_ok(size),
                g0 == old(self)@,
                ppos == g0.player.ent.position,
                range == g0.player.range,
                glasses == has_equip(g0.player.equipments, EquipmentType::Glasses),
                forall|k: int|
                    0 <= k < g0.items.len() ==> (#[trigger] g0.items[k]).position.0 < size
                        && g0.items[k].position.1 < size,
                self@ == (GridView { map: self@.map, ..g_base }),
                g_base == (GridView { visible_walls: g_base.visible_walls, map: g_base.map, ..g0 }),
                self@.map.len() == size,
                forall|a: int| 0 <= a < size ==> (#[trigger] self@.map[a]).len() == size,
                self@.map == paint_items(g0, g_base.map, g0.items.take(i as int)),
            decreases ni - i,
        {
            proof {
                assert(g0.items.take(i + 1).drop_last() =~= g0.items.take(i as int));
                assert(g0.items.take(i + 1).last() == g0.items[i as int]);
            }
            let pos = self.items.get(i).get_position();
            let visible = self.items.get(i).is_visible();
            let drawn = chebyshev_check(pos, ppos, range) && visible
                && !self.monsters.is_position_occupied(pos) && !(ppos.0 == pos.0 && ppos.1
                == pos.1);
            proof {
                assert(drawn == item_drawn(g0, g0.items[i as int]));
            }
            if drawn {
                let icon_s: String = if glasses {
                    self.items.get(i).get_icon().to_owned()
                } else {
                    "🎁".to_owned()
                };
                proof {
                    assert(icon_s@ == pickup_icon(g0, g0.items[i as int].icon));
                }
                set_map_cell(&mut self.map_to_display, pos.0, pos.1, icon_s);
            }
            i = i + 1;
        }
        proof {
            assert(g0.items.take(ni as int) =~= g0.items);
        }
        let ghost g_items = self@;
        let ne = self.equipments.len();
        let mut i2: usize = 0;
        while i2 < ne
            invariant
                i2 <= ne,
                ne == g0.equipments.len(),
                size == g0.size,
                size_ok(size),
                g0 == old(self)@,
                ppos == g0.player.ent.position,
                range == g0.player.range,
                glasses == has_equip(g0.player.equipments, EquipmentType::Glasses),
                forall|k: int|
                    0 <= k < g0.equipments.len() ==> (#[trigger] g0.equipments[k]).position.0
                        < size && g0.equipments[k].position.1 < size,
                self@ == (GridView { map: self@.map, ..g_items }),
                g_items == (GridView { map: g_items.map, ..g_base }),
                g_base == (GridView { visible_walls: g_base.visible_walls, map: g_base.map, ..g0 }),
                self@.map.len() == size,
                forall|a: int| 0 <= a < size ==> (#[trigger] self@.map[a]).len() == size,
                self@.map == paint_equipments(g0, g_items.map, g0.equipments.take(i2 as int)),
            decreases ne - i2,
        {
            proof {
                assert(g0.equipments.take(i2 + 1).drop_last() =~= g0.equipments.take(i2 as int));
                assert(g0.equipments.take(i2 + 1).last() == g0.equipments[i2 as int]);
            }
            let pos = self.equipments.get(i2).get_position();
            let visible = self.equipments.get(i2).is_visible();
            let drawn = chebyshev_check(pos, ppos, range) && visible
                && !self.monsters.is_position_occupied(pos) && !(ppos.0 == pos.0 && ppos.1
                == pos.1);
            proof {
                assert(drawn == equipment_drawn(g0, g0.equipments[i2 as int]));
            }
            if drawn {
                let icon_s: String = if glasses {
                    self.equipments.get(i2).get_icon().to_owned()
                } else {
                    "🎁".to_owned()
                };
                proof {
                    assert(icon_s@ == pickup_icon(g0, g0.equipments[i2 as int].icon));
                }
                set_map_cell(&mut self.map_to_display, pos.0, pos.1, icon_s);
            }
            i2 = i2 + 1;
        }
        proof {
            assert(g0.equipments.take(ne as int) =~= g0.equipments);
        }
        let ghost g_equips = self@;
        let nm = self.monsters.len();
        let mut i3: usize = 0;
        while i3 < nm
            invariant
                i3 <= nm,
                nm == g0.monsters.len(),
                size == g0.size,
                size_ok(size),
                g0 == old(self)@,
                ppos == g0.player.ent.position,
                range == g0.player.range,
                forall|k: int|
                    0 <= k < g0.monsters.len() ==> (#[trigger] g0.monsters[k]).position.0 < size
                        && g0.monsters[k].position.1 < size,
                self@ == (GridView { map: self@.map, ..g_equips }),
                g_equips == (GridView { map: g_equips.map, ..g_base }),
                g_base == (GridView { visible_walls: g_base.visible_walls, map: g_base.map, ..g0 }),
                self@.map.len() == size,
                forall|a: int| 0 <= a < size ==> (#[trigger] self@.map[a]).len() == size,
                self@.map == paint_monsters(g0, g_equips.map, g0.monsters.take(i3 as int)),
            decreases nm - i3,
        {
            proof {
                assert(g0.monsters.take(i3 + 1).drop_last() =~= g0.monsters.take(i3 as int));
                assert(g0.monsters.take(i3 + 1).last() == g0.monsters[i3 as int]);
            }
            let pos = self.monsters.get(i3).get_position();
            let visible = self.monsters.get(i3).is_visible();
            let drawn = chebyshev_check(pos, ppos, range) && visible;
            proof {
                assert(drawn == monster_drawn(g0, g0.monsters[i3 as int]));
            }
            if drawn {
                let icon_s: String = if ppos.0 == pos.0 && ppos.1 == pos.1 {
                    "❌".to_owned()
                } else {
                    self.monsters.get(i3).get_icon().to_owned()
                };
                proof {
                    assert(icon_s@ == monster_icon(g0, g0.monsters[i3 as int]));
                }
                set_map_cell(&mut self.map_to_display, pos.0, pos.1, icon_s);
            }
            i3 = i3 + 1;
        }
        proof {
            assert(g0.monsters.take(nm as int) =~= g0.monsters);
            assert(self@.map == render_map(g0));
        }
    }

    /// Retreats from an encounter by reversing the last movement step, then
    /// marks the world just-fled so the next monster tick skips.
    pub fn flee(&mut self)
        requires
            size_ok(old(self)@.size),
        ensures
            final(self)@ == flee_spec(old(self)@),
    {
        match self.last_movement {
            'z' => self.move_player('s'),
            'q' => self.move_player('d'),
            's' => self.move_player('z'),
            'd' => self.move_player('q'),
            'Z' => self.move_player('S'),
            'Q' => self.move_player('D'),
            'S' => self.move_player('Z'),
            'D' => self.move_player('Q'),
            _ => {},
        }
        self.just_flee = true;
    }

    /// Pushes the current display map and the player's inventory into the
    /// render snapshot.
    pub fn update_ui(&mut self)
        ensures
            final(self)@ == (GridView {
                ui: (UIView {
                    map: old(self)@.map,
                    equipments: old(self)@.player.equipments,
                    items: old(self)@.player.items,
                }),
                ..old(self)@
            }),
    {
        let map = clone_text_grid(&self.map_to_display);
        self.ui.update_map(map);
        let eqs = clone_equipment_vec(self.player.get_equipment());
        self.ui.update_equipments(eqs);
        let its = clone_item_vec(self.player.get_items());
        self.ui.update_items(its);
    }

    /// Heals the player by `amount`, with no cap: there is no maximum-hp
    /// concept.
    pub fn heal_player(&mut self, amount: i32)
        requires
            fits_i32(old(self)@.player.ent.hp + amount),
        ensures
            final(self)@ == (GridView {
                player: (PlayerView {
                    ent: (EntityView {
                        hp: old(self)@.player.ent.hp + amount,
                        ..old(self)@.player.ent
                    }),
                    ..old(self)@.player
                }),
                ..old(self)@
            }),
    {
        self.player.heal(amount);
    }

    /// The first monster the player must fight: still visible and standing
    /// on the player's own cell.
    pub fn combat_candidate(&self) -> (r: Option<usize>)
        ensures
            match r {
                Some(i) => {
                    &&& i < self@.monsters.len()
                    &&& self@.monsters[i as int].position == self@.player.ent.position
                    &&& self@.monsters[i as int].visible
                    &&& forall|j: int|
                        0 <= j < i ==> !((#[trigger] self@.monsters[j]).position
                            == self@.player.ent.position && self@.monsters[j].visible)
                },
                None => forall|j: int|
                    0 <= j < self@.monsters.len() ==> !((#[trigger] self@.monsters[j]).position
                        == self@.player.ent.position && self@.monsters[j].visible),
            },
    {
        let ppos = self.player.get_position();
        let n = self.monsters.len();
        let mut i: usize = 0;
        while i < n
            invariant
                i <= n,
                n == self@.monsters.len(),
                ppos == self@.player.ent.position,
                forall|j: int|
                    0 <= j < i ==> !((#[trigger] self@.monsters[j]).position
                        == self@.player.ent.position && self@.monsters[j].visible),
            decreases n - i,
        {
            let m = self.monsters.get(i);
            let mpos = m.get_position();
            if mpos.0 == ppos.0 && mpos.1 == ppos.1 && m.is_visible() {
                return Some(i);
            }
            i = i + 1;
        }
        None
    }

    /// Plays one combat turn against the monster at index `i`. A beaten
    /// monster is marked invisible on the spot: defeated pieces stay in the
    /// registry but never render or fight again.
    pub fn combat_turn(&mut self, i: usize, action: char, can_flee: bool) -> (r: CombatOutcome)
        requires
            i < old(self)@.monsters.len(),
            crate::combat::combat_turn_req(
                old(self)@.player,
                old(self)@.monsters[i as int],
                action,
            ),
        ensures
            ({
                let (p2, m2, out) = crate::combat::combat_turn_spec(
                    can_flee,
                    old(self)@.player,
                    old(self)@.monsters[i as int],
                    action,
                );
                let m3 = if out == CombatOutcome::Victory {
                    EntityView { visible: false, ..m2 }
                } else {
                    m2
                };
                r == out && final(self)@ == (GridView {
                    player: p2,
                    monsters: old(self)@.monsters.update(i as int, m3),
                    ..old(self)@
                })
            }),
    {
        let mr = self.monsters.get_mut_at(i);
        let out = crate::combat::combat_turn(can_flee, &mut self.player, mr, action);
        match out {
            CombatOutcome::Victory => {
                self.monsters.set_visible_at(i, false);
                proof {
                    assert(final(self)@.monsters =~= old(self)@.monsters.update(
                        i as int,
                        (EntityView {
                            visible: false,
                            ..crate::combat::combat_turn_spec(
                                can_flee,
                                old(self)@.player,
                                old(self)@.monsters[i as int],
                                action,
                            ).1
                        }),
                    ));
                }
            },
            _ => {},
        }
        out
    }
}

/// A wall cell the player has once seen is rendered as a wall in every
/// later snapshot: the base layer shows remembered walls wherever the
/// player now stands, and no overlay covers a cell that no monster or
/// pickup occupies.
pub proof fn lemma_remembered_wall_rendered(g: GridView, p: (usize, usize))
    requires
        remembered(g, p),
        p.0 < g.size,
        p.1 < g.size,
        forall|j: int|
            0 <= j < g.items.len() ==> (#[trigger] g.items[j]).position != p
                && g.items[j].position.0 < g.size && g.items[j].position.1 < g.size,
        forall|j: int|
            0 <= j < g.equipments.len() ==> (#[trigger] g.equipments[j]).position != p
                && g.equipments[j].position.0 < g.size && g.equipments[j].position.1 < g.size,
        forall|j: int|
            0 <= j < g.monsters.len() ==> (#[trigger] g.monsters[j]).position != p
                && g.monsters[j].position.0 < g.size && g.monsters[j].position.1 < g.size,
    ensures
        render_map(g)[p.0 as int][p.1 as int] == wall_icon(),
{
    assert(base_map(g)[p.0 as int][p.1 as int] == wall_icon());
    assert(map_dims_ok(base_map(g), g.size));
    let after_items = paint_items(g, base_map(g), g.items);
    let after_equips = paint_equipments(g, after_items, g.equipments);
    lemma_paint_items_preserves(g, base_map(g), g.items, p);
    lemma_paint_equipments_preserves(g, after_items, g.equipments, p);
    lemma_paint_monsters_preserves(g, after_equips, g.monsters, p);
}

/// Painting items touches only cells some item occupies.
proof fn lemma_paint_items_preserves(
    g: GridView,
    m: Seq<Seq<Seq<char>>>,
    items: Seq<ItemView>,
    p: (usize, usize),
)
    requires
        map_dims_ok(m, g.size),
        p.0 < g.size,
        p.1 < g.size,
        forall|j: int|
            0 <= j < items.len() ==> (#[trigger] items[j]).position != p && items[j].position.0
                < g.size && items[j].position.1 < g.size,
    ensures
        map_dims_ok(paint_items(g, m, items), g.size),
        paint_items(g, m, items)[p.0 as int][p.1 as int] == m[p.0 as int][p.1 as int],
    decreases items.len(),
{
    if items.len() > 0 {
        assert(items[items.len() - 1].position != p);
        assert(forall|j: int|
            0 <= j < items.drop_last().len() ==> (#[trigger] items.drop_last()[j]) == items[j]);
        lemma_paint_items_preserves(g, m, items.drop_last(), p);
        assert(items.last() == items[items.len() - 1]);
        let prev = paint_items(g, m, items.drop_last());
        if item_drawn(g, items.last()) {
            let q = items.last().position;
            let painted = paint_cell(prev, q, pickup_icon(g, items.last().icon));
            assert(paint_items(g, m, items) == painted);
            assert(painted.len() == prev.len());
            assert(painted[q.0 as int].len() == prev[q.0 as int].len());
            assert(forall|a: int|
                0 <= a < g.size && a != q.0 as int ==> #[trigger] painted[a] == prev[a]);
            if p.0 == q.0 {
                assert(painted[p.0 as int][p.1 as int] == prev[p.0 as int][p.1 as int]);
            }
        } else {
            assert(paint_items(g, m, items) == prev);
        }
    }
}

/// Painting equipment touches only cells some piece occupies.
proof fn lemma_paint_equipments_preserves(
    g: GridView,
    m: Seq<Seq<Seq<char>>>,
    equipments: Seq<EquipmentView>,
    p: (usize, usize),
)
    requires
        map_dims_ok(m, g.size),
        p.0 < g.size,
        p.1 < g.size,
        forall|j: int|
            0 <= j < equipments.len() ==> (#[trigger] equipments[j]).position != p && equipments[j].position.0
                < g.size && equipments[j].position.1 < g.size,
    ensures
        map_dims_ok(paint_equipments(g, m, equipments), g.size),
        paint_equipments(g, m, equipments)[p.0 as int][p.1 as int] == m[p.0 as int][p.1 as int],
    decreases equipments.len(),
{
    if equipments.len() > 0 {
        assert(equipments[equipments.len() - 1].position != p);
        assert(forall|j: int|
            0 <= j < equipments.drop_last().len() ==> (#[trigger] equipments.drop_last()[j]) == equipments[j]);
        lemma_paint_equipments_preserves(g, m, equipments.drop_last(), p);
        assert(equipments.last() == equipments[equipments.len() - 1]);
        let prev = paint_equipments(g, m, equipments.drop_last());
        if equipment_drawn(g, equipments.last()) {
            let q = equipments.last().position;
            let painted = paint_cell(prev, q, pickup_icon(g, equipments.last().icon));
            assert(paint_equipments(g, m, equipments) == painted);
            assert(painted.len() == prev.len());
            assert(painted[q.0 as int].len() == prev[q.0 as int].len());
            assert(forall|a: int|
                0 <= a < g.size && a != q.0 as int ==> #[trigger] painted[a] == prev[a]);
            if p.0 == q.0 {
                assert(painted[p.0 as int][p.1 as int] == prev[p.0 as int][p.1 as int]);
            }
        } else {
            assert(paint_equipments(g, m, equipments) == prev);
        }
    }
}

/// Painting monsters touches only cells some monster occupies.
proof fn lemma_paint_monsters_preserves(
    g: GridView,
    m: Seq<Seq<Seq<char>>>,
    monsters: Seq<EntityView>,
    p: (usize, usize),
)
    requires
        map_dims_ok(m, g.size),
        p.0 < g.size,
        p.1 < g.size,
        forall|j: int|
            0 <= j < monsters.len() ==> (#[trigger] monsters[j]).position != p && monsters[j].position.0
                < g.size && monsters[j].position.1 < g.size,
    ensures
        map_dims_ok(paint_monsters(g, m, monsters), g.size),
        paint_monsters(g, m, monsters)[p.0 as int][p.1 as int] == m[p.0 as int][p.1 as int],
    decreases monsters.len(),
{
    if monsters.len() > 0 {
        assert(monsters[monsters.len() - 1].position != p);
        assert(forall|j: int|
            0 <= j < monsters.drop_last().len() ==> (#[trigger] monsters.drop_last()[j]) == monsters[j]);
        lemma_paint_monsters_preserves(g, m, monsters.drop_last(), p);
        assert(monsters.last() == monsters[monsters.len() - 1]);
        let prev = paint_monsters(g, m, monsters.drop_last());
        if monster_drawn(g, monsters.last()) {
            let q = monsters.last().position;
            let painted = paint_cell(prev, q, monster_icon(g, monsters.last()));
            assert(paint_monsters(g, m, monsters) == painted);
            assert(painted.len() == prev.len());
            assert(painted[q.0 as int].len() == prev[q.0 as int].len());
            assert(forall|a: int|
                0 <= a < g.size && a != q.0 as int ==> #[trigger] painted[a] == prev[a]);
            if p.0 == q.0 {
                assert(painted[p.0 as int][p.1 as int] == prev[p.0 as int][p.1 as int]);
            }
        } else {
            assert(paint_monsters(g, m, monsters) == prev);
        }
    }
}

} // verus!
