use vstd::prelude::*;

use crate::layout::{interior, is_neighbor, neighbor, neighbor_index, Layout};

verus! {

/// Once a floor is placed at `c`, each of its eight neighbours holds a floor
/// or a wall, and one that held neither before now holds a wall with the
/// handle given for it.
pub proof fn lemma_floor_is_bordered(m: Layout, c: (i32, i32), f: u64, hs: Seq<u64>)
    requires
        interior(c),
        hs.len() == 8,
    ensures
        forall|k: int|
            0 <= k < 8 ==> {
                let n = m.with_floor(c, f, hs);
                let d = #[trigger] neighbor(c, k);
                &&& n.floors.contains_key(d) || n.walls.contains_key(d)
                &&& !m.floors.contains_key(d) && !m.walls.contains_key(d) ==> n.walls.contains_key(d)
                    && n.walls[d] == hs[k]
            },
{
    assert forall|k: int| 0 <= k < 8 implies is_neighbor(c, #[trigger] neighbor(c, k))
        && neighbor_index(c, neighbor(c, k)) == k by {}
}

/// Placing a floor twice at one cell leaves the same cells with floors and
/// the same walls as placing it once; only the floor's handle is replaced.
pub proof fn lemma_floor_twice(
    m: Layout,
    c: (i32, i32),
    f1: u64,
    hs1: Seq<u64>,
    f2: u64,
    hs2: Seq<u64>,
)
    requires
        interior(c),
        hs1.len() == 8,
        hs2.len() == 8,
    ensures
        m.with_floor(c, f1, hs1).with_floor(c, f2, hs2).floors.dom() == m.with_floor(
            c,
            f1,
            hs1,
        ).floors.dom(),
        m.with_floor(c, f1, hs1).with_floor(c, f2, hs2).walls == m.with_floor(c, f1, hs1).walls,
        m.with_floor(c, f1, hs1).with_floor(c, f2, hs2).blocks == m.blocks,
        m.with_floor(c, f1, hs1).with_floor(c, f2, hs2).goals == m.goals,
        m.with_floor(c, f1, hs1).with_floor(c, f2, hs2).player == m.player,
{
    let once = m.with_floor(c, f1, hs1);
    let twice = once.with_floor(c, f2, hs2);
    assert forall|d: (i32, i32)| is_neighbor(c, d) implies 0 <= neighbor_index(c, d) < 8 by {}
    assert(twice.floors.dom() =~= once.floors.dom());
    assert(twice.walls =~= once.walls);
}

/// After a player start is placed at `p1` and then at another cell `p2`
/// where that is allowed, there is one player start, at `p2`.
pub proof fn lemma_one_player(m: Layout, p1: (i32, i32), h1: u64, p2: (i32, i32), h2: u64)
    requires
        p1 != p2,
    ensures
        m.with_player(p1, h1).can_place(p2) ==> {
            let n = m.with_player(p1, h1).with_player(p2, h2);
            &&& n.player == Some((p2, h2))
            &&& forall|c: (i32, i32)| #[trigger] n.has_player_at(c) <==> c == p2
        },
{
}

/// A block placed where `can_place` held takes the cell, so nothing more can
/// be placed there; removing it returns its handle and restores the layout,
/// so the cell is free again.
pub proof fn lemma_block_occupies(m: Layout, c: (i32, i32), h: u64)
    requires
        m.can_place(c),
    ensures
        !m.with_block(c, h).can_place(c),
        m.with_block(c, h).object_at(c) == Some(h),
        m.with_block(c, h).without_object(c) == m,
        m.with_block(c, h).without_object(c).can_place(c),
{
    assert(m.with_block(c, h).without_object(c).blocks =~= m.blocks);
}

/// Removal at a cell takes a block first, then a goal, then the player, and
/// leaves every other entry as it was.
pub proof fn lemma_removal_order(m: Layout, c: (i32, i32))
    ensures
        m.blocks.contains_key(c) ==> m.object_at(c) == Some(m.blocks[c]) && m.without_object(c)
            == (Layout { blocks: m.blocks.remove(c), ..m }),
        !m.blocks.contains_key(c) && m.goals.contains_key(c) ==> m.object_at(c) == Some(
            m.goals[c],
        ) && m.without_object(c) == (Layout { goals: m.goals.remove(c), ..m }),
        !m.blocks.contains_key(c) && !m.goals.contains_key(c) && m.has_player_at(c) ==> m.object_at(
            c,
        ) == Some(m.player.unwrap().1) && m.without_object(c) == (Layout { player: None, ..m }),
        !m.blocks.contains_key(c) && !m.goals.contains_key(c) && !m.has_player_at(c) ==> m.object_at(
            c,
        ) is None && m.without_object(c) == m,
{
}

/// An empty layout is well formed.
pub proof fn lemma_empty_wf()
    ensures
        Layout::empty().wf(),
{
}

/// Placing a floor inside the coordinate range keeps a layout well formed.
pub proof fn lemma_floor_keeps_wf(m: Layout, c: (i32, i32), f: u64, hs: Seq<u64>)
    requires
        m.wf(),
        interior(c),
        hs.len() == 8,
    ensures
        m.with_floor(c, f, hs).wf(),
{
    let n = m.with_floor(c, f, hs);
    lemma_floor_is_bordered(m, c, f, hs);
    assert forall|e: (i32, i32)| #[trigger] n.floors.contains_key(e) implies interior(e)
        && !n.walls.contains_key(e) by {
        if e != c {
            assert(m.floors.contains_key(e));
        }
    }
    assert forall|d: (i32, i32)| #[trigger] n.blocks.contains_key(d) implies n.floors.contains_key(
        d,
    ) && !n.goals.contains_key(d) && !n.has_player_at(d) by {
        assert(m.blocks.contains_key(d));
    }
    assert forall|d: (i32, i32)| #[trigger] n.goals.contains_key(d) implies n.floors.contains_key(
        d,
    ) && !n.has_player_at(d) by {
        assert(m.goals.contains_key(d));
    }
    assert forall|d: (i32, i32)| #[trigger] n.has_player_at(d) implies n.floors.contains_key(d) by {
        assert(m.has_player_at(d));
    }
    assert forall|e: (i32, i32), k: int|
        n.floors.contains_key(e) && 0 <= k < 8 implies n.floors.contains_key(
        #[trigger] neighbor(e, k),
    ) || n.walls.contains_key(neighbor(e, k)) by {
        if e != c {
            let d = neighbor(e, k);
            assert(m.floors.contains_key(d) || m.walls.contains_key(d));
        }
    }
}

/// Placing a block, goal or player, and removing an occupant, keep a layout
/// well formed.
pub proof fn lemma_occupant_edits_keep_wf(m: Layout, c: (i32, i32), h: u64)
    requires
        m.wf(),
    ensures
        m.with_block(c, h).wf(),
        m.with_goal(c, h).wf(),
        m.with_player(c, h).wf(),
        m.without_object(c).wf(),
{
    assert forall|d: (i32, i32)| #[trigger] m.with_block(c, h).has_player_at(d) implies m.has_player_at(
        d,
    ) by {}
    assert forall|d: (i32, i32)| #[trigger] m.with_goal(c, h).has_player_at(d) implies m.has_player_at(
        d,
    ) by {}
    assert forall|d: (i32, i32)| #[trigger] m.without_object(c).has_player_at(d) implies m.has_player_at(
        d,
    ) by {}
    lemma_occupants_keep_wf(m, m.with_block(c, h));
    lemma_occupants_keep_wf(m, m.with_goal(c, h));
    lemma_occupants_keep_wf(m, m.with_player(c, h));
    lemma_occupants_keep_wf(m, m.without_object(c));
}

/// A layout whose floors and walls are those of a well-formed one, and whose
/// blocks, goals and player stand on floors one per cell, is well formed.
proof fn lemma_occupants_keep_wf(m: Layout, n: Layout)
    requires
        m.wf(),
        n.floors == m.floors,
        n.walls == m.walls,
        forall|d: (i32, i32)| #[trigger] n.blocks.contains_key(d) ==> n.floors.contains_key(d)
            && !n.goals.contains_key(d) && !n.has_player_at(d),
        forall|d: (i32, i32)| #[trigger] n.goals.contains_key(d) ==> n.floors.contains_key(d)
            && !n.has_player_at(d),
        forall|d: (i32, i32)| #[trigger] n.has_player_at(d) ==> n.floors.contains_key(d),
    ensures
        n.wf(),
{
}

/// Some wall lies strictly to each side of every floor of a well-formed
/// layout, in its row and in its column.
pub proof fn lemma_walls_around_floor(m: Layout, e: (i32, i32))
    requires
        m.wf(),
        m.floors.contains_key(e),
    ensures
        exists|d: (i32, i32)| m.walls.contains_key(d) && d.0 < e.0,
        exists|d: (i32, i32)| m.walls.contains_key(d) && d.0 > e.0,
        exists|d: (i32, i32)| m.walls.contains_key(d) && d.1 < e.1,
        exists|d: (i32, i32)| m.walls.contains_key(d) && d.1 > e.1,
{
    lemma_wall_left(m, e);
    lemma_wall_right(m, e);
    lemma_wall_above(m, e);
    lemma_wall_below(m, e);
}

proof fn lemma_wall_left(m: Layout, e: (i32, i32))
    requires
        m.wf(),
        m.floors.contains_key(e),
    ensures
        exists|d: (i32, i32)| m.walls.contains_key(d) && d.0 < e.0,
    decreases e.0 - i32::MIN,
{
    let l = neighbor(e, 1);
    if m.walls.contains_key(l) {
        assert(m.walls.contains_key(l) && l.0 < e.0);
    } else {
        assert(m.floors.contains_key(l));
        lemma_wall_left(m, l);
    }
}

proof fn lemma_wall_right(m: Layout, e: (i32, i32))
    requires
        m.wf(),
        m.floors.contains_key(e),
    ensures
        exists|d: (i32, i32)| m.walls.contains_key(d) && d.0 > e.0,
    decreases i32::MAX - e.0,
{
    let r = neighbor(e, 6);
    if m.walls.contains_key(r) {
        assert(m.walls.contains_key(r) && r.0 > e.0);
    } else {
        assert(m.floors.contains_key(r));
        lemma_wall_right(m, r);
    }
}

proof fn lemma_wall_above(m: Layout, e: (i32, i32))
    requires
        m.wf(),
        m.floors.contains_key(e),
    ensures
        exists|d: (i32, i32)| m.walls.contains_key(d) && d.1 < e.1,
    decreases e.1 - i32::MIN,
{
    let u = neighbor(e, 3);
    if m.walls.contains_key(u) {
        assert(m.walls.contains_key(u) && u.1 < e.1);
    } else {
        assert(m.floors.contains_key(u));
        lemma_wall_above(m, u);
    }
}

proof fn lemma_wall_below(m: Layout, e: (i32, i32))
    requires
        m.wf(),
        m.floors.contains_key(e),
    ensures
        exists|d: (i32, i32)| m.walls.contains_key(d) && d.1 > e.1,
    decreases i32::MAX - e.1,
{
    let b = neighbor(e, 4);
    if m.walls.contains_key(b) {
        assert(m.walls.contains_key(b) && b.1 > e.1);
    } else {
        assert(m.floors.contains_key(b));
        lemma_wall_below(m, b);
    }
}

/// In a well-formed layout whose walls have a bounding box, every block,
/// goal and the player lie inside it, so the layout can always be exported.
pub proof fn lemma_occupants_in_box(m: Layout, b: (int, int, int, int))
    requires
        m.wf(),
        m.is_wall_box(b),
    ensures
        m.occupants_in_box(),
{
    m.lemma_wall_box_unique(b);
    assert forall|c: (i32, i32)| m.floors.contains_key(c) implies #[trigger] m.in_box(c) by {
        lemma_walls_around_floor(m, c);
    }
}

} // verus!
