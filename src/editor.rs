use vstd::prelude::*;

use crate::cell_map::{cells_of, CellMap};
use crate::layout::{is_neighbor, neighbor, neighbor_index, neighbor_offset, Layout};
use crate::laws::{
    lemma_empty_wf, lemma_floor_keeps_wf, lemma_occupant_edits_keep_wf, lemma_occupants_in_box,
};
use crate::position::Position;

verus! {

/// What placing a floor changed, for the caller to mirror.
pub struct FloorPlacement {
    /// The handle of the wall that the floor replaced, if there was one.
    pub replaced_wall: Option<u64>,
    /// For each of the eight neighbours, in visiting order, whether it got a
    /// new wall with the handle supplied for it.
    pub walls_added: Vec<bool>,
}

/// Why a layout cannot be exported.
#[derive(Clone, Copy, Debug, PartialEq, Eq, Structural)]
pub enum SerializeError {
    /// No wall has been placed, so the level has no extent.
    NoWalls,
    /// A block, goal or the player lies outside the bounding box of the walls.
    OutOfBounds,
    /// The bounding box has more rows or columns than a `usize` can count.
    TooLarge,
}

/// The editing state: floors, border walls, blocks, goals and the player
/// start, each cell holding the handle of the object placed there.
pub struct EditingState {
    floors: CellMap,
    walls: CellMap,
    blocks: CellMap,
    goals: CellMap,
    player: Option<(Position, u64)>,
}

impl View for EditingState {
    type V = Layout;

    closed spec fn view(&self) -> Layout {
        Layout {
            floors: cells_of(self.floors),
            walls: cells_of(self.walls),
            blocks: cells_of(self.blocks),
            goals: cells_of(self.goals),
            player: match self.player {
                Some(pl) => Some((pl.0.cell(), pl.1)),
                None => None,
            },
        }
    }
}

/// The offset of the `k`-th neighbour.
fn offset_of(k: usize) -> (r: (i32, i32))
    requires
        k < 8,
    ensures
        r.0 == neighbor_offset(k as int).0,
        r.1 == neighbor_offset(k as int).1,
{
    if k == 0 {
        (-1, -1)
    } else if k == 1 {
        (-1, 0)
    } else if k == 2 {
        (-1, 1)
    } else if k == 3 {
        (0, -1)
    } else if k == 4 {
        (0, 1)
    } else if k == 5 {
        (1, -1)
    } else if k == 6 {
        (1, 0)
    } else {
        (1, 1)
    }
}

impl EditingState {
    /// An editor with nothing placed.
    pub fn new() -> (r: EditingState)
        ensures
            r@ == Layout::empty(),
            r@.wf(),
    {
        let r = EditingState {
            floors: CellMap::new(),
            walls: CellMap::new(),
            blocks: CellMap::new(),
            goals: CellMap::new(),
            player: None,
        };
        assert(r@.floors =~= Map::empty());
        assert(r@.walls =~= Map::empty());
        assert(r@.blocks =~= Map::empty());
        assert(r@.goals =~= Map::empty());
        proof {
            lemma_empty_wf();
        }
        r
    }

    /// Whether a block, goal or player may go to `position`: it has a floor
    /// and no block, goal or player.
    pub fn can_place(&self, position: &Position) -> (r: bool)
        ensures
            r == self@.can_place(position.cell()),
    {
        let c = (position.x, position.y);
        self.floors.contains_key(c) && !self.blocks.contains_key(c) && !self.goals.contains_key(c)
            && match self.player {
            Some(pl) => pl.0 != *position,
            None => true,
        }
    }

    /// Whether `position` has a floor.
    pub fn has_floor(&self, position: &Position) -> (r: bool)
        ensures
            r == self@.floors.contains_key(position.cell()),
    {
        self.floors.contains_key((position.x, position.y))
    }

    /// The player start and its handle, if one was placed.
    pub fn player(&self) -> (r: Option<(Position, u64)>)
        ensures
            r matches Some(pl) ==> self@.player == Some((pl.0.cell(), pl.1)),
            r is None <==> self@.player is None,
    {
        self.player
    }

    /// Places a block with handle `block` at `position` where `can_place`
    /// holds, and reports whether it did; elsewhere nothing changes.
    pub fn place_block(&mut self, position: Position, block: u64) -> (r: bool)
        requires
            old(self)@.wf(),
        ensures
            r == old(self)@.can_place(position.cell()),
            final(self)@ == old(self)@.with_block(position.cell(), block),
            final(self)@.wf(),
    {
        proof {
            lemma_occupant_edits_keep_wf(self@, position.cell(), block);
        }
        if self.can_place(&position) {
            self.blocks.insert((position.x, position.y), block);
            true
        } else {
            false
        }
    }

    /// Places a goal with handle `goal` at `position` where `can_place`
    /// holds, and reports whether it did; elsewhere nothing changes.
    pub fn place_goal(&mut self, position: Position, goal: u64) -> (r: bool)
        requires
            old(self)@.wf(),
        ensures
            r == old(self)@.can_place(position.cell()),
            final(self)@ == old(self)@.with_goal(position.cell(), goal),
            final(self)@.wf(),
    {
        proof {
            lemma_occupant_edits_keep_wf(self@, position.cell(), goal);
        }
        if self.can_place(&position) {
            self.goals.insert((position.x, position.y), goal);
            true
        } else {
            false
        }
    }

    /// Moves the player start, with handle `player`, to `position` where
    /// `can_place` holds, and reports whether it did; the earlier player start,
    /// if any, is dropped. Elsewhere nothing changes.
    pub fn place_player(&mut self, position: Position, player: u64) -> (r: bool)
        requires
            old(self)@.wf(),
        ensures
            r == old(self)@.can_place(position.cell()),
            final(self)@ == old(self)@.with_player(position.cell(), player),
            final(self)@.wf(),
    {
        proof {
            lemma_occupant_edits_keep_wf(self@, position.cell(), player);
        }
        if self.can_place(&position) {
            self.player = Some((position, player));
            true
        } else {
            false
        }
    }

    /// Removes the occupant at `position`, looking for a block, then a goal,
    /// then the player, and returns its handle; `None` where there is none.
    /// Floors and walls stay.
    pub fn remove_object(&mut self, position: &Position) -> (r: Option<u64>)
        requires
            old(self)@.wf(),
        ensures
            r == old(self)@.object_at(position.cell()),
            final(self)@ == old(self)@.without_object(position.cell()),
            final(self)@.wf(),
    {
        proof {
            lemma_occupant_edits_keep_wf(self@, position.cell(), 0);
        }
        let c = (position.x, position.y);
        if self.blocks.contains_key(c) {
            self.blocks.remove(c)
        } else if self.goals.contains_key(c) {
            self.goals.remove(c)
        } else {
            match self.player {
                Some(pl) => {
                    if pl.0 == *position {
                        self.player = None;
                        Some(pl.1)
                    } else {
                        None
                    }
                },
                None => None,
            }
        }
    }

    /// Places a floor with handle `floor` at `position`. A wall there is
    /// removed, and each of the eight neighbours that has neither floor nor
    /// wall gets a wall with the handle `wall_handles` gives for it.
    pub fn place_floor(&mut self, position: Position, floor: u64, wall_handles: &[u64; 8]) -> (r:
        FloorPlacement)
        requires
            old(self)@.wf(),
            position.is_interior(),
        ensures
            final(self)@ == old(self)@.with_floor(position.cell(), floor, wall_handles@),
            final(self)@.wf(),
            r.replaced_wall == (if old(self)@.walls.contains_key(position.cell()) {
                Some(old(self)@.walls[position.cell()])
            } else {
                None
            }),
            r.walls_added@.len() == 8,
            forall|k: int|
                0 <= k < 8 ==> #[trigger] r.walls_added@[k] == (!old(self)@.floors.contains_key(
                    neighbor(position.cell(), k),
                ) && !old(self)@.walls.contains_key(neighbor(position.cell(), k))),
    {
        let ghost before = self@;
        proof {
            lemma_floor_keeps_wf(before, position.cell(), floor, wall_handles@);
        }
        let ghost c = position.cell();
        let ghost hs = wall_handles@;
        let cell = (position.x, position.y);
        self.floors.insert(cell, floor);
        let replaced_wall = self.walls.remove(cell);
        let mut walls_added: Vec<bool> = Vec::new();
        let mut k: usize = 0;
        assert(cells_of(self.walls) =~= before.walls_bordering(c, hs, 0));
        while k < 8
            invariant
                k <= 8,
                walls_added@.len() == k,
                position.is_interior(),
                c == position.cell(),
                hs == wall_handles@,
                cells_of(self.floors) == before.floors.insert(c, floor),
                cells_of(self.walls) == before.walls_bordering(c, hs, k as int),
                cells_of(self.blocks) == before.blocks,
                cells_of(self.goals) == before.goals,
                self@.player == before.player,
                forall|j: int|
                    0 <= j < k ==> #[trigger] walls_added@[j] == (!before.floors.contains_key(
                        neighbor(c, j),
                    ) && !before.walls.contains_key(neighbor(c, j))),
            decreases 8 - k,
        {
            let (dx, dy) = offset_of(k);
            let nb = (position.x + dx, position.y + dy);
            assert(nb == neighbor(c, k as int));
            assert(is_neighbor(c, nb) && neighbor_index(c, nb) == k);
            let fresh = !self.floors.contains_key(nb) && !self.walls.contains_key(nb);
            if fresh {
                self.walls.insert(nb, wall_handles[k]);
            }
            walls_added.push(fresh);
            assert forall|d: (i32, i32)|
                is_neighbor(c, d) && neighbor_index(c, d) == k implies d == nb by {}
            assert(cells_of(self.walls) =~= before.walls_bordering(c, hs, k + 1));
            k = k + 1;
        }
        FloorPlacement { replaced_wall, walls_added }
    }

    /// The exported code of cell `c`.
    fn cell_code(&self, c: (i32, i32)) -> (r: i32)
        ensures
            r == self@.cell_value(c),
    {
        let at_player = match self.player {
            Some(pl) => pl.0.x == c.0 && pl.0.y == c.1,
            None => false,
        };
        if at_player {
            1
        } else if self.blocks.contains_key(c) {
            2
        } else if self.goals.contains_key(c) {
            4
        } else if self.walls.contains_key(c) {
            8
        } else {
            0
        }
    }

    /// Whether every cell of `cells` lies in the box `[x0, x1] x [y0, y1]`.
    fn all_in_box(cells: &Vec<(i32, i32)>, x0: i32, x1: i32, y0: i32, y1: i32) -> (r: bool)
        ensures
            r == forall|d: (i32, i32)|
                cells@.contains(d) ==> x0 <= d.0 <= x1 && y0 <= d.1 <= y1,
    {
        let mut i: usize = 0;
        while i < cells.len()
            invariant
                i <= cells@.len(),
                forall|j: int| 0 <= j < i ==> x0 <= #[trigger] cells@[j].0 <= x1 && y0 <= cells@[j].1 <= y1,
            decreases cells@.len() - i,
        {
            let d = cells[i];
            if !(x0 <= d.0 && d.0 <= x1 && y0 <= d.1 && d.1 <= y1) {
                assert(cells@.contains(d));
                return false;
            }
            i = i + 1;
        }
        true
    }

    /// The level as rows of cell codes (1 player, 2 block, 4 goal, 8 wall,
    /// 0 otherwise), spanning exactly the bounding box of the walls, with row
    /// 0 and column 0 at its least `y` and `x`. Fails without walls, and where
    /// a block, goal or the player lies outside that box.
    pub fn serialize(&self) -> (r: Result<Vec<Vec<i32>>, SerializeError>)
        requires
            self@.wf(),
        ensures
            !(r matches Err(SerializeError::OutOfBounds)),
            r matches Err(SerializeError::NoWalls) <==> self@.walls.is_empty(),
            r matches Err(SerializeError::OutOfBounds) <==> !self@.walls.is_empty()
                && !self@.occupants_in_box(),
            r matches Err(SerializeError::TooLarge) <==> !self@.walls.is_empty()
                && self@.occupants_in_box() && (self@.max_x() - self@.min_x() + 1 > usize::MAX
                || self@.max_y() - self@.min_y() + 1 > usize::MAX),
            r matches Ok(g) ==> self@.is_grid(g@.map_values(|line: Vec<i32>| line@)),
    {
        let walls = self.walls.keys();
        if walls.len() == 0 {
            assert forall|d: (i32, i32)| !self@.walls.contains_key(d) by {
                if self@.walls.contains_key(d) {
                    assert(walls@.contains(d));
                }
            }
            assert(self@.walls.dom() =~= Set::empty());
            return Err(SerializeError::NoWalls);
        }
        assert(walls@.contains(walls@[0]));
        let mut min_x = walls[0].0;
        let mut max_x = walls[0].0;
        let mut min_y = walls[0].1;
        let mut max_y = walls[0].1;
        let ghost mut w0: int = 0;
        let ghost mut w1: int = 0;
        let ghost mut w2: int = 0;
        let ghost mut w3: int = 0;
        let mut i: usize = 1;
        while i < walls.len()
            invariant
                1 <= i <= walls@.len(),
                0 <= w0 < i && walls@[w0].0 == min_x,
                0 <= w1 < i && walls@[w1].0 == max_x,
                0 <= w2 < i && walls@[w2].1 == min_y,
                0 <= w3 < i && walls@[w3].1 == max_y,
                forall|j: int|
                    0 <= j < i ==> min_x <= (#[trigger] walls@[j]).0 <= max_x && min_y <= walls@[j].1
                        <= max_y,
            decreases walls@.len() - i,
        {
            let d = walls[i];
            if d.0 < min_x {
                min_x = d.0;
                proof { w0 = i as int; }
            }
            if d.0 > max_x {
                max_x = d.0;
                proof { w1 = i as int; }
            }
            if d.1 < min_y {
                min_y = d.1;
                proof { w2 = i as int; }
            }
            if d.1 > max_y {
                max_y = d.1;
                proof { w3 = i as int; }
            }
            i = i + 1;
        }
        proof {
            let b = (min_x as int, max_x as int, min_y as int, max_y as int);
            assert forall|d: (i32, i32)| self@.walls.contains_key(d) implies b.0 <= d.0 <= b.1 && b.2
                <= d.1 <= b.3 by {
                assert(walls@.contains(d));
                let j = choose|j: int| 0 <= j < walls@.len() && walls@[j] == d;
            }
            assert(walls@.contains(walls@[w0]));
            assert(walls@.contains(walls@[w1]));
            assert(walls@.contains(walls@[w2]));
            assert(walls@.contains(walls@[w3]));
            assert(self@.walls.contains_key(walls@[w0]) && walls@[w0].0 == b.0);
            assert(self@.walls.contains_key(walls@[w1]) && walls@[w1].0 == b.1);
            assert(self@.walls.contains_key(walls@[w2]) && walls@[w2].1 == b.2);
            assert(self@.walls.contains_key(walls@[w3]) && walls@[w3].1 == b.3);
            assert(self@.is_wall_box(b));
            self@.lemma_wall_box_unique(b);
            lemma_occupants_in_box(self@, b);
        }
        let blocks = self.blocks.keys();
        let goals = self.goals.keys();
        let blocks_in_box = Self::all_in_box(&blocks, min_x, max_x, min_y, max_y);
        let goals_in_box = Self::all_in_box(&goals, min_x, max_x, min_y, max_y);
        let player_in_box = match self.player {
            Some(pl) => min_x <= pl.0.x && pl.0.x <= max_x && min_y <= pl.0.y && pl.0.y <= max_y,
            None => true,
        };
        proof {
            if blocks_in_box {
                assert forall|c: (i32, i32)| self@.blocks.contains_key(c) implies self@.in_box(c) by {
                    assert(blocks@.contains(c));
                }
            } else {
                let d = choose|d: (i32, i32)|
                    !(blocks@.contains(d) ==> min_x <= d.0 <= max_x && min_y <= d.1 <= max_y);
                assert(self@.blocks.contains_key(d) && !self@.in_box(d));
            }
            if goals_in_box {
                assert forall|c: (i32, i32)| self@.goals.contains_key(c) implies self@.in_box(c) by {
                    assert(goals@.contains(c));
                }
            } else {
                let d = choose|d: (i32, i32)|
                    !(goals@.contains(d) ==> min_x <= d.0 <= max_x && min_y <= d.1 <= max_y);
                assert(self@.goals.contains_key(d) && !self@.in_box(d));
            }
            if !player_in_box {
                assert(self@.has_player_at(self@.player.unwrap().0));
            }
        }
        if !(blocks_in_box && goals_in_box && player_in_box) {
            return Err(SerializeError::OutOfBounds);
        }
        let wide: u64 = (max_x as i64 - min_x as i64 + 1) as u64;
        let high: u64 = (max_y as i64 - min_y as i64 + 1) as u64;
        if wide > usize::MAX as u64 || high > usize::MAX as u64 {
            return Err(SerializeError::TooLarge);
        }
        let width: usize = wide as usize;
        let height: usize = high as usize;
        let mut grid: Vec<Vec<i32>> = Vec::new();
        let mut r: usize = 0;
        while r < height
            invariant
                r <= height,
                height == self@.max_y() - self@.min_y() + 1,
                height == max_y - min_y + 1,
                width == max_x - min_x + 1,
                width == self@.max_x() - self@.min_x() + 1,
                min_x == self@.min_x(),
                min_y == self@.min_y(),
                grid@.len() == r,
                forall|i: int| 0 <= i < r ==> (#[trigger] grid@[i])@.len() == width,
                forall|i: int, j: int|
                    0 <= i < r && 0 <= j < width ==> #[trigger] grid@[i]@[j] == self@.cell_value(
                        ((min_x + j) as i32, (min_y + i) as i32),
                    ),
            decreases height - r,
        {
            let y = (min_y as i64 + r as i64) as i32;
            let mut line: Vec<i32> = Vec::new();
            let mut c: usize = 0;
            while c < width
                invariant
                    c <= width,
                    r < height,
                    height == max_y - min_y + 1,
                    width == max_x - min_x + 1,
                    width == self@.max_x() - self@.min_x() + 1,
                    min_x == self@.min_x(),
                    y == min_y + r,
                    line@.len() == c,
                    forall|j: int|
                        0 <= j < c ==> #[trigger] line@[j] == self@.cell_value(
                            ((min_x + j) as i32, y),
                        ),
                decreases width - c,
            {
                let x = (min_x as i64 + c as i64) as i32;
                let v = self.cell_code((x, y));
                line.push(v);
                c = c + 1;
            }
            grid.push(line);
            r = r + 1;
        }
        let ghost g = grid@.map_values(|line: Vec<i32>| line@);
        assert(self@.is_grid(g));
        Ok(grid)
    }
}

} // verus!
