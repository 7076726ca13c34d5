use vstd::prelude::*;

verus! {

/// The offset of the `k`-th of the eight neighbours of a cell, in the order in
/// which the editor visits them.
pub open spec fn neighbor_offset(k: int) -> (int, int) {
    if k == 0 {
        (-1, -1)
    } else if k == 1 {
        (-1, 0)
    } else if k == 2 {
        (-1, 1)
    } else if k == 3 {
        (0, -1)
    } else if k == 4 {
        (0, 1)
    } else if k == 5 {
        (1, -1)
    } else if k == 6 {
        (1, 0)
    } else {
        (1, 1)
    }
}

/// The `k`-th neighbour of cell `c`.
pub open spec fn neighbor(c: (i32, i32), k: int) -> (i32, i32) {
    ((c.0 + neighbor_offset(k).0) as i32, (c.1 + neighbor_offset(k).1) as i32)
}

/// `d` is one of the eight cells around `c`.
pub open spec fn is_neighbor(c: (i32, i32), d: (i32, i32)) -> bool {
    d != c && -1 <= d.0 - c.0 <= 1 && -1 <= d.1 - c.1 <= 1
}

/// The position of neighbour `d` of `c` in the visiting order.
pub open spec fn neighbor_index(c: (i32, i32), d: (i32, i32)) -> int {
    let i = 3 * (d.0 - c.0 + 1) + (d.1 - c.1 + 1);
    if i < 4 {
        i
    } else {
        i - 1
    }
}

/// Both coordinates of `c` leave room for a neighbour on every side.
pub open spec fn interior(c: (i32, i32)) -> bool {
    i32::MIN < c.0 < i32::MAX && i32::MIN < c.1 < i32::MAX
}

/// The editor's contents: the handle stored at each cell of each kind, and
/// the player start with its handle.
pub struct Layout {
    pub floors: Map<(i32, i32), u64>,
    pub walls: Map<(i32, i32), u64>,
    pub blocks: Map<(i32, i32), u64>,
    pub goals: Map<(i32, i32), u64>,
    pub player: Option<((i32, i32), u64)>,
}

impl Layout {
    pub open spec fn empty() -> Layout {
        Layout {
            floors: Map::empty(),
            walls: Map::empty(),
            blocks: Map::empty(),
            goals: Map::empty(),
            player: None,
        }
    }

    /// The invariants of an edited layout: floors lie inside the coordinate
    /// range and never share a cell with a wall; each floor's eight
    /// neighbours hold a floor or a wall; blocks, goals and the player stand
    /// on floors, at most one of them per cell.
    pub open spec fn wf(self) -> bool {
        &&& forall|c: (i32, i32)|
            #[trigger] self.floors.contains_key(c) ==> interior(c) && !self.walls.contains_key(c)
        &&& forall|c: (i32, i32), k: int|
            self.floors.contains_key(c) && 0 <= k < 8 ==> self.floors.contains_key(
                #[trigger] neighbor(c, k),
            ) || self.walls.contains_key(neighbor(c, k))
        &&& forall|c: (i32, i32)|
            #[trigger] self.blocks.contains_key(c) ==> self.floors.contains_key(c)
                && !self.goals.contains_key(c) && !self.has_player_at(c)
        &&& forall|c: (i32, i32)|
            #[trigger] self.goals.contains_key(c) ==> self.floors.contains_key(c)
                && !self.has_player_at(c)
        &&& forall|c: (i32, i32)| #[trigger] self.has_player_at(c) ==> self.floors.contains_key(c)
    }

    pub open spec fn has_player_at(self, c: (i32, i32)) -> bool {
        match self.player {
            Some(pl) => pl.0 == c,
            None => false,
        }
    }

    /// A block, goal or player may be put at `c`: it has a floor and no occupant.
    pub open spec fn can_place(self, c: (i32, i32)) -> bool {
        self.floors.contains_key(c) && !self.blocks.contains_key(c) && !self.goals.contains_key(c)
            && !self.has_player_at(c)
    }

    /// The walls once the first `k` neighbours of a new floor at `c` have been
    /// given a wall where they had neither floor nor wall; neighbour `j` gets
    /// handle `hs[j]`, and a wall at `c` itself is gone.
    pub open spec fn walls_bordering(self, c: (i32, i32), hs: Seq<u64>, k: int) -> Map<
        (i32, i32),
        u64,
    > {
        Map::new(
            |d: (i32, i32)|
                d != c && (self.walls.contains_key(d) || (is_neighbor(c, d) && neighbor_index(c, d)
                    < k && !self.floors.contains_key(d))),
            |d: (i32, i32)|
                if self.walls.contains_key(d) {
                    self.walls[d]
                } else {
                    hs[neighbor_index(c, d)]
                },
        )
    }

    /// A floor with handle `f` at `c`, which takes the place of any wall there
    /// and surrounds itself with walls (handles `hs`, by neighbour).
    pub open spec fn with_floor(self, c: (i32, i32), f: u64, hs: Seq<u64>) -> Layout {
        Layout {
            floors: self.floors.insert(c, f),
            walls: self.walls_bordering(c, hs, 8),
            ..self
        }
    }

    pub open spec fn with_block(self, c: (i32, i32), h: u64) -> Layout {
        if self.can_place(c) {
            Layout { blocks: self.blocks.insert(c, h), ..self }
        } else {
            self
        }
    }

    pub open spec fn with_goal(self, c: (i32, i32), h: u64) -> Layout {
        if self.can_place(c) {
            Layout { goals: self.goals.insert(c, h), ..self }
        } else {
            self
        }
    }

    /// The player moved to `c` (any earlier player start is dropped).
    pub open spec fn with_player(self, c: (i32, i32), h: u64) -> Layout {
        if self.can_place(c) {
            Layout { player: Some((c, h)), ..self }
        } else {
            self
        }
    }

    /// The occupant that removal at `c` takes: block, else goal, else player.
    pub open spec fn object_at(self, c: (i32, i32)) -> Option<u64> {
        if self.blocks.contains_key(c) {
            Some(self.blocks[c])
        } else if self.goals.contains_key(c) {
            Some(self.goals[c])
        } else if self.has_player_at(c) {
            Some(self.player.unwrap().1)
        } else {
            None
        }
    }

    pub open spec fn without_object(self, c: (i32, i32)) -> Layout {
        if self.blocks.contains_key(c) {
            Layout { blocks: self.blocks.remove(c), ..self }
        } else if self.goals.contains_key(c) {
            Layout { goals: self.goals.remove(c), ..self }
        } else if self.has_player_at(c) {
            Layout { player: None, ..self }
        } else {
            self
        }
    }

    /// `b` is the bounding box of the walls: (least x, greatest x, least y,
    /// greatest y), each bound reached by some wall.
    pub open spec fn is_wall_box(self, b: (int, int, int, int)) -> bool {
        &&& forall|d: (i32, i32)|
            self.walls.contains_key(d) ==> b.0 <= d.0 <= b.1 && b.2 <= d.1 <= b.3
        &&& exists|d: (i32, i32)| self.walls.contains_key(d) && d.0 == b.0
        &&& exists|d: (i32, i32)| self.walls.contains_key(d) && d.0 == b.1
        &&& exists|d: (i32, i32)| self.walls.contains_key(d) && d.1 == b.2
        &&& exists|d: (i32, i32)| self.walls.contains_key(d) && d.1 == b.3
    }

    pub open spec fn wall_box(self) -> (int, int, int, int) {
        choose|b: (int, int, int, int)| self.is_wall_box(b)
    }

    pub open spec fn min_x(self) -> int {
        self.wall_box().0
    }

    pub open spec fn max_x(self) -> int {
        self.wall_box().1
    }

    pub open spec fn min_y(self) -> int {
        self.wall_box().2
    }

    pub open spec fn max_y(self) -> int {
        self.wall_box().3
    }

    /// A layout has at most one bounding box of its walls.
    pub proof fn lemma_wall_box_unique(self, b: (int, int, int, int))
        requires
            self.is_wall_box(b),
        ensures
            self.wall_box() == b,
    {
        let c = self.wall_box();
        assert(self.is_wall_box(c));
        let d0 = choose|d: (i32, i32)| self.walls.contains_key(d) && d.0 == c.0;
        let d1 = choose|d: (i32, i32)| self.walls.contains_key(d) && d.0 == c.1;
        let d2 = choose|d: (i32, i32)| self.walls.contains_key(d) && d.1 == c.2;
        let d3 = choose|d: (i32, i32)| self.walls.contains_key(d) && d.1 == c.3;
        let e0 = choose|d: (i32, i32)| self.walls.contains_key(d) && d.0 == b.0;
        let e1 = choose|d: (i32, i32)| self.walls.contains_key(d) && d.0 == b.1;
        let e2 = choose|d: (i32, i32)| self.walls.contains_key(d) && d.1 == b.2;
        let e3 = choose|d: (i32, i32)| self.walls.contains_key(d) && d.1 == b.3;
        assert(self.walls.contains_key(d0) && self.walls.contains_key(e0));
        assert(self.walls.contains_key(d1) && self.walls.contains_key(e1));
        assert(self.walls.contains_key(d2) && self.walls.contains_key(e2));
        assert(self.walls.contains_key(d3) && self.walls.contains_key(e3));
    }

    /// `c` lies in the bounding box of the walls.
    pub open spec fn in_box(self, c: (i32, i32)) -> bool {
        self.min_x() <= c.0 <= self.max_x() && self.min_y() <= c.1 <= self.max_y()
    }

    /// Every block, goal and the player lie in the bounding box of the walls.
    pub open spec fn occupants_in_box(self) -> bool {
        (forall|c: (i32, i32)| self.blocks.contains_key(c) ==> self.in_box(c)) && (forall|
            c: (i32, i32),
        |
            self.goals.contains_key(c) ==> self.in_box(c)) && (forall|c: (i32, i32)|
            self.has_player_at(c) ==> self.in_box(c))
    }

    /// The exported code of cell `c`: 1 player, 2 block, 4 goal, 8 wall, else 0.
    pub open spec fn cell_value(self, c: (i32, i32)) -> i32 {
        if self.has_player_at(c) {
            1
        } else if self.blocks.contains_key(c) {
            2
        } else if self.goals.contains_key(c) {
            4
        } else if self.walls.contains_key(c) {
            8
        } else {
            0
        }
    }

    /// `g` is the exported level: one row per `y` and one column per `x` of
    /// the walls' bounding box, row 0 and column 0 at its least corner.
    pub open spec fn is_grid(self, g: Seq<Seq<i32>>) -> bool {
        &&& g.len() == self.max_y() - self.min_y() + 1
        &&& forall|i: int|
            0 <= i < g.len() ==> #[trigger] g[i].len() == self.max_x() - self.min_x() + 1
        &&& forall|i: int, j: int|
            0 <= i < g.len() && 0 <= j < g[i].len() ==> #[trigger] g[i][j] == self.cell_value(
                ((self.min_x() + j) as i32, (self.min_y() + i) as i32),
            )
    }
}

} // verus!
