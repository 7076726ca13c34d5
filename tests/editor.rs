use level_editor::{EditingState, Position, SerializeError};

const WALLS: [u64; 8] = [101, 102, 103, 104, 105, 106, 107, 108];
const MORE_WALLS: [u64; 8] = [201, 202, 203, 204, 205, 206, 207, 208];

fn p(x: i32, y: i32) -> Position {
    Position::new(x, y)
}

fn neighbors(c: Position) -> Vec<Position> {
    let offsets = [(-1, -1), (-1, 0), (-1, 1), (0, -1), (0, 1), (1, -1), (1, 0), (1, 1)];
    offsets.iter().map(|&(dx, dy)| c.add(dx, dy)).collect()
}

#[test]
fn fresh_editor_places_nothing() {
    let editor = EditingState::new();
    assert!(!editor.can_place(&p(0, 0)));
    assert!(!editor.has_floor(&p(0, 0)));
    assert_eq!(editor.player(), None);
}

#[test]
fn serialize_without_walls_fails() {
    let editor = EditingState::new();
    assert_eq!(editor.serialize(), Err(SerializeError::NoWalls));
}

#[test]
fn block_without_floor_is_not_placed() {
    let mut editor = EditingState::new();
    assert!(!editor.can_place(&p(3, 4)));
    assert!(!editor.place_block(p(3, 4), 7));
    assert!(!editor.can_place(&p(3, 4)));
    assert_eq!(editor.remove_object(&p(3, 4)), None);
    assert_eq!(editor.serialize(), Err(SerializeError::NoWalls));
}

#[test]
fn goal_and_player_without_floor_are_not_placed() {
    let mut editor = EditingState::new();
    assert!(!editor.place_goal(p(1, 1), 7));
    assert!(!editor.place_player(p(1, 1), 8));
    assert_eq!(editor.player(), None);
}

#[test]
fn floor_surrounds_itself_with_walls() {
    let mut editor = EditingState::new();
    let placed = editor.place_floor(p(5, -3), 1, &WALLS);
    assert_eq!(placed.replaced_wall, None);
    assert_eq!(placed.walls_added, vec![true; 8]);
    assert!(editor.has_floor(&p(5, -3)));
    assert!(editor.can_place(&p(5, -3)));
    for n in neighbors(p(5, -3)) {
        assert!(!editor.has_floor(&n));
        assert!(!editor.can_place(&n));
    }
    let grid = editor.serialize().unwrap();
    assert_eq!(grid, vec![vec![8, 8, 8], vec![8, 0, 8], vec![8, 8, 8]]);
}

#[test]
fn floor_twice_keeps_floors_and_walls() {
    let mut editor = EditingState::new();
    editor.place_floor(p(0, 0), 1, &WALLS);
    let once = editor.serialize().unwrap();
    let again = editor.place_floor(p(0, 0), 2, &MORE_WALLS);
    assert_eq!(again.replaced_wall, None);
    assert_eq!(again.walls_added, vec![false; 8]);
    assert_eq!(editor.serialize().unwrap(), once);
    for n in neighbors(p(0, 0)) {
        assert!(!editor.has_floor(&n));
    }
    assert!(editor.has_floor(&p(0, 0)));
}

#[test]
fn floor_replaces_wall_and_extends_border() {
    let mut editor = EditingState::new();
    editor.place_floor(p(0, 0), 1, &WALLS);
    // (1, 0) is the seventh neighbour of (0, 0), so its wall has handle 107.
    let placed = editor.place_floor(p(1, 0), 2, &MORE_WALLS);
    assert_eq!(placed.replaced_wall, Some(107));
    assert_eq!(
        placed.walls_added,
        vec![false, false, false, false, false, true, true, true]
    );
    let grid = editor.serialize().unwrap();
    assert_eq!(
        grid,
        vec![vec![8, 8, 8, 8], vec![8, 0, 0, 8], vec![8, 8, 8, 8]]
    );
}

#[test]
fn goal_on_single_floor_serializes() {
    let mut editor = EditingState::new();
    editor.place_floor(p(0, 0), 1, &WALLS);
    assert!(editor.can_place(&p(0, 0)));
    assert!(editor.place_goal(p(0, 0), 50));
    let grid = editor.serialize().unwrap();
    assert_eq!(grid, vec![vec![8, 8, 8], vec![8, 4, 8], vec![8, 8, 8]]);
}

#[test]
fn serialize_paints_every_kind() {
    let mut editor = EditingState::new();
    editor.place_floor(p(10, 20), 1, &WALLS);
    editor.place_floor(p(11, 20), 2, &MORE_WALLS);
    editor.place_floor(p(12, 20), 3, &WALLS);
    assert!(editor.place_block(p(10, 20), 30));
    assert!(editor.place_goal(p(11, 20), 40));
    assert!(editor.place_player(p(12, 20), 50));
    let grid = editor.serialize().unwrap();
    assert_eq!(
        grid,
        vec![
            vec![8, 8, 8, 8, 8],
            vec![8, 2, 4, 1, 8],
            vec![8, 8, 8, 8, 8],
        ]
    );
}

#[test]
fn serialize_rows_follow_y() {
    let mut editor = EditingState::new();
    editor.place_floor(p(0, 0), 1, &WALLS);
    editor.place_floor(p(0, 1), 2, &MORE_WALLS);
    assert!(editor.place_player(p(0, 1), 9));
    let grid = editor.serialize().unwrap();
    assert_eq!(
        grid,
        vec![vec![8, 8, 8], vec![8, 0, 8], vec![8, 1, 8], vec![8, 8, 8]]
    );
}

#[test]
fn second_player_replaces_first() {
    let mut editor = EditingState::new();
    editor.place_floor(p(0, 0), 1, &WALLS);
    editor.place_floor(p(1, 0), 2, &MORE_WALLS);
    assert!(editor.place_player(p(0, 0), 10));
    assert_eq!(editor.player(), Some((p(0, 0), 10)));
    assert!(editor.place_player(p(1, 0), 11));
    assert_eq!(editor.player(), Some((p(1, 0), 11)));
    assert!(editor.can_place(&p(0, 0)));
    assert!(!editor.can_place(&p(1, 0)));
    let grid = editor.serialize().unwrap();
    assert_eq!(grid[1], vec![8, 0, 1, 8]);
}

#[test]
fn player_cannot_stand_on_player() {
    let mut editor = EditingState::new();
    editor.place_floor(p(0, 0), 1, &WALLS);
    assert!(editor.place_player(p(0, 0), 10));
    assert!(!editor.place_player(p(0, 0), 11));
    assert_eq!(editor.player(), Some((p(0, 0), 10)));
}

#[test]
fn block_occupies_until_removed() {
    let mut editor = EditingState::new();
    editor.place_floor(p(2, 2), 1, &WALLS);
    assert!(editor.place_block(p(2, 2), 77));
    assert!(!editor.can_place(&p(2, 2)));
    assert!(!editor.place_goal(p(2, 2), 78));
    assert!(!editor.place_player(p(2, 2), 79));
    assert_eq!(editor.remove_object(&p(2, 2)), Some(77));
    assert!(editor.can_place(&p(2, 2)));
    assert_eq!(editor.remove_object(&p(2, 2)), None);
}

#[test]
fn remove_takes_each_kind() {
    let mut editor = EditingState::new();
    editor.place_floor(p(0, 0), 1, &WALLS);
    editor.place_floor(p(1, 0), 2, &MORE_WALLS);
    editor.place_floor(p(2, 0), 3, &WALLS);
    editor.place_block(p(0, 0), 30);
    editor.place_goal(p(1, 0), 40);
    editor.place_player(p(2, 0), 50);
    assert_eq!(editor.remove_object(&p(2, 0)), Some(50));
    assert_eq!(editor.player(), None);
    assert_eq!(editor.remove_object(&p(1, 0)), Some(40));
    assert_eq!(editor.remove_object(&p(0, 0)), Some(30));
    let grid = editor.serialize().unwrap();
    assert_eq!(grid[1], vec![8, 0, 0, 0, 8]);
}

#[test]
fn remove_leaves_floors_and_walls() {
    let mut editor = EditingState::new();
    editor.place_floor(p(0, 0), 1, &WALLS);
    assert_eq!(editor.remove_object(&p(0, 0)), None);
    assert_eq!(editor.remove_object(&p(1, 1)), None);
    assert!(editor.has_floor(&p(0, 0)));
    assert_eq!(
        editor.serialize().unwrap(),
        vec![vec![8, 8, 8], vec![8, 0, 8], vec![8, 8, 8]]
    );
}

#[test]
fn floor_on_occupied_cell_keeps_occupant() {
    let mut editor = EditingState::new();
    editor.place_floor(p(0, 0), 1, &WALLS);
    editor.place_goal(p(0, 0), 40);
    editor.place_floor(p(0, 0), 2, &MORE_WALLS);
    assert!(!editor.can_place(&p(0, 0)));
    assert_eq!(editor.serialize().unwrap()[1], vec![8, 4, 8]);
}

#[test]
fn position_add_shifts_both_coordinates() {
    let q = p(3, -4).add(-1, 2);
    assert_eq!(q, p(2, -2));
    assert_eq!(q.x, 2);
    assert_eq!(q.y, -2);
}

#[test]
fn floor_far_from_origin() {
    let mut editor = EditingState::new();
    let edge = i32::MAX - 1;
    editor.place_floor(p(edge, i32::MIN + 1), 1, &WALLS);
    let grid = editor.serialize().unwrap();
    assert_eq!(grid, vec![vec![8, 8, 8], vec![8, 0, 8], vec![8, 8, 8]]);
}
