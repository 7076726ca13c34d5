//! Editing core of a grid-based puzzle level editor: floors, automatic border
//! walls, blocks, goals and a single player start, exported as a numeric grid.

mod cell_map;
mod editor;
mod laws;
mod layout;
mod position;

pub use cell_map::{cells_of, CellMap};
pub use editor::{EditingState, FloorPlacement, SerializeError};
pub use laws::{
    lemma_block_occupies, lemma_empty_wf, lemma_floor_is_bordered, lemma_floor_keeps_wf,
    lemma_floor_twice, lemma_occupant_edits_keep_wf, lemma_occupants_in_box, lemma_one_player,
    lemma_removal_order, lemma_walls_around_floor,
};
pub use layout::{interior, is_neighbor, neighbor, neighbor_index, neighbor_offset, Layout};
pub use position::Position;
