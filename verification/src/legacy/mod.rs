//! The first generation of the game: boards addressed by coordinates, a status field per
//! board, and move enumeration by an explicit cursor.

pub mod compass;
pub mod map_point;
pub mod map_two_dim;
pub mod node_tree;
pub mod point_iter;
pub mod tic_tac_toe;
pub mod ult_ttt;
