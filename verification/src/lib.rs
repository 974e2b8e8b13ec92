//! Compiles static keyboard-layout descriptions (QWERTY, Dvorak, numpads)
//! into directed adjacency graphs: nodes are physical keys, edges carry the
//! relative spatial direction between neighbouring keys.

pub mod key;
pub mod geometry;
pub mod grammar;
pub mod graph;
pub mod connector;
pub mod layouts;
pub mod laws;

pub use key::Key;
pub use geometry::{Direction, Edge, KeyboardStyle};
pub use geometry::{get_slanted_positions, get_aligned_positions};
pub use graph::{KeyGraph, KeySearch};
pub use connector::connect_keyboard_nodes;
pub use layouts::{
    add_alphabetics, add_unshifted_number_keys, add_remaining_keys, generate_qwerty_us,
    generate_dvorak, generate_standard_numpad, generate_mac_numpad,
};
