pub mod attack_generation;
pub mod attack_masks;
pub mod attack_tables;
pub mod bitboard;
pub mod bits;
pub mod boardstate;
pub mod castling;
pub mod colour;
pub mod delta;
pub mod error;
pub mod fen;
pub mod magic_numbers;
pub mod material_layer;
pub mod move_gen;
pub mod move_lens;
pub mod movement;
pub mod occupancy_layer;
pub mod pieces;
pub mod position;
pub mod xor_rand;
