//! A fixed-depth chess move search that scores positions by material and
//! rolls leaf scores up the tree by arithmetic mean.

pub mod board;
pub mod engine;
pub mod material;
pub mod pieces;
pub mod score;
pub mod search;
pub mod select;
pub mod tree;
