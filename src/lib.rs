pub mod bits;
pub mod data;
pub mod optimization;
pub mod random;
pub mod score;
pub mod simulation;
pub mod utils;
