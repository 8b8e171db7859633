//! Simulation core of a two-player artillery duel on destructible terrain.
//!
//! All quantities are integers. Lengths, speeds and accelerations of the
//! ballistic part are fixed-point numbers with three decimal places, angles
//! are thousandths of a degree, and heights sampled from a noise field are
//! millionths.

pub mod explosion;
pub mod game_state;
pub mod geometry;
pub mod grid;
pub mod landscape;
pub mod missile;
pub mod random;
pub mod tank;
pub mod world;
