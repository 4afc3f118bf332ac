//! Beambuilder's game logic: the truss graph that the player edits, the
//! undo/redo history of edit operations, the mode and status rules of the
//! HUD, the degree-of-freedom layout of the static solver, the ground mesh
//! triangulation and the resolution of the level path given on the command
//! line. Everything that computes with floating-point numbers, draws or
//! reads input lives in the application around this library.

pub mod cli;
pub mod collections;
pub mod edit;
pub mod entries;
pub mod sim;
pub mod state;
pub mod ui;
pub mod world;
