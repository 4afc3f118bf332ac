pub mod hud;
