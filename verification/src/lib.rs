//! The rules of a snake game played on a board of hexagonal cells: moving and
//! wrapping around the board, portals, where apples appear, collisions and
//! what comes of them, the autopilot's path finding, the distance of each
//! cell from the player, frame pacing, what a running game does with a key,
//! the menus, and the stored preferences and key bindings.

pub mod advance;
pub mod apple_spawn;
pub mod border_hints;
pub mod collisions;
pub mod controls_menu;
pub mod distance_grid;
pub mod fps_control;
pub mod game;
pub mod game_mode;
pub mod guidance;
pub mod hex;
pub mod key;
pub mod menu;
pub mod message;
pub mod options_menu;
pub mod portal;
pub mod prefs;
pub mod random;
pub mod rendering;
pub mod snake_control_creator;
pub mod stats;
pub mod text;
