//! Verified core of the Riposte game client: the tile map and unit stacks,
//! unit pathfinding, the tables of network IDs and of game files, the game
//! lobby and the menu, the choice of sounds and music, the texts of the game screens and
//! the small decisions of the user interface.

pub mod collections;
pub mod id_mapper;
pub mod pos;
pub mod tile;
pub mod unit;
pub mod path;
pub mod stack;
pub mod tooltips;
pub mod info_bar;
pub mod popups;
pub mod sounds;
pub mod renderer;
pub mod terrain;
pub mod client;
pub mod names;
pub mod registry;
pub mod music;
pub mod text;
pub mod economy;
pub mod scores;
pub mod staged_path;
pub mod world;
pub mod panels;
pub mod lobby;
pub mod lobby_screen;
pub mod menu;
pub mod options;
pub mod game_screen;
