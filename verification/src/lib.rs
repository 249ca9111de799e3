pub mod font;
pub mod framebuffer;
pub mod sprite;
pub mod background;
pub mod theme;
pub mod track;
pub mod game;
pub mod menu;
pub mod cli;
pub mod png;
pub mod assets;
pub mod hud;
pub mod lane;
pub mod circuit;
pub mod standings;
pub mod keys;
