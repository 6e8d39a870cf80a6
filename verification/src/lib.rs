pub mod atlas;
pub mod clipboard;
pub mod config;
pub mod embed;
pub mod font;
pub mod host;
pub mod keymap;
pub mod layer;
pub mod link;
pub mod menu;
pub mod notify;
pub mod open;
pub mod palette;
pub mod pane;
pub mod panel;
pub mod plugins;
pub mod protocol;
pub mod text;
pub mod url;
