pub mod text;
pub mod ids;
pub mod hotkey;
pub mod geometry;
pub mod interaction;
pub mod popup_layout;
pub mod grid;
pub mod ipc;
pub mod display;
pub mod transfers;
pub mod selection;
pub mod pixels;
pub mod names;
pub mod logging;
pub mod models;
pub mod host;
pub mod paths;
pub mod fence_keys;
pub mod overlays;
pub mod notifications;
pub mod occupancy;
pub mod separation;
pub mod listing;
pub mod messages;
pub mod moves;
