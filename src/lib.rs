//! The engine of a tiling and floating window manager: window, monitor and
//! desktop state, the tiling layout, drag-and-snap, output hotplug and the
//! command processor, as a state machine that turns display-server events
//! into requests for the display server.

pub mod command;
pub mod config;
pub mod daily;
pub mod geometry;
pub mod layout;
pub mod model;
