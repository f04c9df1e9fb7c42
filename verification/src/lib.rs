//! A hierarchical, cooperative state-machine scheduler for an interactive
//! terminal client, together with the dependency store its systems share and
//! the dialog list the client shows.

pub mod app;
pub mod args;
pub mod di;
pub mod dialogs;
pub mod ecs;
pub mod systems;
pub mod table;
