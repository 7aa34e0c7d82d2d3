//! Service dashboard core: the canonical service list, the selection that
//! moves over it, and the key dispatcher that drives both.

pub mod app;
pub mod directory;
pub mod handler;
pub mod list;
pub mod list_lemmas;
pub mod selection;
pub mod service;
pub mod text;
pub mod ui;
