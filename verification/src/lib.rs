//! A small music catalog: an in-memory relational store of artists, albums
//! and tracks with get-or-create insertion, a synchronizer that feeds it from
//! a tagged file listing, and the selectable-list and view models that a
//! terminal front end navigates.

pub mod app;
pub mod model;
pub mod player;
pub mod sync;
pub mod view;
pub mod widget;
