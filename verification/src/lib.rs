//! The logic core of a file-system galaxy: a directory tree shown as a
//! starfield, and the work sessions of coding agents shown as ships that fly
//! to the files they touch.
//!
//! Two parts carry the logic. The file-system model (`fs_model`,
//! `reconcile`) mirrors the watched directory in a vector of nodes whose
//! indices never change their meaning. The lifecycle engine (`agent`,
//! `registry`) moves each session's agent through spawning, idling, moving
//! and despawning, driven by the events of the sessions and by the passing of
//! time. What holds of both over whole runs of changes is proved in
//! `fs_laws` and `agent_laws`.
//!
//! Around them stand the recent history of each file (`history`), visit
//! statistics (`stats`), session colours (`color`), labels (`label`), what
//! the presentation layer asks before it draws (`galaxy`), and a generator
//! of made-up sessions for trying things out (`mock`).
//!
//! The library draws nothing and reads neither disk nor network. Positions
//! are values of the presentation layer's own type, times are counted in
//! microseconds, and colours are given by hue, saturation and lightness in
//! whole degrees and percent.

pub mod agent;
pub mod agent_laws;
pub mod color;
pub mod fs_laws;
pub mod fs_model;
pub mod galaxy;
pub mod gitignore;
pub mod history;
pub mod label;
pub mod mock;
pub mod path_index;
pub mod paths;
pub mod reconcile;
pub mod registry;
pub mod stats;
pub mod text;
pub mod watcher;
pub mod ws_client;
