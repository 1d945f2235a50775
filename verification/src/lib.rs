//! Matchup, team and cache logic of a Pokemon lookup assistant.

pub mod api;
pub mod cache;
pub mod entry_validation;
pub mod lookup;
pub mod matchup;
pub mod model;
pub mod paths;
pub mod team;
pub mod text;
