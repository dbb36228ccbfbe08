//! Changing the names Dota 2 shows for heroes, skills and items: the
//! entities and the tokens they produce, rewriting a KeyValues localization
//! file, presets, settings, and the state the editor works on.
use vstd::prelude::*;

pub mod config;
pub mod dotatypes;
pub mod kvmap;
pub mod kvparser;
pub mod presets;
pub mod state;
pub mod text;

verus! {
} // verus!
