//! IDL generation helpers for derive macros.

pub mod accounts;
pub mod builtins;
pub mod code;
pub mod definitions;
pub mod discriminators;
pub mod docs;
pub mod emit;
pub mod entries;
pub mod fill;
pub mod formats;
pub mod joins;
pub mod forms;
pub mod json;
pub mod kinds;
pub mod lengths;
pub mod listing;
pub mod lossless;
pub mod lower;
pub mod members;
pub mod pda;
pub mod printing;
pub mod pushes;
pub mod repr;
pub mod seeds;
pub mod setting;
pub mod slots;
pub mod splice;
pub mod surround;
pub mod symbols;
pub mod syntax;
pub mod text;
pub mod tokens;
pub mod typedefs;
pub mod walk;
