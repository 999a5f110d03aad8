//! Console command language and dispatch engine for an in-process debug
//! console: typed values, argument binding, a command registry and the
//! autocomplete selection that a live input field drives.

pub mod modifiers;
pub mod profile;
pub mod text;
pub mod numeric;
pub mod value;
pub mod name_map;
pub mod tree;
pub mod grammar;
pub mod reduce;
pub mod bind;
pub mod interface;
pub mod registry;
pub mod autocomplete;
pub mod preview;
pub mod console;
