//! Names for the symbols a code generator emits.

pub mod anon_id;
pub mod symbol_name_counter;
