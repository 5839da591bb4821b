use vstd::prelude::*;

pub mod text;
pub mod types;
pub mod paths;
pub mod resolver;
pub mod order;
pub mod db;
pub mod queries;
pub mod imports;
pub mod adapt;
pub mod lsp;
pub mod actions;
pub mod plugins;
pub mod offsets;
pub mod completion;
pub mod cycles;
pub mod position;
pub mod usage;
pub mod tree;
pub mod refs;
pub mod docs;
pub mod signature;
pub mod hover;
pub mod scan;
pub mod modscan;
pub mod analysis;
pub mod annotations;
pub mod undeclared;
pub mod context;
pub mod records;
pub mod editor;
pub mod pyast;
pub mod laws;
pub mod editor_laws;
pub mod import_laws;
pub mod cycle_cover;
pub mod module_analysis;
pub mod priority_laws;

verus! {

} // verus!
