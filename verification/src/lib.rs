//! Language-server core for TauWriter: the TWXML prose layer and the HubGS
//! knowledge layer, modelled as plain data with verified analyses.
use vstd::prelude::*;

pub mod markdown;
pub mod text;
pub mod multiplicity;
pub mod position;
pub mod uuid;
pub mod model;
pub mod resolution;
pub mod polymorphic;
pub mod validation;
pub mod syntax;
pub mod twxml_rules;
pub mod edits;
pub mod layout;
pub mod twxml_format;
pub mod hubgs_format;
pub mod formatter;
pub mod semantic;
pub mod references;
pub mod colors;
pub mod tree_query;
pub mod hubgs_tree;
pub mod twxml_tree;
pub mod hover;
pub mod completion;
pub mod navigation;
pub mod format_edits;
pub mod lenses;
pub mod signature;
pub mod structure;
pub mod symbols;
pub mod expression;
pub mod computed;
pub mod incremental;
pub mod links;
pub mod hubgs_parse;

verus! {
} // verus!
