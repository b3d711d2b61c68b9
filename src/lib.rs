//! Querying the front matter of text documents: a path language over a
//! tree of values, a filter condition, a sort order and output records.

pub mod value;
pub mod path;
pub mod condition;
pub mod order;
pub mod pipeline;
pub mod record;
pub mod front_matter;
pub mod laws;
pub mod cli;
