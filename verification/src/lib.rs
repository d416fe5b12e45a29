//! Documentation generator core for MoTeC M1 projects: the documentation model,
//! the relationship diagrams, and the Markdown / HTML / JSON renderers.

pub mod anchored;
pub mod diagram;
pub mod escape;
pub mod facets;
pub mod graph;
pub mod html;
pub mod json;
pub mod limits;
pub mod loader;
pub mod markdown;
pub mod model;
pub mod path;
pub mod scope;
pub mod strset;
pub mod suggest;
pub mod syntax;
pub mod text;
