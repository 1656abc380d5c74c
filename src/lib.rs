pub mod build_model;
pub mod builder;
pub mod decimal;
pub mod error;
pub mod html;
pub mod laws;
pub mod model;
pub mod parse;
pub mod resolver;
pub mod rule;
pub mod span;
pub mod traversal;
pub mod traversal_laws;
