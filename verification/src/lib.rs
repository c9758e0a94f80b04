//! A semantic layer for SQL: models with dimensions, metrics and
//! relationships, a graph that finds join paths between them, a dependency
//! analyzer for metrics, and a rewriter that turns queries written against
//! models into queries against the physical tables.

pub mod text;
pub mod error;
pub mod names;
pub mod segment;
pub mod model;
pub mod graph;
pub mod dependency;
pub mod generator;
pub mod sql;
pub mod tree;
pub mod rewriter;
pub mod definitions;

pub use error::SidemanticError;
pub use graph::{JoinPath, JoinStep, SemanticGraph};
pub use model::{
    Aggregation, Dimension, DimensionType, Metric, MetricType, Model, Relationship,
    RelationshipType,
};
pub use segment::Segment;
pub use generator::{SemanticQuery, SqlGenerator};
pub use rewriter::QueryRewriter;
pub use dependency::cycles::check_circular_dependencies;
pub use dependency::extract_dependencies;
