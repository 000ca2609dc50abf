//! Schema resolution for versioned record families.
//!
//! A family declares a primary axis of variant labels, an optional meta axis,
//! and fields that exist on all shapes or only on some of them. Resolution
//! turns that declaration into the exact set of shapes, the field membership
//! of each shape, and the accessor surface of the generated unions.
mod labels;
mod meta;
mod feature;
mod error;
mod timeline;
mod schema;
mod family;
mod resolve;
mod unions;
mod engine;
mod instance;
mod laws;
mod naming;

pub use labels::{index_of, contains_label};
pub use meta::{MetaItem, MetaError, IdentList};
pub use feature::{FeatureExpr, parse};
pub use error::ResolveError;
pub use timeline::{Activation, Dependency, FeatureTable, lemma_active_at_iff};
pub use schema::{GetterOpts, Flatten, FeatureWindow, FieldDecl, Schema};
pub use family::{ResolvedField, Shape};
pub use unions::{Arm, Access, UnionDescriptor};
pub use engine::{TypeFamily, resolve, shapes};
pub use instance::Instance;
pub use laws::{
    lemma_shape_order_from_labels, lemma_common_iff_everywhere, lemma_resolve_deterministic,
    lemma_timeline_monotone, lemma_broken_dependency_fails,
};
pub use naming::{snake_case, generate_map_macro_name};
