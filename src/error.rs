use vstd::prelude::*;

verus! {

/// Why a schema could not be resolved. Fields, labels and timeline entries
/// are named by their position in the schema, so that a front-end can report
/// them by name.
#[derive(Debug, Clone, Copy, PartialEq, Eq, Structural)]
pub enum ResolveError {
    /// On the timeline entry at `position`, the feature of dependency entry
    /// `dependency` is active while its required feature at `required` is not.
    DependencyViolation { dependency: usize, required: usize, position: usize },
    /// A variant that feature rules need has no entry on the timeline.
    UnscheduledVariant { variant: usize },
    /// An `only` label of a field names no declared variant.
    UnknownVariant { field: usize, label: usize },
    /// A `meta_only` label of a field names no declared meta variant.
    UnknownMetaVariant { field: usize, label: usize },
    /// A feature rule of a field names a feature that is never activated, or
    /// the schema has no timeline.
    UnknownFeature { field: usize },
    /// A field combines options that exclude each other.
    ConflictingFieldOptions { field: usize },
    /// The restriction of a flattened field does not align with the labels
    /// of the family.
    FlattenMismatch { field: usize },
    /// A field is present on no shape.
    DeadField { field: usize },
}

} // verus!
