use vstd::prelude::*;
use crate::labels::has_label;
use crate::feature::FeatureExpr;
use crate::timeline::{FeatureTable, Activation, cumulative, first_activation_of, position_of};
use crate::error::ResolveError;

verus! {

/// How the accessors of a field are generated.
pub struct GetterOpts {
    /// Return the field by value instead of by reference.
    pub copy: bool,
    /// Generate no mutable accessor.
    pub no_mut: bool,
    /// Name the accessor this way instead of after the field.
    pub rename: Option<String>,
}

impl GetterOpts {
    /// Borrowing accessors named after the field, with mutable ones.
    pub fn plain() -> (r: GetterOpts)
        ensures
            !r.copy,
            !r.no_mut,
            r.rename is None,
    {
        GetterOpts { copy: false, no_mut: false, rename: None }
    }
}

/// The shapes of the outer family on which an embedded family is spread out.
pub enum Flatten {
    /// On every shape.
    All,
    /// On the shapes that these variant and meta variant labels select.
    Only(Vec<String>),
}

/// Presence from the first activation of one feature up to, and not
/// including, the first activation of another.
pub struct FeatureWindow {
    pub from: String,
    pub until: Option<String>,
}

/// A declared field with its inclusion rules and accessor options.
pub struct FieldDecl {
    pub name: String,
    /// The name of the field's type; for a flattened field, the name of the
    /// embedded family.
    pub ty: String,
    pub only: Option<Vec<String>>,
    pub meta_only: Option<Vec<String>>,
    pub feature: Option<FeatureExpr>,
    pub window: Option<FeatureWindow>,
    pub flatten: Option<Flatten>,
    pub getter: Option<GetterOpts>,
    pub partial_getter: Option<GetterOpts>,
}

impl FieldDecl {
    /// A field present on every shape, with default accessors.
    pub fn common(name: String, ty: String) -> (r: FieldDecl)
        ensures
            r.name == name,
            r.ty == ty,
            r.only is None && r.meta_only is None && r.feature is None && r.window is None,
            r.flatten is None && r.getter is None && r.partial_getter is None,
    {
        FieldDecl {
            name,
            ty,
            only: None,
            meta_only: None,
            feature: None,
            window: None,
            flatten: None,
            getter: None,
            partial_getter: None,
        }
    }
}

/// The declaration of a record family.
pub struct Schema {
    pub name: String,
    pub variants: Vec<String>,
    pub meta_variants: Option<Vec<String>>,
    pub fields: Vec<FieldDecl>,
    pub features: Option<FeatureTable>,
}

/// The number of labels on the meta axis, 1 where there is none.
pub open spec fn meta_count(s: Schema) -> nat {
    match s.meta_variants {
        Some(m) => m@.len(),
        None => 1,
    }
}

/// The number of shapes: one per variant and meta variant pair.
pub open spec fn key_count(s: Schema) -> nat {
    s.variants@.len() * meta_count(s)
}

/// The declared meta labels, none where there is no meta axis.
pub open spec fn meta_labels(s: Schema) -> Seq<String> {
    match s.meta_variants {
        Some(m) => m@,
        None => Seq::empty(),
    }
}

/// The variant of shape `q`: the primary axis varies slower than the meta axis.
pub open spec fn key_variant(s: Schema, q: int) -> int {
    q / (meta_count(s) as int)
}

/// The meta variant of shape `q`.
pub open spec fn key_meta(s: Schema, q: int) -> int {
    q % (meta_count(s) as int)
}

/// The timeline of the schema, empty where it has none.
pub open spec fn timeline_of(s: Schema) -> Seq<Activation> {
    match s.features {
        Some(t) => t.timeline@,
        None => Seq::empty(),
    }
}

/// The timeline position of variant `v`.
pub open spec fn variant_position(s: Schema, v: int) -> int {
    position_of(timeline_of(s), s.variants@[v]@)
}

/// Whether the inclusion rules of `f` admit shape `q`, before flattening.
pub open spec fn admits(s: Schema, f: FieldDecl, q: int) -> bool {
    let v = key_variant(s, q);
    let m = key_meta(s, q);
    let t = timeline_of(s);
    let p = variant_position(s, v);
    &&& (f.only matches Some(l) ==> has_label(l@, s.variants@[v]@))
    &&& (f.meta_only matches Some(l) ==> has_label(l@, meta_labels(s)[m]@))
    &&& (f.feature matches Some(e) ==> e.holds(cumulative(t, p)))
    &&& (f.window matches Some(w) ==> first_activation_of(t, w.from@) <= p && (w.until matches Some(
        u,
    ) ==> p < first_activation_of(t, u@)))
}

/// Whether a flatten restriction keeps shape `q`. A restriction that names
/// only variants selects on variants, one that names only meta variants
/// selects on meta variants, and one that names both selects the pairs.
pub open spec fn flatten_keeps(s: Schema, fl: Flatten, q: int) -> bool {
    match fl {
        Flatten::All => true,
        Flatten::Only(l) => {
            let v = key_variant(s, q);
            let m = key_meta(s, q);
            let has_v = has_label(l@, s.variants@[v]@);
            let has_m = s.meta_variants is None || has_label(l@, meta_labels(s)[m]@);
            let names_v = exists|j: int| 0 <= j < s.variants@.len() && has_label(l@, #[trigger] s.variants@[j]@);
            let names_m = exists|j: int| 0 <= j < meta_labels(s).len() && has_label(l@, #[trigger] meta_labels(s)[j]@);
            l@.len() == 0 || (has_v && has_m) || (has_v && !names_m) || (has_m && !names_v)
        },
    }
}

/// Whether field `i` is present on shape `q`.
pub open spec fn present(s: Schema, i: int, q: int) -> bool {
    let f = s.fields@[i];
    admits(s, f, q) && (f.flatten matches Some(fl) ==> flatten_keeps(s, fl, q))
}

/// Whether a field combines options that exclude each other. Restriction
/// kinds (`only`, `meta_only`, a feature condition, a feature window) do not
/// conflict with one another: they intersect.
pub open spec fn conflicting(f: FieldDecl) -> bool {
    let by_feature = f.feature is Some || f.window is Some;
    ||| f.getter is Some && (f.only is Some || f.meta_only is Some || by_feature || f.flatten is Some)
    ||| f.partial_getter is Some && f.only is None && f.meta_only is None && !by_feature
    ||| f.flatten is Some && (f.only is Some || f.partial_getter is Some || by_feature)
}

/// The first position at or after `from` of a label of `l` that is not in
/// `declared`.
pub open spec fn first_missing(l: Seq<String>, declared: Seq<String>, from: int) -> Option<nat>
    decreases l.len() - from,
{
    if from < 0 || from >= l.len() {
        None
    } else if !has_label(declared, l[from]@) {
        Some(from as nat)
    } else {
        first_missing(l, declared, from + 1)
    }
}

/// Whether the feature rules of `f` name only features that the timeline
/// activates.
pub open spec fn features_known(s: Schema, f: FieldDecl) -> bool {
    let t = timeline_of(s);
    (f.feature is None && f.window is None) || (s.features is Some && (f.feature matches Some(e)
        ==> e.is_known(t)) && (f.window matches Some(w) ==> first_activation_of(t, w.from@) >= 0 && (
    w.until matches Some(u) ==> first_activation_of(t, u@) >= 0)))
}

/// Whether the flatten restriction of `f` cannot be aligned with the family:
/// it names a label that the family does not declare, or it is combined with
/// a meta restriction of more than one label.
pub open spec fn flatten_mismatch(s: Schema, f: FieldDecl) -> bool {
    (match f.flatten {
        Some(Flatten::Only(l)) => exists|j: int|
            0 <= j < l@.len() && !has_label(s.variants@, #[trigger] l@[j]@) && !has_label(
                meta_labels(s),
                l@[j]@,
            ),
        _ => false,
    }) || (s.meta_variants is Some && f.flatten is Some && f.meta_only is Some && f.meta_only->Some_0@.len() != 1)
}

/// The first problem with the options of field `i`, if any.
pub open spec fn field_fault(s: Schema, i: int) -> Option<ResolveError> {
    let f = s.fields@[i];
    if conflicting(f) {
        Some(ResolveError::ConflictingFieldOptions { field: i as usize })
    } else if f.only is Some && first_missing(f.only->Some_0@, s.variants@, 0) is Some {
        Some(ResolveError::UnknownVariant { field: i as usize, label: first_missing(f.only->Some_0@, s.variants@, 0)->Some_0 as usize })
    } else if f.meta_only is Some && first_missing(f.meta_only->Some_0@, meta_labels(s), 0) is Some {
        Some(ResolveError::UnknownMetaVariant { field: i as usize, label: first_missing(f.meta_only->Some_0@, meta_labels(s), 0)->Some_0 as usize })
    } else if !features_known(s, f) {
        Some(ResolveError::UnknownFeature { field: i as usize })
    } else if flatten_mismatch(s, f) {
        Some(ResolveError::FlattenMismatch { field: i as usize })
    } else {
        None
    }
}

/// The first problem with field `i`, if any: a problem with its options, or
/// else that it is present on no shape.
pub open spec fn field_error(s: Schema, i: int) -> Option<ResolveError> {
    match field_fault(s, i) {
        Some(e) => Some(e),
        None => if !(exists|q: int| 0 <= q < key_count(s) && present(s, i, q)) {
            Some(ResolveError::DeadField { field: i as usize })
        } else {
            None
        },
    }
}

/// The first problem among the first `n` fields, if any.
pub open spec fn fields_error(s: Schema, n: int) -> Option<ResolveError>
    decreases n,
{
    if n <= 0 {
        None
    } else {
        match fields_error(s, n - 1) {
            Some(e) => Some(e),
            None => if n - 1 < s.fields@.len() { field_error(s, n - 1) } else { None },
        }
    }
}

/// The first variant at or after `from` that has no timeline entry.
pub open spec fn unscheduled_from(s: Schema, from: int) -> Option<nat>
    decreases s.variants@.len() - from,
{
    if from < 0 || from >= s.variants@.len() {
        None
    } else if variant_position(s, from) < 0 {
        Some(from as nat)
    } else {
        unscheduled_from(s, from + 1)
    }
}

/// The problem with the schema apart from broken dependencies, if any.
pub open spec fn schema_error(s: Schema) -> Option<ResolveError> {
    if s.features is Some && unscheduled_from(s, 0) is Some {
        Some(ResolveError::UnscheduledVariant { variant: unscheduled_from(s, 0)->Some_0 as usize })
    } else {
        fields_error(s, s.fields@.len() as int)
    }
}

} // verus!
