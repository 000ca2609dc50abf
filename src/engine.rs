use vstd::prelude::*;
use crate::labels::join;
use crate::error::ResolveError;
use crate::timeline::{dependencies_hold, first_violation};
use crate::schema::{Schema, key_count, variant_position, unscheduled_from, schema_error};
use crate::family::{ResolvedField, Shape, ShapeView, FieldView, shape_spec, shapes_spec, resolved_upto};
use crate::resolve::{field_views, keys_fit, schedule_ok, resolve_fields, split_key};
use crate::unions::{UnionDescriptor, UnionView, union_count, union_spec, lemma_mask_lengths, build_union};

verus! {

/// The resolved family: its shapes, its fields after flattening, and its
/// unions with their accessors.
pub struct TypeFamily {
    pub shapes: Vec<Shape>,
    pub fields: Vec<ResolvedField>,
    pub unions: Vec<UnionDescriptor>,
}

pub struct FamilyView {
    pub shapes: Seq<ShapeView>,
    pub fields: Seq<FieldView>,
    pub unions: Seq<UnionView>,
}

impl View for TypeFamily {
    type V = FamilyView;

    open spec fn view(&self) -> FamilyView {
        FamilyView {
            shapes: self.shapes@.map_values(|x: Shape| x@),
            fields: field_views(self.fields@),
            unions: self.unions@.map_values(|x: UnionDescriptor| x@),
        }
    }
}

/// The family that a valid schema resolves to.
pub open spec fn family_spec(s: Schema) -> FamilyView {
    let fields = resolved_upto(s, s.fields@.len() as int);
    FamilyView {
        shapes: shapes_spec(s),
        fields,
        unions: Seq::new(union_count(s), |u: int| union_spec(s, u, fields)),
    }
}

/// Whether `r` is what resolving `s` gives: a broken dependency is reported
/// as such; otherwise the first problem of the schema, if any, or else the
/// family.
pub open spec fn resolves_to(s: Schema, r: Result<TypeFamily, ResolveError>) -> bool {
    if s.features is Some && !dependencies_hold(s.features->Some_0) {
        match r {
            Err(ResolveError::DependencyViolation { dependency, required, position }) => first_violation(
                s.features->Some_0,
                dependency as int,
                required as int,
                position as int,
            ),
            _ => false,
        }
    } else {
        match schema_error(s) {
            Some(e) => r == Err::<TypeFamily, ResolveError>(e),
            None => r is Ok && r->Ok_0@ == family_spec(s),
        }
    }
}

/// The shapes of the family, in order: the primary axis varies slower than
/// the meta axis.
pub fn shapes(s: &Schema) -> (r: Vec<Shape>)
    requires
        keys_fit(*s),
    ensures
        r@.map_values(|x: Shape| x@) == shapes_spec(*s),
{
    let kc = s.variants.len() * match &s.meta_variants {
        Some(mv) => mv.len(),
        None => 1,
    };
    let mut r: Vec<Shape> = Vec::new();
    let mut q: usize = 0;
    while q < kc
        invariant
            kc == key_count(*s),
            keys_fit(*s),
            q <= kc,
            r@.map_values(|x: Shape| x@) == Seq::new(q as nat, |k: int| shape_spec(*s, k)),
        decreases kc - q,
    {
        let (v, m) = split_key(s, q);
        let (meta, name) = match &s.meta_variants {
            Some(mv) => (Some(m), join(&join(&s.name, &mv[m]), &s.variants[v])),
            None => (None, join(&s.name, &s.variants[v])),
        };
        let shape = Shape { variant: v, meta, name };
        let ghost before = r@;
        r.push(shape);
        proof {
            assert(shape@ =~= shape_spec(*s, q as int));
            assert(r@.map_values(|x: Shape| x@) =~= before.map_values(|x: Shape| x@).push(shape@));
            assert(r@.map_values(|x: Shape| x@) =~= Seq::new((q + 1) as nat, |k: int| shape_spec(*s, k)));
        }
        q += 1;
    }
    r
}

/// Resolves a schema into its family of shapes, fields and unions.
pub fn resolve(s: &Schema) -> (r: Result<TypeFamily, ResolveError>)
    requires
        keys_fit(*s),
    ensures
        resolves_to(*s, r),
        r matches Ok(f) ==> f.wf(),
{
    let mut positions: Vec<usize> = Vec::new();
    let mut cum: Vec<Vec<String>> = Vec::new();
    if let Some(t) = &s.features {
        match t.validate() {
            Err(e) => return Err(e),
            Ok(()) => {},
        }
        cum = t.cumulative_features();
        let mut v: usize = 0;
        while v < s.variants.len()
            invariant
                s.features == Some(*t),
                dependencies_hold(*t),
                v <= s.variants@.len(),
                positions@.len() == v,
                forall|w: int| 0 <= w < v ==> #[trigger] positions@[w] == variant_position(*s, w),
                unscheduled_from(*s, v as int) == unscheduled_from(*s, 0),
            decreases s.variants@.len() - v,
        {
            match t.position(&s.variants[v]) {
                Some(p) => positions.push(p),
                None => {
                    assert(unscheduled_from(*s, v as int) == Some(v as nat));
                    return Err(ResolveError::UnscheduledVariant { variant: v });
                },
            }
            v += 1;
        }
    }
    assert(schedule_ok(*s, positions@, cum@));
    let fields = match resolve_fields(s, &positions, &cum) {
        Ok(f) => f,
        Err(e) => return Err(e),
    };
    proof {
        lemma_mask_lengths(*s, s.fields@.len() as int);
        assert forall|j: int| 0 <= j < fields@.len() implies #[trigger] fields@[j].present@.len() == key_count(*s) by {
            assert(field_views(fields@)[j].present == fields@[j].present@);
        }
    }
    let mut unions: Vec<UnionDescriptor> = Vec::new();
    let last: usize = match &s.meta_variants {
        Some(mv) => mv.len(),
        None => 0,
    };
    assert(last + 1 == union_count(*s));
    while unions.len() <= last
        invariant
            keys_fit(*s),
            last + 1 == union_count(*s),
            unions@.len() <= last + 1,
            field_views(fields@) == resolved_upto(*s, s.fields@.len() as int),
            forall|j: int| 0 <= j < fields@.len() ==> #[trigger] fields@[j].present@.len() == key_count(*s),
            unions@.map_values(|x: UnionDescriptor| x@) == Seq::new(unions@.len(), |k: int| union_spec(*s, k, field_views(fields@))),
        decreases last + 1 - unions@.len(),
    {
        let u = unions.len();
        let un = build_union(s, &fields, u);
        let ghost before = unions@;
        unions.push(un);
        proof {
            assert(unions@.map_values(|x: UnionDescriptor| x@) =~= before.map_values(|x: UnionDescriptor| x@).push(un@));
            assert(unions@.map_values(|x: UnionDescriptor| x@) =~= Seq::new((u + 1) as nat, |k: int| union_spec(*s, k, field_views(fields@))));
        }
    }
    let r = TypeFamily { shapes: shapes(s), fields, unions };
    proof {
        assert(r@ =~= family_spec(*s));
        assert(r.shapes@.len() == r@.shapes.len());
        assert forall|u: int| 0 <= u < r.unions@.len() implies #[trigger] r.unions@[u].accessors@.len() == r.fields@.len() by {
            assert(r@.unions[u] == r.unions@[u]@);
            assert(r@.unions[u] == union_spec(*s, u, field_views(r.fields@)));
            assert(r@.unions[u].accessors.len() == field_views(r.fields@).len());
            assert(r.unions@[u]@.accessors.len() == r.unions@[u].accessors@.len());
        }
    }
    Ok(r)
}

} // verus!
