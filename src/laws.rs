use vstd::prelude::*;
use vstd::set_lib::{set_int_range, lemma_int_range, lemma_len_subset, lemma_subset_equality};
use crate::error::ResolveError;
use crate::timeline::{Activation, active_at, lemma_cumulative_monotone, dependencies_hold, violates, comes_before};
use crate::schema::{Schema, key_count, meta_count, meta_labels, fields_error, field_error, schema_error};
use crate::family::{FieldView, all_set, resolved_upto, field_entries, flat_entries, plain_entry, shapes_spec};
use crate::unions::{union_count, union_labels, union_spec, arm_hit, is_meta_level};
use crate::engine::{TypeFamily, family_spec, resolves_to};
use crate::timeline::first_violation;

verus! {

/// The shapes on which a resolved field is present.
pub open spec fn membership(f: FieldView, k: nat) -> Set<int> {
    Set::new(|q: int| 0 <= q < k && f.present[q])
}

/// Whether a resolved field has one mask entry per shape, is present on at
/// least one, and is common exactly when it is present on all.
pub open spec fn entry_ok(f: FieldView, k: nat) -> bool {
    &&& f.present.len() == k
    &&& f.common == all_set(f.present)
    &&& exists|q: int| 0 <= q < k && #[trigger] f.present[q]
}

proof fn lemma_flat_entries_ok(s: Schema, i: int, n: int)
    requires
        n <= key_count(s),
    ensures
        forall|j: int| 0 <= j < flat_entries(s, i, n).len() ==> entry_ok(
            #[trigger] flat_entries(s, i, n)[j],
            key_count(s),
        ),
    decreases n,
{
    if n > 0 {
        lemma_flat_entries_ok(s, i, n - 1);
        let q = n - 1;
        let e = crate::family::flat_entry(s, i, q);
        let k = key_count(s);
        assert(e.present[q]);
        if k == 1 {
            assert(all_set(e.present));
        } else {
            let w = if q == 0 { 1int } else { 0int };
            assert(!e.present[w]);
        }
        assert(entry_ok(e, k));
        let prev = flat_entries(s, i, n - 1);
        if crate::schema::present(s, i, q) {
            assert forall|j: int| 0 <= j < prev.push(e).len() implies entry_ok(
                #[trigger] prev.push(e)[j],
                k,
            ) by {
                if j < prev.len() {
                    assert(prev.push(e)[j] == prev[j]);
                }
            }
        }
    }
}

/// Every field of a schema without problems resolves to entries that are
/// present somewhere and common exactly when present everywhere.
pub proof fn lemma_resolved_entries_ok(s: Schema, n: int)
    requires
        0 <= n <= s.fields@.len(),
        fields_error(s, n) is None,
    ensures
        forall|j: int| 0 <= j < resolved_upto(s, n).len() ==> entry_ok(
            #[trigger] resolved_upto(s, n)[j],
            key_count(s),
        ),
    decreases n,
{
    if n > 0 {
        lemma_resolved_entries_ok(s, n - 1);
        assert(field_error(s, n - 1) is None);
        let prev = resolved_upto(s, n - 1);
        let e = field_entries(s, n - 1);
        if s.fields@[n - 1].flatten is Some {
            lemma_flat_entries_ok(s, n - 1, key_count(s) as int);
        } else {
            let p = plain_entry(s, n - 1);
            let q = choose|q: int| 0 <= q < key_count(s) && #[trigger] crate::schema::present(s, n - 1, q);
            assert(p.present[q]);
            assert(entry_ok(e[0], key_count(s)));
        }
        assert forall|j: int| 0 <= j < (prev + e).len() implies entry_ok(
            #[trigger] (prev + e)[j],
            key_count(s),
        ) by {
            if j >= prev.len() {
                assert((prev + e)[j] == e[j - prev.len()]);
            }
        }
    }
}

/// The order of the shapes follows from the declared labels alone: two
/// schemas that declare the same name, variants and meta variants have the
/// same shapes in the same order, whatever their fields.
pub proof fn lemma_shape_order_from_labels(s1: Schema, s2: Schema)
    requires
        s1.name@ == s2.name@,
        s1.variants@ == s2.variants@,
        s1.meta_variants is Some <==> s2.meta_variants is Some,
        meta_labels(s1) == meta_labels(s2),
    ensures
        shapes_spec(s1) == shapes_spec(s2),
        family_spec(s1).shapes == family_spec(s2).shapes,
        forall|q: int| 0 <= q < shapes_spec(s1).len() ==> {
            &&& #[trigger] shapes_spec(s1)[q].variant as int == q / (meta_count(s1) as int)
            &&& shapes_spec(s1)[q].meta == if s1.meta_variants is Some {
                Some((q % (meta_count(s1) as int)) as nat)
            } else {
                None
            }
        },
{
    assert(meta_count(s1) == meta_count(s2));
    assert(shapes_spec(s1) =~= shapes_spec(s2));
    let mc = meta_count(s1) as int;
    assert forall|q: int| 0 <= q < shapes_spec(s1).len() implies #[trigger] shapes_spec(s1)[q].variant as int
        == q / mc by {
        let n = s1.variants@.len() as int;
        assert(mc > 0) by (nonlinear_arith)
            requires 0 <= q < n * mc, n >= 0, mc >= 0;
        vstd::arithmetic::div_mod::lemma_div_pos_is_pos(q, mc);
    }
}

/// A field is common, with an infallible accessor, exactly when it is present
/// on every shape; any other field is present on fewer shapes than there
/// are, and the union through which users reach the family gives it a
/// fallible accessor.
pub proof fn lemma_common_iff_everywhere(s: Schema, j: int)
    requires
        schema_error(s) is None,
        0 <= j < family_spec(s).fields.len(),
    ensures
        ({
            let f = family_spec(s).fields[j];
            let k = key_count(s);
            let top = family_spec(s).unions[union_count(s) - 1].accessors[j];
            &&& f.common <==> membership(f, k).len() == k
            &&& f.common ==> top is Total
            &&& !f.common ==> membership(f, k).len() < k && top is Partial
        }),
{
    let n = s.fields@.len() as int;
    assert(fields_error(s, n) is None);
    lemma_resolved_entries_ok(s, n);
    let fields = resolved_upto(s, n);
    let f = fields[j];
    let k = key_count(s);
    assert(entry_ok(f, k));
    let ms = membership(f, k);
    let full = set_int_range(0, k as int);
    lemma_int_range(0, k as int);
    assert(ms.subset_of(full));
    lemma_len_subset(ms, full);
    if f.common {
        assert(ms =~= full);
    }
    if ms.len() == k {
        lemma_subset_equality(ms, full);
        assert forall|q: int| 0 <= q < f.present.len() implies #[trigger] f.present[q] by {
            assert(full.contains(q));
        }
    }
    let u = union_count(s) - 1;
    let q = choose|q: int| 0 <= q < k && #[trigger] f.present[q];
    let mc = meta_count(s) as int;
    let labels = union_labels(s, u);
    let arms = Seq::new(labels.len(), |a: int| arm_hit(s, u, f.present, a));
    if s.meta_variants is Some {
        assert(is_meta_level(s, u));
        assert(mc > 0) by (nonlinear_arith)
            requires 0 <= q < k, k == s.variants@.len() * mc, mc >= 0;
        let v = q / mc;
        let m = q % mc;
        vstd::arithmetic::div_mod::lemma_fundamental_div_mod(q, mc);
        assert(v * mc + m == q) by (nonlinear_arith)
            requires q == mc * (q / mc) + q % mc, v == q / mc, m == q % mc;
        assert(0 <= v < s.variants@.len()) by (nonlinear_arith)
            requires 0 <= q < k, k == s.variants@.len() * mc, mc > 0, v == q / mc;
        assert(f.present[v * mc + m]);
        assert(arm_hit(s, u, f.present, m));
        assert(arms[m]);
    } else {
        assert(mc == 1);
        let nv = s.variants@.len() as int;
        assert(k == nv) by (nonlinear_arith)
            requires k == nv * mc, mc == 1;
        assert(!is_meta_level(s, u));
        assert(labels.len() == s.variants@.len());
        assert(q * mc + 0 == q);
        assert(arm_hit(s, u, f.present, q));
        assert(arms[q]);
    }
    assert(family_spec(s).unions[u] == union_spec(s, u, fields));
}

/// Resolution is a function of the schema: two results that both meet the
/// contract of resolution are the same family, or the same error.
pub proof fn lemma_resolve_deterministic(
    s: Schema,
    r1: Result<TypeFamily, ResolveError>,
    r2: Result<TypeFamily, ResolveError>,
)
    requires
        resolves_to(s, r1),
        resolves_to(s, r2),
    ensures
        r1 is Ok <==> r2 is Ok,
        r1 is Ok ==> r1->Ok_0@ == r2->Ok_0@,
        r1 is Err ==> r1->Err_0 == r2->Err_0,
{
    if s.features is Some && !dependencies_hold(s.features->Some_0) {
        let t = s.features->Some_0;
        if let (
            Err(ResolveError::DependencyViolation { dependency: da, required: ka, position: pa }),
            Err(ResolveError::DependencyViolation { dependency: db, required: kb, position: pb }),
        ) = (r1, r2) {
            assert(violates(t, da as int, ka as int, pa as int));
            assert(violates(t, db as int, kb as int, pb as int));
            if comes_before(pa as int, da as int, ka as int, pb as int, db as int, kb as int) {
                assert(false);
            }
            if comes_before(pb as int, db as int, kb as int, pa as int, da as int, ka as int) {
                assert(false);
            }
        }
    }
}

/// A timeline that breaks a dependency makes resolution fail, with a
/// dependency violation that names a broken dependency and a timeline entry
/// at or before the given one where it is broken. Where the requirement of
/// dependency entry `d` on its feature `k` is the only one broken anywhere,
/// the violation names exactly that feature and requirement, at the first
/// entry where they are broken.
pub proof fn lemma_broken_dependency_fails(
    s: Schema,
    r: Result<TypeFamily, ResolveError>,
    d: int,
    k: int,
    p: int,
)
    requires
        s.features is Some,
        0 <= d < s.features->Some_0.dependencies@.len(),
        0 <= k < s.features->Some_0.dependencies@[d].requires@.len(),
        0 <= p < s.features->Some_0.timeline@.len(),
        violates(s.features->Some_0, d, k, p),
        resolves_to(s, r),
    ensures
        match r {
            Err(ResolveError::DependencyViolation { dependency, required, position }) => {
                let t = s.features->Some_0;
                &&& violates(t, dependency as int, required as int, position as int)
                &&& position <= p
                &&& (forall|da: int, ka: int, pa: int|
                    0 <= da < t.dependencies@.len() && 0 <= ka < t.dependencies@[da].requires@.len()
                        && 0 <= pa < t.timeline@.len() && #[trigger] violates(t, da, ka, pa) ==> da == d
                        && ka == k) ==> {
                    &&& dependency == d
                    &&& required == k
                    &&& forall|pa: int| 0 <= pa < position ==> !#[trigger] violates(t, d, k, pa)
                }
            },
            _ => false,
        },
{
    let t = s.features->Some_0;
    assert(!dependencies_hold(t));
    if let Err(ResolveError::DependencyViolation { dependency, required, position }) = r {
        assert(first_violation(t, dependency as int, required as int, position as int));
        if position > p {
            assert(comes_before(p, d, k, position as int, dependency as int, required as int));
        }
        assert forall|pa: int| 0 <= pa < position implies !#[trigger] violates(t, d, k, pa) by {
            assert(comes_before(pa, d, k, position as int, dependency as int, required as int));
        }
    }
}

/// The cumulative feature set only grows along the timeline: every feature
/// active at one position is active at the next.
pub proof fn lemma_timeline_monotone(t: Seq<Activation>, i: int)
    requires
        0 < i < t.len(),
    ensures
        forall|f: Seq<char>| active_at(t, i - 1, f) ==> #[trigger] active_at(t, i, f),
{
    assert forall|f: Seq<char>| active_at(t, i - 1, f) implies #[trigger] active_at(t, i, f) by {
        lemma_cumulative_monotone(t, i - 1, i, f);
    }
}

} // verus!
