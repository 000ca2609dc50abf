use vstd::prelude::*;
use crate::labels::{has_label, contains_label, join, lowercase};
use crate::family::{ResolvedField, FieldView, opts_or_plain, all_set, mask_of, plain_entry, flat_type, flat_name, flat_entry, flat_entries, field_entries, resolved_upto};
use crate::error::ResolveError;
use crate::timeline::{FeatureTable, cumulative, lemma_position_bounds};
use crate::schema::{Schema, FieldDecl, Flatten, GetterOpts, meta_count, key_count, meta_labels, key_variant, key_meta, timeline_of, variant_position, admits, present, conflicting, first_missing, features_known, field_fault, fields_error};

verus! {

/// What resolution has computed from the timeline: each variant's position
/// on it, and the cumulative feature list of each position.
pub open spec fn schedule_ok(s: Schema, positions: Seq<usize>, cum: Seq<Vec<String>>) -> bool {
    s.features is Some ==> {
        &&& positions.len() == s.variants@.len()
        &&& forall|v: int| 0 <= v < positions.len() ==> #[trigger] positions[v] == variant_position(s, v)
        &&& cum.len() == timeline_of(s).len()
        &&& forall|p: int| 0 <= p < cum.len() ==> #[trigger] cum[p]@ == cumulative(timeline_of(s), p)
    }
}

/// Whether the shapes of `s` can be counted in a `usize`.
pub open spec fn keys_fit(s: Schema) -> bool {
    key_count(s) <= usize::MAX
}

/// The first label of `l` that is not in `declared`.
fn find_missing(l: &Vec<String>, declared: &Vec<String>) -> (r: Option<usize>)
    ensures
        match r {
            Some(k) => first_missing(l@, declared@, 0) == Some(k as nat),
            None => first_missing(l@, declared@, 0) is None,
        },
{
    let mut k: usize = 0;
    while k < l.len()
        invariant
            k <= l@.len(),
            first_missing(l@, declared@, k as int) == first_missing(l@, declared@, 0),
        decreases l@.len() - k,
    {
        if !contains_label(declared, &l[k]) {
            return Some(k);
        }
        k += 1;
    }
    None
}

/// Whether some label of `declared` is one of `l`.
fn names_any(l: &Vec<String>, declared: &Vec<String>) -> (r: bool)
    ensures
        r == exists|j: int| 0 <= j < declared@.len() && has_label(l@, #[trigger] declared@[j]@),
{
    let mut j: usize = 0;
    while j < declared.len()
        invariant
            j <= declared@.len(),
            forall|k: int| 0 <= k < j ==> !has_label(l@, #[trigger] declared@[k]@),
        decreases declared@.len() - j,
    {
        if contains_label(l, &declared[j]) {
            return true;
        }
        j += 1;
    }
    false
}

/// Checks the options of field `i`: no conflicting options, only declared
/// labels and features, and a flatten restriction that aligns.
pub fn check_field(s: &Schema, i: usize) -> (r: Result<(), ResolveError>)
    requires
        i < s.fields@.len(),
    ensures
        match field_fault(*s, i as int) {
            Some(e) => r == Err::<(), ResolveError>(e),
            None => r is Ok,
        },
{
    let f = &s.fields[i];
    let by_feature = f.feature.is_some() || f.window.is_some();
    let has_getter_conflict = f.getter.is_some() && (f.only.is_some() || f.meta_only.is_some()
        || by_feature || f.flatten.is_some());
    let partial_on_common = f.partial_getter.is_some() && f.only.is_none() && f.meta_only.is_none()
        && !by_feature;
    let flatten_conflict = f.flatten.is_some() && (f.only.is_some() || f.partial_getter.is_some()
        || by_feature);
    if has_getter_conflict || partial_on_common || flatten_conflict {
        return Err(ResolveError::ConflictingFieldOptions { field: i });
    }
    if let Some(l) = &f.only {
        if let Some(k) = find_missing(l, &s.variants) {
            return Err(ResolveError::UnknownVariant { field: i, label: k });
        }
    }
    let no_labels: Vec<String> = Vec::new();
    let metas: &Vec<String> = match &s.meta_variants {
        Some(m) => m,
        None => &no_labels,
    };
    assert(metas@ == meta_labels(*s));
    if let Some(l) = &f.meta_only {
        if let Some(k) = find_missing(l, metas) {
            return Err(ResolveError::UnknownMetaVariant { field: i, label: k });
        }
    }
    if by_feature {
        let known = match &s.features {
            None => false,
            Some(t) => {
                let e_ok = match &f.feature {
                    Some(e) => e.known(t),
                    None => true,
                };
                let w_ok = match &f.window {
                    Some(w) => t.first_activation(&w.from).is_some() && match &w.until {
                        Some(u) => t.first_activation(u).is_some(),
                        None => true,
                    },
                    None => true,
                };
                e_ok && w_ok
            },
        };
        if !known {
            return Err(ResolveError::UnknownFeature { field: i });
        }
    }
    let mut mismatch = false;
    if let Some(Flatten::Only(l)) = &f.flatten {
        let mut j: usize = 0;
        while j < l.len()
            invariant
                j <= l@.len(),
                metas@ == meta_labels(*s),
                !mismatch ==> forall|k: int|
                    0 <= k < j ==> has_label(s.variants@, #[trigger] l@[k]@) || has_label(
                        metas@,
                        l@[k]@,
                    ),
                mismatch ==> exists|k: int|
                    0 <= k < l@.len() && !has_label(s.variants@, #[trigger] l@[k]@) && !has_label(
                        metas@,
                        l@[k]@,
                    ),
            decreases l@.len() - j,
        {
            if !contains_label(&s.variants, &l[j]) && !contains_label(metas, &l[j]) {
                mismatch = true;
            }
            j += 1;
        }
    }
    if s.meta_variants.is_some() && f.flatten.is_some() {
        if let Some(ml) = &f.meta_only {
            if ml.len() != 1 {
                mismatch = true;
            }
        }
    }
    if mismatch {
        return Err(ResolveError::FlattenMismatch { field: i });
    }
    Ok(())
}

/// The variant and meta variant of shape `q`.
pub(crate) fn split_key(s: &Schema, q: usize) -> (r: (usize, usize))
    requires
        q < key_count(*s),
    ensures
        r.0 == key_variant(*s, q as int),
        r.1 == key_meta(*s, q as int),
        r.0 < s.variants@.len(),
        r.1 < meta_count(*s),
        r.1 < meta_labels(*s).len() || s.meta_variants is None,
{
    let mc: usize = match &s.meta_variants {
        Some(m) => m.len(),
        None => 1,
    };
    let n = s.variants.len();
    proof {
        let qi = q as int;
        let mi = mc as int;
        let ni = n as int;
        assert(mi > 0) by (nonlinear_arith)
            requires qi < ni * mi, qi >= 0, ni >= 0, mi >= 0;
        assert(qi / mi < ni) by (nonlinear_arith)
            requires qi < ni * mi, mi > 0, qi >= 0;
    }
    (q / mc, q % mc)
}

/// Whether the rules of field `f` admit shape `q`.
fn admits_exec(
    s: &Schema,
    f: &FieldDecl,
    q: usize,
    positions: &Vec<usize>,
    cum: &Vec<Vec<String>>,
    Ghost(i): Ghost<int>,
) -> (r: bool)
    requires
        0 <= i < s.fields@.len(),
        *f == s.fields@[i],
        field_fault(*s, i) is None,
        schedule_ok(*s, positions@, cum@),
        q < key_count(*s),
    ensures
        r == admits(*s, *f, q as int),
{
    let (v, m) = split_key(s, q);
    if let Some(l) = &f.only {
        if !contains_label(l, &s.variants[v]) {
            return false;
        }
    }
    if let Some(l) = &f.meta_only {
        match &s.meta_variants {
            Some(mv) => {
                if !contains_label(l, &mv[m]) {
                    return false;
                }
            },
            None => {
                assert(first_missing(l@, meta_labels(*s), 0) is None);
                if l.len() > 0 {
                    assert(first_missing(l@, meta_labels(*s), 0) == Some(0nat));
                }
                return false;
            },
        }
    }
    if f.feature.is_some() || f.window.is_some() {
        let t: &FeatureTable = match &s.features {
            Some(t) => t,
            None => {
                return false;
            },
        };
        let p = positions[v];
        assert(features_known(*s, *f));
        assert(p == variant_position(*s, v as int));
        proof {
            lemma_position_bounds(timeline_of(*s), s.variants@[v as int]@, 0);
        }
        if let Some(e) = &f.feature {
            if !e.eval(&cum[p]) {
                return false;
            }
        }
        if let Some(w) = &f.window {
            match t.first_activation(&w.from) {
                Some(a) => {
                    if p < a {
                        return false;
                    }
                },
                None => {
                    return false;
                },
            }
            if let Some(u) = &w.until {
                match t.first_activation(u) {
                    Some(b) => {
                        if p >= b {
                            return false;
                        }
                    },
                    None => {
                        return false;
                    },
                }
            }
        }
    }
    true
}

} // verus!

verus! {

/// The membership mask of field `i`: for each shape, whether the field is
/// present on it.
fn field_mask(s: &Schema, i: usize, positions: &Vec<usize>, cum: &Vec<Vec<String>>) -> (r: Vec<bool>)
    requires
        i < s.fields@.len(),
        field_fault(*s, i as int) is None,
        schedule_ok(*s, positions@, cum@),
        keys_fit(*s),
    ensures
        r@ == mask_of(*s, i as int),
{
    let f = &s.fields[i];
    let mc: usize = match &s.meta_variants {
        Some(m) => m.len(),
        None => 1,
    };
    let kc = s.variants.len() * mc;
    let no_labels: Vec<String> = Vec::new();
    let metas: &Vec<String> = match &s.meta_variants {
        Some(m) => m,
        None => &no_labels,
    };
    assert(metas@ == meta_labels(*s));
    let (names_v, names_m) = match &f.flatten {
        Some(Flatten::Only(l)) => (names_any(l, &s.variants), names_any(l, metas)),
        _ => (false, false),
    };
    let mut r: Vec<bool> = Vec::new();
    let mut q: usize = 0;
    while q < kc
        invariant
            i < s.fields@.len(),
            *f == s.fields@[i as int],
            field_fault(*s, i as int) is None,
            schedule_ok(*s, positions@, cum@),
            kc == key_count(*s),
            metas@ == meta_labels(*s),
            q <= kc,
            r@ == Seq::new(q as nat, |k: int| present(*s, i as int, k)),
            f.flatten matches Some(Flatten::Only(l)) ==> names_v == exists|j: int|
                0 <= j < s.variants@.len() && has_label(l@, #[trigger] s.variants@[j]@),
            f.flatten matches Some(Flatten::Only(l)) ==> names_m == exists|j: int|
                0 <= j < meta_labels(*s).len() && has_label(l@, #[trigger] meta_labels(*s)[j]@),
        decreases kc - q,
    {
        let a = admits_exec(s, f, q, positions, cum, Ghost(i as int));
        let keep = match &f.flatten {
            None | Some(Flatten::All) => true,
            Some(Flatten::Only(l)) => {
                let (v, m) = split_key(s, q);
                let has_v = contains_label(l, &s.variants[v]);
                let has_m = match &s.meta_variants {
                    None => true,
                    Some(mv) => contains_label(l, &mv[m]),
                };
                l.len() == 0 || (has_v && has_m) || (has_v && !names_m) || (has_m && !names_v)
            },
        };
        r.push(a && keep);
        proof {
            assert(r@ =~= Seq::new((q + 1) as nat, |k: int| present(*s, i as int, k)));
        }
        q += 1;
    }
    r
}

} // verus!

verus! {

/// The views of a list of resolved fields.
pub open spec fn field_views(v: Seq<ResolvedField>) -> Seq<FieldView> {
    v.map_values(|f: ResolvedField| f@)
}

/// The options given, or the plain ones.
fn opts_or_plain_exec(o: &Option<GetterOpts>) -> (r: GetterOpts)
    ensures
        r@ == opts_or_plain(*o),
{
    match o {
        Some(g) => GetterOpts {
            copy: g.copy,
            no_mut: g.no_mut,
            rename: match &g.rename {
                Some(n) => Some(n.clone()),
                None => None,
            },
        },
        None => GetterOpts::plain(),
    }
}

/// Whether every entry of a mask is set.
fn all_set_exec(m: &Vec<bool>) -> (r: bool)
    ensures
        r == all_set(m@),
{
    let mut q: usize = 0;
    while q < m.len()
        invariant
            q <= m@.len(),
            forall|k: int| 0 <= k < q ==> #[trigger] m@[k],
        decreases m@.len() - q,
    {
        if !m[q] {
            return false;
        }
        q += 1;
    }
    true
}

/// Whether some entry of a mask is set.
fn any_set(m: &Vec<bool>) -> (r: bool)
    ensures
        r == exists|q: int| 0 <= q < m@.len() && #[trigger] m@[q],
{
    let mut q: usize = 0;
    while q < m.len()
        invariant
            q <= m@.len(),
            forall|k: int| 0 <= k < q ==> !#[trigger] m@[k],
        decreases m@.len() - q,
    {
        if m[q] {
            return true;
        }
        q += 1;
    }
    false
}

/// The mask of a single shape.
fn single_mask(kc: usize, q: usize) -> (r: Vec<bool>)
    ensures
        r@ == Seq::new(kc as nat, |k: int| k == q),
{
    let mut r: Vec<bool> = Vec::new();
    let mut k: usize = 0;
    while k < kc
        invariant
            k <= kc,
            r@ == Seq::new(k as nat, |j: int| j == q),
        decreases kc - k,
    {
        r.push(k == q);
        proof {
            assert(r@ =~= Seq::new((k + 1) as nat, |j: int| j == q));
        }
        k += 1;
    }
    r
}

/// The resolved field that flattened field `i` becomes on shape `q`.
fn flat_entry_exec(s: &Schema, i: usize, q: usize) -> (r: ResolvedField)
    requires
        i < s.fields@.len(),
        q < key_count(*s),
        keys_fit(*s),
    ensures
        r@ == flat_entry(*s, i as int, q as int),
{
    let f = &s.fields[i];
    let (v, m) = split_key(s, q);
    let us = String::from_str("_");
    proof {
        reveal_strlit("_");
    }
    let vname = &s.variants[v];
    let lv = lowercase(vname);
    let (ty, rename) = match &s.meta_variants {
        Some(mv) => {
            if f.meta_only.is_none() {
                let ty = join(&join(&f.ty, &mv[m]), vname);
                let lm = lowercase(&mv[m]);
                let rename = join(&join(&join(&join(&f.name, &us), &lm), &us), &lv);
                (ty, rename)
            } else {
                (join(&f.ty, vname), join(&join(&f.name, &us), &lv))
            }
        },
        None => (join(&f.ty, vname), join(&join(&f.name, &us), &lv)),
    };
    let kc = s.variants.len() * match &s.meta_variants {
        Some(mv) => mv.len(),
        None => 1,
    };
    let r = ResolvedField {
        name: f.name.clone(),
        ty,
        decl: i,
        present: single_mask(kc, q),
        common: kc == 1,
        getter: GetterOpts::plain(),
        partial_getter: GetterOpts { copy: false, no_mut: false, rename: Some(rename) },
    };
    proof {
        assert(kc == key_count(*s));
        assert(r@.present =~= flat_entry(*s, i as int, q as int).present);
        assert(r@.ty =~= flat_type(*s, *f, q as int));
        assert(r@.partial_getter.rename->Some_0 =~= flat_name(*s, *f, q as int));
        assert(r@ == flat_entry(*s, i as int, q as int));
    }
    r
}

} // verus!

verus! {

proof fn lemma_fields_error_persists(s: Schema, n: int, k: int)
    requires
        0 <= n <= k,
        fields_error(s, n) is Some,
    ensures
        fields_error(s, k) == fields_error(s, n),
    decreases k - n,
{
    if k > n {
        lemma_fields_error_persists(s, n, k - 1);
    }
}

/// Resolves every declared field, in order of declaration.
pub(crate) fn resolve_fields(s: &Schema, positions: &Vec<usize>, cum: &Vec<Vec<String>>) -> (r: Result<
    Vec<ResolvedField>,
    ResolveError,
>)
    requires
        schedule_ok(*s, positions@, cum@),
        keys_fit(*s),
    ensures
        match fields_error(*s, s.fields@.len() as int) {
            Some(e) => r == Err::<Vec<ResolvedField>, ResolveError>(e),
            None => r is Ok && field_views(r->Ok_0@) == resolved_upto(*s, s.fields@.len() as int),
        },
{
    let kc = s.variants.len() * match &s.meta_variants {
        Some(mv) => mv.len(),
        None => 1,
    };
    let mut out: Vec<ResolvedField> = Vec::new();
    let mut i: usize = 0;
    while i < s.fields.len()
        invariant
            kc == key_count(*s),
            i <= s.fields@.len(),
            schedule_ok(*s, positions@, cum@),
            keys_fit(*s),
            fields_error(*s, i as int) is None,
            field_views(out@) == resolved_upto(*s, i as int),
        decreases s.fields@.len() - i,
    {
        match check_field(s, i) {
            Err(e) => {
                proof {
                    lemma_fields_error_persists(*s, i + 1, s.fields@.len() as int);
                }
                return Err(e);
            },
            Ok(()) => {},
        }
        let mask = field_mask(s, i, positions, cum);
        if !any_set(&mask) {
            proof {
                assert(!(exists|q: int| 0 <= q < key_count(*s) && present(*s, i as int, q))) by {
                    if exists|q: int| 0 <= q < key_count(*s) && present(*s, i as int, q) {
                        let q = choose|q: int| 0 <= q < key_count(*s) && present(*s, i as int, q);
                        assert(mask@[q]);
                    }
                }
                lemma_fields_error_persists(*s, i + 1, s.fields@.len() as int);
            }
            return Err(ResolveError::DeadField { field: i });
        }
        assert(fields_error(*s, i + 1) is None) by {
            let q = choose|q: int| 0 <= q < mask@.len() && #[trigger] mask@[q];
            assert(present(*s, i as int, q));
        }
        let f = &s.fields[i];
        if f.flatten.is_some() {
            let mut q: usize = 0;
            while q < kc
                invariant
                    kc == key_count(*s),
                    i < s.fields@.len(),
                    *f == s.fields@[i as int],
                    f.flatten is Some,
                    keys_fit(*s),
                    q <= kc,
                    mask@ == mask_of(*s, i as int),
                    field_views(out@) == resolved_upto(*s, i as int) + flat_entries(*s, i as int, q as int),
                decreases kc - q,
            {
                if mask[q] {
                    let e = flat_entry_exec(s, i, q);
                    let ghost before = out@;
                    out.push(e);
                    proof {
                        assert(field_views(out@) =~= field_views(before).push(e@));
                    }
                }
                q += 1;
            }
            proof {
                assert(field_entries(*s, i as int) == flat_entries(*s, i as int, kc as int));
                assert(resolved_upto(*s, i + 1) == resolved_upto(*s, i as int) + field_entries(*s, i as int));
            }
        } else {
            let common = all_set_exec(&mask);
            let e = ResolvedField {
                name: f.name.clone(),
                ty: f.ty.clone(),
                decl: i,
                present: mask,
                common,
                getter: opts_or_plain_exec(&f.getter),
                partial_getter: opts_or_plain_exec(&f.partial_getter),
            };
            let ghost before = out@;
            out.push(e);
            proof {
                assert(e@ == plain_entry(*s, i as int));
                assert(field_views(out@) =~= field_views(before).push(e@));
                assert(field_entries(*s, i as int) == seq![plain_entry(*s, i as int)]);
                assert(resolved_upto(*s, i + 1) =~= resolved_upto(*s, i as int) + seq![plain_entry(*s, i as int)]);
            }
        }
        i += 1;
    }
    Ok(out)
}

} // verus!
