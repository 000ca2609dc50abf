use vstd::prelude::*;
use crate::labels::{lower_of, join, lowercase};
use crate::schema::{Schema, GetterOpts, key_count, meta_count, meta_labels};
use crate::family::{ResolvedField, FieldView, OptsView, resolved_upto, field_entries, flat_entries};
use crate::resolve::{field_views, keys_fit};

verus! {

/// A case of a generated union and its cast methods.
pub struct Arm {
    pub label: String,
    /// The type that the case holds.
    pub struct_name: String,
    /// `as_<label>`: the case by reference, or the cast-miss error.
    pub cast: String,
    /// `as_<label>_mut`: the case by mutable reference, or the cast-miss error.
    pub cast_mut: String,
}

pub struct ArmView {
    pub label: Seq<char>,
    pub struct_name: Seq<char>,
    pub cast: Seq<char>,
    pub cast_mut: Seq<char>,
}

impl View for Arm {
    type V = ArmView;

    open spec fn view(&self) -> ArmView {
        ArmView {
            label: self.label@,
            struct_name: self.struct_name@,
            cast: self.cast@,
            cast_mut: self.cast_mut@,
        }
    }
}

/// How a union exposes one resolved field.
pub enum Access {
    /// Present on every shape: an infallible getter, and a mutable one
    /// unless suppressed.
    Total { name: String, mut_name: Option<String>, copy: bool },
    /// Present on some shapes: a getter that succeeds on the cases marked in
    /// `arms` and returns the partial-getter error on the others.
    Partial { name: String, mut_name: Option<String>, copy: bool, arms: Vec<bool> },
    /// Present on no case of this union: no accessor.
    Absent,
}

pub enum AccessView {
    Total { name: Seq<char>, mut_name: Option<Seq<char>>, copy: bool },
    Partial { name: Seq<char>, mut_name: Option<Seq<char>>, copy: bool, arms: Seq<bool> },
    Absent,
}

pub open spec fn opt_view(o: Option<String>) -> Option<Seq<char>> {
    match o {
        Some(s) => Some(s@),
        None => None,
    }
}

impl View for Access {
    type V = AccessView;

    open spec fn view(&self) -> AccessView {
        match self {
            Access::Total { name, mut_name, copy } => AccessView::Total {
                name: name@,
                mut_name: opt_view(*mut_name),
                copy: *copy,
            },
            Access::Partial { name, mut_name, copy, arms } => AccessView::Partial {
                name: name@,
                mut_name: opt_view(*mut_name),
                copy: *copy,
                arms: arms@,
            },
            Access::Absent => AccessView::Absent,
        }
    }
}

pub open spec fn arm_views(v: Seq<Arm>) -> Seq<ArmView> {
    v.map_values(|a: Arm| a@)
}

pub open spec fn access_views(v: Seq<Access>) -> Seq<AccessView> {
    v.map_values(|a: Access| a@)
}

/// A generated union over shapes, with its borrowed and mutably borrowed
/// views and their accessors.
pub struct UnionDescriptor {
    pub name: String,
    pub ref_name: String,
    pub ref_mut_name: String,
    /// Its cases are meta variants, each holding the union of that meta
    /// variant's shapes.
    pub meta_level: bool,
    pub arms: Vec<Arm>,
    /// One entry per resolved field.
    pub accessors: Vec<Access>,
}

pub struct UnionView {
    pub name: Seq<char>,
    pub ref_name: Seq<char>,
    pub ref_mut_name: Seq<char>,
    pub meta_level: bool,
    pub arms: Seq<ArmView>,
    pub accessors: Seq<AccessView>,
}

impl View for UnionDescriptor {
    type V = UnionView;

    open spec fn view(&self) -> UnionView {
        UnionView {
            name: self.name@,
            ref_name: self.ref_name@,
            ref_mut_name: self.ref_mut_name@,
            meta_level: self.meta_level,
            arms: arm_views(self.arms@),
            accessors: access_views(self.accessors@),
        }
    }
}

/// The number of unions: one per meta variant and one over the meta
/// variants, or a single one where there is no meta axis.
pub open spec fn union_count(s: Schema) -> nat {
    match s.meta_variants {
        Some(m) => m@.len() + 1,
        None => 1,
    }
}

/// Whether union `u` is the one whose cases are meta variants.
pub open spec fn is_meta_level(s: Schema, u: int) -> bool {
    s.meta_variants is Some && u == meta_labels(s).len()
}

/// The name of union `u`.
pub open spec fn union_name(s: Schema, u: int) -> Seq<char> {
    if s.meta_variants is Some && !is_meta_level(s, u) {
        s.name@ + meta_labels(s)[u]@
    } else {
        s.name@
    }
}

/// The case labels of union `u`.
pub open spec fn union_labels(s: Schema, u: int) -> Seq<String> {
    if is_meta_level(s, u) {
        meta_labels(s)
    } else {
        s.variants@
    }
}

/// Whether a field with presence mask `p` is present on some shape under
/// case `a` of union `u`.
pub open spec fn arm_hit(s: Schema, u: int, p: Seq<bool>, a: int) -> bool {
    let mc = meta_count(s) as int;
    if is_meta_level(s, u) {
        exists|v: int| 0 <= v < s.variants@.len() && #[trigger] p[v * mc + a]
    } else {
        p[a * mc + (if s.meta_variants is Some { u } else { 0 })]
    }
}

/// The name of a total or partial getter.
pub open spec fn getter_name(name: Seq<char>, o: OptsView) -> Seq<char> {
    match o.rename {
        Some(r) => r,
        None => name,
    }
}

/// The name of the mutable accessor, unless it is suppressed.
pub open spec fn mut_name_of(name: Seq<char>, o: OptsView) -> Option<Seq<char>> {
    if o.no_mut {
        None
    } else {
        Some(getter_name(name, o) + seq!['_', 'm', 'u', 't'])
    }
}

/// How union `u` exposes field `f`.
pub open spec fn access_spec(s: Schema, u: int, f: FieldView) -> AccessView {
    let arms = Seq::new(union_labels(s, u).len(), |a: int| arm_hit(s, u, f.present, a));
    if f.common {
        AccessView::Total {
            name: getter_name(f.name, f.getter),
            mut_name: mut_name_of(f.name, f.getter),
            copy: f.getter.copy,
        }
    } else if exists|a: int| 0 <= a < arms.len() && #[trigger] arms[a] {
        AccessView::Partial {
            name: getter_name(f.name, f.partial_getter),
            mut_name: mut_name_of(f.name, f.partial_getter),
            copy: f.partial_getter.copy,
            arms,
        }
    } else {
        AccessView::Absent
    }
}

/// The case of union `u` for label `l`.
pub open spec fn arm_spec(s: Schema, u: int, l: Seq<char>) -> ArmView {
    let cast = seq!['a', 's', '_'] + lower_of(l);
    ArmView {
        label: l,
        struct_name: union_name(s, u) + l,
        cast,
        cast_mut: cast + seq!['_', 'm', 'u', 't'],
    }
}

/// Union `u` of a family whose resolved fields are `fields`.
pub open spec fn union_spec(s: Schema, u: int, fields: Seq<FieldView>) -> UnionView {
    let labels = union_labels(s, u);
    UnionView {
        name: union_name(s, u),
        ref_name: union_name(s, u) + seq!['R', 'e', 'f'],
        ref_mut_name: union_name(s, u) + seq!['R', 'e', 'f', 'M', 'u', 't'],
        meta_level: is_meta_level(s, u),
        arms: Seq::new(labels.len(), |a: int| arm_spec(s, u, labels[a]@)),
        accessors: Seq::new(fields.len(), |j: int| access_spec(s, u, fields[j])),
    }
}

} // verus!

verus! {

/// The shape of variant `v` and meta variant `m` is one of the family's.
pub proof fn lemma_key_in_range(n: int, mc: int, v: int, m: int)
    requires
        0 <= v < n,
        0 <= m < mc,
    ensures
        0 <= v * mc + m < n * mc,
{
    assert(0 <= v * mc + m < n * mc) by (nonlinear_arith)
        requires 0 <= v < n, 0 <= m < mc;
}

fn str_of(lit: &str) -> (r: String)
    ensures
        r@ == lit@,
{
    String::from_str(lit)
}

/// The case of union `u` for a label.
fn arm_exec(s: &Schema, union_name: &String, label: &String, Ghost(u): Ghost<int>) -> (r: Arm)
    requires
        union_name@ == crate::unions::union_name(*s, u),
    ensures
        r@ == arm_spec(*s, u, label@),
{
    proof {
        reveal_strlit("as_");
        reveal_strlit("_mut");
    }
    assert("as_"@ == seq!['a', 's', '_']);
    assert("_mut"@ == seq!['_', 'm', 'u', 't']);
    let cast = join(&str_of("as_"), &lowercase(label));
    let cast_mut = join(&cast, &str_of("_mut"));
    let r = Arm { label: label.clone(), struct_name: join(union_name, label), cast, cast_mut };
    proof {
        assert(r@ =~= arm_spec(*s, u, label@));
    }
    r
}

/// Whether a field with mask `p` is present under case `a` of union `u`.
fn arm_hit_exec(s: &Schema, u: usize, p: &Vec<bool>, a: usize) -> (r: bool)
    requires
        keys_fit(*s),
        p@.len() == key_count(*s),
        u < union_count(*s),
        a < union_labels(*s, u as int).len(),
    ensures
        r == arm_hit(*s, u as int, p@, a as int),
{
    let n = s.variants.len();
    match &s.meta_variants {
        Some(mv) => {
            let mc = mv.len();
            if u == mc {
                let mut v: usize = 0;
                while v < n
                    invariant
                        n == s.variants@.len(),
                        mc == meta_count(*s),
                        is_meta_level(*s, u as int),
                        a < mc,
                        v <= n,
                        p@.len() == key_count(*s),
                        keys_fit(*s),
                        forall|w: int| 0 <= w < v ==> !#[trigger] p@[w * mc + a],
                    decreases n - v,
                {
                    proof {
                        lemma_key_in_range(n as int, mc as int, v as int, a as int);
                    }
                    if p[v * mc + a] {
                        return true;
                    }
                    v += 1;
                }
                false
            } else {
                proof {
                    lemma_key_in_range(n as int, mc as int, a as int, u as int);
                }
                p[a * mc + u]
            }
        },
        None => {
            proof {
                lemma_key_in_range(n as int, 1, a as int, 0);
            }
            p[a]
        },
    }
}

/// The name of an accessor, and of its mutable form unless suppressed.
fn names_exec(name: &String, o: &GetterOpts) -> (r: (String, Option<String>))
    ensures
        r.0@ == getter_name(name@, o@),
        opt_view(r.1) == mut_name_of(name@, o@),
{
    proof {
        reveal_strlit("_mut");
    }
    let n = match &o.rename {
        Some(r) => r.clone(),
        None => name.clone(),
    };
    assert("_mut"@ == seq!['_', 'm', 'u', 't']);
    let m = if o.no_mut {
        None
    } else {
        Some(join(&n, &str_of("_mut")))
    };
    (n, m)
}

/// How union `u` exposes a resolved field.
fn access_exec(s: &Schema, u: usize, f: &ResolvedField) -> (r: Access)
    requires
        keys_fit(*s),
        f.present@.len() == key_count(*s),
        u < union_count(*s),
    ensures
        r@ == access_spec(*s, u as int, f@),
{
    if f.common {
        let (name, mut_name) = names_exec(&f.name, &f.getter);
        return Access::Total { name, mut_name, copy: f.getter.copy };
    }
    let count = match &s.meta_variants {
        Some(mv) => if u == mv.len() {
            mv.len()
        } else {
            s.variants.len()
        },
        None => s.variants.len(),
    };
    assert(count == union_labels(*s, u as int).len());
    let mut arms: Vec<bool> = Vec::new();
    let mut any = false;
    let mut a: usize = 0;
    while a < count
        invariant
            keys_fit(*s),
            f.present@.len() == key_count(*s),
            u < union_count(*s),
            count == union_labels(*s, u as int).len(),
            a <= count,
            arms@ == Seq::new(a as nat, |k: int| arm_hit(*s, u as int, f.present@, k)),
            any == exists|k: int| 0 <= k < a && #[trigger] arms@[k],
        decreases count - a,
    {
        let h = arm_hit_exec(s, u, &f.present, a);
        let ghost before = arms@;
        arms.push(h);
        proof {
            if any {
                let k = choose|k: int| 0 <= k < a && #[trigger] before[k];
                assert(arms@[k]);
            }
        }
        any = any || h;
        proof {
            assert(arms@ =~= Seq::new((a + 1) as nat, |k: int| arm_hit(*s, u as int, f.present@, k)));
            if h {
                assert(arms@[a as int]);
            }
        }
        a += 1;
    }
    if !any {
        return Access::Absent;
    }
    let (name, mut_name) = names_exec(&f.name, &f.partial_getter);
    Access::Partial { name, mut_name, copy: f.partial_getter.copy, arms }
}

} // verus!

verus! {

/// Every resolved field has one mask entry per shape.
pub proof fn lemma_mask_lengths(s: Schema, n: int)
    requires
        0 <= n <= s.fields@.len(),
    ensures
        forall|j: int|
            0 <= j < resolved_upto(s, n).len() ==> #[trigger] resolved_upto(s, n)[j].present.len()
                == key_count(s),
    decreases n,
{
    if n > 0 {
        lemma_mask_lengths(s, n - 1);
        let prev = resolved_upto(s, n - 1);
        let e = field_entries(s, n - 1);
        if s.fields@[n - 1].flatten is Some {
            lemma_flat_mask_lengths(s, n - 1, key_count(s) as int);
        }
        assert forall|j: int| 0 <= j < (prev + e).len() implies #[trigger] (prev + e)[j].present.len()
            == key_count(s) by {
            if j >= prev.len() {
                assert((prev + e)[j] == e[j - prev.len()]);
            }
        }
    }
}

proof fn lemma_flat_mask_lengths(s: Schema, i: int, n: int)
    ensures
        forall|j: int|
            0 <= j < flat_entries(s, i, n).len() ==> #[trigger] flat_entries(s, i, n)[j].present.len()
                == key_count(s),
    decreases n,
{
    if n > 0 {
        lemma_flat_mask_lengths(s, i, n - 1);
    }
}

/// Builds union `u` over the resolved fields.
pub(crate) fn build_union(s: &Schema, fields: &Vec<ResolvedField>, u: usize) -> (r: UnionDescriptor)
    requires
        keys_fit(*s),
        u < union_count(*s),
        forall|j: int| 0 <= j < fields@.len() ==> #[trigger] fields@[j].present@.len() == key_count(*s),
    ensures
        r@ == union_spec(*s, u as int, field_views(fields@)),
{
    proof {
        reveal_strlit("Ref");
        reveal_strlit("RefMut");
    }
    assert("Ref"@ == seq!['R', 'e', 'f']);
    assert("RefMut"@ == seq!['R', 'e', 'f', 'M', 'u', 't']);
    let (name, labels, meta_level): (String, &Vec<String>, bool) = match &s.meta_variants {
        Some(mv) => if u < mv.len() {
            (join(&s.name, &mv[u]), &s.variants, false)
        } else {
            (s.name.clone(), mv, true)
        },
        None => (s.name.clone(), &s.variants, false),
    };
    assert(name@ == union_name(*s, u as int));
    assert(labels@ == union_labels(*s, u as int));
    let mut arms: Vec<Arm> = Vec::new();
    let mut a: usize = 0;
    while a < labels.len()
        invariant
            name@ == union_name(*s, u as int),
            labels@ == union_labels(*s, u as int),
            a <= labels@.len(),
            arm_views(arms@) == Seq::new(a as nat, |k: int| arm_spec(*s, u as int, labels@[k]@)),
        decreases labels@.len() - a,
    {
        let arm = arm_exec(s, &name, &labels[a], Ghost(u as int));
        let ghost before = arms@;
        arms.push(arm);
        proof {
            assert(arm_views(arms@) =~= arm_views(before).push(arm@));
            assert(arm_views(arms@) =~= Seq::new((a + 1) as nat, |k: int| arm_spec(*s, u as int, labels@[k]@)));
        }
        a += 1;
    }
    let mut accessors: Vec<Access> = Vec::new();
    let mut j: usize = 0;
    while j < fields.len()
        invariant
            keys_fit(*s),
            u < union_count(*s),
            forall|k: int| 0 <= k < fields@.len() ==> #[trigger] fields@[k].present@.len() == key_count(*s),
            j <= fields@.len(),
            access_views(accessors@) == Seq::new(j as nat, |k: int| access_spec(*s, u as int, fields@[k]@)),
        decreases fields@.len() - j,
    {
        let acc = access_exec(s, u, &fields[j]);
        let ghost before = accessors@;
        accessors.push(acc);
        proof {
            assert(access_views(accessors@) =~= access_views(before).push(acc@));
            assert(access_views(accessors@) =~= Seq::new((j + 1) as nat, |k: int| access_spec(*s, u as int, fields@[k]@)));
        }
        j += 1;
    }
    let ref_name = join(&name, &str_of("Ref"));
    let ref_mut_name = join(&name, &str_of("RefMut"));
    let r = UnionDescriptor { name, ref_name, ref_mut_name, meta_level, arms, accessors };
    proof {
        let fv = field_views(fields@);
        assert(r@.arms =~= union_spec(*s, u as int, fv).arms);
        assert(r@.accessors =~= union_spec(*s, u as int, fv).accessors);
        assert(r@ =~= union_spec(*s, u as int, fv));
    }
    r
}

} // verus!
