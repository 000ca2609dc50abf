use vstd::prelude::*;
use crate::engine::{TypeFamily, FamilyView};
use crate::family::FieldView;
use crate::unions::{Access, AccessView, access_views};

verus! {

/// A value of a family's union: the shape it holds, and that shape's record
/// as its field values, in the order of the shape's fields.
#[derive(Debug, Clone, PartialEq)]
pub struct Instance<V> {
    pub shape: usize,
    pub values: Vec<V>,
}

/// The fields among the first `n` that are present on shape `q`, in order.
pub open spec fn fields_on(f: Seq<FieldView>, q: int, n: int) -> Seq<nat>
    decreases n,
{
    if n <= 0 {
        Seq::empty()
    } else if f[n - 1].present[q] {
        fields_on(f, q, n - 1).push((n - 1) as nat)
    } else {
        fields_on(f, q, n - 1)
    }
}

/// The position of field `j` in the record of shape `q`.
pub open spec fn rank(f: Seq<FieldView>, q: int, j: int) -> int {
    fields_on(f, q, j).len() as int
}

/// The name under which an accessor reads its field, if it has one.
pub open spec fn access_name(a: AccessView) -> Option<Seq<char>> {
    match a {
        AccessView::Total { name, .. } => Some(name),
        AccessView::Partial { name, .. } => Some(name),
        AccessView::Absent => None,
    }
}

/// The name under which an accessor writes its field, if it has one.
pub open spec fn access_mut_name(a: AccessView) -> Option<Seq<char>> {
    match a {
        AccessView::Total { mut_name, .. } => mut_name,
        AccessView::Partial { mut_name, .. } => mut_name,
        AccessView::Absent => None,
    }
}

/// The first field at or after `from` that union `u` writes under `name`.
pub open spec fn accessor_mut_from(fam: FamilyView, u: int, name: Seq<char>, from: int) -> Option<nat>
    decreases fam.unions[u].accessors.len() - from,
{
    if from < 0 || from >= fam.unions[u].accessors.len() {
        None
    } else if access_mut_name(fam.unions[u].accessors[from]) == Some(name) {
        Some(from as nat)
    } else {
        accessor_mut_from(fam, u, name, from + 1)
    }
}

/// The first field at or after `from` that union `u` reads under `name`.
pub open spec fn accessor_from(fam: FamilyView, u: int, name: Seq<char>, from: int) -> Option<nat>
    decreases fam.unions[u].accessors.len() - from,
{
    if from < 0 || from >= fam.unions[u].accessors.len() {
        None
    } else if access_name(fam.unions[u].accessors[from]) == Some(name) {
        Some(from as nat)
    } else {
        accessor_from(fam, u, name, from + 1)
    }
}

impl TypeFamily {
    /// Every field has one mask entry per shape, and there is a union with
    /// one accessor per field.
    pub open spec fn wf(&self) -> bool {
        &&& forall|j: int| 0 <= j < self.fields@.len() ==> #[trigger] self.fields@[j].present@.len()
            == self.shapes@.len()
        &&& self.unions@.len() > 0
        &&& forall|u: int| 0 <= u < self.unions@.len() ==> #[trigger] self.unions@[u].accessors@.len()
            == self.fields@.len()
    }

    /// The union through which users reach every field: the last one.
    pub open spec fn top(&self) -> int {
        self.unions@.len() - 1
    }

    /// Whether `inst` holds a shape of this family with one value per field
    /// of that shape.
    pub open spec fn holds<V>(&self, inst: Instance<V>) -> bool {
        &&& inst.shape < self.shapes@.len()
        &&& inst.values@.len() == fields_on(self@.fields, inst.shape as int, self@.fields.len() as int).len()
    }

    /// The fields present on shape `q`, in order.
    pub fn shape_fields(&self, q: usize) -> (r: Vec<usize>)
        requires
            self.wf(),
            q < self.shapes@.len(),
        ensures
            r@.map_values(|j: usize| j as nat) == fields_on(self@.fields, q as int, self@.fields.len() as int),
    {
        let mut r: Vec<usize> = Vec::new();
        let mut j: usize = 0;
        while j < self.fields.len()
            invariant
                self.wf(),
                q < self.shapes@.len(),
                j <= self.fields@.len(),
                r@.map_values(|k: usize| k as nat) == fields_on(self@.fields, q as int, j as int),
            decreases self.fields@.len() - j,
        {
            assert(self@.fields[j as int] == self.fields@[j as int]@);
            if self.fields[j].present[q] {
                let ghost before = r@;
                r.push(j);
                assert(r@.map_values(|k: usize| k as nat) =~= before.map_values(|k: usize| k as nat).push(j as nat));
            }
            j += 1;
        }
        r
    }

    /// The number of fields before field `j` that are present on shape `q`.
    fn rank_exec(&self, q: usize, j: usize) -> (r: usize)
        requires
            self.wf(),
            q < self.shapes@.len(),
            j <= self.fields@.len(),
        ensures
            r == rank(self@.fields, q as int, j as int),
    {
        let mut r: usize = 0;
        let mut k: usize = 0;
        while k < j
            invariant
                self.wf(),
                q < self.shapes@.len(),
                k <= j <= self.fields@.len(),
                r == fields_on(self@.fields, q as int, k as int).len(),
                r <= k,
            decreases j - k,
        {
            assert(self@.fields[k as int] == self.fields@[k as int]@);
            if self.fields[k].present[q] {
                r += 1;
            }
            k += 1;
        }
        r
    }

    /// A union value of shape `shape` holding `values`, if they fit it.
    pub fn make<V>(&self, shape: usize, values: Vec<V>) -> (r: Option<Instance<V>>)
        requires
            self.wf(),
        ensures
            r is Some <==> shape < self.shapes@.len() && values@.len() == fields_on(
                self@.fields,
                shape as int,
                self@.fields.len() as int,
            ).len(),
            r matches Some(i) ==> i.shape == shape && i.values == values && self.holds(i),
    {
        if shape >= self.shapes.len() {
            return None;
        }
        if values.len() != self.rank_exec(shape, self.fields.len()) {
            return None;
        }
        Some(Instance { shape, values })
    }

    /// The field that the top union reads under `name`.
    pub fn accessor(&self, name: &String) -> (r: Option<usize>)
        requires
            self.wf(),
        ensures
            match r {
                Some(j) => accessor_from(self@, self.top(), name@, 0) == Some(j as nat),
                None => accessor_from(self@, self.top(), name@, 0) is None,
            },
    {
        let u = self.unions.len() - 1;
        let accs = &self.unions[u].accessors;
        assert(self@.unions[u as int].accessors == access_views(accs@));
        let mut j: usize = 0;
        while j < accs.len()
            invariant
                self.wf(),
                u == self.top(),
                *accs == self.unions@[u as int].accessors,
                self@.unions[u as int].accessors == access_views(accs@),
                j <= accs@.len(),
                accessor_from(self@, u as int, name@, j as int) == accessor_from(self@, u as int, name@, 0),
            decreases accs@.len() - j,
        {
            let hit = match &accs[j] {
                Access::Total { name: n, .. } => *n == *name,
                Access::Partial { name: n, .. } => *n == *name,
                Access::Absent => false,
            };
            if hit {
                return Some(j);
            }
            j += 1;
        }
        None
    }

    /// Reads the field that the top union reads under `name`: its value when
    /// the field is present on the shape that `inst` holds, an error when the
    /// field is absent there or no accessor has that name.
    pub fn get<'a, V, E>(&self, inst: &'a Instance<V>, name: &String, miss: E) -> (r: Result<&'a V, E>)
        requires
            self.wf(),
            self.holds(*inst),
        ensures
            match accessor_from(self@, self.top(), name@, 0) {
                None => r == Err::<&V, E>(miss),
                Some(j) => if self@.fields[j as int].present[inst.shape as int] {
                    r is Ok && *r->Ok_0 == inst.values@[rank(self@.fields, inst.shape as int, j as int)]
                } else {
                    r == Err::<&V, E>(miss)
                },
            },
    {
        match self.accessor(name) {
            None => Err(miss),
            Some(j) => {
                proof {
                    lemma_accessor_in_range(self@, self.top(), name@, 0);
                }
                assert(self@.fields[j as int] == self.fields@[j as int]@);
                if self.fields[j].present[inst.shape] {
                    let k = self.rank_exec(inst.shape, j);
                    proof {
                        lemma_rank_bound(self@.fields, inst.shape as int, j as int, self@.fields.len() as int);
                    }
                    Ok(&inst.values[k])
                } else {
                    Err(miss)
                }
            },
        }
    }

    /// The field that the top union writes under `name`.
    pub fn accessor_mut(&self, name: &String) -> (r: Option<usize>)
        requires
            self.wf(),
        ensures
            match r {
                Some(j) => accessor_mut_from(self@, self.top(), name@, 0) == Some(j as nat),
                None => accessor_mut_from(self@, self.top(), name@, 0) is None,
            },
    {
        let u = self.unions.len() - 1;
        let accs = &self.unions[u].accessors;
        assert(self@.unions[u as int].accessors == access_views(accs@));
        let mut j: usize = 0;
        while j < accs.len()
            invariant
                self.wf(),
                u == self.top(),
                *accs == self.unions@[u as int].accessors,
                self@.unions[u as int].accessors == access_views(accs@),
                j <= accs@.len(),
                accessor_mut_from(self@, u as int, name@, j as int) == accessor_mut_from(self@, u as int, name@, 0),
            decreases accs@.len() - j,
        {
            let hit = match &accs[j] {
                Access::Total { mut_name: Some(n), .. } => *n == *name,
                Access::Partial { mut_name: Some(n), .. } => *n == *name,
                _ => false,
            };
            if hit {
                return Some(j);
            }
            j += 1;
        }
        None
    }

    /// Writes `value` into the field that the top union writes under `name`,
    /// when that field is present on the shape that `inst` holds; returns the
    /// miss error and leaves `inst` as it was otherwise.
    pub fn set<V, E>(&self, inst: &mut Instance<V>, name: &String, value: V, miss: E) -> (r: Result<(), E>)
        requires
            self.wf(),
            self.holds(*old(inst)),
        ensures
            self.holds(*final(inst)),
            final(inst).shape == old(inst).shape,
            match accessor_mut_from(self@, self.top(), name@, 0) {
                None => r == Err::<(), E>(miss) && *final(inst) == *old(inst),
                Some(j) => if self@.fields[j as int].present[old(inst).shape as int] {
                    r is Ok && final(inst).values@ == old(inst).values@.update(
                        rank(self@.fields, old(inst).shape as int, j as int),
                        value,
                    )
                } else {
                    r == Err::<(), E>(miss) && *final(inst) == *old(inst)
                },
            },
    {
        match self.accessor_mut(name) {
            None => Err(miss),
            Some(j) => {
                proof {
                    lemma_accessor_mut_in_range(self@, self.top(), name@, 0);
                }
                assert(self@.fields[j as int] == self.fields@[j as int]@);
                if self.fields[j].present[inst.shape] {
                    let k = self.rank_exec(inst.shape, j);
                    proof {
                        lemma_rank_bound(self@.fields, inst.shape as int, j as int, self@.fields.len() as int);
                    }
                    inst.values.set(k, value);
                    Ok(())
                } else {
                    Err(miss)
                }
            },
        }
    }

    /// Casts `inst` to shape `q`: its record when it holds that shape, the
    /// miss error otherwise.
    pub fn cast<'a, V, E>(&self, inst: &'a Instance<V>, q: usize, miss: E) -> (r: Result<&'a Vec<V>, E>)
        ensures
            inst.shape == q ==> r is Ok && *r->Ok_0 == inst.values,
            inst.shape != q ==> r == Err::<&Vec<V>, E>(miss),
    {
        if inst.shape == q {
            Ok(&inst.values)
        } else {
            Err(miss)
        }
    }
}

/// A field found by name is one of the union's.
proof fn lemma_accessor_in_range(fam: FamilyView, u: int, name: Seq<char>, from: int)
    requires
        from >= 0,
    ensures
        accessor_from(fam, u, name, from) matches Some(j) ==> from <= j < fam.unions[u].accessors.len(),
    decreases fam.unions[u].accessors.len() - from,
{
    if from < fam.unions[u].accessors.len() && access_name(fam.unions[u].accessors[from]) != Some(name) {
        lemma_accessor_in_range(fam, u, name, from + 1);
    }
}

/// A field found by the name of its mutable accessor is one of the union's.
proof fn lemma_accessor_mut_in_range(fam: FamilyView, u: int, name: Seq<char>, from: int)
    requires
        from >= 0,
    ensures
        accessor_mut_from(fam, u, name, from) matches Some(j) ==> from <= j < fam.unions[u].accessors.len(),
    decreases fam.unions[u].accessors.len() - from,
{
    if from < fam.unions[u].accessors.len() && access_mut_name(fam.unions[u].accessors[from]) != Some(name) {
        lemma_accessor_mut_in_range(fam, u, name, from + 1);
    }
}

/// A field present on a shape comes before the end of that shape's record.
proof fn lemma_rank_bound(f: Seq<FieldView>, q: int, j: int, n: int)
    requires
        0 <= j < n <= f.len(),
        f[j].present[q],
    ensures
        rank(f, q, j) < fields_on(f, q, n).len(),
    decreases n,
{
    if n > j + 1 {
        lemma_rank_bound(f, q, j, n - 1);
        lemma_fields_on_grows(f, q, n - 1);
    }
}

proof fn lemma_fields_on_grows(f: Seq<FieldView>, q: int, n: int)
    ensures
        fields_on(f, q, n).len() <= fields_on(f, q, n + 1).len(),
{
}

} // verus!
