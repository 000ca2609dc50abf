use vstd::prelude::*;
use crate::labels::{has_label, contains_label};
use crate::error::ResolveError;

verus! {

/// The features that become active at one point of the timeline.
pub struct Activation {
    pub variant: String,
    pub features: Vec<String>,
}

/// A feature and the features it requires.
pub struct Dependency {
    pub feature: String,
    pub requires: Vec<String>,
}

/// The activation timeline and the dependency graph of a schema.
pub struct FeatureTable {
    pub timeline: Vec<Activation>,
    pub dependencies: Vec<Dependency>,
}

/// The features activated at or before position `p` of the timeline, in
/// order of activation.
pub open spec fn cumulative(t: Seq<Activation>, p: int) -> Seq<String>
    decreases p,
{
    if p < 0 || p >= t.len() {
        Seq::empty()
    } else if p == 0 {
        t[0].features@
    } else {
        cumulative(t, p - 1) + t[p].features@
    }
}

/// Whether feature `f` is active at position `p` of the timeline.
pub open spec fn active_at(t: Seq<Activation>, p: int, f: Seq<char>) -> bool {
    has_label(cumulative(t, p), f)
}

/// Whether dependency entry `d`, with its required feature at `k`, is broken
/// at timeline position `p`.
pub open spec fn violates(table: FeatureTable, d: int, k: int, p: int) -> bool {
    let dep = table.dependencies@[d];
    active_at(table.timeline@, p, dep.feature@) && !active_at(
        table.timeline@,
        p,
        dep.requires@[k]@,
    )
}

/// Whether the triple `(pb, d2, k2)` comes before `(p, d, k)`: by timeline
/// position, then by dependency entry, then by required feature.
pub open spec fn comes_before(pb: int, d2: int, k2: int, p: int, d: int, k: int) -> bool {
    pb < p || (pb == p && d2 < d) || (pb == p && d2 == d && k2 < k)
}

/// Whether dependency entry `d`, with its required feature at `k`, is broken
/// at position `p`, and no broken dependency comes before it.
pub open spec fn first_violation(table: FeatureTable, d: int, k: int, p: int) -> bool {
    &&& 0 <= d < table.dependencies@.len()
    &&& 0 <= k < table.dependencies@[d].requires@.len()
    &&& 0 <= p < table.timeline@.len()
    &&& violates(table, d, k, p)
    &&& forall|d2: int, k2: int, pb: int|
        0 <= d2 < table.dependencies@.len() && 0 <= k2 < table.dependencies@[d2].requires@.len() && 0
            <= pb < table.timeline@.len() && comes_before(pb, d2, k2, p, d, k) ==> !#[trigger] violates(
            table,
            d2,
            k2,
            pb,
        )
}

/// Whether no dependency is broken anywhere on the timeline.
pub open spec fn dependencies_hold(table: FeatureTable) -> bool {
    forall|d: int, k: int, p: int|
        0 <= d < table.dependencies@.len() && 0 <= k < table.dependencies@[d].requires@.len() && 0
            <= p < table.timeline@.len() ==> !#[trigger] violates(table, d, k, p)
}

/// The first position at or after `from` whose entry activates `f`, or -1.
pub open spec fn first_activation_from(t: Seq<Activation>, f: Seq<char>, from: int) -> int
    decreases t.len() - from,
{
    if from < 0 || from >= t.len() {
        -1
    } else if has_label(t[from].features@, f) {
        from
    } else {
        first_activation_from(t, f, from + 1)
    }
}

/// The first position of the timeline that activates `f`, or -1.
pub open spec fn first_activation_of(t: Seq<Activation>, f: Seq<char>) -> int {
    first_activation_from(t, f, 0)
}

/// The first position at or after `from` whose entry is for variant `v`, or -1.
pub open spec fn position_from(t: Seq<Activation>, v: Seq<char>, from: int) -> int
    decreases t.len() - from,
{
    if from < 0 || from >= t.len() {
        -1
    } else if t[from].variant@ == v {
        from
    } else {
        position_from(t, v, from + 1)
    }
}

/// The position of variant `v` on the timeline, or -1.
pub open spec fn position_of(t: Seq<Activation>, v: Seq<char>) -> int {
    position_from(t, v, 0)
}

/// A position found on the timeline lies on it.
pub proof fn lemma_position_bounds(t: Seq<Activation>, v: Seq<char>, from: int)
    requires
        from >= 0,
    ensures
        position_from(t, v, from) == -1 || from <= position_from(t, v, from) < t.len(),
    decreases t.len() - from,
{
    if from < t.len() && t[from].variant@ != v {
        lemma_position_bounds(t, v, from + 1);
    }
}

/// A first activation found on the timeline lies on it.
pub proof fn lemma_first_activation_bounds(t: Seq<Activation>, f: Seq<char>, from: int)
    requires
        from >= 0,
    ensures
        first_activation_from(t, f, from) == -1 || from <= first_activation_from(t, f, from) < t.len(),
    decreases t.len() - from,
{
    if from < t.len() && !has_label(t[from].features@, f) {
        lemma_first_activation_bounds(t, f, from + 1);
    }
}

/// A copy of a list of labels.
pub fn copy_labels(v: &Vec<String>) -> (r: Vec<String>)
    ensures
        r@ == v@,
{
    let mut r: Vec<String> = Vec::new();
    let mut i: usize = 0;
    while i < v.len()
        invariant
            i <= v.len(),
            r@ == v@.subrange(0, i as int),
        decreases v.len() - i,
    {
        r.push(v[i].clone());
        i += 1;
    }
    assert(v@.subrange(0, v.len() as int) == v@);
    r
}

/// A feature that is active at one position stays active at every later one.
pub proof fn lemma_cumulative_monotone(t: Seq<Activation>, p: int, q: int, f: Seq<char>)
    requires
        0 <= p <= q < t.len(),
        active_at(t, p, f),
    ensures
        active_at(t, q, f),
    decreases q - p,
{
    if p < q {
        lemma_cumulative_monotone(t, p, q - 1, f);
        let c = cumulative(t, q - 1);
        let j = choose|j: int| 0 <= j < c.len() && #[trigger] c[j]@ == f;
        assert(cumulative(t, q)[j] == c[j]);
    }
}

/// A feature is active at position `p` exactly when some entry at or before
/// `p` activates it.
pub proof fn lemma_active_at_iff(t: Seq<Activation>, p: int, f: Seq<char>)
    requires
        0 <= p < t.len(),
    ensures
        active_at(t, p, f) <==> exists|j: int| 0 <= j <= p && has_label(#[trigger] t[j].features@, f),
    decreases p,
{
    if p > 0 {
        lemma_active_at_iff(t, p - 1, f);
        let c = cumulative(t, p - 1);
        let a = t[p].features@;
        if active_at(t, p, f) {
            let i = choose|i: int| 0 <= i < (c + a).len() && #[trigger] (c + a)[i]@ == f;
            if i < c.len() {
                assert(c[i]@ == f);
                let j = choose|j: int| 0 <= j <= p - 1 && has_label(#[trigger] t[j].features@, f);
                assert(0 <= j <= p && has_label(t[j].features@, f));
            } else {
                assert(a[i - c.len()]@ == f);
                assert(has_label(t[p].features@, f));
            }
        }
        if exists|j: int| 0 <= j <= p && has_label(#[trigger] t[j].features@, f) {
            let j = choose|j: int| 0 <= j <= p && has_label(#[trigger] t[j].features@, f);
            if j < p {
                assert(active_at(t, p - 1, f));
                let i = choose|i: int| 0 <= i < c.len() && #[trigger] c[i]@ == f;
                assert((c + a)[i] == c[i]);
            } else {
                let i = choose|i: int| 0 <= i < a.len() && #[trigger] a[i]@ == f;
                assert((c + a)[c.len() + i] == a[i]);
            }
        }
    }
}

impl FeatureTable {
    /// The cumulative feature list of every timeline position.
    pub fn cumulative_features(&self) -> (r: Vec<Vec<String>>)
        ensures
            r@.len() == self.timeline@.len(),
            forall|p: int| 0 <= p < r@.len() ==> #[trigger] r@[p]@ == cumulative(self.timeline@, p),
    {
        let mut r: Vec<Vec<String>> = Vec::new();
        let mut cur: Vec<String> = Vec::new();
        let mut p: usize = 0;
        while p < self.timeline.len()
            invariant
                p <= self.timeline@.len(),
                r@.len() == p,
                forall|q: int| 0 <= q < p ==> #[trigger] r@[q]@ == cumulative(self.timeline@, q),
                cur@ == cumulative(self.timeline@, p - 1),
            decreases self.timeline@.len() - p,
        {
            let fs = &self.timeline[p].features;
            let ghost before = cur@;
            let mut k: usize = 0;
            while k < fs.len()
                invariant
                    k <= fs@.len(),
                    cur@ == before + fs@.subrange(0, k as int),
                decreases fs@.len() - k,
            {
                cur.push(fs[k].clone());
                proof {
                    assert(fs@.subrange(0, k + 1) == fs@.subrange(0, k as int).push(fs@[k as int]));
                }
                k += 1;
            }
            assert(fs@.subrange(0, fs@.len() as int) == fs@);
            assert(cur@ == cumulative(self.timeline@, p as int));
            r.push(copy_labels(&cur));
            p += 1;
        }
        r
    }

    /// The first position of the timeline that activates `feature`.
    pub fn first_activation(&self, feature: &String) -> (r: Option<usize>)
        ensures
            match r {
                Some(p) => p == first_activation_of(self.timeline@, feature@),
                None => first_activation_of(self.timeline@, feature@) == -1,
            },
    {
        let mut p: usize = 0;
        while p < self.timeline.len()
            invariant
                p <= self.timeline@.len(),
                first_activation_from(self.timeline@, feature@, p as int) == first_activation_of(
                    self.timeline@,
                    feature@,
                ),
            decreases self.timeline@.len() - p,
        {
            if contains_label(&self.timeline[p].features, feature) {
                return Some(p);
            }
            p += 1;
        }
        None
    }

    /// The position of the entry for `variant` on the timeline.
    pub fn position(&self, variant: &String) -> (r: Option<usize>)
        ensures
            match r {
                Some(p) => p == position_of(self.timeline@, variant@),
                None => position_of(self.timeline@, variant@) == -1,
            },
    {
        let mut p: usize = 0;
        while p < self.timeline.len()
            invariant
                p <= self.timeline@.len(),
                position_from(self.timeline@, variant@, p as int) == position_of(
                    self.timeline@,
                    variant@,
                ),
            decreases self.timeline@.len() - p,
        {
            if self.timeline[p].variant == *variant {
                return Some(p);
            }
            p += 1;
        }
        None
    }

    /// The variants of the timeline from the first one that activates
    /// `start` on, in order; none when no entry activates it.
    pub fn variants_from(&self, start: &String) -> (r: Option<Vec<String>>)
        ensures
            match r {
                Some(v) => {
                    let p = first_activation_of(self.timeline@, start@);
                    &&& 0 <= p < self.timeline@.len()
                    &&& v@.len() == self.timeline@.len() - p
                    &&& forall|i: int| 0 <= i < v@.len() ==> #[trigger] v@[i] == self.timeline@[p + i].variant
                },
                None => first_activation_of(self.timeline@, start@) == -1,
            },
    {
        let p = match self.first_activation(start) {
            Some(p) => p,
            None => return None,
        };
        proof {
            lemma_first_activation_bounds(self.timeline@, start@, 0);
        }
        let mut v: Vec<String> = Vec::new();
        let mut i: usize = p;
        while i < self.timeline.len()
            invariant
                p == first_activation_of(self.timeline@, start@),
                p < self.timeline@.len(),
                p <= i <= self.timeline@.len(),
                v@.len() == i - p,
                forall|k: int| 0 <= k < v@.len() ==> #[trigger] v@[k] == self.timeline@[p + k].variant,
            decreases self.timeline@.len() - i,
        {
            v.push(self.timeline[i].variant.clone());
            i += 1;
        }
        Some(v)
    }

    /// Checks that every feature's dependencies are active wherever the
    /// feature is.
    pub fn validate(&self) -> (r: Result<(), ResolveError>)
        ensures
            r is Ok <==> dependencies_hold(*self),
            match r {
                Err(ResolveError::DependencyViolation { dependency, required, position }) =>
                    first_violation(*self, dependency as int, required as int, position as int),
                Err(_) => false,
                Ok(_) => true,
            },
    {
        let cum = self.cumulative_features();
        let mut p: usize = 0;
        while p < cum.len()
            invariant
                p <= cum@.len(),
                cum@.len() == self.timeline@.len(),
                forall|q: int| 0 <= q < cum@.len() ==> #[trigger] cum@[q]@ == cumulative(self.timeline@, q),
                forall|d: int, k: int, q: int|
                    0 <= d < self.dependencies@.len() && 0 <= k < self.dependencies@[d].requires@.len()
                        && 0 <= q < p ==> !#[trigger] violates(*self, d, k, q),
            decreases cum@.len() - p,
        {
            let mut d: usize = 0;
            while d < self.dependencies.len()
                invariant
                    p < cum@.len(),
                    d <= self.dependencies@.len(),
                    cum@.len() == self.timeline@.len(),
                    forall|q: int| 0 <= q < cum@.len() ==> #[trigger] cum@[q]@ == cumulative(self.timeline@, q),
                    forall|d2: int, k: int, q: int|
                        0 <= d2 < self.dependencies@.len() && 0 <= k < self.dependencies@[d2].requires@.len()
                            && 0 <= q < p ==> !#[trigger] violates(*self, d2, k, q),
                    forall|d2: int, k: int|
                        0 <= d2 < d && 0 <= k < self.dependencies@[d2].requires@.len()
                            ==> !#[trigger] violates(*self, d2, k, p as int),
                decreases self.dependencies@.len() - d,
            {
                let dep = &self.dependencies[d];
                assert(cum@[p as int]@ == cumulative(self.timeline@, p as int));
                if contains_label(&cum[p], &dep.feature) {
                    let mut k: usize = 0;
                    while k < dep.requires.len()
                        invariant
                            p < cum@.len(),
                            d < self.dependencies@.len(),
                            *dep == self.dependencies@[d as int],
                            k <= dep.requires@.len(),
                            cum@[p as int]@ == cumulative(self.timeline@, p as int),
                            cum@.len() == self.timeline@.len(),
                            active_at(self.timeline@, p as int, dep.feature@),
                            forall|d2: int, k2: int, q: int|
                                0 <= d2 < self.dependencies@.len() && 0 <= k2 < self.dependencies@[d2].requires@.len()
                                    && 0 <= q < p ==> !#[trigger] violates(*self, d2, k2, q),
                            forall|d2: int, k2: int|
                                0 <= d2 < d && 0 <= k2 < self.dependencies@[d2].requires@.len()
                                    ==> !#[trigger] violates(*self, d2, k2, p as int),
                            forall|k2: int| 0 <= k2 < k ==> !#[trigger] violates(*self, d as int, k2, p as int),
                        decreases dep.requires@.len() - k,
                    {
                        if !contains_label(&cum[p], &dep.requires[k]) {
                            assert(violates(*self, d as int, k as int, p as int));
                            assert(first_violation(*self, d as int, k as int, p as int));
                            return Err(ResolveError::DependencyViolation { dependency: d, required: k, position: p });
                        }
                        k += 1;
                    }
                }
                d += 1;
            }
            p += 1;
        }
        Ok(())
    }
}

} // verus!
