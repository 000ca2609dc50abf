use vstd::prelude::*;

verus! {

/// Whether `s` is one of the labels of `v`.
pub open spec fn has_label(v: Seq<String>, s: Seq<char>) -> bool {
    exists|j: int| 0 <= j < v.len() && #[trigger] v[j]@ == s
}

/// The position of the first label of `v` equal to `s`, if any.
pub fn index_of(v: &Vec<String>, s: &String) -> (r: Option<usize>)
    ensures
        match r {
            Some(i) => i < v.len() && v@[i as int]@ == s@ && forall|j: int|
                0 <= j < i ==> #[trigger] v@[j]@ != s@,
            None => !has_label(v@, s@),
        },
{
    let mut i: usize = 0;
    while i < v.len()
        invariant
            i <= v.len(),
            forall|j: int| 0 <= j < i ==> #[trigger] v@[j]@ != s@,
        decreases v.len() - i,
    {
        if v[i] == *s {
            return Some(i);
        }
        i += 1;
    }
    None
}

/// Whether `s` is one of the labels of `v`.
pub fn contains_label(v: &Vec<String>, s: &String) -> (r: bool)
    ensures
        r == has_label(v@, s@),
{
    match index_of(v, s) {
        Some(_) => true,
        None => false,
    }
}

/// The concatenation of two strings.
pub fn join(a: &String, b: &String) -> (r: String)
    ensures
        r@ == a@ + b@,
{
    let mut r = a.clone();
    r.append(b.as_str());
    r
}

} // verus!

verus! {

/// The lower-case form of a string, as the standard library computes it.
pub uninterp spec fn lower_of(s: Seq<char>) -> Seq<char>;

/// Relies on `str::to_lowercase`: the result depends on the characters alone.
#[verifier::external_body]
pub(crate) fn lowercase(s: &String) -> (r: String)
    ensures
        r@ == lower_of(s@),
{
    s.to_lowercase()
}

} // verus!
