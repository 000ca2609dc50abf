use vstd::prelude::*;
use crate::labels::join;
use vstd::string::axiom_spec_iter;
use vstd::std_specs::iter::IteratorSpec;

verus! {

/// Whether the standard library classifies a character as upper case.
pub uninterp spec fn upper_of(c: char) -> bool;

/// The characters that the standard library maps a character to in lower case.
pub uninterp spec fn lower_chars_of(c: char) -> Seq<char>;

/// Relies on `char::is_uppercase`: the answer depends on the character alone.
#[verifier::external_body]
fn is_upper(c: char) -> (r: bool)
    ensures
        r == upper_of(c),
{
    c.is_uppercase()
}

/// Relies on `char::to_lowercase`: the characters depend on the character alone.
#[verifier::external_body]
fn lower_chars(c: char) -> (r: Vec<char>)
    ensures
        r@ == lower_chars_of(c),
{
    c.to_lowercase().collect()
}

/// The characters of a string, in order.
fn chars_of(s: &str) -> (r: Vec<char>)
    ensures
        r@ == s@,
{
    let mut it = s.chars();
    proof {
        axiom_spec_iter(s);
    }
    broadcast use vstd::string::next_postcondition;

    let mut r: Vec<char> = Vec::new();
    loop
        invariant
            r@ + it.remaining() == s@,
            it.obeys_prophetic_iter_laws(),
            it.decrease() is Some,
        ensures
            r@ == s@,
        decreases it.decrease()->0,
    {
        match it.next() {
            Some(c) => {
                r.push(c);
            },
            None => {
                assert(r@ + it.remaining() == r@);
                break;
            },
        }
    }
    r
}

/// Relies on `String::push`: the character is appended.
#[verifier::external_body]
fn push_char(s: &mut String, c: char)
    ensures
        final(s)@ == old(s)@.push(c),
{
    s.push(c)
}

/// What one character of an identifier becomes in snake case: an upper-case
/// character is lowered, and preceded by `_` unless it comes first.
pub open spec fn snake_piece(c: char, i: int) -> Seq<char> {
    if upper_of(c) {
        if i == 0 {
            lower_chars_of(c)
        } else {
            seq!['_'] + lower_chars_of(c)
        }
    } else {
        seq![c]
    }
}

/// The snake case of the first `n` characters of `s`.
pub open spec fn snake_of(s: Seq<char>, n: int) -> Seq<char>
    decreases n,
{
    if n <= 0 {
        Seq::empty()
    } else {
        snake_of(s, n - 1) + snake_piece(s[n - 1], n - 1)
    }
}

/// Converts an identifier from CamelCase to snake_case.
pub fn snake_case(ident: &str) -> (r: String)
    ensures
        r@ == snake_of(ident@, ident@.len() as int),
{
    let cs = chars_of(ident);
    let mut r = String::new();
    let mut i: usize = 0;
    while i < cs.len()
        invariant
            cs@ == ident@,
            i <= cs@.len(),
            r@ == snake_of(ident@, i as int),
        decreases cs@.len() - i,
    {
        let c = cs[i];
        if is_upper(c) {
            if i > 0 {
                push_char(&mut r, '_');
            }
            let lc = lower_chars(c);
            let mut k: usize = 0;
            let ghost base = r@;
            while k < lc.len()
                invariant
                    k <= lc@.len(),
                    r@ == base + lc@.subrange(0, k as int),
                decreases lc@.len() - k,
            {
                push_char(&mut r, lc[k]);
                assert(lc@.subrange(0, k + 1) == lc@.subrange(0, k as int).push(lc@[k as int]));
                k += 1;
            }
            assert(lc@.subrange(0, lc@.len() as int) == lc@);
        } else {
            push_char(&mut r, c);
        }
        assert(r@ =~= snake_of(ident@, i + 1));
        i += 1;
    }
    r
}

/// The name of the map macro from one family into another: `map_<from>`
/// within one family, `map_<from>_into_<to>` across two.
pub open spec fn map_macro_name(from: Seq<char>, to: Seq<char>) -> Seq<char> {
    let head = seq!['m', 'a', 'p', '_'] + snake_of(from, from.len() as int);
    if from == to {
        head
    } else {
        head + seq!['_', 'i', 'n', 't', 'o', '_'] + snake_of(to, to.len() as int)
    }
}

/// Names the map macro from family `from_type_name` into `to_type_name`.
pub fn generate_map_macro_name(from_type_name: &String, to_type_name: &String) -> (r: String)
    ensures
        r@ == map_macro_name(from_type_name@, to_type_name@),
{
    proof {
        reveal_strlit("map_");
        reveal_strlit("_into_");
    }
    assert("map_"@ == seq!['m', 'a', 'p', '_']);
    assert("_into_"@ == seq!['_', 'i', 'n', 't', 'o', '_']);
    let head = join(&String::from_str("map_"), &snake_case(from_type_name.as_str()));
    if *from_type_name == *to_type_name {
        head
    } else {
        let tail = join(&String::from_str("_into_"), &snake_case(to_type_name.as_str()));
        join(&head, &tail)
    }
}

} // verus!
