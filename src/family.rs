use vstd::prelude::*;
use crate::labels::lower_of;
use crate::schema::{GetterOpts, FieldDecl, Schema, key_count, key_variant, key_meta, meta_labels, present};

verus! {

/// Accessor options as plain values.
pub struct OptsView {
    pub copy: bool,
    pub no_mut: bool,
    pub rename: Option<Seq<char>>,
}

impl View for GetterOpts {
    type V = OptsView;

    open spec fn view(&self) -> OptsView {
        OptsView {
            copy: self.copy,
            no_mut: self.no_mut,
            rename: match self.rename {
                Some(r) => Some(r@),
                None => None,
            },
        }
    }
}

/// A field after resolution: where it is present and how it is accessed.
pub struct ResolvedField {
    pub name: String,
    pub ty: String,
    /// The position of the declaration it comes from.
    pub decl: usize,
    /// For each shape, whether the field is present on it.
    pub present: Vec<bool>,
    /// Present on every shape: it gets total accessors.
    pub common: bool,
    pub getter: GetterOpts,
    pub partial_getter: GetterOpts,
}

pub struct FieldView {
    pub name: Seq<char>,
    pub ty: Seq<char>,
    pub decl: nat,
    pub present: Seq<bool>,
    pub common: bool,
    pub getter: OptsView,
    pub partial_getter: OptsView,
}

impl View for ResolvedField {
    type V = FieldView;

    open spec fn view(&self) -> FieldView {
        FieldView {
            name: self.name@,
            ty: self.ty@,
            decl: self.decl as nat,
            present: self.present@,
            common: self.common,
            getter: self.getter@,
            partial_getter: self.partial_getter@,
        }
    }
}

/// The plain accessor options.
pub open spec fn plain_opts() -> OptsView {
    OptsView { copy: false, no_mut: false, rename: None }
}

/// The options given, or the plain ones.
pub open spec fn opts_or_plain(o: Option<GetterOpts>) -> OptsView {
    match o {
        Some(g) => g@,
        None => plain_opts(),
    }
}

/// The membership mask of field `i`.
pub open spec fn mask_of(s: Schema, i: int) -> Seq<bool> {
    Seq::new(key_count(s), |q: int| present(s, i, q))
}

/// Whether every entry of a mask is set.
pub open spec fn all_set(m: Seq<bool>) -> bool {
    forall|q: int| 0 <= q < m.len() ==> #[trigger] m[q]
}

/// The resolved form of a field that is not flattened.
pub open spec fn plain_entry(s: Schema, i: int) -> FieldView {
    let f = s.fields@[i];
    FieldView {
        name: f.name@,
        ty: f.ty@,
        decl: i as nat,
        present: mask_of(s, i),
        common: all_set(mask_of(s, i)),
        getter: opts_or_plain(f.getter),
        partial_getter: opts_or_plain(f.partial_getter),
    }
}

/// The type of the embedded record that a flattened field holds on shape `q`.
pub open spec fn flat_type(s: Schema, f: FieldDecl, q: int) -> Seq<char> {
    let v = s.variants@[key_variant(s, q)]@;
    if s.meta_variants is Some && f.meta_only is None {
        f.ty@ + meta_labels(s)[key_meta(s, q)]@ + v
    } else {
        f.ty@ + v
    }
}

/// The accessor name of a flattened field on shape `q`.
pub open spec fn flat_name(s: Schema, f: FieldDecl, q: int) -> Seq<char> {
    let v = lower_of(s.variants@[key_variant(s, q)]@);
    if s.meta_variants is Some && f.meta_only is None {
        f.name@ + seq!['_'] + lower_of(meta_labels(s)[key_meta(s, q)]@) + seq!['_'] + v
    } else {
        f.name@ + seq!['_'] + v
    }
}

/// The resolved form of flattened field `i` on shape `q`.
pub open spec fn flat_entry(s: Schema, i: int, q: int) -> FieldView {
    let f = s.fields@[i];
    FieldView {
        name: f.name@,
        ty: flat_type(s, f, q),
        decl: i as nat,
        present: Seq::new(key_count(s), |r: int| r == q),
        common: key_count(s) == 1,
        getter: plain_opts(),
        partial_getter: OptsView { copy: false, no_mut: false, rename: Some(flat_name(s, f, q)) },
    }
}

/// The fields that flattened field `i` becomes on the shapes below `n`.
pub open spec fn flat_entries(s: Schema, i: int, n: int) -> Seq<FieldView>
    decreases n,
{
    if n <= 0 {
        Seq::empty()
    } else if present(s, i, n - 1) {
        flat_entries(s, i, n - 1).push(flat_entry(s, i, n - 1))
    } else {
        flat_entries(s, i, n - 1)
    }
}

/// The fields that declaration `i` resolves to.
pub open spec fn field_entries(s: Schema, i: int) -> Seq<FieldView> {
    if s.fields@[i].flatten is Some {
        flat_entries(s, i, key_count(s) as int)
    } else {
        seq![plain_entry(s, i)]
    }
}

/// The fields that the first `n` declarations resolve to, in order.
pub open spec fn resolved_upto(s: Schema, n: int) -> Seq<FieldView>
    decreases n,
{
    if n <= 0 {
        Seq::empty()
    } else {
        resolved_upto(s, n - 1) + field_entries(s, n - 1)
    }
}

/// One generated record type.
pub struct Shape {
    pub variant: usize,
    pub meta: Option<usize>,
    pub name: String,
}

pub struct ShapeView {
    pub variant: nat,
    pub meta: Option<nat>,
    pub name: Seq<char>,
}

impl View for Shape {
    type V = ShapeView;

    open spec fn view(&self) -> ShapeView {
        ShapeView {
            variant: self.variant as nat,
            meta: match self.meta {
                Some(m) => Some(m as nat),
                None => None,
            },
            name: self.name@,
        }
    }
}

/// Shape `q` of the family: its labels and the name of its record type.
pub open spec fn shape_spec(s: Schema, q: int) -> ShapeView {
    let v = key_variant(s, q);
    let m = key_meta(s, q);
    ShapeView {
        variant: v as nat,
        meta: if s.meta_variants is Some { Some(m as nat) } else { None },
        name: if s.meta_variants is Some {
            s.name@ + meta_labels(s)[m]@ + s.variants@[v]@
        } else {
            s.name@ + s.variants@[v]@
        },
    }
}

/// All shapes of the family, in order.
pub open spec fn shapes_spec(s: Schema) -> Seq<ShapeView> {
    Seq::new(key_count(s), |q: int| shape_spec(s, q))
}

} // verus!
