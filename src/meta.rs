use vstd::prelude::*;

verus! {

/// One item of an attribute argument list, as the front-end read it.
pub enum MetaItem {
    /// A path such as `Merge` or `a::b`, by its segments.
    Path(Vec<String>),
    /// An operator applied to nested items, such as `and(A, B)`.
    List(Vec<String>, Vec<MetaItem>),
    /// A literal, by its source text.
    Lit(String),
}

/// Why an attribute argument list could not be read.
#[derive(Debug, Clone, Copy, PartialEq, Eq, Structural)]
pub enum MetaError {
    /// The item at this position is a literal where a name was expected.
    LiteralNotName { index: usize },
    /// The item at this position has a path of more than one segment, or none.
    NotAName { index: usize },
    /// A feature expression list must hold exactly one item.
    ExpressionCount,
    /// An operator had a path of more than one segment, or none.
    OperatorPath,
    /// An operator was given the wrong number of operands.
    OperandCount,
    /// The operator is none of `and`, `or` and `not`.
    UnknownOperator,
    /// A literal stood where a feature expression was expected.
    LiteralInExpression,
    /// A feature name was a path of no segment.
    EmptyPath,
}

impl MetaItem {
    /// The path of a path or list item.
    pub open spec fn path_of(self) -> Option<Seq<String>> {
        match self {
            MetaItem::Path(p) => Some(p@),
            MetaItem::List(p, _) => Some(p@),
            MetaItem::Lit(_) => None,
        }
    }
}

/// The name that an item stands for: a path of exactly one segment.
pub open spec fn item_name(m: MetaItem) -> Option<String> {
    match m.path_of() {
        Some(p) => if p.len() == 1 { Some(p[0]) } else { None },
        None => None,
    }
}

/// The names of a list of items, or the first position that holds no name.
pub open spec fn names_of(items: Seq<MetaItem>) -> Result<Seq<String>, MetaError>
    decreases items.len(),
{
    if items.len() == 0 {
        Ok(Seq::empty())
    } else {
        match names_of(items.drop_last()) {
            Err(e) => Err(e),
            Ok(prev) => {
                let last = items.last();
                if last is Lit {
                    Err(MetaError::LiteralNotName { index: (items.len() - 1) as usize })
                } else {
                    match item_name(last) {
                        Some(n) => Ok(prev.push(n)),
                        None => Err(MetaError::NotAName { index: (items.len() - 1) as usize }),
                    }
                }
            },
        }
    }
}

/// An ordered list of names, read from an attribute argument list.
pub struct IdentList {
    pub idents: Vec<String>,
}

impl IdentList {
    /// Reads each item as a single name, keeping their order.
    pub fn from_list(items: &Vec<MetaItem>) -> (r: Result<IdentList, MetaError>)
        ensures
            match names_of(items@) {
                Ok(ns) => r is Ok && r->Ok_0.idents@ == ns,
                Err(e) => r == Err::<IdentList, MetaError>(e),
            },
    {
        let mut idents: Vec<String> = Vec::new();
        let mut i: usize = 0;
        while i < items.len()
            invariant
                i <= items.len(),
                names_of(items@.subrange(0, i as int)) == Ok::<Seq<String>, MetaError>(idents@),
            decreases items.len() - i,
        {
            assert(items@.subrange(0, i + 1).drop_last() == items@.subrange(0, i as int));
            let item = &items[i];
            match item {
                MetaItem::Lit(_) => {
                    proof { lemma_names_error_persists(items@, i as int + 1); }
                    return Err(MetaError::LiteralNotName { index: i });
                },
                MetaItem::Path(p) | MetaItem::List(p, _) => {
                    if p.len() != 1 {
                        proof { lemma_names_error_persists(items@, i as int + 1); }
                        return Err(MetaError::NotAName { index: i });
                    }
                    idents.push(p[0].clone());
                },
            }
            i += 1;
        }
        assert(items@.subrange(0, items.len() as int) == items@);
        Ok(IdentList { idents })
    }
}

proof fn lemma_names_error_persists(items: Seq<MetaItem>, n: int)
    requires
        0 <= n <= items.len(),
        names_of(items.subrange(0, n)) is Err,
    ensures
        names_of(items) == names_of(items.subrange(0, n)),
    decreases items.len() - n,
{
    if n < items.len() {
        assert(items.subrange(0, n + 1).drop_last() == items.subrange(0, n));
        lemma_names_error_persists(items, n + 1);
    } else {
        assert(items.subrange(0, n) == items);
    }
}

} // verus!
