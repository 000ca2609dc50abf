use vstd::prelude::*;
use crate::labels::{has_label, contains_label};
use crate::meta::{MetaItem, MetaError};
use crate::timeline::{FeatureTable, Activation, first_activation_of};

verus! {

/// A boolean condition over feature names, evaluated against the features
/// that are active on a shape.
pub enum FeatureExpr {
    And(Box<FeatureExpr>, Box<FeatureExpr>),
    Or(Box<FeatureExpr>, Box<FeatureExpr>),
    Not(Box<FeatureExpr>),
    Literal(String),
}

impl FeatureExpr {
    /// Whether the condition holds when exactly the features of `active` are on.
    pub open spec fn holds(self, active: Seq<String>) -> bool
        decreases self,
    {
        match self {
            FeatureExpr::And(a, b) => a.holds(active) && b.holds(active),
            FeatureExpr::Or(a, b) => a.holds(active) || b.holds(active),
            FeatureExpr::Not(a) => !a.holds(active),
            FeatureExpr::Literal(f) => has_label(active, f@),
        }
    }

    /// Whether every feature named in the condition is activated somewhere
    /// on the timeline.
    pub open spec fn is_known(self, t: Seq<Activation>) -> bool
        decreases self,
    {
        match self {
            FeatureExpr::And(a, b) => a.is_known(t) && b.is_known(t),
            FeatureExpr::Or(a, b) => a.is_known(t) && b.is_known(t),
            FeatureExpr::Not(a) => a.is_known(t),
            FeatureExpr::Literal(f) => first_activation_of(t, f@) >= 0,
        }
    }

    /// Checks that every feature named in the condition is activated
    /// somewhere on the timeline of `table`.
    pub fn known(&self, table: &FeatureTable) -> (r: bool)
        ensures
            r == self.is_known(table.timeline@),
        decreases self,
    {
        match self {
            FeatureExpr::Literal(f) => table.first_activation(f).is_some(),
            FeatureExpr::And(a, b) | FeatureExpr::Or(a, b) => {
                let x = a.known(table);
                let y = b.known(table);
                x && y
            },
            FeatureExpr::Not(a) => a.known(table),
        }
    }

    /// Evaluates the condition against a list of active features.
    pub fn eval(&self, features: &Vec<String>) -> (r: bool)
        ensures
            r == self.holds(features@),
        decreases self,
    {
        match self {
            FeatureExpr::Literal(f) => contains_label(features, f),
            FeatureExpr::And(a, b) => {
                let x = a.eval(features);
                let y = b.eval(features);
                x && y
            },
            FeatureExpr::Or(a, b) => {
                let x = a.eval(features);
                let y = b.eval(features);
                x || y
            },
            FeatureExpr::Not(a) => !a.eval(features),
        }
    }

    /// Reads a feature expression from an argument list of exactly one item.
    pub fn from_list(items: &Vec<MetaItem>) -> (r: Result<FeatureExpr, MetaError>)
        ensures
            items.len() == 1 ==> r == parse_spec(items@[0]),
            items.len() != 1 ==> r == Err::<FeatureExpr, MetaError>(MetaError::ExpressionCount),
    {
        if items.len() != 1 {
            return Err(MetaError::ExpressionCount);
        }
        parse(&items[0])
    }
}

/// What a single argument item reads as: a path is the feature named by its
/// last segment; `and(a, b)`, `or(a, b)` and `not(a)` combine the readings of
/// their operands.
pub open spec fn parse_spec(m: MetaItem) -> Result<FeatureExpr, MetaError>
    decreases m,
{
    match m {
        MetaItem::Path(p) => if p@.len() == 0 {
            Err(MetaError::EmptyPath)
        } else {
            Ok(FeatureExpr::Literal(p@.last()))
        },
        MetaItem::Lit(_) => Err(MetaError::LiteralInExpression),
        MetaItem::List(p, nested) => if p@.len() != 1 {
            Err(MetaError::OperatorPath)
        } else if p@[0]@ == seq!['a', 'n', 'd'] || p@[0]@ == seq!['o', 'r'] {
            if nested@.len() != 2 {
                Err(MetaError::OperandCount)
            } else {
                match parse_spec(nested@[0]) {
                    Err(e) => Err(e),
                    Ok(x) => match parse_spec(nested@[1]) {
                        Err(e) => Err(e),
                        Ok(y) => if p@[0]@ == seq!['a', 'n', 'd'] {
                            Ok(FeatureExpr::And(Box::new(x), Box::new(y)))
                        } else {
                            Ok(FeatureExpr::Or(Box::new(x), Box::new(y)))
                        },
                    },
                }
            }
        } else if p@[0]@ == seq!['n', 'o', 't'] {
            if nested@.len() != 1 {
                Err(MetaError::OperandCount)
            } else {
                match parse_spec(nested@[0]) {
                    Err(e) => Err(e),
                    Ok(x) => Ok(FeatureExpr::Not(Box::new(x))),
                }
            }
        } else {
            Err(MetaError::UnknownOperator)
        },
    }
}

fn operator_is(op: &String, word: &str) -> (r: bool)
    ensures
        r == (op@ == word@),
{
    let w = String::from_str(word);
    *op == w
}

/// Reads one argument item as a feature expression.
pub fn parse(m: &MetaItem) -> (r: Result<FeatureExpr, MetaError>)
    ensures
        r == parse_spec(*m),
    decreases m,
{
    match m {
        MetaItem::Path(p) => {
            if p.len() == 0 {
                Err(MetaError::EmptyPath)
            } else {
                Ok(FeatureExpr::Literal(p[p.len() - 1].clone()))
            }
        },
        MetaItem::Lit(_) => Err(MetaError::LiteralInExpression),
        MetaItem::List(p, nested) => {
            if p.len() != 1 {
                return Err(MetaError::OperatorPath);
            }
            proof {
                reveal_strlit("and");
                reveal_strlit("or");
                reveal_strlit("not");
            }
            let is_and = operator_is(&p[0], "and");
            let is_or = operator_is(&p[0], "or");
            let is_not = operator_is(&p[0], "not");
            assert("and"@ == seq!['a', 'n', 'd']);
            assert("or"@ == seq!['o', 'r']);
            assert("not"@ == seq!['n', 'o', 't']);
            if is_and || is_or {
                if nested.len() != 2 {
                    return Err(MetaError::OperandCount);
                }
                assert(decreases_to!(*m => nested@[0]));
                assert(decreases_to!(*m => nested@[1]));
                let x = match parse(&nested[0]) {
                    Ok(x) => x,
                    Err(e) => return Err(e),
                };
                let y = match parse(&nested[1]) {
                    Ok(y) => y,
                    Err(e) => return Err(e),
                };
                if is_and {
                    Ok(FeatureExpr::And(Box::new(x), Box::new(y)))
                } else {
                    Ok(FeatureExpr::Or(Box::new(x), Box::new(y)))
                }
            } else if is_not {
                if nested.len() != 1 {
                    return Err(MetaError::OperandCount);
                }
                assert(decreases_to!(*m => nested@[0]));
                match parse(&nested[0]) {
                    Ok(x) => Ok(FeatureExpr::Not(Box::new(x))),
                    Err(e) => Err(e),
                }
            } else {
                Err(MetaError::UnknownOperator)
            }
        },
    }
}

} // verus!
