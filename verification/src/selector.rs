//! The selector expressions the matchers evaluate.  The shapes beyond
//! simple, attribute, and the implemented pseudo-classes are carried so
//! that a caller can hand any selector to the dispatcher and receive an
//! explicit `UnsupportedSelector` outcome for the rest.

use vstd::prelude::*;
use crate::dom::ElemType;
use crate::nth::NthExpr;

verus! {

/// A selector on tag identity, id, and class membership.  Every field
/// that is set must hold of the node; `universal` adds no constraint of
/// its own, so an empty simple selector matches every node.
pub struct SimpleSelector {
    pub elem_type: Option<ElemType>,
    pub id: Option<String>,
    pub classes: Vec<String>,
    pub universal: bool,
}

impl SimpleSelector {
    pub fn new(
        elem_type: Option<ElemType>,
        id: Option<String>,
        classes: Vec<String>,
        universal: bool,
    ) -> (r: SimpleSelector)
        ensures
            r == (SimpleSelector { elem_type, id, classes, universal }),
    {
        SimpleSelector { elem_type, id, classes, universal }
    }
}

/// How an attribute selector compares the attribute's value with the
/// selector's value.
#[derive(Clone, Copy, Debug, PartialEq, Eq, Structural)]
pub enum AttrSelectorOp {
    /// String equality on the whole value.
    Exactly,
    /// Membership among the whitespace-delimited words of the value.
    ExactlyOne,
    /// Some word equals the value, or starts with the value and a hyphen.
    ExactlyOrHyphen,
    /// Prefix test on the whole value.
    Prefixed,
    /// Suffix test on the whole value.
    Suffixed,
    /// Substring test on the whole value.
    ContainsAtLeastOne,
}

/// A selector on one attribute: bare presence when `op_val` is absent,
/// otherwise a comparison of the attribute's value under the operator,
/// case-folded on both sides when `case_insensitive` is set.
pub struct AttrSelector {
    pub attr: String,
    pub op_val: Option<(AttrSelectorOp, String)>,
    pub case_insensitive: bool,
}

impl AttrSelector {
    pub fn new(attr: String, op_val: Option<(AttrSelectorOp, String)>, case_insensitive: bool) -> (r:
        AttrSelector)
        ensures
            r == (AttrSelector { attr, op_val, case_insensitive }),
    {
        AttrSelector { attr, op_val, case_insensitive }
    }
}

/// A pseudo-class selector.  The structural and logical variants up to
/// `NthChild` are implemented; the remaining variants are recognized
/// but unsupported.
pub enum PseudoClassSelector {
    Matches(Box<Selector>),
    Not(Box<Selector>),
    FirstChild,
    LastChild,
    NthChild(NthExpr),
    Hover,
    Link,
    Visited,
    NthLastChild(NthExpr),
    Lang(String),
}

/// How two compound selectors are joined; no combinator is implemented
/// by this core.
#[derive(Clone, Copy, Debug, PartialEq, Eq, Structural)]
pub enum Combinator {
    Descendant,
    Child,
    AdjacentSibling,
    GeneralSibling,
}

/// A selector expression.
pub enum Selector {
    Simple(SimpleSelector),
    Attr(AttrSelector),
    PseudoClass(PseudoClassSelector),
    Combined(Box<Selector>, Combinator, Box<Selector>),
    Group(Vec<Selector>),
}

/// The one failure a match can report: the selector is well-formed but
/// uses a shape this core does not implement.  It is distinct from a
/// `false` match and recoverable by the caller.
#[derive(Clone, Copy, Debug, PartialEq, Eq, Structural)]
pub enum MatchError {
    UnsupportedSelector,
}

} // verus!
