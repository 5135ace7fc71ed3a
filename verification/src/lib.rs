//! A verified matching core for CSS-like selectors.
//!
//! Given one node of a document tree and one selector expression, the
//! library decides whether the node satisfies the expression.  Simple
//! selectors (tag, id, classes), attribute selectors with six comparison
//! operators, and the structural and logical pseudo-classes
//! (`:first-child`, `:last-child`, `:nth-child`, `:matches`, `:not`) are
//! supported; combinator forms and the remaining pseudo-classes surface
//! as an explicit `UnsupportedSelector` outcome.

pub mod chars;
pub mod dom;
pub mod matcher;
pub mod nth;
pub mod selector;

pub use dom::{Dom, DomNode, ElemType};
pub use matcher::{matches_attr_selector, matches_pseudo_class_selector, matches_simple_selector};
pub use nth::{NthExpr, NthExprOp};
pub use selector::{
    AttrSelector, AttrSelectorOp, Combinator, MatchError, PseudoClassSelector, Selector,
    SimpleSelector,
};
