//! The matching predicate: does one node satisfy one selector?  The
//! dispatcher `matches` routes to the simple, attribute, and
//! pseudo-class matchers; unsupported selector shapes surface as
//! `MatchError::UnsupportedSelector`, never as a silent boolean.

use vstd::prelude::*;
use crate::chars::{
    chars_eq, chars_of, contains_seq, contains_sub, has_prefix, has_suffix, has_word,
    has_word_exec, has_word_or_hyphen, has_word_or_hyphen_exec, is_prefix_of, is_suffix_of, lower,
    lower_vec,
};
use crate::dom::{child_index, Dom, DomNode};
use crate::nth::nth_accepts;
use crate::selector::{
    AttrSelector, AttrSelectorOp, MatchError, PseudoClassSelector, Selector, SimpleSelector,
};

verus! {

/// First-match lookup of `key` among the attribute entries: `None` when
/// the key is absent, otherwise the entry's (optional) value.
pub open spec fn lookup_attr(attrs: Seq<(String, Option<String>)>, key: Seq<char>) -> Option<
    Option<Seq<char>>,
>
    decreases attrs.len(),
{
    if attrs.len() == 0 {
        None
    } else if attrs[0].0@ == key {
        Some(
            match attrs[0].1 {
                Some(v) => Some(v@),
                None => None,
            },
        )
    } else {
        lookup_attr(attrs.drop_first(), key)
    }
}

/// The class name `c` occurs in the list.
pub open spec fn class_listed(classes: Seq<String>, c: Seq<char>) -> bool {
    exists|i: int| 0 <= i < classes.len() && (#[trigger] classes[i])@ == c
}

/// Every class of `sub` occurs in `sup`.
pub open spec fn classes_subset(sub: Seq<String>, sup: Seq<String>) -> bool {
    forall|i: int| 0 <= i < sub.len() ==> #[trigger] class_listed(sup, sub[i]@)
}

/// What a simple selector asks of a node: each field that is set must
/// hold, the checks are conjunctive, and an empty selector matches
/// every node whether or not it is marked universal.
pub open spec fn simple_matches(node: DomNode, sel: SimpleSelector) -> bool {
    &&& match sel.elem_type {
        Some(t) => node.elem_type == t,
        None => true,
    }
    &&& match sel.id {
        Some(sid) => match node.id {
            Some(nid) => nid@ == sid@,
            None => false,
        },
        None => true,
    }
    &&& classes_subset(sel.classes@, node.classes@)
}

/// Case folding applied exactly when the selector is case-insensitive.
pub open spec fn fold_ci(ci: bool, s: Seq<char>) -> Seq<char> {
    if ci {
        lower(s)
    } else {
        s
    }
}

/// One attribute comparison operator evaluated on the (already folded)
/// attribute value and selector value.
pub open spec fn op_matches(op: AttrSelectorOp, value: Seq<char>, v: Seq<char>) -> bool {
    match op {
        AttrSelectorOp::Exactly => value == v,
        AttrSelectorOp::ExactlyOne => has_word(value, v),
        AttrSelectorOp::ExactlyOrHyphen => has_word_or_hyphen(value, v),
        AttrSelectorOp::Prefixed => is_prefix_of(v, value),
        AttrSelectorOp::Suffixed => is_suffix_of(v, value),
        AttrSelectorOp::ContainsAtLeastOne => contains_seq(value, v),
    }
}

/// What an attribute selector asks of a node: the key must be present;
/// a bare-presence selector asks nothing more, while an operator needs
/// a value in the slot and compares it, case-folded on both sides when
/// the selector says so.
pub open spec fn attr_matches(node: DomNode, sel: AttrSelector) -> bool {
    match lookup_attr(node.attrs@, sel.attr@) {
        None => false,
        Some(slot) => match sel.op_val {
            None => true,
            Some(ov) => match slot {
                None => false,
                Some(value) => op_matches(
                    ov.0,
                    fold_ci(sel.case_insensitive, value),
                    fold_ci(sel.case_insensitive, ov.1@),
                ),
            },
        },
    }
}

/// The selector shapes this core implements.
pub open spec fn supported(sel: Selector) -> bool
    decreases sel,
{
    match sel {
        Selector::Simple(_) => true,
        Selector::Attr(_) => true,
        Selector::PseudoClass(p) => supported_pseudo(p),
        _ => false,
    }
}

/// The pseudo-class shapes this core implements; `:matches` and `:not`
/// are supported exactly when their operand is.
pub open spec fn supported_pseudo(sel: PseudoClassSelector) -> bool
    decreases sel,
{
    match sel {
        PseudoClassSelector::Matches(inner) => supported(*inner),
        PseudoClassSelector::Not(inner) => supported(*inner),
        PseudoClassSelector::FirstChild => true,
        PseudoClassSelector::LastChild => true,
        PseudoClassSelector::NthChild(_) => true,
        _ => false,
    }
}

/// Whether node `node` of `dom` satisfies the selector.  Meaningful
/// only for supported selectors; the dispatcher never reports a
/// boolean for the rest.
pub open spec fn sel_matches(dom: Dom, node: int, sel: Selector) -> bool
    decreases sel,
{
    match sel {
        Selector::Simple(s) => simple_matches(dom.nodes@[node], s),
        Selector::Attr(s) => attr_matches(dom.nodes@[node], s),
        Selector::PseudoClass(p) => pseudo_matches(dom, node, p),
        _ => false,
    }
}

/// Whether node `node` of `dom` satisfies the pseudo-class.  Meaningful
/// only for supported pseudo-classes.
pub open spec fn pseudo_matches(dom: Dom, node: int, sel: PseudoClassSelector) -> bool
    decreases sel,
{
    match sel {
        PseudoClassSelector::Matches(inner) => sel_matches(dom, node, *inner),
        PseudoClassSelector::Not(inner) => !sel_matches(dom, node, *inner),
        PseudoClassSelector::FirstChild => dom.child_index_of(node) == 1,
        PseudoClassSelector::LastChild => dom.child_index_of(node) == dom.sibling_count(node),
        PseudoClassSelector::NthChild(e) => nth_accepts(e, dom.child_index_of(node)),
        _ => false,
    }
}

/// The class name `c` occurs in `classes`.
fn class_listed_exec(classes: &Vec<String>, c: &String) -> (r: bool)
    ensures
        r == class_listed(classes@, c@),
{
    let n: usize = classes.len();
    let mut j: usize = 0;
    while j < n
        invariant
            n == classes@.len(),
            j <= n,
            forall|k: int| 0 <= k < j ==> (#[trigger] classes@[k])@ != c@,
        decreases n - j,
    {
        if classes[j] == *c {
            return true;
        }
        j = j + 1;
    }
    false
}

/// Every class of `sub` occurs in `sup`.
fn classes_subset_exec(sub: &Vec<String>, sup: &Vec<String>) -> (r: bool)
    ensures
        r == classes_subset(sub@, sup@),
{
    let m: usize = sub.len();
    let mut i: usize = 0;
    while i < m
        invariant
            m == sub@.len(),
            i <= m,
            forall|k: int| 0 <= k < i ==> #[trigger] class_listed(sup@, sub@[k]@),
        decreases m - i,
    {
        if !class_listed_exec(sup, &sub[i]) {
            return false;
        }
        i = i + 1;
    }
    true
}

/// Checks the tag, id, and class constraints of a simple selector
/// against one node.
pub fn matches_simple_selector(dom: &Dom, node: usize, sel: &SimpleSelector) -> (r: bool)
    requires
        node < dom.nodes@.len(),
    ensures
        r == simple_matches(dom.nodes@[node as int], *sel),
{
    let nd: &DomNode = &dom.nodes[node];
    if let Some(t) = sel.elem_type {
        if !(t == nd.elem_type) {
            return false;
        }
    }
    match (&sel.id, &nd.id) {
        (Some(sid), Some(nid)) => {
            if !(*sid == *nid) {
                return false;
            }
        },
        (Some(_), None) => {
            return false;
        },
        _ => {},
    }
    classes_subset_exec(&sel.classes, &nd.classes)
}

/// The index of the entry whose key is `key`, if the key is present.
fn find_attr(attrs: &Vec<(String, Option<String>)>, key: &String) -> (r: Option<usize>)
    ensures
        match r {
            Some(i) => i < attrs@.len() && attrs@[i as int].0@ == key@ && lookup_attr(
                attrs@,
                key@,
            ) == Some(
                match attrs@[i as int].1 {
                    Some(v) => Some(v@),
                    None => None::<Seq<char>>,
                },
            ),
            None => lookup_attr(attrs@, key@) is None,
        },
{
    let n: usize = attrs.len();
    let mut i: usize = 0;
    proof {
        assert(attrs@.skip(0) =~= attrs@);
    }
    while i < n
        invariant
            n == attrs@.len(),
            i <= n,
            lookup_attr(attrs@.skip(i as int), key@) == lookup_attr(attrs@, key@),
        decreases n - i,
    {
        if attrs[i].0 == *key {
            proof {
                assert(attrs@.skip(i as int)[0] == attrs@[i as int]);
            }
            return Some(i);
        }
        i = i + 1;
        proof {
            assert(attrs@.skip(i as int - 1).drop_first() =~= attrs@.skip(i as int));
            assert(attrs@.skip(i as int - 1)[0] == attrs@[i as int - 1]);
        }
    }
    proof {
        assert(attrs@.skip(n as int) =~= Seq::<(String, Option<String>)>::empty());
    }
    None
}

/// Checks an attribute selector against one node: presence of the key,
/// and the operator comparison when the selector carries one.
pub fn matches_attr_selector(dom: &Dom, node: usize, sel: &AttrSelector) -> (r: bool)
    requires
        node < dom.nodes@.len(),
    ensures
        r == attr_matches(dom.nodes@[node as int], *sel),
{
    let nd: &DomNode = &dom.nodes[node];
    let found = find_attr(&nd.attrs, &sel.attr);
    match found {
        None => false,
        Some(i) => match &sel.op_val {
            None => true,
            Some(ov) => match &nd.attrs[i].1 {
                None => false,
                Some(value) => {
                    let mut value_c = chars_of(value.as_str());
                    let mut val_c = chars_of(ov.1.as_str());
                    if sel.case_insensitive {
                        value_c = lower_vec(&value_c);
                        val_c = lower_vec(&val_c);
                    }
                    proof {
                        assert(value_c@ == fold_ci(sel.case_insensitive, value@));
                        assert(val_c@ == fold_ci(sel.case_insensitive, ov.1@));
                    }
                    match ov.0 {
                        AttrSelectorOp::Exactly => chars_eq(&value_c, &val_c),
                        AttrSelectorOp::ExactlyOne => has_word_exec(&value_c, &val_c),
                        AttrSelectorOp::ExactlyOrHyphen => has_word_or_hyphen_exec(
                            &value_c,
                            &val_c,
                        ),
                        AttrSelectorOp::Prefixed => has_prefix(&value_c, &val_c),
                        AttrSelectorOp::Suffixed => has_suffix(&value_c, &val_c),
                        AttrSelectorOp::ContainsAtLeastOne => contains_sub(&value_c, &val_c),
                    }
                },
            },
        },
    }
}

/// Evaluates a pseudo-class selector on one node, recursing through
/// the dispatcher for `:matches` and `:not`; negation of an
/// unsupported operand stays unsupported.
pub fn matches_pseudo_class_selector(dom: &Dom, node: usize, sel: &PseudoClassSelector) -> (r:
    Result<bool, MatchError>)
    requires
        dom.wf(),
        node < dom.nodes@.len(),
    ensures
        supported_pseudo(*sel) ==> r == Ok::<bool, MatchError>(
            pseudo_matches(*dom, node as int, *sel),
        ),
        !supported_pseudo(*sel) ==> r == Err::<bool, MatchError>(MatchError::UnsupportedSelector),
    decreases *sel,
{
    match sel {
        PseudoClassSelector::Matches(inner) => matches(dom, node, &**inner),
        PseudoClassSelector::Not(inner) => match matches(dom, node, &**inner) {
            Ok(b) => Ok(!b),
            Err(e) => Err(e),
        },
        PseudoClassSelector::FirstChild => Ok(child_index(dom, node) == 1),
        PseudoClassSelector::LastChild => {
            let ci = child_index(dom, node);
            let p_opt: Option<usize> = dom.nodes[node].parent;
            match p_opt {
                None => Ok(ci == 1),
                Some(p) => {
                    proof {
                        assert(dom.node_wf(node as int));
                    }
                    Ok(ci == dom.nodes[p].children.len())
                },
            }
        },
        PseudoClassSelector::NthChild(e) => {
            let ci = child_index(dom, node);
            Ok(e.matches(ci))
        },
        _ => Err(MatchError::UnsupportedSelector),
    }
}

/// The single entry point: routes the selector to the matcher for its
/// shape, and reports `UnsupportedSelector` for combinator, group, and
/// unimplemented pseudo-class forms rather than a boolean.
pub fn matches(dom: &Dom, node: usize, selector: &Selector) -> (r: Result<bool, MatchError>)
    requires
        dom.wf(),
        node < dom.nodes@.len(),
    ensures
        supported(*selector) ==> r == Ok::<bool, MatchError>(
            sel_matches(*dom, node as int, *selector),
        ),
        !supported(*selector) ==> r == Err::<bool, MatchError>(
            MatchError::UnsupportedSelector,
        ),
    decreases *selector,
{
    match selector {
        Selector::Simple(s) => Ok(matches_simple_selector(dom, node, s)),
        Selector::Attr(s) => Ok(matches_attr_selector(dom, node, s)),
        Selector::PseudoClass(p) => matches_pseudo_class_selector(dom, node, p),
        Selector::Combined(_, _, _) => Err(MatchError::UnsupportedSelector),
        Selector::Group(_) => Err(MatchError::UnsupportedSelector),
    }
}

/// A simple selector with no tag, no id, and no classes constrains
/// nothing: it matches every node, whether or not it is marked
/// universal.
pub proof fn lemma_empty_simple_matches_all(node: DomNode, sel: SimpleSelector)
    requires
        sel.elem_type is None,
        sel.id is None,
        sel.classes@.len() == 0,
    ensures
        simple_matches(node, sel),
{
}

/// With only classes set, a simple selector matches a node exactly
/// when its class set is a subset of the node's class set.
pub proof fn lemma_classes_decide(node: DomNode, sel: SimpleSelector)
    requires
        sel.elem_type is None,
        sel.id is None,
    ensures
        simple_matches(node, sel) <==> classes_subset(sel.classes@, node.classes@),
{
}

/// The attribute lookup succeeds exactly when the key occurs among the
/// entries.
pub proof fn lemma_lookup_attr_some(attrs: Seq<(String, Option<String>)>, key: Seq<char>)
    ensures
        lookup_attr(attrs, key) is Some <==> exists|i: int|
            0 <= i < attrs.len() && (#[trigger] attrs[i]).0@ == key,
    decreases attrs.len(),
{
    if attrs.len() > 0 && attrs[0].0@ != key {
        lemma_lookup_attr_some(attrs.drop_first(), key);
        if lookup_attr(attrs, key) is Some {
            let i = choose|i: int|
                0 <= i < attrs.drop_first().len() && (#[trigger] attrs.drop_first()[i]).0@ == key;
            assert(attrs[i + 1].0@ == key);
        }
        if exists|i: int| 0 <= i < attrs.len() && (#[trigger] attrs[i]).0@ == key {
            let i = choose|i: int| 0 <= i < attrs.len() && (#[trigger] attrs[i]).0@ == key;
            assert(attrs.drop_first()[i - 1].0@ == key);
        }
    }
}

/// A presence-only attribute selector is decided by key membership
/// alone: it matches exactly when its key occurs in the node's
/// attribute map, whatever the value slot holds.
pub proof fn lemma_presence_only(node: DomNode, sel: AttrSelector)
    requires
        sel.op_val is None,
    ensures
        attr_matches(node, sel) <==> exists|i: int|
            0 <= i < node.attrs@.len() && (#[trigger] node.attrs@[i]).0@ == sel.attr@,
{
    lemma_lookup_attr_some(node.attrs@, sel.attr@);
}

/// The `Prefixed`, `Suffixed`, and `ContainsAtLeastOne` operators are
/// plain prefix, suffix, and substring tests on the whole attribute
/// value, each applied to the case-folded sides exactly when the
/// selector is case-insensitive.
pub proof fn lemma_substring_ops(node: DomNode, sel: AttrSelector, op: AttrSelectorOp, v: String)
    requires
        sel.op_val == Some((op, v)),
        lookup_attr(node.attrs@, sel.attr@) matches Some(Some(_)),
    ensures
        ({
            let value = lookup_attr(node.attrs@, sel.attr@).unwrap().unwrap();
            let fv = fold_ci(sel.case_insensitive, value);
            let fx = fold_ci(sel.case_insensitive, v@);
            &&& op == AttrSelectorOp::Prefixed ==> (attr_matches(node, sel) <==> is_prefix_of(
                fx,
                fv,
            ))
            &&& op == AttrSelectorOp::Suffixed ==> (attr_matches(node, sel) <==> is_suffix_of(
                fx,
                fv,
            ))
            &&& op == AttrSelectorOp::ContainsAtLeastOne ==> (attr_matches(node, sel)
                <==> contains_seq(fv, fx))
        }),
{
}

/// A parentless node has child index 1 and satisfies both
/// `:first-child` and `:last-child`, as the only member of a singleton
/// sibling list.
pub proof fn lemma_parentless_first_and_last(dom: Dom, node: int)
    requires
        0 <= node < dom.nodes@.len(),
        dom.nodes@[node].parent is None,
    ensures
        dom.child_index_of(node) == 1,
        pseudo_matches(dom, node, PseudoClassSelector::FirstChild),
        pseudo_matches(dom, node, PseudoClassSelector::LastChild),
{
}

/// `:not` is the exact logical negation of its operand on every node,
/// and is supported exactly when the operand is, so negation of an
/// unsupported selector stays unsupported; `:matches` is the identity
/// on both counts.
pub proof fn lemma_not_matches_logic(dom: Dom, node: int, inner: Box<Selector>)
    ensures
        supported_pseudo(PseudoClassSelector::Not(inner)) == supported(*inner),
        supported_pseudo(PseudoClassSelector::Matches(inner)) == supported(*inner),
        pseudo_matches(dom, node, PseudoClassSelector::Not(inner)) == !sel_matches(
            dom,
            node,
            *inner,
        ),
        pseudo_matches(dom, node, PseudoClassSelector::Matches(inner)) == sel_matches(
            dom,
            node,
            *inner,
        ),
{
}

} // verus!
