use selector_match::{matches_attr_selector, AttrSelector, AttrSelectorOp, Dom, ElemType};

fn s(x: &str) -> String {
    x.to_string()
}

fn one_node(attrs: Vec<(String, Option<String>)>) -> (Dom, usize) {
    let mut dom = Dom::new();
    let n = dom.add_node(ElemType::A, None, vec![], attrs, None);
    (dom, n)
}

#[test]
fn test_matches_attr_selector_no_op_val() {
    let mut dom = Dom::new();
    let n = dom.add_node(
        ElemType::A,
        Some(s("id1")),
        vec![],
        vec![(s("id"), Some(s("id1")))],
        None,
    );
    let selector = AttrSelector::new(s("id"), None, false);
    assert!(matches_attr_selector(&dom, n, &selector));
}

#[test]
fn test_matches_attr_selector_no_op_val_fail() {
    let mut dom = Dom::new();
    let n = dom.add_node(
        ElemType::A,
        Some(s("id1")),
        vec![],
        vec![(s("id"), Some(s("id1")))],
        None,
    );
    let selector = AttrSelector::new(s("attr"), None, false);
    assert!(!matches_attr_selector(&dom, n, &selector));
}

#[test]
fn test_matches_attr_selector_exactly() {
    let mut dom = Dom::new();
    let n = dom.add_node(
        ElemType::A,
        Some(s("id1")),
        vec![],
        vec![(s("id"), Some(s("id1")))],
        None,
    );
    let selector = AttrSelector::new(s("id"), Some((AttrSelectorOp::Exactly, s("id1"))), false);
    assert!(matches_attr_selector(&dom, n, &selector));
}

#[test]
fn test_matches_attr_selector_exactly_fail() {
    let mut dom = Dom::new();
    let n = dom.add_node(
        ElemType::A,
        Some(s("id1")),
        vec![],
        vec![(s("id"), Some(s("id1")))],
        None,
    );
    let selector = AttrSelector::new(s("id"), Some((AttrSelectorOp::Exactly, s("Id1"))), false);
    assert!(!matches_attr_selector(&dom, n, &selector));
}

#[test]
fn test_matches_attr_selector_exactly_case_insensitive() {
    let mut dom = Dom::new();
    let n = dom.add_node(
        ElemType::A,
        Some(s("id1")),
        vec![],
        vec![(s("id"), Some(s("iD1")))],
        None,
    );
    let selector = AttrSelector::new(s("id"), Some((AttrSelectorOp::Exactly, s("Id1"))), true);
    assert!(matches_attr_selector(&dom, n, &selector));
}

#[test]
fn test_matches_attr_selector_exactly_one() {
    let (dom, n) = one_node(vec![(s("attr"), Some(s("val1 val2 val3")))]);
    let selector = AttrSelector::new(s("attr"), Some((AttrSelectorOp::ExactlyOne, s("val2"))), false);
    assert!(matches_attr_selector(&dom, n, &selector));
}

#[test]
fn test_matches_attr_selector_exactly_one_fail() {
    let (dom, n) = one_node(vec![(s("attr"), Some(s("val1 val2 val3")))]);
    let selector = AttrSelector::new(s("attr"), Some((AttrSelectorOp::ExactlyOne, s("val"))), false);
    assert!(!matches_attr_selector(&dom, n, &selector));
}

#[test]
fn test_matches_attr_selector_exactly_one_case_insensitive() {
    let (dom, n) = one_node(vec![(s("attr"), Some(s("vaL1 vAl2 Val3")))]);
    let selector = AttrSelector::new(s("attr"), Some((AttrSelectorOp::ExactlyOne, s("VaL2"))), true);
    assert!(matches_attr_selector(&dom, n, &selector));
}

#[test]
fn test_matches_attr_selector_exactly_or_hyphen1() {
    let (dom, n) = one_node(vec![(s("attr"), Some(s("val-1")))]);
    let selector = AttrSelector::new(
        s("attr"),
        Some((AttrSelectorOp::ExactlyOrHyphen, s("val"))),
        false,
    );
    assert!(matches_attr_selector(&dom, n, &selector));
}

#[test]
fn test_matches_attr_selector_exactly_or_hyphen2() {
    let (dom, n) = one_node(vec![(s("attr"), Some(s("val-1")))]);
    let selector = AttrSelector::new(
        s("attr"),
        Some((AttrSelectorOp::ExactlyOrHyphen, s("val-1"))),
        false,
    );
    assert!(matches_attr_selector(&dom, n, &selector));
}

#[test]
fn test_matches_attr_selector_exactly_or_hyphen_fail() {
    let (dom, n) = one_node(vec![(s("attr"), Some(s("val-1")))]);
    let selector = AttrSelector::new(
        s("attr"),
        Some((AttrSelectorOp::ExactlyOrHyphen, s("val1"))),
        false,
    );
    assert!(!matches_attr_selector(&dom, n, &selector));
}

#[test]
fn test_matches_attr_selector_prefixed() {
    let (dom, n) = one_node(vec![(s("attr"), Some(s("val1")))]);
    let selector = AttrSelector::new(s("attr"), Some((AttrSelectorOp::Prefixed, s("va"))), false);
    assert!(matches_attr_selector(&dom, n, &selector));
}

#[test]
fn test_matches_attr_selector_prefixed_fail() {
    let (dom, n) = one_node(vec![(s("attr"), Some(s("val1")))]);
    let selector = AttrSelector::new(s("attr"), Some((AttrSelectorOp::Prefixed, s("al"))), false);
    assert!(!matches_attr_selector(&dom, n, &selector));
}

#[test]
fn test_matches_attr_selector_prefixed_case_insensitive() {
    let (dom, n) = one_node(vec![(s("attr"), Some(s("vAl1")))]);
    let selector = AttrSelector::new(s("attr"), Some((AttrSelectorOp::Prefixed, s("VaL"))), true);
    assert!(matches_attr_selector(&dom, n, &selector));
}

#[test]
fn test_matches_attr_selector_suffixed() {
    let (dom, n) = one_node(vec![(s("attr"), Some(s("val1")))]);
    let selector = AttrSelector::new(s("attr"), Some((AttrSelectorOp::Suffixed, s("l1"))), false);
    assert!(matches_attr_selector(&dom, n, &selector));
}

#[test]
fn test_matches_attr_selector_suffixed_fail() {
    let (dom, n) = one_node(vec![(s("attr"), Some(s("val1")))]);
    let selector = AttrSelector::new(s("attr"), Some((AttrSelectorOp::Suffixed, s("al"))), false);
    assert!(!matches_attr_selector(&dom, n, &selector));
}

#[test]
fn test_matches_attr_selector_suffixed_case_insensitive() {
    let (dom, n) = one_node(vec![(s("attr"), Some(s("vAl1")))]);
    let selector = AttrSelector::new(s("attr"), Some((AttrSelectorOp::Suffixed, s("aL1"))), true);
    assert!(matches_attr_selector(&dom, n, &selector));
}

#[test]
fn test_matches_attr_selector_contains_at_least_one() {
    let (dom, n) = one_node(vec![(s("attr"), Some(s("http://www.example.com")))]);
    let selector = AttrSelector::new(
        s("attr"),
        Some((AttrSelectorOp::ContainsAtLeastOne, s("example"))),
        false,
    );
    assert!(matches_attr_selector(&dom, n, &selector));
}

#[test]
fn test_matches_attr_selector_contains_at_least_one_fail() {
    let (dom, n) = one_node(vec![(s("attr"), Some(s("http://www.example.com")))]);
    let selector = AttrSelector::new(
        s("attr"),
        Some((AttrSelectorOp::ContainsAtLeastOne, s("notexample"))),
        false,
    );
    assert!(!matches_attr_selector(&dom, n, &selector));
}

#[test]
fn test_matches_attr_selector_contains_at_least_one_case_insensitive() {
    let (dom, n) = one_node(vec![(s("attr"), Some(s("http://www.ExAmplE.com")))]);
    let selector = AttrSelector::new(
        s("attr"),
        Some((AttrSelectorOp::ContainsAtLeastOne, s("exAMpLe.Com"))),
        true,
    );
    assert!(matches_attr_selector(&dom, n, &selector));
}

#[test]
fn test_presence_only_with_empty_value_slot() {
    let (dom, n) = one_node(vec![(s("disabled"), None)]);
    let selector = AttrSelector::new(s("disabled"), None, false);
    assert!(matches_attr_selector(&dom, n, &selector));
}

#[test]
fn test_operator_needs_value_in_slot() {
    let (dom, n) = one_node(vec![(s("disabled"), None)]);
    let selector = AttrSelector::new(
        s("disabled"),
        Some((AttrSelectorOp::Exactly, s("disabled"))),
        false,
    );
    assert!(!matches_attr_selector(&dom, n, &selector));
}

#[test]
fn test_operator_on_absent_key() {
    let (dom, n) = one_node(vec![(s("attr"), Some(s("val")))]);
    let selector = AttrSelector::new(s("other"), Some((AttrSelectorOp::Exactly, s("val"))), false);
    assert!(!matches_attr_selector(&dom, n, &selector));
}

#[test]
fn test_exactly_one_no_partial_word_across_spaces() {
    let (dom, n) = one_node(vec![(s("attr"), Some(s("val1 val2")))]);
    let selector = AttrSelector::new(
        s("attr"),
        Some((AttrSelectorOp::ExactlyOne, s("val1 val2"))),
        false,
    );
    assert!(!matches_attr_selector(&dom, n, &selector));
}
