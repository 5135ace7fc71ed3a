use selector_match::{matches_simple_selector, Dom, ElemType, SimpleSelector};

fn s(x: &str) -> String {
    x.to_string()
}

#[test]
fn test_matches_simple_selector1() {
    let mut dom = Dom::new();
    let n = dom.add_node(ElemType::A, None, vec![], vec![], None);
    let selector = SimpleSelector::new(Some(ElemType::A), None, vec![], false);
    assert!(matches_simple_selector(&dom, n, &selector));
}

#[test]
fn test_matches_simple_selector_universal() {
    let mut dom = Dom::new();
    let n = dom.add_node(
        ElemType::A,
        Some(s("id")),
        vec![s("cl1")],
        vec![(s("id"), Some(s("id"))), (s("class"), Some(s("cl1")))],
        None,
    );
    let selector = SimpleSelector::new(None, None, vec![], true);
    assert!(matches_simple_selector(&dom, n, &selector));
}

#[test]
fn test_matches_simple_selector2() {
    let mut dom = Dom::new();
    let n = dom.add_node(
        ElemType::A,
        Some(s("id")),
        vec![],
        vec![(s("id"), Some(s("id")))],
        None,
    );
    let selector = SimpleSelector::new(None, Some(s("id")), vec![], false);
    assert!(matches_simple_selector(&dom, n, &selector));
}

#[test]
fn test_matches_simple_selector3() {
    let mut dom = Dom::new();
    let n = dom.add_node(ElemType::A, None, vec![s("cl1"), s("cl2")], vec![], None);
    let selector = SimpleSelector::new(None, None, vec![s("cl2")], false);
    assert!(matches_simple_selector(&dom, n, &selector));
}

#[test]
fn test_matches_simple_selector_fail1() {
    let mut dom = Dom::new();
    let n = dom.add_node(ElemType::A, Some(s("id")), vec![s("cl1")], vec![], None);
    let selector = SimpleSelector::new(
        Some(ElemType::P),
        Some(s("id")),
        vec![s("cl1"), s("cl2")],
        true,
    );
    assert!(!matches_simple_selector(&dom, n, &selector));
}

#[test]
fn test_matches_simple_selector_fail2() {
    let mut dom = Dom::new();
    let n = dom.add_node(ElemType::A, Some(s("id")), vec![], vec![], None);
    let selector = SimpleSelector::new(Some(ElemType::P), Some(s("id")), vec![], false);
    assert!(!matches_simple_selector(&dom, n, &selector));
}

#[test]
fn test_matches_simple_selector_fail3() {
    let mut dom = Dom::new();
    let n = dom.add_node(ElemType::A, Some(s("id1")), vec![], vec![], None);
    let selector = SimpleSelector::new(None, Some(s("id2")), vec![], false);
    assert!(!matches_simple_selector(&dom, n, &selector));
}

#[test]
fn test_empty_selector_matches_any_node() {
    let mut dom = Dom::new();
    let n = dom.add_node(ElemType::Div, Some(s("x")), vec![s("c")], vec![], None);
    let selector = SimpleSelector::new(None, None, vec![], false);
    assert!(matches_simple_selector(&dom, n, &selector));
}

#[test]
fn test_classes_subset_decides() {
    let mut dom = Dom::new();
    let n = dom.add_node(ElemType::A, None, vec![s("a"), s("b")], vec![], None);
    let yes = SimpleSelector::new(None, None, vec![s("b")], false);
    assert!(matches_simple_selector(&dom, n, &yes));
    let no = SimpleSelector::new(None, None, vec![s("c")], false);
    assert!(!matches_simple_selector(&dom, n, &no));
}

#[test]
fn test_selector_id_needs_node_id() {
    let mut dom = Dom::new();
    let n = dom.add_node(ElemType::A, None, vec![], vec![], None);
    let selector = SimpleSelector::new(None, Some(s("id1")), vec![], false);
    assert!(!matches_simple_selector(&dom, n, &selector));
}
