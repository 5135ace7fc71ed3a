//! The document tree the matchers read: an arena of nodes addressed by
//! stable indices, with parent/child relations stored as index pairs.
//! A node owns its position in the arena; its parent link is a plain
//! index, so sibling position is computed by scanning the parent's
//! ordered children.

use vstd::prelude::*;

verus! {

/// The tag identity of an element.
#[derive(Clone, Copy, Debug, PartialEq, Eq, Structural)]
pub enum ElemType {
    A,
    Body,
    Button,
    Div,
    H1,
    Html,
    Img,
    Input,
    P,
    Span,
}

/// One node of the tree.  `classes` is read as a set: order and
/// duplicates do not affect matching.  `attrs` maps attribute names to
/// an optional value: an attribute may be present with no value (a
/// boolean-style attribute), which is distinct from being absent.  `parent` and
/// `children` are arena indices; `children` is ordered, and that order
/// defines sibling position.
pub struct DomNode {
    pub elem_type: ElemType,
    pub id: Option<String>,
    pub classes: Vec<String>,
    pub attrs: Vec<(String, Option<String>)>,
    pub parent: Option<usize>,
    pub children: Vec<usize>,
}

/// The arena holding a document tree.
pub struct Dom {
    pub nodes: Vec<DomNode>,
}

impl Dom {
    /// Structural consistency of node `i`: its parent exists and lists
    /// `i` among its children, and its own children are in bounds.
    pub open spec fn node_wf(&self, i: int) -> bool {
        &&& match self.nodes@[i].parent {
            Some(p) => p < self.nodes@.len() && self.nodes@[p as int].children@.contains(
                i as usize,
            ),
            None => true,
        }
        &&& forall|c: int|
            0 <= c < self.nodes@[i].children@.len() ==> (#[trigger] self.nodes@[i].children@[c])
                < self.nodes@.len()
    }

    /// Structural consistency of the whole arena.
    pub open spec fn wf(&self) -> bool {
        forall|i: int| 0 <= i < self.nodes@.len() ==> #[trigger] self.node_wf(i)
    }

    /// The 1-based sibling position of node `i`: its first occurrence
    /// in its parent's children, or 1 for a parentless node.
    pub open spec fn child_index_of(&self, i: int) -> int {
        match self.nodes@[i].parent {
            Some(p) => self.nodes@[p as int].children@.index_of_first(i as usize).unwrap() + 1,
            None => 1,
        }
    }

    /// How many siblings node `i` has, itself included; a parentless
    /// node counts as the only member of a singleton list.
    pub open spec fn sibling_count(&self, i: int) -> int {
        match self.nodes@[i].parent {
            Some(p) => self.nodes@[p as int].children@.len() as int,
            None => 1,
        }
    }

    /// An empty arena.
    pub fn new() -> (d: Dom)
        ensures
            d.nodes@.len() == 0,
            d.wf(),
    {
        Dom { nodes: Vec::new() }
    }

    /// Appends a node and returns its index.  With `parent` given, the
    /// new node becomes that node's last child.
    pub fn add_node(
        &mut self,
        elem_type: ElemType,
        id: Option<String>,
        classes: Vec<String>,
        attrs: Vec<(String, Option<String>)>,
        parent: Option<usize>,
    ) -> (idx: usize)
        requires
            old(self).wf(),
            match parent {
                Some(p) => p < old(self).nodes@.len(),
                None => true,
            },
        ensures
            final(self).wf(),
            idx == old(self).nodes@.len(),
            final(self).nodes@.len() == old(self).nodes@.len() + 1,
            final(self).nodes@[idx as int].elem_type == elem_type,
            final(self).nodes@[idx as int].id == id,
            final(self).nodes@[idx as int].classes == classes,
            final(self).nodes@[idx as int].attrs == attrs,
            final(self).nodes@[idx as int].parent == parent,
            final(self).nodes@[idx as int].children@.len() == 0,
            match parent {
                Some(p) => {
                    &&& final(self).nodes@[p as int].children@ == old(self).nodes@[p as int].children@.push(
                        idx,
                    )
                    &&& final(self).nodes@[p as int].elem_type == old(self).nodes@[p as int].elem_type
                    &&& final(self).nodes@[p as int].id == old(self).nodes@[p as int].id
                    &&& final(self).nodes@[p as int].classes == old(self).nodes@[p as int].classes
                    &&& final(self).nodes@[p as int].attrs == old(self).nodes@[p as int].attrs
                    &&& final(self).nodes@[p as int].parent == old(self).nodes@[p as int].parent
                    &&& forall|i: int|
                        0 <= i < old(self).nodes@.len() && i != p ==> final(self).nodes@[i] == old(
                            self,
                        ).nodes@[i]
                },
                None => forall|i: int|
                    0 <= i < old(self).nodes@.len() ==> final(self).nodes@[i] == old(self).nodes@[i],
            },
    {
        let idx: usize = self.nodes.len();
        let node = DomNode { elem_type, id, classes, attrs, parent, children: Vec::new() };
        self.nodes.push(node);
        if let Some(p) = parent {
            self.nodes[p].children.push(idx);
        }
        proof {
            assert forall|i: int| 0 <= i < self.nodes@.len() implies #[trigger] self.node_wf(
                i,
            ) by {
                if i < old(self).nodes@.len() {
                    assert(old(self).node_wf(i));
                    assert(self.nodes@[i].parent == old(self).nodes@[i].parent);
                    let ch = self.nodes@[i].children@;
                    let och = old(self).nodes@[i].children@;
                    if parent == Some(i as usize) {
                        assert(ch == och.push(idx));
                        assert forall|c: int| 0 <= c < ch.len() implies (#[trigger] ch[c])
                            < self.nodes@.len() by {
                            if c < och.len() {
                                assert(ch[c] == och[c]);
                            } else {
                                assert(ch[c] == idx);
                            }
                        }
                    } else {
                        assert(self.nodes@[i] == old(self).nodes@[i]);
                    }
                    if old(self).nodes@[i].parent is Some {
                        let q = old(self).nodes@[i].parent.unwrap();
                        let oqch = old(self).nodes@[q as int].children@;
                        if parent == Some(q) {
                            assert(self.nodes@[q as int].children@ == oqch.push(idx));
                            let w = choose|w: int| 0 <= w < oqch.len() && oqch[w] == i as usize;
                            assert(self.nodes@[q as int].children@[w] == i as usize);
                            assert(self.nodes@[q as int].children@.contains(i as usize));
                        } else {
                            assert(self.nodes@[q as int] == old(self).nodes@[q as int]);
                        }
                    }
                } else {
                    assert(self.nodes@[i].parent == parent);
                    if let Some(p) = parent {
                        let ch = self.nodes@[p as int].children@;
                        assert(ch[ch.len() - 1] == idx);
                        assert(ch.contains(idx));
                    }
                }
            }
        }
        idx
    }
}

/// The 1-based sibling position of `node`: the index of its first
/// occurrence in its parent's children, or 1 when it has no parent.
pub fn child_index(dom: &Dom, node: usize) -> (r: usize)
    requires
        dom.wf(),
        node < dom.nodes@.len(),
    ensures
        r == dom.child_index_of(node as int),
        1 <= r,
        r <= dom.sibling_count(node as int),
{
    let p_opt: Option<usize> = dom.nodes[node].parent;
    match p_opt {
        None => 1,
        Some(p) => {
            proof {
                assert(dom.node_wf(node as int));
            }
            let children: &Vec<usize> = &dom.nodes[p].children;
            let n: usize = children.len();
            let mut j: usize = 0;
            while j < n
                invariant
                    dom.wf(),
                    node < dom.nodes@.len(),
                    dom.nodes@[node as int].parent == Some(p),
                    p < dom.nodes@.len(),
                    children@ == dom.nodes@[p as int].children@,
                    n == children@.len(),
                    j <= n,
                    children@.contains(node),
                    forall|k: int| 0 <= k < j ==> children@[k] != node,
                decreases n - j,
            {
                if children[j] == node {
                    proof {
                        children@.index_of_first_ensures(node);
                        let f = children@.index_of_first(node).unwrap();
                        assert(children@[f] == node);
                        assert(f >= j);
                        assert(f <= j);
                    }
                    return j + 1;
                }
                j = j + 1;
            }
            proof {
                let w = choose|w: int| 0 <= w < children@.len() && children@[w] == node;
                assert(children@[w] != node);
            }
            1
        },
    }
}

} // verus!
