//! Flat, parent-indexed DOM snapshots and the document-order builder.

use vstd::prelude::*;

verus! {

/// One attribute of an element: a name and a value.
#[derive(Debug, Clone)]
pub struct Attribute {
    pub name: Vec<u8>,
    pub value: Vec<u8>,
}

/// One element of a parsed document tree, with its children.
#[derive(Debug)]
pub struct HtmlNode {
    pub tag: Vec<u8>,
    pub id: Vec<u8>,
    pub class: Vec<u8>,
    pub text: Vec<u8>,
    pub attrs: Vec<Attribute>,
    pub children: Vec<HtmlNode>,
}

/// Mathematical model of one element node and its subtree.
pub ghost struct NodeModel {
    pub tag: Seq<u8>,
    pub id: Seq<u8>,
    pub class: Seq<u8>,
    pub text: Seq<u8>,
    pub attrs: Seq<(Seq<u8>, Seq<u8>)>,
    pub children: Seq<NodeModel>,
}

pub open spec fn attr_model(a: Attribute) -> (Seq<u8>, Seq<u8>) {
    (a.name@, a.value@)
}

pub open spec fn node_model(n: HtmlNode) -> NodeModel
    decreases n,
{
    NodeModel {
        tag: n.tag@,
        id: n.id@,
        class: n.class@,
        text: n.text@,
        attrs: Seq::new(n.attrs@.len(), |i: int| attr_model(n.attrs@[i])),
        children: children_model(n.children@),
    }
}

pub open spec fn children_model(cs: Seq<HtmlNode>) -> Seq<NodeModel>
    decreases cs,
{
    if cs.len() == 0 {
        Seq::empty()
    } else {
        seq![node_model(cs[0])] + children_model(cs.subrange(1, cs.len() as int))
    }
}

impl View for HtmlNode {
    type V = NodeModel;

    open spec fn view(&self) -> NodeModel {
        node_model(*self)
    }
}

/// Mathematical model of one snapshot entry.
pub ghost struct ElemModel {
    pub tag: Seq<u8>,
    pub id: Seq<u8>,
    pub class: Seq<u8>,
    pub text: Seq<u8>,
    pub attrs: Seq<(Seq<u8>, Seq<u8>)>,
    pub parent: Option<int>,
}

/// One entry of a DOM snapshot, in document (pre-order) traversal order;
/// `parent` is the index of the parent entry in the same list.
#[derive(Debug)]
pub struct ElementSnapshot {
    pub tag: Vec<u8>,
    pub id: Vec<u8>,
    pub class: Vec<u8>,
    pub text: Vec<u8>,
    pub attributes: Vec<Attribute>,
    pub parent: Option<usize>,
}

impl View for ElementSnapshot {
    type V = ElemModel;

    open spec fn view(&self) -> ElemModel {
        ElemModel {
            tag: self.tag@,
            id: self.id@,
            class: self.class@,
            text: self.text@,
            attrs: Seq::new(self.attributes@.len(), |i: int| attr_model(self.attributes@[i])),
            parent: match self.parent {
                Some(p) => Some(p as int),
                None => None,
            },
        }
    }
}

/// The models of a list of snapshot entries.
pub open spec fn elems_model(s: Seq<ElementSnapshot>) -> Seq<ElemModel> {
    Seq::new(s.len(), |i: int| s[i]@)
}

/// An entry's parent index refers strictly backwards in the list.
pub open spec fn elem_wf_at(d: Seq<ElemModel>, i: int) -> bool {
    match d[i].parent {
        Some(p) => 0 <= p < i,
        None => true,
    }
}

/// Every parent index refers to an earlier entry.
pub open spec fn dom_wf(d: Seq<ElemModel>) -> bool {
    forall|i: int| 0 <= i < d.len() ==> elem_wf_at(d, i)
}

/// A full-document snapshot: elements in document order, parent-indexed.
#[derive(Debug)]
pub struct DomSnapshot {
    pub elements: Vec<ElementSnapshot>,
}

impl View for DomSnapshot {
    type V = Seq<ElemModel>;

    open spec fn view(&self) -> Seq<ElemModel> {
        elems_model(self.elements@)
    }
}

impl DomSnapshot {
    /// Parent indices refer strictly backwards.
    pub open spec fn wf(&self) -> bool {
        dom_wf(self@)
    }

    /// How many elements the snapshot holds.
    pub fn len(&self) -> (n: usize)
        ensures
            n == self@.len(),
    {
        self.elements.len()
    }
}

/// The snapshot entry for one node, placed under the given parent index.
pub open spec fn elem_of(n: NodeModel, parent: Option<int>) -> ElemModel {
    ElemModel { tag: n.tag, id: n.id, class: n.class, text: n.text, attrs: n.attrs, parent }
}

/// The snapshot entries of the subtree rooted at `n`, laid out in pre-order
/// starting at absolute index `at`.
pub open spec fn flat_node(n: NodeModel, parent: Option<int>, at: int) -> Seq<ElemModel>
    decreases n,
{
    seq![elem_of(n, parent)] + flat_children(n.children, at, at + 1)
}

/// The snapshot entries of a forest of siblings whose parent sits at index
/// `parent`, laid out in pre-order starting at absolute index `at`.
pub open spec fn flat_children(cs: Seq<NodeModel>, parent: int, at: int) -> Seq<ElemModel>
    decreases cs,
{
    if cs.len() == 0 {
        Seq::empty()
    } else {
        let head = flat_node(cs[0], Some(parent), at);
        head + flat_children(cs.subrange(1, cs.len() as int), parent, at + head.len())
    }
}

proof fn lemma_children_model_index(cs: Seq<HtmlNode>)
    ensures
        children_model(cs).len() == cs.len(),
        forall|i: int| 0 <= i < cs.len() ==> children_model(cs)[i] == node_model(cs[i]),
    decreases cs,
{
    if cs.len() > 0 {
        lemma_children_model_index(cs.subrange(1, cs.len() as int));
        assert(forall|i: int| 1 <= i < cs.len() ==> cs.subrange(1, cs.len() as int)[i - 1] == cs[i]);
    }
}

/// Appending one more sibling subtree extends the flattened forest at the end.
proof fn lemma_flat_children_snoc(cs: Seq<NodeModel>, parent: int, at: int, j: int)
    requires
        0 <= j < cs.len(),
    ensures
        flat_children(cs.subrange(0, j + 1), parent, at) == flat_children(
            cs.subrange(0, j),
            parent,
            at,
        ) + flat_node(
            cs[j],
            Some(parent),
            at + flat_children(cs.subrange(0, j), parent, at).len(),
        ),
    decreases j,
{
    if j == 0 {
        let one = cs.subrange(0, 1);
        assert(cs.subrange(0, 0) =~= Seq::<NodeModel>::empty());
        assert(one[0] == cs[0]);
        assert(one.subrange(1, 1) =~= Seq::<NodeModel>::empty());
        let head = flat_node(one[0], Some(parent), at);
        assert(flat_children(one, parent, at) == head + flat_children(
            one.subrange(1, 1),
            parent,
            at + head.len(),
        ));
        assert(head + Seq::<ElemModel>::empty() =~= head);
    } else {
        let tail = cs.subrange(1, cs.len() as int);
        let head = flat_node(cs[0], Some(parent), at);
        // Unfold both sides one step, then recurse on the tail.
        let a = cs.subrange(0, j + 1);
        let b = cs.subrange(0, j);
        assert(a[0] == cs[0] && b[0] == cs[0]);
        assert(a.subrange(1, a.len() as int) =~= tail.subrange(0, j));
        assert(b.subrange(1, b.len() as int) =~= tail.subrange(0, j - 1));
        lemma_flat_children_snoc(tail, parent, at + head.len(), j - 1);
        assert(tail[j - 1] == cs[j]);
        assert(flat_children(a, parent, at) == head + flat_children(
            tail.subrange(0, j),
            parent,
            at + head.len(),
        ));
        assert(flat_children(b, parent, at) == head + flat_children(
            tail.subrange(0, j - 1),
            parent,
            at + head.len(),
        ));
        assert(flat_children(cs.subrange(0, j + 1), parent, at) =~= flat_children(
            cs.subrange(0, j),
            parent,
            at,
        ) + flat_node(
            cs[j],
            Some(parent),
            at + flat_children(cs.subrange(0, j), parent, at).len(),
        ));
    }
}

/// Compare two byte strings for equality.
pub fn bytes_eq(a: &[u8], b: &[u8]) -> (r: bool)
    ensures
        r == (a@ == b@),
{
    let n = a.len();
    if n != b.len() {
        return false;
    }
    let mut i: usize = 0;
    while i < n
        invariant
            i <= n,
            n == a@.len() == b@.len(),
            forall|k: int| 0 <= k < i ==> a@[k] == b@[k],
        decreases n - i,
    {
        if a[i] != b[i] {
            return false;
        }
        i = i + 1;
    }
    proof {
        assert(a@ =~= b@);
    }
    true
}

/// Duplicate an attribute list value for value.
fn copy_attrs(attrs: &Vec<Attribute>) -> (r: Vec<Attribute>)
    ensures
        r@.len() == attrs@.len(),
        forall|i: int| 0 <= i < attrs@.len() ==> attr_model(#[trigger] r@[i]) == attr_model(
            attrs@[i],
        ),
{
    let mut r: Vec<Attribute> = Vec::new();
    let n = attrs.len();
    let mut i: usize = 0;
    while i < n
        invariant
            i <= n,
            n == attrs@.len(),
            r@.len() == i,
            forall|k: int| 0 <= k < i ==> attr_model(#[trigger] r@[k]) == attr_model(attrs@[k]),
        decreases n - i,
    {
        let name = attrs[i].name.clone();
        let value = attrs[i].value.clone();
        proof {
            assert(name@ =~= attrs@[i as int].name@);
            assert(value@ =~= attrs@[i as int].value@);
        }
        r.push(Attribute { name, value });
        i = i + 1;
    }
    r
}

/// Append the pre-order flattening of the subtree rooted at `n`.
fn push_subtree(out: &mut Vec<ElementSnapshot>, n: &HtmlNode, parent: Option<usize>)
    requires
        match parent {
            Some(p) => p < old(out)@.len(),
            None => true,
        },
    ensures
        elems_model(final(out)@) == elems_model(old(out)@) + flat_node(
            n@,
            match parent {
                Some(p) => Some(p as int),
                None => None,
            },
            old(out)@.len() as int,
        ),
        forall|k: int|
            old(out)@.len() <= k < final(out)@.len() ==> elem_wf_at(elems_model(final(out)@), k),
    decreases *n,
{
    let ghost pm: Option<int> = match parent {
        Some(p) => Some(p as int),
        None => None,
    };
    let at = out.len();
    let tag = n.tag.clone();
    let id = n.id.clone();
    let class = n.class.clone();
    let text = n.text.clone();
    proof {
        assert(tag@ =~= n.tag@);
        assert(id@ =~= n.id@);
        assert(class@ =~= n.class@);
        assert(text@ =~= n.text@);
    }
    let attributes = copy_attrs(&n.attrs);
    let elem = ElementSnapshot { tag, id, class, text, attributes, parent };
    proof {
        assert(elem@.attrs =~= n@.attrs);
        assert(elem@ == elem_of(n@, pm));
    }
    out.push(elem);
    proof {
        assert(elems_model(out@) =~= elems_model(old(out)@) + seq![elem_of(n@, pm)]);
        lemma_children_model_index(n.children@);
        assert(n@.children.subrange(0, 0) =~= Seq::<NodeModel>::empty());
    }
    let m = n.children.len();
    let mut j: usize = 0;
    while j < m
        invariant
            j <= m,
            m == n.children@.len(),
            at == old(out)@.len(),
            at < out@.len(),
            n@.children.len() == m,
            forall|i: int| 0 <= i < m ==> n@.children[i] == node_model(n.children@[i]),
            elems_model(out@) == elems_model(old(out)@) + seq![elem_of(n@, pm)] + flat_children(
                n@.children.subrange(0, j as int),
                at as int,
                at + 1,
            ),
            match parent {
                Some(p) => p < old(out)@.len(),
                None => true,
            },
            forall|k: int| at <= k < out@.len() ==> elem_wf_at(elems_model(out@), k),
        decreases m - j,
    {
        let ghost prev = out@;
        proof {
            assert(decreases_to!(*n => n.children@[j as int]));
        }
        push_subtree(out, &n.children[j], Some(at));
        proof {
            lemma_flat_children_snoc(n@.children, at as int, at + 1, j as int);
            assert(elems_model(prev).len() == at + 1 + flat_children(
                n@.children.subrange(0, j as int),
                at as int,
                at + 1,
            ).len());
            assert(n@.children.subrange(0, j as int) =~= n@.children.subrange(0, j as int));
            assert(elems_model(out@) =~= elems_model(old(out)@) + seq![elem_of(n@, pm)]
                + flat_children(n@.children.subrange(0, j + 1), at as int, at + 1));
            assert(forall|k: int|
                0 <= k < prev.len() ==> elems_model(out@)[k] == elems_model(prev)[k]);
            assert forall|k: int| at <= k < out@.len() implies elem_wf_at(
                elems_model(out@),
                k,
            ) by {
                if k < prev.len() {
                    assert(elem_wf_at(elems_model(prev), k));
                    assert(elems_model(out@)[k] == elems_model(prev)[k]);
                }
            }
        }
        j = j + 1;
    }
    proof {
        assert(n@.children.subrange(0, m as int) =~= n@.children);
        assert(elems_model(out@) =~= elems_model(old(out)@) + flat_node(n@, pm, at as int));
    }
}

/// Flatten a parsed document tree into a snapshot via depth-first,
/// document-order traversal. Never fails; the root lands at index 0.
pub fn build_snapshot(root: &HtmlNode) -> (d: DomSnapshot)
    ensures
        d@ == flat_node(root@, None, 0),
        d.wf(),
{
    let mut elements: Vec<ElementSnapshot> = Vec::new();
    push_subtree(&mut elements, root, None);
    proof {
        assert(elems_model(Seq::<ElementSnapshot>::empty()) =~= Seq::<ElemModel>::empty());
        assert(elems_model(elements@) =~= flat_node(root@, None, 0));
    }
    DomSnapshot { elements }
}

} // verus!
