//! CSS selector grammar, matching semantics, and document-order queries.
//!
//! Supported grammar: tag names, `*`, `#id`, `.class`, `[attr]`,
//! `[attr=value]`, `[attr~=value]`, `[attr^=value]`, `[attr$=value]`,
//! `[attr|=value]`, `:first-child`, `:last-child`, the descendant combinator
//! (whitespace) and the child combinator (`>`). Attribute values may be
//! quoted but cannot contain whitespace or `>`.

use vstd::prelude::*;
use crate::dom::Attribute;
use crate::dom::DomSnapshot;
use crate::dom::ElemModel;
use crate::dom::bytes_eq;
use crate::dom::dom_wf;
use crate::dom::elem_wf_at;

verus! {

/// How an attribute test compares the attribute's value.
#[derive(Debug, Clone, Copy, PartialEq, Eq, Structural)]
pub enum AttrOp {
    /// `[attr]`: the attribute is present
    Exists,
    /// `[attr=v]`: the value equals `v`
    Exact,
    /// `[attr~=v]`: the value, split on spaces, contains the word `v`
    Includes,
    /// `[attr^=v]`: the value starts with `v`
    Prefix,
    /// `[attr$=v]`: the value ends with `v`
    Suffix,
    /// `[attr|=v]`: the value is `v` or starts with `v-`
    DashMatch,
}

/// One `[name op value]` test.
#[derive(Debug)]
pub struct AttrTest {
    pub name: Vec<u8>,
    pub op: AttrOp,
    pub value: Vec<u8>,
}

pub ghost struct AttrTestModel {
    pub name: Seq<u8>,
    pub op: AttrOp,
    pub value: Seq<u8>,
}

impl View for AttrTest {
    type V = AttrTestModel;

    open spec fn view(&self) -> AttrTestModel {
        AttrTestModel { name: self.name@, op: self.op, value: self.value@ }
    }
}

/// A compound selector: every listed condition must hold of one element.
#[derive(Debug)]
pub struct Compound {
    /// Required tag name; empty means any tag.
    pub tag: Vec<u8>,
    /// Required id values (from `#id` parts).
    pub ids: Vec<Vec<u8>>,
    /// Required class words (from `.class` parts).
    pub classes: Vec<Vec<u8>>,
    /// Attribute tests.
    pub attrs: Vec<AttrTest>,
    /// `:first-child` was given.
    pub first_child: bool,
    /// `:last-child` was given.
    pub last_child: bool,
}

pub ghost struct CompoundModel {
    pub tag: Seq<u8>,
    pub ids: Seq<Seq<u8>>,
    pub classes: Seq<Seq<u8>>,
    pub attrs: Seq<AttrTestModel>,
    pub first_child: bool,
    pub last_child: bool,
}

impl View for Compound {
    type V = CompoundModel;

    open spec fn view(&self) -> CompoundModel {
        CompoundModel {
            tag: self.tag@,
            ids: Seq::new(self.ids@.len(), |i: int| self.ids@[i]@),
            classes: Seq::new(self.classes@.len(), |i: int| self.classes@[i]@),
            attrs: Seq::new(self.attrs@.len(), |i: int| self.attrs@[i]@),
            first_child: self.first_child,
            last_child: self.last_child,
        }
    }
}

/// How one compound level relates to the level on its left.
#[derive(Debug, Clone, Copy, PartialEq, Eq, Structural)]
pub enum Combinator {
    /// Whitespace: the left level matches some ancestor.
    Descendant,
    /// `>`: the left level matches the direct parent.
    Child,
}

/// A parsed selector: compound levels from left to right, and between each
/// adjacent pair the combinator that separates them.
#[derive(Debug)]
pub struct Selector {
    pub levels: Vec<Compound>,
    pub combs: Vec<Combinator>,
}

pub ghost struct SelectorModel {
    pub levels: Seq<CompoundModel>,
    pub combs: Seq<Combinator>,
}

impl View for Selector {
    type V = SelectorModel;

    open spec fn view(&self) -> SelectorModel {
        SelectorModel {
            levels: Seq::new(self.levels@.len(), |i: int| self.levels@[i]@),
            combs: Seq::new(self.combs@.len(), |i: int| self.combs@[i]),
        }
    }
}

impl SelectorModel {
    /// At least one level, and one combinator between each adjacent pair.
    pub open spec fn wf(self) -> bool {
        self.levels.len() >= 1 && self.combs.len() == self.levels.len() - 1
    }
}

impl Selector {
    pub open spec fn wf(&self) -> bool {
        self@.wf()
    }
}

// ---------------------------------------------------------------------------
// Matching semantics
// ---------------------------------------------------------------------------

/// The value of the first attribute named `name`, if any.
pub open spec fn attrs_value(attrs: Seq<(Seq<u8>, Seq<u8>)>, name: Seq<u8>) -> Option<Seq<u8>>
    decreases attrs.len(),
{
    if attrs.len() == 0 {
        None
    } else if attrs[0].0 == name {
        Some(attrs[0].1)
    } else {
        attrs_value(attrs.subrange(1, attrs.len() as int), name)
    }
}

/// `w` occurs at position `k` of `s` as a space-delimited word.
pub open spec fn word_match_at(s: Seq<u8>, w: Seq<u8>, k: int) -> bool {
    &&& 0 <= k
    &&& k + w.len() <= s.len()
    &&& s.subrange(k, k + w.len() as int) == w
    &&& (k == 0 || s[k - 1] == 32)
    &&& (k + w.len() == s.len() || s[k + w.len() as int] == 32)
}

/// `w` is one of the space-separated words of `s`.
pub open spec fn word_in_list(s: Seq<u8>, w: Seq<u8>) -> bool {
    exists|k: int| word_match_at(s, w, k)
}

pub open spec fn is_prefix_of(v: Seq<u8>, p: Seq<u8>) -> bool {
    p.len() <= v.len() && v.subrange(0, p.len() as int) == p
}

pub open spec fn is_suffix_of(v: Seq<u8>, p: Seq<u8>) -> bool {
    p.len() <= v.len() && v.subrange(v.len() - p.len(), v.len() as int) == p
}

/// Whether one attribute test holds of an element's attribute list.
pub open spec fn attr_test_holds(attrs: Seq<(Seq<u8>, Seq<u8>)>, t: AttrTestModel) -> bool {
    match attrs_value(attrs, t.name) {
        None => false,
        Some(v) => match t.op {
            AttrOp::Exists => true,
            AttrOp::Exact => v == t.value,
            AttrOp::Includes => word_in_list(v, t.value),
            AttrOp::Prefix => is_prefix_of(v, t.value),
            AttrOp::Suffix => is_suffix_of(v, t.value),
            AttrOp::DashMatch => v == t.value || (v.len() > t.value.len() && v.subrange(
                0,
                t.value.len() as int,
            ) == t.value && v[t.value.len() as int] == 45),
        },
    }
}

/// No earlier element shares the same parent index.
pub open spec fn is_first_child(d: Seq<ElemModel>, i: int) -> bool {
    forall|j: int| 0 <= j < i ==> d[j].parent != d[i].parent
}

/// No later element shares the same parent index.
pub open spec fn is_last_child(d: Seq<ElemModel>, i: int) -> bool {
    forall|j: int| i < j < d.len() ==> d[j].parent != d[i].parent
}

/// Whether a compound selector matches element `i` of the snapshot.
pub open spec fn compound_matches(d: Seq<ElemModel>, i: int, c: CompoundModel) -> bool {
    &&& (c.tag.len() == 0 || c.tag == d[i].tag)
    &&& (forall|m: int| 0 <= m < c.ids.len() ==> d[i].id == #[trigger] c.ids[m])
    &&& (forall|m: int| 0 <= m < c.classes.len() ==> word_in_list(d[i].class, #[trigger] c.classes[m]))
    &&& (forall|m: int| 0 <= m < c.attrs.len() ==> attr_test_holds(d[i].attrs, #[trigger] c.attrs[m]))
    &&& (c.first_child ==> is_first_child(d, i))
    &&& (c.last_child ==> is_last_child(d, i))
}

/// Whether `j` lies on the parent chain of `i`. The chain is followed only
/// while parent indices point strictly backwards, which a well-formed
/// snapshot guarantees.
pub open spec fn is_ancestor(d: Seq<ElemModel>, j: int, i: int) -> bool
    decreases i,
{
    0 <= i < d.len() && match d[i].parent {
        Some(p) => if 0 <= p < i {
            p == j || is_ancestor(d, j, p)
        } else {
            false
        },
        None => false,
    }
}

/// Whether levels `0 ..= k` of the selector match with element `i` at level
/// `k`: the level itself matches `i`, and the levels to the left match along
/// the parent chain as the combinators demand.
pub open spec fn matches_upto(d: Seq<ElemModel>, sel: SelectorModel, k: int, i: int) -> bool
    decreases k,
{
    &&& 0 <= i < d.len()
    &&& compound_matches(d, i, sel.levels[k])
    &&& (k > 0 ==> match sel.combs[k - 1] {
        Combinator::Child => match d[i].parent {
            Some(p) => matches_upto(d, sel, k - 1, p),
            None => false,
        },
        Combinator::Descendant => exists|j: int|
            #[trigger] is_ancestor(d, j, i) && matches_upto(d, sel, k - 1, j),
    })
}

/// Whether the whole selector matches element `i` of the snapshot.
pub open spec fn sel_matches(d: Seq<ElemModel>, sel: SelectorModel, i: int) -> bool {
    matches_upto(d, sel, sel.levels.len() - 1, i)
}

// ---------------------------------------------------------------------------
// Executable matching
// ---------------------------------------------------------------------------

/// A chain element's index is strictly below the start of the chain.
proof fn lemma_ancestor_lt(d: Seq<ElemModel>, j: int, i: int)
    requires
        is_ancestor(d, j, i),
    ensures
        j < i,
    decreases i,
{
    if let Some(p) = d[i].parent {
        if 0 <= p < i && p != j {
            lemma_ancestor_lt(d, j, p);
        }
    }
}

/// Stepping from a chain member to its parent stays on the chain.
proof fn lemma_ancestor_step(d: Seq<ElemModel>, cur: int, p: int, i: int)
    requires
        is_ancestor(d, cur, i),
        0 <= cur < d.len(),
        d[cur].parent == Some(p),
        0 <= p < cur,
    ensures
        is_ancestor(d, p, i),
    decreases i,
{
    if let Some(q) = d[i].parent {
        if 0 <= q < i {
            if q == cur {
                assert(is_ancestor(d, p, cur));
            } else {
                lemma_ancestor_step(d, cur, p, q);
            }
        }
    }
}

/// `s[off .. off + p.len()]` equals `p`.
pub(crate) fn range_eq(v: &[u8], off: usize, p: &[u8]) -> (r: bool)
    requires
        off + p@.len() <= v@.len(),
    ensures
        r == (v@.subrange(off as int, off + p@.len()) == p@),
{
    let n = p.len();
    let vn = v.len();
    let mut i: usize = 0;
    while i < n
        invariant
            i <= n,
            n == p@.len(),
            vn == v@.len(),
            off + n <= vn,
            forall|k: int| 0 <= k < i ==> v@[off + k] == p@[k],
        decreases n - i,
    {
        if v[off + i] != p[i] {
            proof {
                assert(v@.subrange(off as int, off + p@.len())[i as int] != p@[i as int]);
            }
            return false;
        }
        i = i + 1;
    }
    proof {
        assert(v@.subrange(off as int, off + p@.len()) =~= p@);
    }
    true
}

/// `w` is one of the space-separated words of `s`.
fn has_word(s: &[u8], w: &[u8]) -> (r: bool)
    ensures
        r == word_in_list(s@, w@),
{
    let n = s.len();
    let wn = w.len();
    if wn > n {
        proof {
            assert(forall|k: int| !word_match_at(s@, w@, k));
        }
        return false;
    }
    let last = n - wn;
    let mut k: usize = 0;
    loop
        invariant
            wn <= n,
            n == s@.len(),
            wn == w@.len(),
            last == n - wn,
            k <= last,
            forall|q: int| 0 <= q < k ==> !word_match_at(s@, w@, q),
        ensures
            forall|q: int| 0 <= q <= last ==> !word_match_at(s@, w@, q),
        decreases last - k,
    {
        let left_ok = k == 0 || s[k - 1] == 32;
        let right_ok = k + wn == n || s[k + wn] == 32;
        if left_ok && right_ok && range_eq(s, k, w) {
            proof {
                assert(word_match_at(s@, w@, k as int));
            }
            return true;
        }
        proof {
            assert(!word_match_at(s@, w@, k as int));
        }
        if k == last {
            break;
        }
        k = k + 1;
    }
    proof {
        assert(forall|q: int| q > n - wn ==> !word_match_at(s@, w@, q));
        assert(forall|q: int| q < 0 ==> !word_match_at(s@, w@, q));
        assert(forall|q: int| !word_match_at(s@, w@, q));
    }
    false
}

proof fn lemma_attrs_value_scan(attrs: Seq<(Seq<u8>, Seq<u8>)>, name: Seq<u8>, ix: int)
    requires
        0 <= ix <= attrs.len(),
        forall|k: int| 0 <= k < ix ==> (#[trigger] attrs[k]).0 != name,
        ix == attrs.len() || attrs[ix].0 == name,
    ensures
        attrs_value(attrs, name) == if ix == attrs.len() {
            None::<Seq<u8>>
        } else {
            Some(attrs[ix].1)
        },
    decreases attrs.len(),
{
    if attrs.len() > 0 {
        if ix == 0 {
        } else {
            let tail = attrs.subrange(1, attrs.len() as int);
            assert(forall|k: int| 0 <= k < ix - 1 ==> (#[trigger] tail[k]).0 == attrs[k + 1].0);
            lemma_attrs_value_scan(tail, name, ix - 1);
        }
    }
}

/// The index of the first attribute named `name` in an attribute list.
pub(crate) fn find_attr(attrs: &Vec<Attribute>, name: &[u8]) -> (r: Option<usize>)
    ensures
        ({
            let m = Seq::new(attrs@.len(), |i: int| (attrs@[i].name@, attrs@[i].value@));
            match r {
                Some(ix) => ix < attrs@.len() && attrs_value(m, name@) == Some(
                    attrs@[ix as int].value@,
                ),
                None => attrs_value(m, name@) is None,
            }
        }),
{
    let ghost m = Seq::new(attrs@.len(), |i: int| (attrs@[i].name@, attrs@[i].value@));
    let n = attrs.len();
    let mut i: usize = 0;
    while i < n
        invariant
            i <= n,
            n == attrs@.len(),
            m == Seq::new(attrs@.len(), |q: int| (attrs@[q].name@, attrs@[q].value@)),
            forall|k: int| 0 <= k < i ==> (#[trigger] m[k]).0 != name@,
        decreases n - i,
    {
        if bytes_eq(attrs[i].name.as_slice(), name) {
            proof {
                lemma_attrs_value_scan(m, name@, i as int);
            }
            return Some(i);
        }
        i = i + 1;
    }
    proof {
        lemma_attrs_value_scan(m, name@, n as int);
    }
    None
}

/// Whether one attribute test holds of element `i` of the snapshot.
fn attr_test_matches(d: &DomSnapshot, i: usize, t: &AttrTest) -> (r: bool)
    requires
        i < d@.len(),
    ensures
        r == attr_test_holds(d@[i as int].attrs, t@),
{
    let e = &d.elements[i];
    proof {
        assert(d@[i as int].attrs =~= Seq::new(
            e.attributes@.len(),
            |q: int| (e.attributes@[q].name@, e.attributes@[q].value@),
        ));
    }
    let ix = match find_attr(&e.attributes, t.name.as_slice()) {
        None => {
            return false;
        },
        Some(ix) => ix,
    };
    let v = e.attributes[ix].value.as_slice();
    match t.op {
        AttrOp::Exists => true,
        AttrOp::Exact => bytes_eq(v, t.value.as_slice()),
        AttrOp::Includes => has_word(v, t.value.as_slice()),
        AttrOp::Prefix => t.value.len() <= v.len() && range_eq(v, 0, t.value.as_slice()),
        AttrOp::Suffix => t.value.len() <= v.len() && range_eq(
            v,
            v.len() - t.value.len(),
            t.value.as_slice(),
        ),
        AttrOp::DashMatch => {
            if bytes_eq(v, t.value.as_slice()) {
                true
            } else {
                v.len() > t.value.len() && range_eq(v, 0, t.value.as_slice()) && v[t.value.len()]
                    == 45
            }
        },
    }
}

/// Whether elements `a` and `b` of the snapshot share the same parent index.
fn same_parent(d: &DomSnapshot, a: usize, b: usize) -> (r: bool)
    requires
        a < d@.len(),
        b < d@.len(),
    ensures
        r == (d@[a as int].parent == d@[b as int].parent),
{
    match (&d.elements[a].parent, &d.elements[b].parent) {
        (Some(x), Some(y)) => *x == *y,
        (None, None) => true,
        _ => false,
    }
}

/// Whether a compound selector matches element `i` of the snapshot.
fn compound_matches_at(d: &DomSnapshot, i: usize, c: &Compound) -> (r: bool)
    requires
        i < d@.len(),
    ensures
        r == compound_matches(d@, i as int, c@),
{
    let e = &d.elements[i];
    if c.tag.len() > 0 && !bytes_eq(c.tag.as_slice(), e.tag.as_slice()) {
        proof {
            assert(c@.tag.len() > 0 && c@.tag != d@[i as int].tag);
        }
        return false;
    }
    let nids = c.ids.len();
    let mut m: usize = 0;
    while m < nids
        invariant
            m <= nids,
            i < d@.len(),
            nids == c@.ids.len(),
            c@ == c.view(),
            d@[i as int] == d.elements@[i as int]@,
            forall|k: int| 0 <= k < m ==> d@[i as int].id == #[trigger] c@.ids[k],
        decreases nids - m,
    {
        if !bytes_eq(d.elements[i].id.as_slice(), c.ids[m].as_slice()) {
            proof {
                assert(d@[i as int].id != c@.ids[m as int]);
                assert(!compound_matches(d@, i as int, c@));
            }
            return false;
        }
        m = m + 1;
    }
    let ncl = c.classes.len();
    let mut m2: usize = 0;
    while m2 < ncl
        invariant
            m2 <= ncl,
            i < d@.len(),
            ncl == c@.classes.len(),
            c@ == c.view(),
            d@[i as int] == d.elements@[i as int]@,
            forall|k: int| 0 <= k < m2 ==> word_in_list(d@[i as int].class, #[trigger] c@.classes[k]),
        decreases ncl - m2,
    {
        if !has_word(d.elements[i].class.as_slice(), c.classes[m2].as_slice()) {
            proof {
                assert(!word_in_list(d@[i as int].class, c@.classes[m2 as int]));
                assert(!compound_matches(d@, i as int, c@));
            }
            return false;
        }
        m2 = m2 + 1;
    }
    let nat_ = c.attrs.len();
    let mut m3: usize = 0;
    while m3 < nat_
        invariant
            m3 <= nat_,
            i < d@.len(),
            nat_ == c@.attrs.len(),
            c@ == c.view(),
            forall|k: int| 0 <= k < m3 ==> attr_test_holds(d@[i as int].attrs, #[trigger] c@.attrs[k]),
        decreases nat_ - m3,
    {
        if !attr_test_matches(d, i, &c.attrs[m3]) {
            proof {
                assert(!attr_test_holds(d@[i as int].attrs, c@.attrs[m3 as int]));
                assert(!compound_matches(d@, i as int, c@));
            }
            return false;
        }
        m3 = m3 + 1;
    }
    if c.first_child {
        let mut j: usize = 0;
        while j < i
            invariant
                j <= i,
                i < d@.len(),
                c@.first_child,
                forall|k: int| 0 <= k < j ==> d@[k].parent != d@[i as int].parent,
            decreases i - j,
        {
            if same_parent(d, j, i) {
                proof {
                    assert(!is_first_child(d@, i as int));
                    assert(!compound_matches(d@, i as int, c@));
                }
                return false;
            }
            j = j + 1;
        }
    }
    if c.last_child {
        let n = d.len();
        let mut j: usize = i + 1;
        while j < n
            invariant
                i < j <= n,
                n == d@.len(),
                c@.last_child,
                forall|k: int| i < k < j ==> d@[k].parent != d@[i as int].parent,
            decreases n - j,
        {
            if same_parent(d, j, i) {
                proof {
                    assert(!is_last_child(d@, i as int));
                    assert(!compound_matches(d@, i as int, c@));
                }
                return false;
            }
            j = j + 1;
        }
    }
    true
}

/// Whether levels `0 ..= k` of the selector match with element `i` at level
/// `k`.
fn matches_level(d: &DomSnapshot, sel: &Selector, k: usize, i: usize) -> (r: bool)
    requires
        d.wf(),
        sel.wf(),
        k < sel@.levels.len(),
        i < d@.len(),
    ensures
        r == matches_upto(d@, sel@, k as int, i as int),
    decreases k,
{
    if !compound_matches_at(d, i, &sel.levels[k]) {
        return false;
    }
    if k == 0 {
        return true;
    }
    match sel.combs[k - 1] {
        Combinator::Child => {
            match d.elements[i].parent {
                Some(p) => {
                    proof {
                        assert(elem_wf_at(d@, i as int));
                    }
                    matches_level(d, sel, k - 1, p)
                },
                None => false,
            }
        },
        Combinator::Descendant => {
            let mut cur: usize = i;
            loop
                invariant
                    d.wf(),
                    sel.wf(),
                    k < sel@.levels.len(),
                    k >= 1,
                    i < d@.len(),
                    cur < d@.len(),
                    cur == i || is_ancestor(d@, cur as int, i as int),
                    compound_matches(d@, i as int, sel@.levels[k as int]),
                    sel.combs@[k - 1] == Combinator::Descendant,
                    sel@.combs[k - 1] == Combinator::Descendant,
                    forall|j: int|
                        #[trigger] is_ancestor(d@, j, i as int) && !is_ancestor(
                            d@,
                            j,
                            cur as int,
                        ) ==> !matches_upto(d@, sel@, k - 1, j),
                ensures
                    forall|j: int|
                        #[trigger] is_ancestor(d@, j, i as int) ==> !matches_upto(
                            d@,
                            sel@,
                            k - 1,
                            j,
                        ),
                decreases cur,
            {
                match d.elements[cur].parent {
                    Some(p) => {
                        proof {
                            assert(elem_wf_at(d@, cur as int));
                            if cur == i {
                                assert(is_ancestor(d@, p as int, i as int));
                            } else {
                                lemma_ancestor_step(d@, cur as int, p as int, i as int);
                            }
                        }
                        if matches_level(d, sel, k - 1, p) {
                            proof {
                                assert(is_ancestor(d@, p as int, i as int) && matches_upto(
                                    d@,
                                    sel@,
                                    k - 1,
                                    p as int,
                                ));
                            }
                            return true;
                        }
                        cur = p;
                    },
                    None => {
                        break;
                    },
                }
            }
            proof {
                assert(!(exists|j: int|
                    #[trigger] is_ancestor(d@, j, i as int) && matches_upto(
                        d@,
                        sel@,
                        k - 1,
                        j,
                    )));
            }
            false
        },
    }
}

/// Whether the selector matches element `i` of the snapshot.
pub fn element_matches(d: &DomSnapshot, i: usize, sel: &Selector) -> (r: bool)
    requires
        d.wf(),
        sel.wf(),
        i < d@.len(),
    ensures
        r == sel_matches(d@, sel@, i as int),
{
    let last = sel.levels.len() - 1;
    matches_level(d, sel, last, i)
}

/// All elements the selector matches, in strict document order: exactly the
/// matching subset of the full traversal, with indices strictly increasing.
pub fn query_all(d: &DomSnapshot, sel: &Selector) -> (r: Vec<usize>)
    requires
        d.wf(),
        sel.wf(),
    ensures
        forall|m: int|
            0 <= m < r@.len() ==> r@[m] < d@.len() && sel_matches(d@, sel@, r@[m] as int),
        forall|m1: int, m2: int| 0 <= m1 < m2 < r@.len() ==> r@[m1] < r@[m2],
        forall|i: int|
            0 <= i < d@.len() && sel_matches(d@, sel@, i) ==> exists|m: int|
                0 <= m < r@.len() && r@[m] == i,
{
    let mut r: Vec<usize> = Vec::new();
    let n = d.len();
    let mut i: usize = 0;
    while i < n
        invariant
            i <= n,
            n == d@.len(),
            d.wf(),
            sel.wf(),
            forall|m: int|
                0 <= m < r@.len() ==> r@[m] < i && sel_matches(d@, sel@, r@[m] as int),
            forall|m1: int, m2: int| 0 <= m1 < m2 < r@.len() ==> r@[m1] < r@[m2],
            forall|q: int|
                0 <= q < i && sel_matches(d@, sel@, q) ==> exists|m: int|
                    0 <= m < r@.len() && r@[m] == q,
        decreases n - i,
    {
        let ghost prev = r@;
        if element_matches(d, i, sel) {
            r.push(i);
        }
        proof {
            assert forall|q: int|
                0 <= q < i + 1 && sel_matches(d@, sel@, q) implies exists|m: int|
                0 <= m < r@.len() && r@[m] == q by {
                if q == i {
                    assert(r@[r@.len() - 1] == i);
                } else {
                    let m = choose|m: int| 0 <= m < prev.len() && prev[m] == q;
                    assert(r@[m] == q);
                }
            }
        }
        i = i + 1;
    }
    r
}

// ---------------------------------------------------------------------------
// Parsing
// ---------------------------------------------------------------------------

/// Selector-level whitespace.
pub open spec fn is_sel_ws(b: u8) -> bool {
    b == 32 || b == 9 || b == 10 || b == 13
}

/// Characters allowed in tag names, identifiers, class names, attribute
/// names and pseudo-class names.
pub open spec fn is_name_char(b: u8) -> bool {
    (97 <= b <= 122) || (65 <= b <= 90) || (48 <= b <= 57) || b == 45 || b == 95
}

/// How many whitespace bytes follow position `i`.
pub open spec fn ws_len(s: Seq<u8>, i: int) -> nat
    decreases s.len() - i,
{
    if 0 <= i < s.len() && is_sel_ws(s[i]) {
        1 + ws_len(s, i + 1)
    } else {
        0
    }
}

/// How many name characters follow position `i`.
pub open spec fn name_len(s: Seq<u8>, i: int) -> nat
    decreases s.len() - i,
{
    if 0 <= i < s.len() && is_name_char(s[i]) {
        1 + name_len(s, i + 1)
    } else {
        0
    }
}

/// How many bytes follow position `i` before whitespace or `>`.
pub open spec fn token_len(s: Seq<u8>, i: int) -> nat
    decreases s.len() - i,
{
    if 0 <= i < s.len() && !is_sel_ws(s[i]) && s[i] != 62 {
        1 + token_len(s, i + 1)
    } else {
        0
    }
}

/// The offset from `i` of the first occurrence of `b` at or after `i`.
pub open spec fn find_off(s: Seq<u8>, i: int, b: u8) -> Option<nat>
    decreases s.len() - i,
{
    if !(0 <= i < s.len()) {
        None
    } else if s[i] == b {
        Some(0)
    } else {
        match find_off(s, i + 1, b) {
            None => None,
            Some(k) => Some(k + 1),
        }
    }
}

/// The bytes of `first-child`.
pub open spec fn fc_bytes() -> Seq<u8> {
    seq![102u8, 105u8, 114u8, 115u8, 116u8, 45u8, 99u8, 104u8, 105u8, 108u8, 100u8]
}

/// The bytes of `last-child`.
pub open spec fn lc_bytes() -> Seq<u8> {
    seq![108u8, 97u8, 115u8, 116u8, 45u8, 99u8, 104u8, 105u8, 108u8, 100u8]
}

/// The parts of a compound selector after the optional tag name.
pub ghost struct PartsModel {
    pub ids: Seq<Seq<u8>>,
    pub classes: Seq<Seq<u8>>,
    pub attrs: Seq<AttrTestModel>,
    pub first_child: bool,
    pub last_child: bool,
}

/// The attribute operator introduced by byte `b` when followed by `=`.
pub open spec fn two_char_op(b: u8) -> Option<AttrOp> {
    if b == 126 {
        Some(AttrOp::Includes)
    } else if b == 94 {
        Some(AttrOp::Prefix)
    } else if b == 36 {
        Some(AttrOp::Suffix)
    } else if b == 124 {
        Some(AttrOp::DashMatch)
    } else {
        None
    }
}

/// Parse the id/class/attribute/pseudo-class parts of a compound selector
/// token from position `i` to the token's end.
pub open spec fn pc_parts_spec(t: Seq<u8>, i: int) -> Option<PartsModel>
    decreases t.len() - i,
{
    if i >= t.len() || i < 0 {
        Some(
            PartsModel {
                ids: Seq::empty(),
                classes: Seq::empty(),
                attrs: Seq::empty(),
                first_child: false,
                last_child: false,
            },
        )
    } else if t[i] == 35 {
        // '#'
        let e = i + 1 + name_len(t, i + 1);
        if e == i + 1 || e > t.len() {
            None
        } else {
            match pc_parts_spec(t, e) {
                None => None,
                Some(p) => Some(PartsModel { ids: seq![t.subrange(i + 1, e)] + p.ids, ..p }),
            }
        }
    } else if t[i] == 46 {
        // '.'
        let e = i + 1 + name_len(t, i + 1);
        if e == i + 1 || e > t.len() {
            None
        } else {
            match pc_parts_spec(t, e) {
                None => None,
                Some(p) => Some(
                    PartsModel { classes: seq![t.subrange(i + 1, e)] + p.classes, ..p },
                ),
            }
        }
    } else if t[i] == 58 {
        // ':'
        let e = i + 1 + name_len(t, i + 1);
        let w = t.subrange(i + 1, e);
        if e > t.len() {
            None
        } else if w == fc_bytes() {
            match pc_parts_spec(t, e) {
                None => None,
                Some(p) => Some(PartsModel { first_child: true, ..p }),
            }
        } else if w == lc_bytes() {
            match pc_parts_spec(t, e) {
                None => None,
                Some(p) => Some(PartsModel { last_child: true, ..p }),
            }
        } else {
            None
        }
    } else if t[i] == 91 {
        // '['
        let e = i + 1 + name_len(t, i + 1);
        let name = t.subrange(i + 1, e);
        if name.len() == 0 || e >= t.len() {
            None
        } else if t[e] == 93 {
            // ']' directly: presence test
            match pc_parts_spec(t, e + 1) {
                None => None,
                Some(p) => Some(
                    PartsModel {
                        attrs: seq![
                            AttrTestModel { name, op: AttrOp::Exists, value: Seq::empty() },
                        ] + p.attrs,
                        ..p
                    },
                ),
            }
        } else {
            let opv: Option<(AttrOp, int)> = if t[e] == 61 {
                Some((AttrOp::Exact, e + 1))
            } else if e + 1 < t.len() && t[e + 1] == 61 {
                match two_char_op(t[e]) {
                    Some(op) => Some((op, e + 2)),
                    None => None,
                }
            } else {
                None
            };
            match opv {
                None => None,
                Some((op, vs)) => {
                    if vs < t.len() && (t[vs] == 34 || t[vs] == 39) {
                        // quoted value
                        match find_off(t, vs + 1, t[vs]) {
                            None => None,
                            Some(off) => {
                                let qe = vs + 1 + off;
                                let value = t.subrange(vs + 1, qe);
                                if qe + 1 >= t.len() || t[qe + 1] != 93 {
                                    None
                                } else {
                                    match pc_parts_spec(t, qe + 2) {
                                        None => None,
                                        Some(p) => Some(
                                            PartsModel {
                                                attrs: seq![AttrTestModel { name, op, value }]
                                                    + p.attrs,
                                                ..p
                                            },
                                        ),
                                    }
                                }
                            },
                        }
                    } else {
                        match find_off(t, vs, 93) {
                            None => None,
                            Some(off) => {
                                let ve = vs + off;
                                let value = t.subrange(vs, ve);
                                if ve >= t.len() {
                                    None
                                } else {
                                    match pc_parts_spec(t, ve + 1) {
                                        None => None,
                                        Some(p) => Some(
                                            PartsModel {
                                                attrs: seq![AttrTestModel { name, op, value }]
                                                    + p.attrs,
                                                ..p
                                            },
                                        ),
                                    }
                                }
                            },
                        }
                    }
                },
            }
        }
    } else {
        None
    }
}

/// Parse one compound selector token.
pub open spec fn pc_spec(t: Seq<u8>) -> Option<CompoundModel> {
    if t.len() == 0 {
        None
    } else {
        let (tag, i0): (Seq<u8>, int) = if t[0] == 42 {
            (Seq::empty(), 1)
        } else {
            (t.subrange(0, name_len(t, 0) as int), name_len(t, 0) as int)
        };
        match pc_parts_spec(t, i0) {
            None => None,
            Some(p) => Some(
                CompoundModel {
                    tag,
                    ids: p.ids,
                    classes: p.classes,
                    attrs: p.attrs,
                    first_child: p.first_child,
                    last_child: p.last_child,
                },
            ),
        }
    }
}

/// Parse a selector's level list from position `i`: a compound token, then
/// optionally a combinator and further levels.
pub open spec fn ps_levels_spec(s: Seq<u8>, i: int) -> Option<(Seq<CompoundModel>, Seq<
    Combinator,
>)>
    decreases s.len() - i,
{
    let j = i + ws_len(s, i);
    if j >= s.len() || s[j] == 62 {
        None
    } else {
        let tl = token_len(s, j);
        if tl == 0 {
            None
        } else {
            let e = j + tl;
            match pc_spec(s.subrange(j, e)) {
                None => None,
                Some(c) => {
                    let k = e + ws_len(s, e);
                    if k >= s.len() {
                        Some((seq![c], Seq::empty()))
                    } else if s[k] == 62 {
                        if !(k + 1 > i) {
                            None
                        } else {
                            match ps_levels_spec(s, k + 1) {
                                None => None,
                                Some((ls, cs)) => Some(
                                    (seq![c] + ls, seq![Combinator::Child] + cs),
                                ),
                            }
                        }
                    } else {
                        if !(k > i) {
                            None
                        } else {
                            match ps_levels_spec(s, k) {
                                None => None,
                                Some((ls, cs)) => Some(
                                    (seq![c] + ls, seq![Combinator::Descendant] + cs),
                                ),
                            }
                        }
                    }
                },
            }
        }
    }
}

/// Parse a whole selector.
pub open spec fn parse_selector_spec(s: Seq<u8>) -> Option<SelectorModel> {
    match ps_levels_spec(s, 0) {
        None => None,
        Some((ls, cs)) => Some(SelectorModel { levels: ls, combs: cs }),
    }
}

/// A parsed level list always has one more level than combinators.
proof fn lemma_ps_levels_wf(s: Seq<u8>, i: int)
    ensures
        match ps_levels_spec(s, i) {
            Some((ls, cs)) => ls.len() == cs.len() + 1,
            None => true,
        },
    decreases s.len() - i,
{
    let j = i + ws_len(s, i);
    if j >= s.len() || s[j] == 62 {
    } else {
        let tl = token_len(s, j);
        if tl > 0 {
            let e = j + tl;
            let k = e + ws_len(s, e);
            if k < s.len() {
                if s[k] == 62 {
                    if k + 1 > i {
                        lemma_ps_levels_wf(s, k + 1);
                    }
                } else {
                    if k > i {
                        lemma_ps_levels_wf(s, k);
                    }
                }
            }
        }
    }
}

/// The index after the whitespace run starting at `i`.
fn ws_end(s: &[u8], i: usize) -> (r: usize)
    requires
        i <= s@.len(),
    ensures
        i <= r <= s@.len(),
        r == i + ws_len(s@, i as int),
        r < s@.len() ==> !is_sel_ws(s@[r as int]),
{
    let n = s.len();
    let mut r: usize = i;
    while r < n && (s[r] == 32 || s[r] == 9 || s[r] == 10 || s[r] == 13)
        invariant
            i <= r <= n,
            n == s@.len(),
            i + ws_len(s@, i as int) == r + ws_len(s@, r as int),
        decreases n - r,
    {
        r = r + 1;
    }
    r
}

/// The index after the name-character run starting at `i`.
fn name_end(s: &[u8], i: usize) -> (r: usize)
    requires
        i <= s@.len(),
    ensures
        i <= r <= s@.len(),
        r == i + name_len(s@, i as int),
{
    let n = s.len();
    let mut r: usize = i;
    while r < n && ((97 <= s[r] && s[r] <= 122) || (65 <= s[r] && s[r] <= 90) || (48 <= s[r]
        && s[r] <= 57) || s[r] == 45 || s[r] == 95)
        invariant
            i <= r <= n,
            n == s@.len(),
            i + name_len(s@, i as int) == r + name_len(s@, r as int),
        decreases n - r,
    {
        r = r + 1;
    }
    r
}

/// The index after the compound token starting at `i`.
fn token_end(s: &[u8], i: usize) -> (r: usize)
    requires
        i <= s@.len(),
    ensures
        i <= r <= s@.len(),
        r == i + token_len(s@, i as int),
{
    let n = s.len();
    let mut r: usize = i;
    while r < n && s[r] != 32 && s[r] != 9 && s[r] != 10 && s[r] != 13 && s[r] != 62
        invariant
            i <= r <= n,
            n == s@.len(),
            i + token_len(s@, i as int) == r + token_len(s@, r as int),
        decreases n - r,
    {
        r = r + 1;
    }
    r
}

/// The first position of byte `b` at or after `i`, if any.
pub(crate) fn find_byte_from(s: &[u8], i: usize, b: u8) -> (r: Option<usize>)
    requires
        i <= s@.len(),
    ensures
        match r {
            Some(p) => i <= p < s@.len() && find_off(s@, i as int, b) == Some((p - i) as nat),
            None => find_off(s@, i as int, b) is None,
        },
{
    let n = s.len();
    let mut r: usize = i;
    while r < n && s[r] != b
        invariant
            i <= r <= n,
            n == s@.len(),
            ({
                let fi = find_off(s@, i as int, b);
                let fr = find_off(s@, r as int, b);
                match fr {
                    None => fi is None,
                    Some(k) => fi == Some((k + r - i) as nat),
                }
            }),
        decreases n - r,
    {
        r = r + 1;
    }
    if r < n {
        Some(r)
    } else {
        None
    }
}

/// Accumulated compound parts during parsing.
struct PartsAcc {
    ids: Vec<Vec<u8>>,
    classes: Vec<Vec<u8>>,
    attrs: Vec<AttrTest>,
    first_child: bool,
    last_child: bool,
}

impl View for PartsAcc {
    type V = PartsModel;

    closed spec fn view(&self) -> PartsModel {
        PartsModel {
            ids: Seq::new(self.ids@.len(), |i: int| self.ids@[i]@),
            classes: Seq::new(self.classes@.len(), |i: int| self.classes@[i]@),
            attrs: Seq::new(self.attrs@.len(), |i: int| self.attrs@[i]@),
            first_child: self.first_child,
            last_child: self.last_child,
        }
    }
}

/// Copy of `s[lo..hi]`.
pub(crate) fn sub_vec(s: &[u8], lo: usize, hi: usize) -> (r: Vec<u8>)
    requires
        lo <= hi <= s@.len(),
    ensures
        r@ == s@.subrange(lo as int, hi as int),
{
    let mut r: Vec<u8> = Vec::new();
    let mut i: usize = lo;
    while i < hi
        invariant
            lo <= i <= hi <= s@.len(),
            r@ == s@.subrange(lo as int, i as int),
        decreases hi - i,
    {
        r.push(s[i]);
        assert(r@ =~= s@.subrange(lo as int, i + 1));
        i = i + 1;
    }
    r
}

/// Parse the parts of a compound token from position `i`.
#[verifier::rlimit(60)]
fn pc_parts(t: &[u8], i: usize) -> (r: Option<PartsAcc>)
    requires
        i <= t@.len(),
    ensures
        match r {
            Some(p) => pc_parts_spec(t@, i as int) == Some(p@),
            None => pc_parts_spec(t@, i as int) is None,
        },
    decreases t@.len() - i,
{
    let n = t.len();
    if i >= n {
        let p = PartsAcc {
            ids: Vec::new(),
            classes: Vec::new(),
            attrs: Vec::new(),
            first_child: false,
            last_child: false,
        };
        proof {
            assert(p@.ids =~= Seq::<Seq<u8>>::empty());
            assert(p@.classes =~= Seq::<Seq<u8>>::empty());
            assert(p@.attrs =~= Seq::<AttrTestModel>::empty());
        }
        return Some(p);
    }
    let b = t[i];
    if b == 35 {
        let e = name_end(t, i + 1);
        if e == i + 1 {
            return None;
        }
        let name = sub_vec(t, i + 1, e);
        match pc_parts(t, e) {
            None => None,
            Some(mut p) => {
                p.ids.insert(0, name);
                proof {
                    assert(p@.ids =~= seq![t@.subrange(i + 1, e as int)]
                        + pc_parts_spec(t@, e as int).unwrap().ids);
                    assert(pc_parts_spec(t@, i as int) == Some(p@));
                }
                Some(p)
            },
        }
    } else if b == 46 {
        let e = name_end(t, i + 1);
        if e == i + 1 {
            return None;
        }
        let name = sub_vec(t, i + 1, e);
        match pc_parts(t, e) {
            None => None,
            Some(mut p) => {
                p.classes.insert(0, name);
                proof {
                    assert(p@.classes =~= seq![t@.subrange(i + 1, e as int)]
                        + pc_parts_spec(t@, e as int).unwrap().classes);
                    assert(pc_parts_spec(t@, i as int) == Some(p@));
                }
                Some(p)
            },
        }
    } else if b == 58 {
        let e = name_end(t, i + 1);
        let fc: Vec<u8> = vec![102u8, 105u8, 114u8, 115u8, 116u8, 45u8, 99u8, 104u8, 105u8, 108u8, 100u8];
        let lc: Vec<u8> = vec![108u8, 97u8, 115u8, 116u8, 45u8, 99u8, 104u8, 105u8, 108u8, 100u8];
        proof {
            assert(fc@ =~= fc_bytes());
            assert(lc@ =~= lc_bytes());
        }
        let is_fc = e - (i + 1) == fc.len() && range_eq(t, i + 1, fc.as_slice());
        let is_lc = !is_fc && e - (i + 1) == lc.len() && range_eq(t, i + 1, lc.as_slice());
        proof {
            let w = t@.subrange(i + 1, e as int);
            if is_fc {
                assert(w =~= t@.subrange(i + 1, i + 1 + fc_bytes().len()));
            } else {
                if w == fc_bytes() {
                    assert(t@.subrange(i + 1, i + 1 + fc_bytes().len()) =~= w);
                }
            }
            if is_lc {
                assert(w =~= t@.subrange(i + 1, i + 1 + lc_bytes().len()));
            } else {
                if w == lc_bytes() {
                    assert(t@.subrange(i + 1, i + 1 + lc_bytes().len()) =~= w);
                }
            }
        }
        if is_fc {
            match pc_parts(t, e) {
                None => None,
                Some(mut p) => {
                    p.first_child = true;
                    Some(p)
                },
            }
        } else if is_lc {
            match pc_parts(t, e) {
                None => None,
                Some(mut p) => {
                    p.last_child = true;
                    Some(p)
                },
            }
        } else {
            None
        }
    } else if b == 91 {
        let e = name_end(t, i + 1);
        if e == i + 1 || e >= n {
            return None;
        }
        let name = sub_vec(t, i + 1, e);
        if t[e] == 93 {
            match pc_parts(t, e + 1) {
                None => None,
                Some(mut p) => {
                    let empty_value: Vec<u8> = Vec::new();
                    proof {
                        assert(empty_value@ =~= Seq::<u8>::empty());
                    }
                    p.attrs.insert(0, AttrTest { name, op: AttrOp::Exists, value: empty_value });
                    proof {
                        assert(p@.attrs =~= seq![
                            AttrTestModel {
                                name: t@.subrange(i + 1, e as int),
                                op: AttrOp::Exists,
                                value: Seq::empty(),
                            },
                        ] + pc_parts_spec(t@, (e + 1) as int).unwrap().attrs);
                        assert(pc_parts_spec(t@, i as int) == Some(p@));
                    }
                    Some(p)
                },
            }
        } else {
            let (op, vs): (AttrOp, usize) = if t[e] == 61 {
                (AttrOp::Exact, e + 1)
            } else if e + 1 < n && t[e + 1] == 61 && t[e] == 126 {
                (AttrOp::Includes, e + 2)
            } else if e + 1 < n && t[e + 1] == 61 && t[e] == 94 {
                (AttrOp::Prefix, e + 2)
            } else if e + 1 < n && t[e + 1] == 61 && t[e] == 36 {
                (AttrOp::Suffix, e + 2)
            } else if e + 1 < n && t[e + 1] == 61 && t[e] == 124 {
                (AttrOp::DashMatch, e + 2)
            } else {
                return None;
            };
            if vs < n && (t[vs] == 34 || t[vs] == 39) {
                match find_byte_from(t, vs + 1, t[vs]) {
                    None => None,
                    Some(qe) => {
                        let value = sub_vec(t, vs + 1, qe);
                        if qe + 1 >= n || t[qe + 1] != 93 {
                            None
                        } else {
                            match pc_parts(t, qe + 2) {
                                None => None,
                                Some(mut p) => {
                                    p.attrs.insert(0, AttrTest { name, op, value });
                                    proof {
                                        assert(p@.attrs =~= seq![
                                            AttrTestModel {
                                                name: t@.subrange(i + 1, e as int),
                                                op,
                                                value: t@.subrange(vs + 1, qe as int),
                                            },
                                        ] + pc_parts_spec(t@, (qe + 2) as int).unwrap().attrs);
                                        assert(pc_parts_spec(t@, i as int) == Some(p@));
                                    }
                                    Some(p)
                                },
                            }
                        }
                    },
                }
            } else {
                match find_byte_from(t, vs, 93) {
                    None => None,
                    Some(ve) => {
                        let value = sub_vec(t, vs, ve);
                        match pc_parts(t, ve + 1) {
                            None => None,
                            Some(mut p) => {
                                p.attrs.insert(0, AttrTest { name, op, value });
                                proof {
                                    assert(p@.attrs =~= seq![
                                        AttrTestModel {
                                            name: t@.subrange(i + 1, e as int),
                                            op,
                                            value: t@.subrange(vs as int, ve as int),
                                        },
                                    ] + pc_parts_spec(t@, (ve + 1) as int).unwrap().attrs);
                                    assert(pc_parts_spec(t@, i as int) == Some(p@));
                                }
                                Some(p)
                            },
                        }
                    },
                }
            }
        }
    } else {
        None
    }
}

/// Parse one compound selector token.
fn parse_compound(t: &[u8]) -> (r: Option<Compound>)
    ensures
        match r {
            Some(c) => pc_spec(t@) == Some(c@),
            None => pc_spec(t@) is None,
        },
{
    if t.len() == 0 {
        return None;
    }
    let (tag, i0): (Vec<u8>, usize) = if t[0] == 42 {
        (Vec::new(), 1)
    } else {
        let e = name_end(t, 0);
        (sub_vec(t, 0, e), e)
    };
    proof {
        if t@[0] == 42 {
            assert(tag@ =~= Seq::<u8>::empty());
        }
    }
    match pc_parts(t, i0) {
        None => None,
        Some(p) => {
            let c = Compound {
                tag,
                ids: p.ids,
                classes: p.classes,
                attrs: p.attrs,
                first_child: p.first_child,
                last_child: p.last_child,
            };
            Some(c)
        },
    }
}

/// Parse a selector's level list from position `i`.
fn parse_levels(s: &[u8], i: usize) -> (r: Option<(Vec<Compound>, Vec<Combinator>)>)
    requires
        i <= s@.len(),
    ensures
        match r {
            Some(lc) => ps_levels_spec(s@, i as int) == Some(
                (
                    Seq::new(lc.0@.len(), |q: int| lc.0@[q]@),
                    Seq::new(lc.1@.len(), |q: int| lc.1@[q]),
                ),
            ),
            None => ps_levels_spec(s@, i as int) is None,
        },
    decreases s@.len() - i,
{
    let n = s.len();
    let j = ws_end(s, i);
    if j >= n || s[j] == 62 {
        return None;
    }
    let e = token_end(s, j);
    if e == j {
        return None;
    }
    let token = sub_vec(s, j, e);
    let c = match parse_compound(token.as_slice()) {
        None => {
            return None;
        },
        Some(c) => c,
    };
    let k = ws_end(s, e);
    if k >= n {
        let mut ls: Vec<Compound> = Vec::new();
        let cs: Vec<Combinator> = Vec::new();
        ls.push(c);
        proof {
            assert(Seq::new(ls@.len(), |q: int| ls@[q]@) =~= seq![c@]);
            assert(Seq::new(cs@.len(), |q: int| cs@[q]) =~= Seq::<Combinator>::empty());
        }
        Some((ls, cs))
    } else if s[k] == 62 {
        match parse_levels(s, k + 1) {
            None => None,
            Some((mut ls, mut cs)) => {
                let ghost ls0 = Seq::new(ls@.len(), |q: int| ls@[q]@);
                let ghost cs0 = Seq::new(cs@.len(), |q: int| cs@[q]);
                ls.insert(0, c);
                cs.insert(0, Combinator::Child);
                proof {
                    assert(Seq::new(ls@.len(), |q: int| ls@[q]@) =~= seq![c@] + ls0);
                    assert(Seq::new(cs@.len(), |q: int| cs@[q]) =~= seq![Combinator::Child]
                        + cs0);
                }
                Some((ls, cs))
            },
        }
    } else {
        match parse_levels(s, k) {
            None => None,
            Some((mut ls, mut cs)) => {
                let ghost ls0 = Seq::new(ls@.len(), |q: int| ls@[q]@);
                let ghost cs0 = Seq::new(cs@.len(), |q: int| cs@[q]);
                ls.insert(0, c);
                cs.insert(0, Combinator::Descendant);
                proof {
                    assert(Seq::new(ls@.len(), |q: int| ls@[q]@) =~= seq![c@] + ls0);
                    assert(Seq::new(cs@.len(), |q: int| cs@[q]) =~= seq![Combinator::Descendant]
                        + cs0);
                }
                Some((ls, cs))
            },
        }
    }
}

/// Parse a selector from its text. Returns the parsed selector exactly when
/// the text fits the supported grammar; an unparsable selector yields `None`,
/// never an error.
pub fn parse_selector(s: &[u8]) -> (r: Option<Selector>)
    ensures
        match r {
            Some(sel) => parse_selector_spec(s@) == Some(sel@) && sel.wf(),
            None => parse_selector_spec(s@) is None,
        },
{
    match parse_levels(s, 0) {
        None => None,
        Some((ls, cs)) => {
            proof {
                lemma_ps_levels_wf(s@, 0);
            }
            Some(Selector { levels: ls, combs: cs })
        },
    }
}

/// The first element in document order the selector matches, if any.
pub fn query(d: &DomSnapshot, sel: &Selector) -> (r: Option<usize>)
    requires
        d.wf(),
        sel.wf(),
    ensures
        match r {
            Some(i) => i < d@.len() && sel_matches(d@, sel@, i as int) && forall|q: int|
                0 <= q < i ==> !sel_matches(d@, sel@, q),
            None => forall|q: int| 0 <= q < d@.len() ==> !sel_matches(d@, sel@, q),
        },
{
    let n = d.len();
    let mut i: usize = 0;
    while i < n
        invariant
            i <= n,
            n == d@.len(),
            d.wf(),
            sel.wf(),
            forall|q: int| 0 <= q < i ==> !sel_matches(d@, sel@, q),
        decreases n - i,
    {
        if element_matches(d, i, sel) {
            return Some(i);
        }
        i = i + 1;
    }
    None
}

} // verus!
