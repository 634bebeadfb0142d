//! Stylesheet collection: which sheets a document pulls in, and URL
//! resolution for linked sheets.
//!
//! The fetching itself is transport work done by the host; this module
//! decides what to fetch and in what order. Inline `<style>` blocks come
//! first, in document order, then linked sheets in link order, which is the
//! cascade tie-break order.

use vstd::prelude::*;
use crate::dom::DomSnapshot;
use crate::dom::ElemModel;
use crate::dom::bytes_eq;
use crate::selector::attrs_value;
use crate::selector::find_attr;
use crate::stack_trace::trim_spec;
use crate::stack_trace::trim_bytes;

verus! {

pub open spec fn style_tag() -> Seq<u8> {
    seq![115u8, 116u8, 121u8, 108u8, 101u8]
}

pub open spec fn link_tag() -> Seq<u8> {
    seq![108u8, 105u8, 110u8, 107u8]
}

pub open spec fn rel_name() -> Seq<u8> {
    seq![114u8, 101u8, 108u8]
}

pub open spec fn stylesheet_value() -> Seq<u8> {
    seq![115u8, 116u8, 121u8, 108u8, 101u8, 115u8, 104u8, 101u8, 101u8, 116u8]
}

pub open spec fn href_name() -> Seq<u8> {
    seq![104u8, 114u8, 101u8, 102u8]
}

/// An inline `<style>` element with non-blank text.
pub open spec fn is_style_elem(e: ElemModel) -> bool {
    e.tag == style_tag() && trim_spec(e.text).len() > 0
}

/// A `<link rel="stylesheet">` element with an `href`.
pub open spec fn is_css_link(e: ElemModel) -> bool {
    &&& e.tag == link_tag()
    &&& attrs_value(e.attrs, rel_name()) == Some(stylesheet_value())
    &&& attrs_value(e.attrs, href_name()) is Some
}

/// The inline style texts of a snapshot, in document order.
pub open spec fn inline_styles(d: Seq<ElemModel>) -> Seq<Seq<u8>>
    decreases d.len(),
{
    if d.len() == 0 {
        Seq::empty()
    } else {
        inline_styles(d.drop_last()) + (if is_style_elem(d.last()) {
            seq![d.last().text]
        } else {
            Seq::empty()
        })
    }
}

/// The `href` values of linked stylesheets, in document order.
pub open spec fn link_hrefs(d: Seq<ElemModel>) -> Seq<Seq<u8>>
    decreases d.len(),
{
    if d.len() == 0 {
        Seq::empty()
    } else {
        link_hrefs(d.drop_last()) + (if is_css_link(d.last()) {
            seq![attrs_value(d.last().attrs, href_name()).unwrap()]
        } else {
            Seq::empty()
        })
    }
}

/// The models of a list of byte strings.
pub open spec fn texts_model(s: Seq<Vec<u8>>) -> Seq<Seq<u8>> {
    Seq::new(s.len(), |i: int| s[i]@)
}

/// Collect the stylesheet sources a document names: the inline style texts,
/// and the raw `href` values of linked sheets, each in document order.
pub fn stylesheet_sources(d: &DomSnapshot) -> (r: (Vec<Vec<u8>>, Vec<Vec<u8>>))
    ensures
        texts_model(r.0@) == inline_styles(d@),
        texts_model(r.1@) == link_hrefs(d@),
{
    let mut inline: Vec<Vec<u8>> = Vec::new();
    let mut hrefs: Vec<Vec<u8>> = Vec::new();
    let style_lit: Vec<u8> = vec![115u8, 116u8, 121u8, 108u8, 101u8];
    let link_lit: Vec<u8> = vec![108u8, 105u8, 110u8, 107u8];
    let rel_lit: Vec<u8> = vec![114u8, 101u8, 108u8];
    let sheet_lit: Vec<u8> = vec![
        115u8,
        116u8,
        121u8,
        108u8,
        101u8,
        115u8,
        104u8,
        101u8,
        101u8,
        116u8,
    ];
    let href_lit: Vec<u8> = vec![104u8, 114u8, 101u8, 102u8];
    proof {
        assert(style_lit@ =~= style_tag());
        assert(link_lit@ =~= link_tag());
        assert(rel_lit@ =~= rel_name());
        assert(sheet_lit@ =~= stylesheet_value());
        assert(href_lit@ =~= href_name());
        assert(texts_model(inline@) =~= inline_styles(d@.subrange(0, 0)));
        assert(texts_model(hrefs@) =~= link_hrefs(d@.subrange(0, 0)));
    }
    let n = d.len();
    let mut i: usize = 0;
    while i < n
        invariant
            i <= n,
            n == d@.len(),
            style_lit@ == style_tag(),
            link_lit@ == link_tag(),
            rel_lit@ == rel_name(),
            sheet_lit@ == stylesheet_value(),
            href_lit@ == href_name(),
            texts_model(inline@) == inline_styles(d@.subrange(0, i as int)),
            texts_model(hrefs@) == link_hrefs(d@.subrange(0, i as int)),
        decreases n - i,
    {
        let e = &d.elements[i];
        proof {
            assert(d@.subrange(0, i + 1).drop_last() =~= d@.subrange(0, i as int));
            assert(d@.subrange(0, i + 1).last() == d@[i as int]);
            assert(d@[i as int].attrs =~= Seq::new(
                e.attributes@.len(),
                |q: int| (e.attributes@[q].name@, e.attributes@[q].value@),
            ));
        }
        let ghost prev_inline = inline@;
        let ghost prev_hrefs = hrefs@;
        if bytes_eq(e.tag.as_slice(), style_lit.as_slice()) {
            let trimmed = trim_bytes(e.text.as_slice());
            if trimmed.len() > 0 {
                let text = e.text.clone();
                proof {
                    assert(text@ =~= d@[i as int].text);
                }
                inline.push(text);
            }
        }
        if bytes_eq(e.tag.as_slice(), link_lit.as_slice()) {
            match find_attr(&e.attributes, rel_lit.as_slice()) {
                Some(rix) => {
                    if bytes_eq(e.attributes[rix].value.as_slice(), sheet_lit.as_slice()) {
                        match find_attr(&e.attributes, href_lit.as_slice()) {
                            Some(hix) => {
                                let href = e.attributes[hix].value.clone();
                                proof {
                                    assert(href@ =~= e.attributes@[hix as int].value@);
                                }
                                hrefs.push(href);
                            },
                            None => {},
                        }
                    }
                },
                None => {},
            }
        }
        proof {
            assert(texts_model(inline@) =~= inline_styles(d@.subrange(0, i + 1)));
            assert(texts_model(hrefs@) =~= link_hrefs(d@.subrange(0, i + 1)));
        }
        i = i + 1;
    }
    proof {
        assert(d@.subrange(0, n as int) =~= d@);
    }
    (inline, hrefs)
}

/// The first element carrying the given tag, if any.
pub open spec fn first_with_tag(d: Seq<ElemModel>, tag: Seq<u8>) -> Option<int>
    decreases d.len(),
{
    if d.len() == 0 {
        None
    } else if d[0].tag == tag {
        Some(0)
    } else {
        match first_with_tag(d.subrange(1, d.len() as int), tag) {
            None => None,
            Some(i) => Some(i + 1),
        }
    }
}

proof fn lemma_first_with_tag_scan(d: Seq<ElemModel>, tag: Seq<u8>, ix: int)
    requires
        0 <= ix <= d.len(),
        forall|k: int| 0 <= k < ix ==> (#[trigger] d[k]).tag != tag,
        ix == d.len() || d[ix].tag == tag,
    ensures
        first_with_tag(d, tag) == if ix == d.len() {
            None::<int>
        } else {
            Some(ix)
        },
    decreases d.len(),
{
    if d.len() > 0 && ix > 0 {
        let tail = d.subrange(1, d.len() as int);
        assert(forall|k: int| 0 <= k < tail.len() ==> #[trigger] tail[k] == d[k + 1]);
        lemma_first_with_tag_scan(tail, tag, ix - 1);
    }
}

/// The concatenated text of the first element with the given tag, or empty
/// when the document has none. This answers title and body-text queries.
pub fn first_tag_text(d: &DomSnapshot, tag: &[u8]) -> (r: Vec<u8>)
    ensures
        r@ == match first_with_tag(d@, tag@) {
            Some(i) => d@[i].text,
            None => Seq::<u8>::empty(),
        },
{
    let n = d.elements.len();
    let mut i: usize = 0;
    while i < n
        invariant
            i <= n,
            n == d.elements@.len(),
            d@.len() == n,
            forall|k: int| 0 <= k < i ==> (#[trigger] d@[k]).tag != tag@,
        decreases n - i,
    {
        if bytes_eq(d.elements[i].tag.as_slice(), tag) {
            proof {
                lemma_first_with_tag_scan(d@, tag@, i as int);
            }
            let text = d.elements[i].text.clone();
            proof {
                assert(text@ =~= d@[i as int].text);
            }
            return text;
        }
        i = i + 1;
    }
    proof {
        lemma_first_with_tag_scan(d@, tag@, n as int);
    }
    let empty: Vec<u8> = Vec::new();
    proof {
        assert(empty@ =~= Seq::<u8>::empty());
    }
    empty
}

/// What resolving `href` against `base` yields: the joined absolute URL
/// where both parse, else the raw `href`. A function of the two texts alone.
pub uninterp spec fn resolved_url_of(base: Seq<u8>, href: Seq<u8>) -> Seq<char>;

/// Relies on url::Url::parse and Url::join: resolving an `href` against a
/// base URL is deterministic in the two texts; on a parse or join failure
/// the raw `href` is kept.
#[verifier::external_body]
pub fn resolve_url(base: &[u8], href: &[u8]) -> (r: String)
    ensures
        r@ == resolved_url_of(base@, href@),
{
    let base_s = String::from_utf8_lossy(base).into_owned();
    let href_s = String::from_utf8_lossy(href).into_owned();
    match url::Url::parse(&base_s) {
        Ok(b) => match b.join(&href_s) {
            Ok(u) => u.to_string(),
            Err(_) => href_s,
        },
        Err(_) => href_s,
    }
}

/// Resolve every linked-sheet `href` against the page URL, in link order.
pub fn resolve_all(base: &[u8], hrefs: &Vec<Vec<u8>>) -> (r: Vec<String>)
    ensures
        r@.len() == hrefs@.len(),
        forall|i: int|
            0 <= i < hrefs@.len() ==> (#[trigger] r@[i])@ == resolved_url_of(
                base@,
                hrefs@[i]@,
            ),
{
    let mut r: Vec<String> = Vec::new();
    let n = hrefs.len();
    let mut i: usize = 0;
    while i < n
        invariant
            i <= n,
            n == hrefs@.len(),
            r@.len() == i,
            forall|q: int|
                0 <= q < i ==> (#[trigger] r@[q])@ == resolved_url_of(base@, hrefs@[q]@),
        decreases n - i,
    {
        let u = resolve_url(base, hrefs[i].as_slice());
        r.push(u);
        i = i + 1;
    }
    r
}

} // verus!
