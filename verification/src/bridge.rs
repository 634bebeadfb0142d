//! Bridge-script assembly: serializing the DOM snapshot and style list into
//! JSON for the script-side mirror, and wrapping caller code so a thrown
//! exception surfaces as a script error.

use vstd::prelude::*;
use crate::dom::DomSnapshot;
use crate::dom::ElemModel;
use crate::dom::ElementSnapshot;
use crate::net::texts_model;
use crate::worker::JobSpec;
use crate::worker::Supervisor;

verus! {

/// A hexadecimal digit (lower case).
pub open spec fn hex_digit(n: u8) -> u8 {
    if n < 10 {
        (48 + n) as u8
    } else {
        (87 + n) as u8
    }
}

/// The JSON escape of one byte: quotes and backslashes are escaped, common
/// control bytes get their short forms, other control bytes a `\u00xx` form,
/// and everything else passes through.
pub open spec fn esc_byte(b: u8) -> Seq<u8> {
    if b == 34 {
        seq![92u8, 34u8]
    } else if b == 92 {
        seq![92u8, 92u8]
    } else if b == 10 {
        seq![92u8, 110u8]
    } else if b == 13 {
        seq![92u8, 114u8]
    } else if b == 9 {
        seq![92u8, 116u8]
    } else if b < 32 {
        seq![92u8, 117u8, 48u8, 48u8, hex_digit(b / 16), hex_digit(b % 16)]
    } else {
        seq![b]
    }
}

/// The JSON escape of a byte string.
pub open spec fn json_escape(s: Seq<u8>) -> Seq<u8>
    decreases s.len(),
{
    if s.len() == 0 {
        Seq::empty()
    } else {
        json_escape(s.drop_last()) + esc_byte(s.last())
    }
}

/// A quoted, escaped JSON string.
pub open spec fn json_string(s: Seq<u8>) -> Seq<u8> {
    seq![34u8] + json_escape(s) + seq![34u8]
}

/// One `[name, value]` attribute pair.
pub open spec fn attr_pair_json(a: (Seq<u8>, Seq<u8>)) -> Seq<u8> {
    seq![91u8] + json_string(a.0) + seq![44u8] + json_string(a.1) + seq![93u8]
}

/// Comma-joined attribute pairs.
pub open spec fn attr_items_json(attrs: Seq<(Seq<u8>, Seq<u8>)>) -> Seq<u8>
    decreases attrs.len(),
{
    if attrs.len() == 0 {
        Seq::empty()
    } else if attrs.len() == 1 {
        attr_pair_json(attrs[0])
    } else {
        attr_items_json(attrs.drop_last()) + seq![44u8] + attr_pair_json(attrs.last())
    }
}

pub open spec fn attrs_json(attrs: Seq<(Seq<u8>, Seq<u8>)>) -> Seq<u8> {
    seq![91u8] + attr_items_json(attrs) + seq![93u8]
}

pub open spec fn lit_tag() -> Seq<u8> {
    seq![123u8, 34u8, 116u8, 97u8, 103u8, 34u8, 58u8]
}

pub open spec fn lit_id() -> Seq<u8> {
    seq![44u8, 34u8, 105u8, 100u8, 34u8, 58u8]
}

pub open spec fn lit_class() -> Seq<u8> {
    seq![44u8, 34u8, 99u8, 108u8, 97u8, 115u8, 115u8, 34u8, 58u8]
}

pub open spec fn lit_text() -> Seq<u8> {
    seq![44u8, 34u8, 116u8, 101u8, 120u8, 116u8, 34u8, 58u8]
}

pub open spec fn lit_attributes() -> Seq<u8> {
    seq![
        44u8,
        34u8,
        97u8,
        116u8,
        116u8,
        114u8,
        105u8,
        98u8,
        117u8,
        116u8,
        101u8,
        115u8,
        34u8,
        58u8,
    ]
}

pub open spec fn lit_parent() -> Seq<u8> {
    seq![44u8, 34u8, 112u8, 97u8, 114u8, 101u8, 110u8, 116u8, 34u8, 58u8]
}

pub open spec fn lit_null() -> Seq<u8> {
    seq![110u8, 117u8, 108u8, 108u8]
}

/// The JSON form of a parent index: the number, or `null` at the root.
pub open spec fn parent_json(p: Option<int>) -> Seq<u8> {
    match p {
        Some(n) => crate::worker::dec_bytes(n as u64),
        None => lit_null(),
    }
}

/// The JSON object for one snapshot entry.
pub open spec fn elem_json(e: ElemModel) -> Seq<u8> {
    lit_tag() + json_string(e.tag) + lit_id() + json_string(e.id) + lit_class() + json_string(
        e.class,
    ) + lit_text() + json_string(e.text) + lit_attributes() + attrs_json(e.attrs) + lit_parent()
        + parent_json(e.parent) + seq![125u8]
}

/// Comma-joined element objects.
pub open spec fn elem_items_json(d: Seq<ElemModel>) -> Seq<u8>
    decreases d.len(),
{
    if d.len() == 0 {
        Seq::empty()
    } else if d.len() == 1 {
        elem_json(d[0])
    } else {
        elem_items_json(d.drop_last()) + seq![44u8] + elem_json(d.last())
    }
}

/// The JSON array of all snapshot entries, in document order.
pub open spec fn elements_json(d: Seq<ElemModel>) -> Seq<u8> {
    seq![91u8] + elem_items_json(d) + seq![93u8]
}

/// Comma-joined stylesheet strings.
pub open spec fn style_items_json(sheets: Seq<Seq<u8>>) -> Seq<u8>
    decreases sheets.len(),
{
    if sheets.len() == 0 {
        Seq::empty()
    } else if sheets.len() == 1 {
        json_string(sheets[0])
    } else {
        style_items_json(sheets.drop_last()) + seq![44u8] + json_string(sheets.last())
    }
}

/// The JSON array of the stylesheet texts, in cascade order.
pub open spec fn styles_json(sheets: Seq<Seq<u8>>) -> Seq<u8> {
    seq![91u8] + style_items_json(sheets) + seq![93u8]
}

/// What wraps caller code after the harness: a separator, then an
/// immediately-invoked function that returns the expression and lets a
/// thrown exception surface as the script error.
pub open spec fn wrap_prefix() -> Seq<u8> {
    seq![
        10u8, 59u8, 10u8, 40u8, 102u8, 117u8, 110u8, 99u8, 116u8, 105u8, 111u8, 110u8, 40u8,
        41u8, 123u8, 116u8, 114u8, 121u8, 123u8, 114u8, 101u8, 116u8, 117u8, 114u8, 110u8, 32u8,
        40u8,
    ]
}

pub open spec fn wrap_suffix() -> Seq<u8> {
    seq![
        41u8, 59u8, 125u8, 99u8, 97u8, 116u8, 99u8, 104u8, 40u8, 101u8, 41u8, 123u8, 116u8,
        104u8, 114u8, 111u8, 119u8, 32u8, 101u8, 59u8, 125u8, 125u8, 41u8, 40u8, 41u8,
    ]
}

/// The full source of one evaluation: harness, then the wrapped caller code.
pub open spec fn evaluation_source(prelude: Seq<u8>, script: Seq<u8>) -> Seq<u8> {
    prelude + wrap_prefix() + script + wrap_suffix()
}

/// Append a copy of `s`.
fn push_seq(out: &mut Vec<u8>, s: &[u8])
    ensures
        final(out)@ == old(out)@ + s@,
{
    let n = s.len();
    let mut i: usize = 0;
    while i < n
        invariant
            i <= n,
            n == s@.len(),
            out@ == old(out)@ + s@.subrange(0, i as int),
        decreases n - i,
    {
        out.push(s[i]);
        proof {
            assert(out@ =~= old(out)@ + s@.subrange(0, i + 1));
        }
        i = i + 1;
    }
    proof {
        assert(s@.subrange(0, n as int) =~= s@);
    }
}

/// Append the JSON escape of `s`.
fn push_escaped(out: &mut Vec<u8>, s: &[u8])
    ensures
        final(out)@ == old(out)@ + json_escape(s@),
{
    let n = s.len();
    let mut i: usize = 0;
    proof {
        assert(s@.subrange(0, 0) =~= Seq::<u8>::empty());
    }
    while i < n
        invariant
            i <= n,
            n == s@.len(),
            out@ == old(out)@ + json_escape(s@.subrange(0, i as int)),
        decreases n - i,
    {
        let b = s[i];
        let ghost prefix = s@.subrange(0, i as int);
        proof {
            assert(s@.subrange(0, i + 1).drop_last() =~= prefix);
            assert(s@.subrange(0, i + 1).last() == s@[i as int]);
        }
        if b == 34 {
            out.push(92);
            out.push(34);
        } else if b == 92 {
            out.push(92);
            out.push(92);
        } else if b == 10 {
            out.push(92);
            out.push(110);
        } else if b == 13 {
            out.push(92);
            out.push(114);
        } else if b == 9 {
            out.push(92);
            out.push(116);
        } else if b < 32 {
            out.push(92);
            out.push(117);
            out.push(48);
            out.push(48);
            let hi = b / 16;
            let lo = b % 16;
            out.push(
                if hi < 10 {
                    48 + hi
                } else {
                    87 + hi
                },
            );
            out.push(
                if lo < 10 {
                    48 + lo
                } else {
                    87 + lo
                },
            );
        } else {
            out.push(b);
        }
        proof {
            assert(out@ =~= old(out)@ + json_escape(s@.subrange(0, i + 1)));
        }
        i = i + 1;
    }
    proof {
        assert(s@.subrange(0, n as int) =~= s@);
    }
}

/// Append a quoted, escaped JSON string.
fn push_json_string(out: &mut Vec<u8>, s: &[u8])
    ensures
        final(out)@ == old(out)@ + json_string(s@),
{
    out.push(34);
    push_escaped(out, s);
    out.push(34);
    proof {
        assert(out@ =~= old(out)@ + json_string(s@));
    }
}

/// Append one serialized snapshot entry.
#[verifier::rlimit(60)]
fn push_element(out: &mut Vec<u8>, e: &ElementSnapshot)
    ensures
        final(out)@ == old(out)@ + elem_json(e@),
{
    let l_tag: Vec<u8> = vec![123u8, 34u8, 116u8, 97u8, 103u8, 34u8, 58u8];
    let l_id: Vec<u8> = vec![44u8, 34u8, 105u8, 100u8, 34u8, 58u8];
    let l_class: Vec<u8> = vec![44u8, 34u8, 99u8, 108u8, 97u8, 115u8, 115u8, 34u8, 58u8];
    let l_text: Vec<u8> = vec![44u8, 34u8, 116u8, 101u8, 120u8, 116u8, 34u8, 58u8];
    let l_attrs: Vec<u8> = vec![
        44u8,
        34u8,
        97u8,
        116u8,
        116u8,
        114u8,
        105u8,
        98u8,
        117u8,
        116u8,
        101u8,
        115u8,
        34u8,
        58u8,
    ];
    let l_parent: Vec<u8> = vec![44u8, 34u8, 112u8, 97u8, 114u8, 101u8, 110u8, 116u8, 34u8, 58u8];
    let l_null: Vec<u8> = vec![110u8, 117u8, 108u8, 108u8];
    proof {
        assert(l_tag@ =~= lit_tag());
        assert(l_id@ =~= lit_id());
        assert(l_class@ =~= lit_class());
        assert(l_text@ =~= lit_text());
        assert(l_attrs@ =~= lit_attributes());
        assert(l_parent@ =~= lit_parent());
        assert(l_null@ =~= lit_null());
    }
    push_seq(out, l_tag.as_slice());
    push_json_string(out, e.tag.as_slice());
    push_seq(out, l_id.as_slice());
    push_json_string(out, e.id.as_slice());
    push_seq(out, l_class.as_slice());
    push_json_string(out, e.class.as_slice());
    push_seq(out, l_text.as_slice());
    push_json_string(out, e.text.as_slice());
    push_seq(out, l_attrs.as_slice());
    // attributes array
    out.push(91);
    let na = e.attributes.len();
    let ghost amodel = e@.attrs;
    proof {
        assert(amodel.len() == na);
        assert(amodel.subrange(0, 0) =~= Seq::<(Seq<u8>, Seq<u8>)>::empty());
    }
    let ghost mid = out@;
    let mut ai: usize = 0;
    while ai < na
        invariant
            ai <= na,
            na == e.attributes@.len(),
            amodel == e@.attrs,
            amodel.len() == na,
            out@ == mid + attr_items_json(amodel.subrange(0, ai as int)),
        decreases na - ai,
    {
        proof {
            assert(amodel.subrange(0, ai + 1).drop_last() =~= amodel.subrange(0, ai as int));
            assert(amodel.subrange(0, ai + 1).last() == amodel[ai as int]);
            assert(amodel[ai as int] == (e.attributes@[ai as int].name@, e.attributes@[ai as int].value@));
        }
        if ai > 0 {
            out.push(44);
        }
        out.push(91);
        push_json_string(out, e.attributes[ai].name.as_slice());
        out.push(44);
        push_json_string(out, e.attributes[ai].value.as_slice());
        out.push(93);
        proof {
            assert(out@ =~= mid + attr_items_json(amodel.subrange(0, ai + 1)));
        }
        ai = ai + 1;
    }
    proof {
        assert(amodel.subrange(0, na as int) =~= amodel);
    }
    out.push(93);
    push_seq(out, l_parent.as_slice());
    match e.parent {
        Some(p) => {
            crate::worker::push_dec(out, p as u64);
        },
        None => {
            push_seq(out, l_null.as_slice());
        },
    }
    out.push(125);
    proof {
        assert(out@ =~= old(out)@ + elem_json(e@));
    }
}

/// Serialize the snapshot into the JSON array the bridge script mirrors.
pub fn serialize_elements(d: &DomSnapshot) -> (r: Vec<u8>)
    ensures
        r@ == elements_json(d@),
{
    let mut out: Vec<u8> = Vec::new();
    out.push(91);
    let n = d.elements.len();
    let ghost mid = out@;
    proof {
        assert(d@.subrange(0, 0) =~= Seq::<ElemModel>::empty());
    }
    let mut i: usize = 0;
    while i < n
        invariant
            i <= n,
            n == d.elements@.len(),
            d@.len() == n,
            out@ == mid + elem_items_json(d@.subrange(0, i as int)),
        decreases n - i,
    {
        proof {
            assert(d@.subrange(0, i + 1).drop_last() =~= d@.subrange(0, i as int));
            assert(d@.subrange(0, i + 1).last() == d@[i as int]);
        }
        if i > 0 {
            out.push(44);
        }
        push_element(&mut out, &d.elements[i]);
        proof {
            assert(out@ =~= mid + elem_items_json(d@.subrange(0, i + 1)));
        }
        i = i + 1;
    }
    proof {
        assert(d@.subrange(0, n as int) =~= d@);
    }
    out.push(93);
    proof {
        assert(out@ =~= elements_json(d@));
    }
    out
}

/// Serialize the stylesheet texts into a JSON array, in cascade order.
pub fn serialize_styles(sheets: &Vec<Vec<u8>>) -> (r: Vec<u8>)
    ensures
        r@ == styles_json(texts_model(sheets@)),
{
    let mut out: Vec<u8> = Vec::new();
    out.push(91);
    let n = sheets.len();
    let ghost model = texts_model(sheets@);
    let ghost mid = out@;
    proof {
        assert(model.subrange(0, 0) =~= Seq::<Seq<u8>>::empty());
    }
    let mut i: usize = 0;
    while i < n
        invariant
            i <= n,
            n == sheets@.len(),
            model == texts_model(sheets@),
            model.len() == n,
            out@ == mid + style_items_json(model.subrange(0, i as int)),
        decreases n - i,
    {
        proof {
            assert(model.subrange(0, i + 1).drop_last() =~= model.subrange(0, i as int));
            assert(model.subrange(0, i + 1).last() == model[i as int]);
        }
        if i > 0 {
            out.push(44);
        }
        push_json_string(&mut out, sheets[i].as_slice());
        proof {
            assert(out@ =~= mid + style_items_json(model.subrange(0, i + 1)));
        }
        i = i + 1;
    }
    proof {
        assert(model.subrange(0, n as int) =~= model);
    }
    out.push(93);
    proof {
        assert(out@ =~= styles_json(model));
    }
    out
}

/// A quoted, escaped JSON string value for a byte text.
pub fn json_string_bytes(s: &[u8]) -> (r: Vec<u8>)
    ensures
        r@ == json_string(s@),
{
    let mut out: Vec<u8> = Vec::new();
    push_json_string(&mut out, s);
    proof {
        assert(out@ =~= json_string(s@));
    }
    out
}

/// Concatenate the harness prelude and the wrapped caller code into the
/// source of one evaluation.
pub fn compose_evaluation(prelude: &[u8], script: &[u8]) -> (r: Vec<u8>)
    ensures
        r@ == evaluation_source(prelude@, script@),
{
    let pre: Vec<u8> = vec![
        10u8, 59u8, 10u8, 40u8, 102u8, 117u8, 110u8, 99u8, 116u8, 105u8, 111u8, 110u8, 40u8,
        41u8, 123u8, 116u8, 114u8, 121u8, 123u8, 114u8, 101u8, 116u8, 117u8, 114u8, 110u8, 32u8,
        40u8,
    ];
    let suf: Vec<u8> = vec![
        41u8, 59u8, 125u8, 99u8, 97u8, 116u8, 99u8, 104u8, 40u8, 101u8, 41u8, 123u8, 116u8,
        104u8, 114u8, 111u8, 119u8, 32u8, 101u8, 59u8, 125u8, 125u8, 41u8, 40u8, 41u8,
    ];
    proof {
        assert(pre@ =~= wrap_prefix());
        assert(suf@ =~= wrap_suffix());
    }
    let mut out: Vec<u8> = Vec::new();
    push_seq(&mut out, prelude);
    push_seq(&mut out, pre.as_slice());
    push_seq(&mut out, script);
    push_seq(&mut out, suf.as_slice());
    proof {
        assert(out@ =~= evaluation_source(prelude@, script@));
    }
    out
}

/// Build the job for one evaluation: the composed source with exactly the
/// configured loop-iteration and recursion limits.
pub fn make_job(sup: &Supervisor, code: Vec<u8>) -> (j: JobSpec)
    ensures
        j.code@ == code@,
        j.loop_limit == sup.loop_limit,
        j.recursion_limit == sup.recursion_limit,
{
    let ghost cm = code@;
    let j = JobSpec { code, loop_limit: sup.loop_limit, recursion_limit: sup.recursion_limit };
    j
}

} // verus!
