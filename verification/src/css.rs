//! CSS rule parsing, specificity, and cascade resolution.
//!
//! A stylesheet is a sequence of `selector { property: value; ... }` blocks.
//! Resolution ranks every declaration whose selector matches the target
//! element by (specificity, source order), highest specificity first, later
//! declarations winning ties; the winning value is color-normalized.

use vstd::prelude::*;
use crate::dom::DomSnapshot;
use crate::dom::ElemModel;
use crate::dom::bytes_eq;
use crate::selector::CompoundModel;
use crate::selector::Selector;
use crate::selector::SelectorModel;
use crate::selector::element_matches;
use crate::selector::find_off;
use crate::selector::parse_selector;
use crate::selector::parse_selector_spec;
use crate::selector::sel_matches;
use crate::stack_trace::trim_spec;
use crate::stack_trace::trim_bytes;

verus! {

/// One `property: value` declaration.
#[derive(Debug)]
pub struct Declaration {
    pub name: Vec<u8>,
    pub value: Vec<u8>,
}

/// One `selector { declarations }` block, with its selector kept as text.
#[derive(Debug)]
pub struct CssRule {
    pub selector: Vec<u8>,
    pub decls: Vec<Declaration>,
}

pub ghost struct RuleModel {
    pub sel: Seq<u8>,
    pub decls: Seq<(Seq<u8>, Seq<u8>)>,
}

impl View for CssRule {
    type V = RuleModel;

    open spec fn view(&self) -> RuleModel {
        RuleModel {
            sel: self.selector@,
            decls: Seq::new(self.decls@.len(), |i: int| (self.decls@[i].name@, self.decls@[i].value@)),
        }
    }
}

/// The declarations of one block body, split on `;`, each split on the first
/// `:` into a trimmed property and a trimmed value; segments without a colon
/// or with an empty property are dropped.
pub open spec fn parse_decls_spec(t: Seq<u8>, i: int) -> Seq<(Seq<u8>, Seq<u8>)>
    decreases t.len() - i,
{
    if i < 0 || i >= t.len() {
        Seq::empty()
    } else {
        let se = match find_off(t, i, 59) {
            Some(off) => i + off,
            None => t.len() as int,
        };
        let seg = t.subrange(i, if se > t.len() {
            t.len() as int
        } else {
            se
        });
        let here = match find_off(seg, 0, 58) {
            Some(c) => {
                let prop = trim_spec(seg.subrange(0, c as int));
                let val = trim_spec(seg.subrange(c + 1 as int, seg.len() as int));
                if prop.len() > 0 {
                    seq![(prop, val)]
                } else {
                    Seq::empty()
                }
            },
            None => Seq::empty(),
        };
        if se + 1 > t.len() || se < i {
            here
        } else {
            here + parse_decls_spec(t, se + 1)
        }
    }
}

/// The rule blocks of one stylesheet from position `i`: text up to `{` is the
/// selector, text up to the matching `}` is the declaration body; an
/// unterminated block is dropped.
pub open spec fn parse_rules_spec(s: Seq<u8>, i: int) -> Seq<RuleModel>
    decreases s.len() - i,
{
    if i < 0 || i >= s.len() {
        Seq::empty()
    } else {
        match find_off(s, i, 123) {
            None => Seq::empty(),
            Some(ob_off) => {
                let ob = i + ob_off;
                match find_off(s, ob + 1, 125) {
                    None => Seq::empty(),
                    Some(cb_off) => {
                        let cb = ob + 1 + cb_off;
                        let rule = RuleModel {
                            sel: trim_spec(s.subrange(i, if ob > s.len() {
                                s.len() as int
                            } else {
                                ob
                            })),
                            decls: parse_decls_spec(
                                s.subrange(
                                    if ob + 1 > s.len() {
                                        s.len() as int
                                    } else {
                                        ob + 1
                                    },
                                    if cb > s.len() {
                                        s.len() as int
                                    } else {
                                        cb
                                    },
                                ),
                                0,
                            ),
                        };
                        if cb + 1 > s.len() {
                            seq![rule]
                        } else {
                            seq![rule] + parse_rules_spec(s, cb + 1)
                        }
                    },
                }
            },
        }
    }
}

/// Saturating add on 64-bit counts.
pub open spec fn sat_add(a: u64, b: u64) -> u64 {
    if a + b > u64::MAX {
        u64::MAX
    } else {
        (a + b) as u64
    }
}

/// A count clamped into 64 bits.
pub open spec fn sat_u64(n: int) -> u64 {
    if n > u64::MAX {
        u64::MAX
    } else if n < 0 {
        0
    } else {
        n as u64
    }
}

/// The classic specificity triple of one compound: (id parts, class +
/// attribute + pseudo-class parts, tag parts).
pub open spec fn compound_counts(c: CompoundModel) -> (u64, u64, u64) {
    (
        sat_u64(c.ids.len() as int),
        sat_add(
            sat_add(sat_u64(c.classes.len() as int), sat_u64(c.attrs.len() as int)),
            sat_add(
                if c.first_child {
                    1
                } else {
                    0
                },
                if c.last_child {
                    1
                } else {
                    0
                },
            ),
        ),
        if c.tag.len() > 0 {
            1
        } else {
            0
        },
    )
}

/// The specificity triple summed over a selector's levels.
pub open spec fn levels_specificity(ls: Seq<CompoundModel>) -> (u64, u64, u64)
    decreases ls.len(),
{
    if ls.len() == 0 {
        (0, 0, 0)
    } else {
        let p = levels_specificity(ls.drop_last());
        let c = compound_counts(ls.last());
        (sat_add(p.0, c.0), sat_add(p.1, c.1), sat_add(p.2, c.2))
    }
}

/// The specificity of a selector.
pub open spec fn sel_specificity(sel: SelectorModel) -> (u64, u64, u64) {
    levels_specificity(sel.levels)
}

/// Lexicographic order on specificity triples.
pub open spec fn triple_ge(a: (u64, u64, u64), b: (u64, u64, u64)) -> bool {
    a.0 > b.0 || (a.0 == b.0 && (a.1 > b.1 || (a.1 == b.1 && a.2 >= b.2)))
}

/// The value of the last declaration of `prop` in a block, if any.
pub open spec fn decl_value(decls: Seq<(Seq<u8>, Seq<u8>)>, prop: Seq<u8>) -> Option<Seq<u8>>
    decreases decls.len(),
{
    if decls.len() == 0 {
        None
    } else if decls.last().0 == prop {
        Some(decls.last().1)
    } else {
        decl_value(decls.drop_last(), prop)
    }
}

/// What one rule contributes for element `i` and property `prop`: its
/// specificity and value, if its selector parses, matches, and the block
/// declares the property.
pub open spec fn rule_candidate(
    d: Seq<ElemModel>,
    i: int,
    r: RuleModel,
    prop: Seq<u8>,
) -> Option<((u64, u64, u64), Seq<u8>)> {
    match parse_selector_spec(r.sel) {
        None => None,
        Some(sel) => if sel_matches(d, sel, i) {
            match decl_value(r.decls, prop) {
                None => None,
                Some(v) => Some((sel_specificity(sel), v)),
            }
        } else {
            None
        },
    }
}

/// The winning (specificity, value) over a rule list in cascade order: a
/// later candidate replaces an earlier one unless the earlier one's
/// specificity is strictly higher.
pub open spec fn best_value(
    d: Seq<ElemModel>,
    i: int,
    rules: Seq<RuleModel>,
    prop: Seq<u8>,
) -> Option<((u64, u64, u64), Seq<u8>)>
    decreases rules.len(),
{
    if rules.len() == 0 {
        None
    } else {
        let prev = best_value(d, i, rules.drop_last(), prop);
        let cand = rule_candidate(d, i, rules.last(), prop);
        match (prev, cand) {
            (None, c) => c,
            (Some(p), None) => Some(p),
            (Some(p), Some(c)) => if triple_ge(c.0, p.0) {
                Some(c)
            } else {
                Some(p)
            },
        }
    }
}

/// All rules of a sheet list, in sheet order then block order.
pub open spec fn all_rules(sheets: Seq<Seq<u8>>) -> Seq<RuleModel>
    decreases sheets.len(),
{
    if sheets.len() == 0 {
        Seq::empty()
    } else {
        all_rules(sheets.drop_last()) + parse_rules_spec(sheets.last(), 0)
    }
}

/// A lowercased hexadecimal digit.
pub open spec fn hex_lower(b: u8) -> u8 {
    if 65 <= b <= 70 {
        (b + 32) as u8
    } else {
        b
    }
}

pub open spec fn is_hex_digit(b: u8) -> bool {
    (48 <= b <= 57) || (97 <= b <= 102) || (65 <= b <= 70)
}

/// The canonical `#rrggbb` form of a recognized color name.
pub open spec fn named_color(v: Seq<u8>) -> Option<Seq<u8>> {
    if v == seq![114u8, 101u8, 100u8] {
        // red
        Some(seq![35u8, 102u8, 102u8, 48u8, 48u8, 48u8, 48u8])
    } else if v == seq![103u8, 114u8, 101u8, 101u8, 110u8] {
        // green
        Some(seq![35u8, 48u8, 48u8, 56u8, 48u8, 48u8, 48u8])
    } else if v == seq![98u8, 108u8, 117u8, 101u8] {
        // blue
        Some(seq![35u8, 48u8, 48u8, 48u8, 48u8, 102u8, 102u8])
    } else if v == seq![98u8, 108u8, 97u8, 99u8, 107u8] {
        // black
        Some(seq![35u8, 48u8, 48u8, 48u8, 48u8, 48u8, 48u8])
    } else if v == seq![119u8, 104u8, 105u8, 116u8, 101u8] {
        // white
        Some(seq![35u8, 102u8, 102u8, 102u8, 102u8, 102u8, 102u8])
    } else if v == seq![121u8, 101u8, 108u8, 108u8, 111u8, 119u8] {
        // yellow
        Some(seq![35u8, 102u8, 102u8, 102u8, 102u8, 48u8, 48u8])
    } else if v == seq![111u8, 114u8, 97u8, 110u8, 103u8, 101u8] {
        // orange
        Some(seq![35u8, 102u8, 102u8, 97u8, 53u8, 48u8, 48u8])
    } else if v == seq![112u8, 117u8, 114u8, 112u8, 108u8, 101u8] {
        // purple
        Some(seq![35u8, 56u8, 48u8, 48u8, 48u8, 56u8, 48u8])
    } else if v == seq![103u8, 114u8, 97u8, 121u8] || v == seq![103u8, 114u8, 101u8, 121u8] {
        // gray / grey
        Some(seq![35u8, 56u8, 48u8, 56u8, 48u8, 56u8, 48u8])
    } else {
        None
    }
}

/// Colors normalized to a canonical `#rrggbb` form: recognized names are
/// replaced, `#rgb` is expanded digit by digit, `#rrggbb` is lowercased, and
/// anything else is returned unchanged.
pub open spec fn normalize_color(v: Seq<u8>) -> Seq<u8> {
    match named_color(v) {
        Some(c) => c,
        None => if v.len() == 4 && v[0] == 35 && is_hex_digit(v[1]) && is_hex_digit(v[2])
            && is_hex_digit(v[3]) {
            seq![
                35u8,
                hex_lower(v[1]),
                hex_lower(v[1]),
                hex_lower(v[2]),
                hex_lower(v[2]),
                hex_lower(v[3]),
                hex_lower(v[3]),
            ]
        } else if v.len() == 7 && v[0] == 35 {
            seq![
                35u8,
                hex_lower(v[1]),
                hex_lower(v[2]),
                hex_lower(v[3]),
                hex_lower(v[4]),
                hex_lower(v[5]),
                hex_lower(v[6]),
            ]
        } else {
            v
        },
    }
}

/// The computed value of `prop` on element `i` under the given sheets: the
/// winning declaration's color-normalized value, or empty if none applies.
pub open spec fn resolve_spec(
    d: Seq<ElemModel>,
    i: int,
    sheets: Seq<Seq<u8>>,
    prop: Seq<u8>,
) -> Seq<u8> {
    match best_value(d, i, all_rules(sheets), prop) {
        None => Seq::empty(),
        Some((rank, v)) => normalize_color(v),
    }
}

// ---------------------------------------------------------------------------
// Executable code
// ---------------------------------------------------------------------------

/// The models of a declaration list.
pub open spec fn decls_model(s: Seq<Declaration>) -> Seq<(Seq<u8>, Seq<u8>)> {
    Seq::new(s.len(), |i: int| (s[i].name@, s[i].value@))
}

/// The models of a rule list.
pub open spec fn rules_model(s: Seq<CssRule>) -> Seq<RuleModel> {
    Seq::new(s.len(), |i: int| s[i]@)
}

/// Parse the declarations of one block body from position `i`.
fn parse_decls(t: &[u8], i: usize) -> (r: Vec<Declaration>)
    requires
        i <= t@.len(),
    ensures
        decls_model(r@) == parse_decls_spec(t@, i as int),
    decreases t@.len() - i,
{
    let n = t.len();
    if i >= n {
        let r: Vec<Declaration> = Vec::new();
        proof {
            assert(decls_model(r@) =~= Seq::<(Seq<u8>, Seq<u8>)>::empty());
        }
        return r;
    }
    let se = match crate::selector::find_byte_from(t, i, 59) {
        Some(p) => p,
        None => n,
    };
    let seg = crate::selector::sub_vec(t, i, se);
    let mut here: Vec<Declaration> = Vec::new();
    match crate::selector::find_byte_from(seg.as_slice(), 0, 58) {
        Some(c) => {
            let prop_seg = crate::selector::sub_vec(seg.as_slice(), 0, c);
            let prop = trim_bytes(prop_seg.as_slice());
            let val_seg = crate::selector::sub_vec(seg.as_slice(), c + 1, seg.len());
            let val = trim_bytes(val_seg.as_slice());
            if prop.len() > 0 {
                here.push(Declaration { name: prop, value: val });
            }
        },
        None => {},
    }
    if se >= n {
        proof {
            assert(decls_model(here@) =~= parse_decls_spec(t@, i as int));
        }
        here
    } else {
        let mut rest = parse_decls(t, se + 1);
        let ghost here0 = here@;
        here.append(&mut rest);
        proof {
            assert(decls_model(here@) =~= decls_model(here0) + parse_decls_spec(
                t@,
                se + 1,
            ));
            assert(decls_model(here@) =~= parse_decls_spec(t@, i as int));
        }
        here
    }
}

/// Parse the rule blocks of one stylesheet from position `i`.
fn parse_rules(s: &[u8], i: usize) -> (r: Vec<CssRule>)
    requires
        i <= s@.len(),
    ensures
        rules_model(r@) == parse_rules_spec(s@, i as int),
    decreases s@.len() - i,
{
    let n = s.len();
    let mut out: Vec<CssRule> = Vec::new();
    if i >= n {
        proof {
            assert(rules_model(out@) =~= Seq::<RuleModel>::empty());
        }
        return out;
    }
    let ob = match crate::selector::find_byte_from(s, i, 123) {
        Some(p) => p,
        None => {
            proof {
                assert(rules_model(out@) =~= Seq::<RuleModel>::empty());
            }
            return out;
        },
    };
    let cb = match crate::selector::find_byte_from(s, ob + 1, 125) {
        Some(p) => p,
        None => {
            proof {
                assert(rules_model(out@) =~= Seq::<RuleModel>::empty());
            }
            return out;
        },
    };
    let sel_seg = crate::selector::sub_vec(s, i, ob);
    let selector = trim_bytes(sel_seg.as_slice());
    let body = crate::selector::sub_vec(s, ob + 1, cb);
    let decls = parse_decls(body.as_slice(), 0);
    let rule = CssRule { selector, decls };
    proof {
        assert(rule@ == parse_rules_spec(s@, i as int)[0]);
    }
    out.push(rule);
    if cb + 1 > n {
        proof {
            assert(rules_model(out@) =~= parse_rules_spec(s@, i as int));
        }
        out
    } else {
        let mut rest = parse_rules(s, cb + 1);
        let ghost out0 = out@;
        out.append(&mut rest);
        proof {
            assert(rules_model(out@) =~= rules_model(out0) + parse_rules_spec(s@, cb + 1));
            assert(rules_model(out@) =~= parse_rules_spec(s@, i as int));
        }
        out
    }
}

/// The specificity triple of a parsed selector.
fn selector_specificity(sel: &Selector) -> (r: (u64, u64, u64))
    ensures
        r == sel_specificity(sel@),
{
    let mut a: u64 = 0;
    let mut b: u64 = 0;
    let mut c: u64 = 0;
    let n = sel.levels.len();
    let mut k: usize = 0;
    while k < n
        invariant
            k <= n,
            n == sel.levels@.len(),
            sel@.levels.len() == n,
            (a, b, c) == levels_specificity(sel@.levels.subrange(0, k as int)),
        decreases n - k,
    {
        let lv = &sel.levels[k];
        let ids_n: u64 = lv.ids.len() as u64;
        let cls_n: u64 = lv.classes.len() as u64;
        let at_n: u64 = lv.attrs.len() as u64;
        let fc: u64 = if lv.first_child {
            1
        } else {
            0
        };
        let lc: u64 = if lv.last_child {
            1
        } else {
            0
        };
        let lvl_b = cls_n.saturating_add(at_n).saturating_add(fc.saturating_add(lc));
        let lvl_c: u64 = if lv.tag.len() > 0 {
            1
        } else {
            0
        };
        proof {
            assert(sel@.levels.subrange(0, k + 1).drop_last() =~= sel@.levels.subrange(
                0,
                k as int,
            ));
            assert(sel@.levels.subrange(0, k + 1).last() == sel@.levels[k as int]);
            assert((ids_n, lvl_b, lvl_c) == compound_counts(sel@.levels[k as int]));
        }
        a = a.saturating_add(ids_n);
        b = b.saturating_add(lvl_b);
        c = c.saturating_add(lvl_c);
        k = k + 1;
    }
    proof {
        assert(sel@.levels.subrange(0, n as int) =~= sel@.levels);
    }
    (a, b, c)
}

/// Lexicographic comparison of specificity triples.
fn triple_at_least(x: (u64, u64, u64), y: (u64, u64, u64)) -> (r: bool)
    ensures
        r == triple_ge(x, y),
{
    x.0 > y.0 || (x.0 == y.0 && (x.1 > y.1 || (x.1 == y.1 && x.2 >= y.2)))
}

/// The value of the last declaration of `prop` in a block, if any.
fn block_value(decls: &Vec<Declaration>, prop: &[u8]) -> (r: Option<Vec<u8>>)
    ensures
        match r {
            Some(v) => decl_value(decls_model(decls@), prop@) == Some(v@),
            None => decl_value(decls_model(decls@), prop@) is None,
        },
{
    let n = decls.len();
    let mut found: Option<usize> = None;
    let mut k: usize = 0;
    while k < n
        invariant
            k <= n,
            n == decls@.len(),
            match found {
                Some(ix) => ix < k && decl_value(
                    decls_model(decls@).subrange(0, k as int),
                    prop@,
                ) == Some(decls@[ix as int].value@),
                None => decl_value(decls_model(decls@).subrange(0, k as int), prop@) is None,
            },
        decreases n - k,
    {
        proof {
            assert(decls_model(decls@).subrange(0, k + 1).drop_last() =~= decls_model(
                decls@,
            ).subrange(0, k as int));
            assert(decls_model(decls@).subrange(0, k + 1).last() == (
                decls@[k as int].name@,
                decls@[k as int].value@,
            ));
        }
        if bytes_eq(decls[k].name.as_slice(), prop) {
            found = Some(k);
        }
        k = k + 1;
    }
    proof {
        assert(decls_model(decls@).subrange(0, n as int) =~= decls_model(decls@));
    }
    match found {
        Some(ix) => {
            let v = decls[ix].value.clone();
            proof {
                assert(v@ =~= decls@[ix as int].value@);
            }
            Some(v)
        },
        None => None,
    }
}

/// Append seven bytes.
fn color7(out: &mut Vec<u8>, b1: u8, b2: u8, b3: u8, b4: u8, b5: u8, b6: u8, b7: u8)
    ensures
        final(out)@ == old(out)@ + seq![b1, b2, b3, b4, b5, b6, b7],
{
    out.push(b1);
    out.push(b2);
    out.push(b3);
    out.push(b4);
    out.push(b5);
    out.push(b6);
    out.push(b7);
    proof {
        assert(out@ =~= old(out)@ + seq![b1, b2, b3, b4, b5, b6, b7]);
    }
}

/// A lowercased hexadecimal digit.
fn hex_lower_byte(b: u8) -> (r: u8)
    ensures
        r == hex_lower(b),
{
    if 65 <= b && b <= 70 {
        b + 32
    } else {
        b
    }
}

/// Normalize a color value to canonical `#rrggbb` form.
#[verifier::rlimit(60)]
fn normalize_color_bytes(v: &[u8]) -> (r: Vec<u8>)
    ensures
        r@ == normalize_color(v@),
{
    let n = v.len();
    let mut out: Vec<u8> = Vec::new();
    if n == 3 && v[0] == 114 && v[1] == 101 && v[2] == 100 {
        proof {
            assert(v@ =~= seq![114u8, 101u8, 100u8]);
        }
        color7(&mut out, 35, 102, 102, 48, 48, 48, 48);
        return out;
    }
    if n == 5 && v[0] == 103 && v[1] == 114 && v[2] == 101 && v[3] == 101 && v[4] == 110 {
        proof {
            assert(v@ =~= seq![103u8, 114u8, 101u8, 101u8, 110u8]);
        }
        color7(&mut out, 35, 48, 48, 56, 48, 48, 48);
        return out;
    }
    if n == 4 && v[0] == 98 && v[1] == 108 && v[2] == 117 && v[3] == 101 {
        proof {
            assert(v@ =~= seq![98u8, 108u8, 117u8, 101u8]);
        }
        color7(&mut out, 35, 48, 48, 48, 48, 102, 102);
        return out;
    }
    if n == 5 && v[0] == 98 && v[1] == 108 && v[2] == 97 && v[3] == 99 && v[4] == 107 {
        proof {
            assert(v@ =~= seq![98u8, 108u8, 97u8, 99u8, 107u8]);
        }
        color7(&mut out, 35, 48, 48, 48, 48, 48, 48);
        return out;
    }
    if n == 5 && v[0] == 119 && v[1] == 104 && v[2] == 105 && v[3] == 116 && v[4] == 101 {
        proof {
            assert(v@ =~= seq![119u8, 104u8, 105u8, 116u8, 101u8]);
        }
        color7(&mut out, 35, 102, 102, 102, 102, 102, 102);
        return out;
    }
    if n == 6 && v[0] == 121 && v[1] == 101 && v[2] == 108 && v[3] == 108 && v[4] == 111 && v[5]
        == 119 {
        proof {
            assert(v@ =~= seq![121u8, 101u8, 108u8, 108u8, 111u8, 119u8]);
        }
        color7(&mut out, 35, 102, 102, 102, 102, 48, 48);
        return out;
    }
    if n == 6 && v[0] == 111 && v[1] == 114 && v[2] == 97 && v[3] == 110 && v[4] == 103 && v[5]
        == 101 {
        proof {
            assert(v@ =~= seq![111u8, 114u8, 97u8, 110u8, 103u8, 101u8]);
        }
        color7(&mut out, 35, 102, 102, 97, 53, 48, 48);
        return out;
    }
    if n == 6 && v[0] == 112 && v[1] == 117 && v[2] == 114 && v[3] == 112 && v[4] == 108 && v[5]
        == 101 {
        proof {
            assert(v@ =~= seq![112u8, 117u8, 114u8, 112u8, 108u8, 101u8]);
        }
        color7(&mut out, 35, 56, 48, 48, 48, 56, 48);
        return out;
    }
    if n == 4 && v[0] == 103 && v[1] == 114 && (v[2] == 97 || v[2] == 101) && v[3] == 121 {
        proof {
            if v@[2] == 97 {
                assert(v@ =~= seq![103u8, 114u8, 97u8, 121u8]);
            } else {
                assert(v@ =~= seq![103u8, 114u8, 101u8, 121u8]);
            }
        }
        color7(&mut out, 35, 56, 48, 56, 48, 56, 48);
        return out;
    }
    proof {
        assert(named_color(v@) is None);
    }
    if n == 4 && v[0] == 35 {
        let h1 = v[1];
        let h2 = v[2];
        let h3 = v[3];
        let hex1 = (48 <= h1 && h1 <= 57) || (97 <= h1 && h1 <= 102) || (65 <= h1 && h1 <= 70);
        let hex2 = (48 <= h2 && h2 <= 57) || (97 <= h2 && h2 <= 102) || (65 <= h2 && h2 <= 70);
        let hex3 = (48 <= h3 && h3 <= 57) || (97 <= h3 && h3 <= 102) || (65 <= h3 && h3 <= 70);
        if hex1 && hex2 && hex3 {
            let l1 = hex_lower_byte(h1);
            let l2 = hex_lower_byte(h2);
            let l3 = hex_lower_byte(h3);
            color7(&mut out, 35, l1, l1, l2, l2, l3, l3);
            return out;
        }
    }
    if n == 7 && v[0] == 35 {
        color7(
            &mut out,
            35,
            hex_lower_byte(v[1]),
            hex_lower_byte(v[2]),
            hex_lower_byte(v[3]),
            hex_lower_byte(v[4]),
            hex_lower_byte(v[5]),
            hex_lower_byte(v[6]),
        );
        return out;
    }
    let copy = crate::selector::sub_vec(v, 0, n);
    proof {
        assert(copy@ =~= v@);
    }
    copy
}

/// Resolve the computed value of `property` on element `index`: every
/// declaration block in every sheet whose selector matches the element is
/// ranked by (specificity, cascade order) and the winner's color-normalized
/// value is returned; an undeclared property yields the empty value.
pub fn resolve_computed_style(
    d: &DomSnapshot,
    index: usize,
    styles: &Vec<Vec<u8>>,
    property: &[u8],
) -> (r: Vec<u8>)
    requires
        d.wf(),
        index < d@.len(),
    ensures
        r@ == resolve_spec(
            d@,
            index as int,
            Seq::new(styles@.len(), |q: int| styles@[q]@),
            property@,
        ),
{
    let ghost sheets = Seq::new(styles@.len(), |q: int| styles@[q]@);
    let mut best: Option<((u64, u64, u64), Vec<u8>)> = None;
    let ghost mut processed = Seq::<RuleModel>::empty();
    proof {
        assert(all_rules(sheets.subrange(0, 0)) =~= Seq::<RuleModel>::empty());
    }
    let ns = styles.len();
    let mut s: usize = 0;
    while s < ns
        invariant
            s <= ns,
            ns == styles@.len(),
            d.wf(),
            index < d@.len(),
            sheets == Seq::new(styles@.len(), |q: int| styles@[q]@),
            processed == all_rules(sheets.subrange(0, s as int)),
            match best {
                None => best_value(d@, index as int, processed, property@) is None,
                Some((t, v)) => best_value(d@, index as int, processed, property@) == Some(
                    (t, v@),
                ),
            },
        decreases ns - s,
    {
        let rules = parse_rules(styles[s].as_slice(), 0);
        let nr = rules.len();
        let mut k: usize = 0;
        while k < nr
            invariant
                k <= nr,
                s < ns,
                ns == styles@.len(),
                nr == rules@.len(),
                d.wf(),
                index < d@.len(),
                sheets == Seq::new(styles@.len(), |q: int| styles@[q]@),
                rules_model(rules@) == parse_rules_spec(styles@[s as int]@, 0),
                processed == all_rules(sheets.subrange(0, s as int)) + rules_model(
                    rules@,
                ).subrange(0, k as int),
                match best {
                    None => best_value(d@, index as int, processed, property@) is None,
                    Some((t, v)) => best_value(d@, index as int, processed, property@)
                        == Some((t, v@)),
                },
            decreases nr - k,
        {
            let rule = &rules[k];
            let mut cand: Option<((u64, u64, u64), Vec<u8>)> = None;
            match parse_selector(rule.selector.as_slice()) {
                None => {},
                Some(sel) => {
                    if element_matches(d, index, &sel) {
                        match block_value(&rule.decls, property) {
                            None => {},
                            Some(v) => {
                                cand = Some((selector_specificity(&sel), v));
                            },
                        }
                    }
                },
            }
            proof {
                assert(match cand {
                    None => rule_candidate(d@, index as int, rules@[k as int]@, property@)
                        is None,
                    Some((t, v)) => rule_candidate(
                        d@,
                        index as int,
                        rules@[k as int]@,
                        property@,
                    ) == Some((t, v@)),
                });
            }
            let take_cand: bool = match (&best, &cand) {
                (_, None) => false,
                (None, Some(_)) => true,
                (Some((bt, _)), Some((ct, _))) => triple_at_least(*ct, *bt),
            };
            proof {
                let next = processed.push(rules@[k as int]@);
                assert(next.drop_last() =~= processed);
                assert(next.last() == rules@[k as int]@);
                assert(next =~= all_rules(sheets.subrange(0, s as int)) + rules_model(
                    rules@,
                ).subrange(0, k + 1));
            }
            if take_cand {
                best = cand;
            }
            proof {
                processed = processed.push(rules@[k as int]@);
            }
            k = k + 1;
        }
        proof {
            assert(sheets.subrange(0, s + 1).drop_last() =~= sheets.subrange(0, s as int));
            assert(sheets.subrange(0, s + 1).last() == styles@[s as int]@);
            assert(rules_model(rules@).subrange(0, nr as int) =~= rules_model(rules@));
            assert(processed =~= all_rules(sheets.subrange(0, s + 1)));
        }
        s = s + 1;
    }
    proof {
        assert(sheets.subrange(0, ns as int) =~= sheets);
    }
    match best {
        None => {
            let r: Vec<u8> = Vec::new();
            proof {
                assert(r@ =~= Seq::<u8>::empty());
            }
            r
        },
        Some((t, v)) => normalize_color_bytes(v.as_slice()),
    }
}

} // verus!
