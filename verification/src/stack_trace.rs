//! Best-effort parsing of script stack-trace text into (source, line, column).
//!
//! Three dialects are tried per line of the stack text: a parenthesized
//! `(file:line:col)` suffix, a `func@file:line:col` form, and a bare trailing
//! `file:line:col`. The first line that parses wins; a malformed or absent
//! stack yields no location metadata, never an error.

use vstd::prelude::*;

verus! {

// Byte values used by the grammar.
pub const COLON: u8 = 58;
pub const LPAREN: u8 = 40;
pub const RPAREN: u8 = 41;
pub const AT_SIGN: u8 = 64;
pub const NEWLINE: u8 = 10;
pub const PLUS: u8 = 43;

pub open spec fn is_space(b: u8) -> bool {
    b == 32 || b == 9 || b == 10 || b == 13
}

pub open spec fn is_digit(b: u8) -> bool {
    48 <= b <= 57
}

pub open spec fn trim_start_spec(s: Seq<u8>) -> Seq<u8>
    decreases s.len(),
{
    if s.len() > 0 && is_space(s[0]) {
        trim_start_spec(s.drop_first())
    } else {
        s
    }
}

pub open spec fn trim_end_spec(s: Seq<u8>) -> Seq<u8>
    decreases s.len(),
{
    if s.len() > 0 && is_space(s.last()) {
        trim_end_spec(s.drop_last())
    } else {
        s
    }
}

/// Whitespace removed from both ends.
pub open spec fn trim_spec(s: Seq<u8>) -> Seq<u8> {
    trim_end_spec(trim_start_spec(s))
}

/// All trailing `)` bytes removed.
pub open spec fn strip_parens_end(s: Seq<u8>) -> Seq<u8>
    decreases s.len(),
{
    if s.len() > 0 && s.last() == RPAREN {
        strip_parens_end(s.drop_last())
    } else {
        s
    }
}

/// Every leading repetition of `at ` removed.
pub open spec fn strip_at_prefix(s: Seq<u8>) -> Seq<u8>
    decreases s.len(),
{
    if s.len() >= 3 && s[0] == 97 && s[1] == 116 && s[2] == 32 {
        strip_at_prefix(s.skip(3))
    } else {
        s
    }
}

/// The numeric value of a digit string (most significant digit first).
pub open spec fn num_val(s: Seq<u8>) -> int
    decreases s.len(),
{
    if s.len() == 0 {
        0
    } else {
        num_val(s.drop_last()) * 10 + (s.last() - 48)
    }
}

pub open spec fn all_digits(s: Seq<u8>) -> bool {
    forall|k: int| 0 <= k < s.len() ==> is_digit(s[k])
}

/// Decimal parse of an unsigned 32-bit number: an optional `+` sign, then
/// one or more digits, and a value that fits in `u32`.
pub open spec fn parse_u32_spec(s: Seq<u8>) -> Option<u32> {
    let t = if s.len() > 0 && s[0] == PLUS {
        s.drop_first()
    } else {
        s
    };
    if t.len() > 0 && all_digits(t) && num_val(t) <= u32::MAX {
        Some(num_val(t) as u32)
    } else {
        None
    }
}

/// The index of the last occurrence of `c`, if any.
pub open spec fn find_last(s: Seq<u8>, c: u8) -> Option<int>
    decreases s.len(),
{
    if s.len() == 0 {
        None
    } else if s.last() == c {
        Some(s.len() - 1)
    } else {
        find_last(s.drop_last(), c)
    }
}

/// The index of the first occurrence of `c`, if any.
pub open spec fn find_first(s: Seq<u8>, c: u8) -> Option<int>
    decreases s.len(),
{
    if s.len() == 0 {
        None
    } else if s[0] == c {
        Some(0)
    } else {
        match find_first(s.drop_first(), c) {
            None => None,
            Some(i) => Some(i + 1),
        }
    }
}

/// Parse a `file:line:col` suffix: the text after the last colon is the
/// column (trailing parens ignored), the text between the previous colon and
/// the last one is the line, and whatever precedes is the source (with any
/// leading `at ` removed). Both numbers must parse for a result.
pub open spec fn pflc_spec(s: Seq<u8>) -> Option<(Seq<u8>, u32, u32)> {
    match find_last(s, COLON) {
        None => None,
        Some(i) => {
            let col_opt = parse_u32_spec(strip_parens_end(trim_spec(s.subrange(i + 1, s.len() as int))));
            let head = s.subrange(0, i);
            match col_opt {
                None => None,
                Some(col) => match find_last(head, COLON) {
                    None => match parse_u32_spec(trim_spec(head)) {
                        None => None,
                        Some(line) => Some((Seq::empty(), line, col)),
                    },
                    Some(j) => match parse_u32_spec(trim_spec(head.subrange(j + 1, head.len() as int))) {
                        None => None,
                        Some(line) => Some(
                            (
                                trim_spec(strip_at_prefix(trim_spec(head.subrange(0, j)))),
                                line,
                                col,
                            ),
                        ),
                    },
                },
            }
        },
    }
}

/// The location parsed from one stack line, trying the parenthesized form,
/// then the `@` form, then the bare form.
pub open spec fn line_candidate_spec(l: Seq<u8>) -> Option<(Seq<u8>, u32, u32)> {
    let t = trim_spec(l);
    let paren = match (find_last(t, LPAREN), find_last(t, RPAREN)) {
        (Some(o), Some(c)) => if o < c {
            pflc_spec(t.subrange(o + 1, c))
        } else {
            None
        },
        _ => None,
    };
    match paren {
        Some(r) => Some(r),
        None => {
            let after_at = match find_first(t, AT_SIGN) {
                Some(a) => pflc_spec(t.skip(a + 1)),
                None => None,
            };
            match after_at {
                Some(r) => Some(r),
                None => pflc_spec(t),
            }
        },
    }
}

/// The text split at newline bytes (every segment kept).
pub open spec fn split_lines(s: Seq<u8>) -> Seq<Seq<u8>>
    decreases s.len(),
{
    match find_first(s, NEWLINE) {
        None => seq![s],
        Some(i) => if 0 <= i < s.len() {
            seq![s.subrange(0, i)] + split_lines(s.skip(i + 1))
        } else {
            seq![s]
        },
    }
}

/// The first line that yields a location.
pub open spec fn first_hit(ls: Seq<Seq<u8>>) -> Option<(Seq<u8>, u32, u32)>
    decreases ls.len(),
{
    if ls.len() == 0 {
        None
    } else {
        match line_candidate_spec(ls[0]) {
            Some(r) => Some(r),
            None => first_hit(ls.drop_first()),
        }
    }
}

/// The location parsed from a whole stack text.
pub open spec fn parse_stack_spec(s: Seq<u8>) -> Option<(Seq<u8>, u32, u32)> {
    first_hit(split_lines(s))
}

proof fn lemma_find_last_bounds(s: Seq<u8>, c: u8)
    ensures
        match find_last(s, c) {
            Some(i) => 0 <= i < s.len() && s[i] == c,
            None => true,
        },
    decreases s.len(),
{
    if s.len() > 0 && s.last() != c {
        lemma_find_last_bounds(s.drop_last(), c);
    }
}

proof fn lemma_find_first_bounds(s: Seq<u8>, c: u8)
    ensures
        match find_first(s, c) {
            Some(i) => 0 <= i < s.len() && s[i] == c,
            None => true,
        },
    decreases s.len(),
{
    if s.len() > 0 && s[0] != c {
        lemma_find_first_bounds(s.drop_first(), c);
    }
}

// ---------------------------------------------------------------------------
// Executable code
// ---------------------------------------------------------------------------

/// Copy of `s[lo..hi]`.
fn sub_bytes(s: &[u8], lo: usize, hi: usize) -> (r: Vec<u8>)
    requires
        lo <= hi <= s@.len(),
    ensures
        r@ == s@.subrange(lo as int, hi as int),
{
    let mut r: Vec<u8> = Vec::new();
    let mut i: usize = lo;
    while i < hi
        invariant
            lo <= i <= hi <= s@.len(),
            r@ == s@.subrange(lo as int, i as int),
        decreases hi - i,
    {
        r.push(s[i]);
        assert(r@ =~= s@.subrange(lo as int, i + 1));
        i = i + 1;
    }
    r
}

proof fn lemma_trim_start(s: Seq<u8>, lo: int)
    requires
        0 <= lo <= s.len(),
        forall|k: int| 0 <= k < lo ==> is_space(s[k]),
        lo == s.len() || !is_space(s[lo]),
    ensures
        trim_start_spec(s) == s.subrange(lo, s.len() as int),
    decreases lo,
{
    if lo == 0 {
        if s.len() > 0 && is_space(s[0]) {
            assert(false);
        }
        assert(s.subrange(0, s.len() as int) =~= s);
    } else {
        let d = s.drop_first();
        assert(forall|k: int| 0 <= k < lo - 1 ==> is_space(d[k]));
        lemma_trim_start(d, lo - 1);
        assert(d.subrange(lo - 1, d.len() as int) =~= s.subrange(lo, s.len() as int));
    }
}

proof fn lemma_trim_end(s: Seq<u8>, hi: int)
    requires
        0 <= hi <= s.len(),
        forall|k: int| hi <= k < s.len() ==> is_space(s[k]),
        hi == 0 || !is_space(s[hi - 1]),
    ensures
        trim_end_spec(s) == s.subrange(0, hi),
    decreases s.len(),
{
    if hi == s.len() {
        if s.len() > 0 && is_space(s.last()) {
            assert(false);
        }
        assert(s.subrange(0, s.len() as int) =~= s);
    } else {
        let d = s.drop_last();
        assert(is_space(s.last()));
        assert(forall|k: int| hi <= k < d.len() ==> is_space(d[k]));
        lemma_trim_end(d, hi);
        assert(d.subrange(0, hi) =~= s.subrange(0, hi));
    }
}

proof fn lemma_strip_parens(s: Seq<u8>, hi: int)
    requires
        0 <= hi <= s.len(),
        forall|k: int| hi <= k < s.len() ==> s[k] == RPAREN,
        hi == 0 || s[hi - 1] != RPAREN,
    ensures
        strip_parens_end(s) == s.subrange(0, hi),
    decreases s.len(),
{
    if hi == s.len() {
        if s.len() > 0 && s.last() == RPAREN {
            assert(false);
        }
        assert(s.subrange(0, s.len() as int) =~= s);
    } else {
        let d = s.drop_last();
        assert(forall|k: int| hi <= k < d.len() ==> d[k] == RPAREN);
        lemma_strip_parens(d, hi);
        assert(d.subrange(0, hi) =~= s.subrange(0, hi));
    }
}

/// Both-ends whitespace trim.
pub(crate) fn trim_bytes(s: &[u8]) -> (r: Vec<u8>)
    ensures
        r@ == trim_spec(s@),
{
    let len = s.len();
    let mut lo: usize = 0;
    while lo < len && (s[lo] == 32 || s[lo] == 9 || s[lo] == 10 || s[lo] == 13)
        invariant
            lo <= len,
            len == s@.len(),
            forall|k: int| 0 <= k < lo ==> is_space(s@[k]),
        decreases len - lo,
    {
        lo = lo + 1;
    }
    proof {
        lemma_trim_start(s@, lo as int);
    }
    let mut hi: usize = len;
    while hi > lo && (s[hi - 1] == 32 || s[hi - 1] == 9 || s[hi - 1] == 10 || s[hi - 1] == 13)
        invariant
            lo <= hi <= len,
            len == s@.len(),
            forall|k: int| hi <= k < len ==> is_space(s@[k]),
        decreases hi,
    {
        hi = hi - 1;
    }
    proof {
        let t = trim_start_spec(s@);
        assert(t == s@.subrange(lo as int, len as int));
        assert(forall|k: int| hi - lo <= k < t.len() ==> is_space(t[k]));
        if hi > lo {
            assert(t[hi - lo - 1] == s@[hi - 1]);
        }
        lemma_trim_end(t, hi - lo);
        assert(t.subrange(0, hi - lo) =~= s@.subrange(lo as int, hi as int));
    }
    sub_bytes(s, lo, hi)
}

/// Remove all trailing `)` bytes.
fn strip_parens_bytes(s: &[u8]) -> (r: Vec<u8>)
    ensures
        r@ == strip_parens_end(s@),
{
    let len = s.len();
    let mut hi: usize = len;
    while hi > 0 && s[hi - 1] == RPAREN
        invariant
            hi <= len,
            len == s@.len(),
            forall|k: int| hi <= k < len ==> s@[k] == RPAREN,
        decreases hi,
    {
        hi = hi - 1;
    }
    proof {
        lemma_strip_parens(s@, hi as int);
    }
    sub_bytes(s, 0, hi)
}

/// Remove every leading repetition of `at `.
fn strip_at_bytes(s: &[u8]) -> (r: Vec<u8>)
    ensures
        r@ == strip_at_prefix(s@),
{
    let len = s.len();
    let mut lo: usize = 0;
    proof {
        assert(s@.skip(0) =~= s@);
    }
    while len - lo >= 3 && s[lo] == 97 && s[lo + 1] == 116 && s[lo + 2] == 32
        invariant
            lo <= len,
            len == s@.len(),
            lo % 3 == 0,
            strip_at_prefix(s@) == strip_at_prefix(s@.skip(lo as int)),
        decreases len - lo,
    {
        proof {
            let t = s@.skip(lo as int);
            assert(t[0] == s@[lo as int] && t[1] == s@[lo + 1] && t[2] == s@[lo + 2]);
            assert(strip_at_prefix(t) == strip_at_prefix(t.skip(3)));
            assert(t.skip(3) =~= s@.skip(lo + 3));
        }
        lo = lo + 3;
    }
    proof {
        let t = s@.skip(lo as int);
        assert(!(t.len() >= 3 && t[0] == 97 && t[1] == 116 && t[2] == 32));
        assert(strip_at_prefix(t) == t);
        assert(t =~= s@.subrange(lo as int, len as int));
    }
    sub_bytes(s, lo, len)
}

proof fn lemma_num_val_nonneg(s: Seq<u8>)
    requires
        all_digits(s),
    ensures
        num_val(s) >= 0,
    decreases s.len(),
{
    if s.len() > 0 {
        let d = s.drop_last();
        assert(forall|k: int| 0 <= k < d.len() ==> is_digit(d[k]));
        lemma_num_val_nonneg(d);
    }
}

proof fn lemma_num_val_prefix_le(s: Seq<u8>, i: int)
    requires
        all_digits(s),
        0 <= i <= s.len(),
    ensures
        num_val(s.subrange(0, i)) <= num_val(s),
    decreases s.len() - i,
{
    if i == s.len() {
        assert(s.subrange(0, i) =~= s);
    } else {
        let p = s.subrange(0, i);
        let q = s.subrange(0, i + 1);
        assert(q.drop_last() =~= p);
        assert(is_digit(q.last()));
        assert(forall|k: int| 0 <= k < p.len() ==> is_digit(p[k]));
        lemma_num_val_nonneg(p);
        assert(num_val(q) == num_val(p) * 10 + (q.last() - 48));
        assert(num_val(p) <= num_val(q)) by (nonlinear_arith)
            requires
                num_val(p) >= 0,
                num_val(q) == num_val(p) * 10 + (q.last() - 48),
                is_digit(q.last()),
        ;
        lemma_num_val_prefix_le(s, i + 1);
    }
}

/// Decimal parse of an unsigned 32-bit number.
fn parse_u32_bytes(s: &[u8]) -> (r: Option<u32>)
    ensures
        r == parse_u32_spec(s@),
{
    let len = s.len();
    let start: usize = if len > 0 && s[0] == PLUS {
        1
    } else {
        0
    };
    let ghost t = if s@.len() > 0 && s@[0] == PLUS {
        s@.drop_first()
    } else {
        s@
    };
    proof {
        assert(t =~= s@.subrange(start as int, len as int));
    }
    if start == len {
        return None;
    }
    proof {
        assert(t.subrange(0, 0) =~= Seq::<u8>::empty());
    }
    let mut acc: u64 = 0;
    let mut i: usize = start;
    while i < len
        invariant
            start <= i <= len,
            len == s@.len(),
            start < len,
            t == s@.subrange(start as int, len as int),
            t == (if s@.len() > 0 && s@[0] == PLUS {
                s@.drop_first()
            } else {
                s@
            }),
            forall|k: int| 0 <= k < i - start ==> is_digit(t[k]),
            acc == num_val(t.subrange(0, i - start)),
            acc <= u32::MAX,
        decreases len - i,
    {
        let d = s[i];
        if !(48 <= d && d <= 57) {
            assert(t[i - start] == s@[i as int]);
            assert(!is_digit(t[i - start]));
            assert(!all_digits(t));
            return None;
        }
        let nv: u64 = acc * 10 + ((d - 48) as u64);
        proof {
            let p = t.subrange(0, i - start);
            let q = t.subrange(0, i - start + 1);
            assert(q.drop_last() =~= p);
            assert(q.last() == s@[i as int]);
            assert(num_val(q) == num_val(p) * 10 + (d - 48));
        }
        if nv > u32::MAX as u64 {
            proof {
                if t.len() > 0 && all_digits(t) {
                    lemma_num_val_prefix_le(t, i - start + 1);
                }
            }
            return None;
        }
        acc = nv;
        i = i + 1;
    }
    proof {
        assert(t.subrange(0, t.len() as int) =~= t);
        assert(all_digits(t));
    }
    Some(acc as u32)
}

/// The index of the last occurrence of `c` in `s`, if any.
fn rfind_byte(s: &[u8], c: u8) -> (r: Option<usize>)
    ensures
        match r {
            Some(i) => find_last(s@, c) == Some(i as int),
            None => find_last(s@, c) is None,
        },
{
    let mut i: usize = s.len();
    proof {
        assert(s@.subrange(0, s@.len() as int) =~= s@);
    }
    while i > 0
        invariant
            i <= s@.len(),
            find_last(s@, c) == find_last(s@.subrange(0, i as int), c),
        decreases i,
    {
        if s[i - 1] == c {
            proof {
                let p = s@.subrange(0, i as int);
                assert(p.last() == s@[i - 1]);
            }
            return Some(i - 1);
        }
        proof {
            let p = s@.subrange(0, i as int);
            assert(p.last() == s@[i - 1]);
            assert(p.drop_last() =~= s@.subrange(0, i - 1));
        }
        i = i - 1;
    }
    proof {
        assert(s@.subrange(0, 0) =~= Seq::<u8>::empty());
    }
    None
}

proof fn lemma_find_first_scan(s: Seq<u8>, c: u8, i: int)
    requires
        0 <= i <= s.len(),
        forall|k: int| 0 <= k < i ==> s[k] != c,
        i == s.len() || s[i] == c,
    ensures
        if i == s.len() {
            find_first(s, c) is None
        } else {
            find_first(s, c) == Some(i)
        },
    decreases s.len(),
{
    if s.len() == 0 {
    } else if s[0] == c {
        assert(i == 0);
    } else {
        let d = s.drop_first();
        assert(forall|k: int| 0 <= k < i - 1 ==> d[k] == s[k + 1]);
        lemma_find_first_scan(d, c, i - 1);
    }
}

/// The index of the first occurrence of `c` in `s`, if any.
fn find_byte(s: &[u8], c: u8) -> (r: Option<usize>)
    ensures
        match r {
            Some(i) => find_first(s@, c) == Some(i as int),
            None => find_first(s@, c) is None,
        },
{
    let len = s.len();
    let mut i: usize = 0;
    while i < len
        invariant
            i <= len,
            len == s@.len(),
            forall|k: int| 0 <= k < i ==> s@[k] != c,
        decreases len - i,
    {
        if s[i] == c {
            proof {
                lemma_find_first_scan(s@, c, i as int);
            }
            return Some(i);
        }
        i = i + 1;
    }
    proof {
        lemma_find_first_scan(s@, c, len as int);
    }
    None
}

/// Parse a `file:line:col` suffix of `s`, yielding (source, line, column).
pub fn parse_file_line_col(s: &[u8]) -> (r: Option<(Vec<u8>, u32, u32)>)
    ensures
        r is Some <==> pflc_spec(s@) is Some,
        r is Some ==> {
            let (src, line, col) = pflc_spec(s@).unwrap();
            r.unwrap().0@ == src && r.unwrap().1 == line && r.unwrap().2 == col
        },
{
    let i = match rfind_byte(s, COLON) {
        None => {
            return None;
        },
        Some(i) => i,
    };
    let n = s.len();
    proof {
        lemma_find_last_bounds(s@, COLON);
        assert(i < n);
    }
    let col_tail = sub_bytes(s, i + 1, n);
    let col_trimmed = trim_bytes(col_tail.as_slice());
    let col_str = strip_parens_bytes(col_trimmed.as_slice());
    let col = match parse_u32_bytes(col_str.as_slice()) {
        None => {
            return None;
        },
        Some(c) => c,
    };
    let head = sub_bytes(s, 0, i);
    match rfind_byte(head.as_slice(), COLON) {
        None => {
            let line_part = trim_bytes(head.as_slice());
            match parse_u32_bytes(line_part.as_slice()) {
                None => None,
                Some(line) => {
                    let empty: Vec<u8> = Vec::new();
                    proof {
                        assert(empty@ =~= Seq::<u8>::empty());
                    }
                    Some((empty, line, col))
                },
            }
        },
        Some(j) => {
            let head_len = head.len();
            proof {
                lemma_find_last_bounds(head@, COLON);
                assert(j < head_len);
            }
            let line_seg = sub_bytes(head.as_slice(), j + 1, head_len);
            let line_part = trim_bytes(line_seg.as_slice());
            match parse_u32_bytes(line_part.as_slice()) {
                None => None,
                Some(line) => {
                    let src_seg = sub_bytes(head.as_slice(), 0, j);
                    let src_trimmed = trim_bytes(src_seg.as_slice());
                    let src_stripped = strip_at_bytes(src_trimmed.as_slice());
                    let src = trim_bytes(src_stripped.as_slice());
                    Some((src, line, col))
                },
            }
        },
    }
}

/// The location parsed from one (already split) stack line.
fn line_candidate(l: &[u8]) -> (r: Option<(Vec<u8>, u32, u32)>)
    ensures
        r is Some <==> line_candidate_spec(l@) is Some,
        r is Some ==> {
            let (src, line, col) = line_candidate_spec(l@).unwrap();
            r.unwrap().0@ == src && r.unwrap().1 == line && r.unwrap().2 == col
        },
{
    let t = trim_bytes(l);
    let ts = t.as_slice();
    let open = rfind_byte(ts, LPAREN);
    let close = rfind_byte(ts, RPAREN);
    proof {
        lemma_find_last_bounds(t@, LPAREN);
        lemma_find_last_bounds(t@, RPAREN);
        lemma_find_first_bounds(t@, AT_SIGN);
    }
    match (open, close) {
        (Some(o), Some(c)) => {
            if o < c {
                let inside = sub_bytes(ts, o + 1, c);
                let res = parse_file_line_col(inside.as_slice());
                if res.is_some() {
                    return res;
                }
            }
        },
        _ => {},
    }
    match find_byte(ts, AT_SIGN) {
        Some(a) => {
            let after = sub_bytes(ts, a + 1, t.len());
            proof {
                assert(t@.skip(a + 1) =~= t@.subrange(a + 1, t@.len() as int));
            }
            let res = parse_file_line_col(after.as_slice());
            if res.is_some() {
                return res;
            }
        },
        None => {},
    }
    parse_file_line_col(ts)
}

/// Scan the stack text line by line from byte `pos`.
fn scan_lines(s: &[u8], pos: usize) -> (r: Option<(Vec<u8>, u32, u32)>)
    requires
        pos <= s@.len(),
    ensures
        r is Some <==> first_hit(split_lines(s@.skip(pos as int))) is Some,
        r is Some ==> {
            let (src, line, col) = first_hit(split_lines(s@.skip(pos as int))).unwrap();
            r.unwrap().0@ == src && r.unwrap().1 == line && r.unwrap().2 == col
        },
    decreases s@.len() - pos,
{
    let len = s.len();
    let mut j: usize = pos;
    while j < len && s[j] != NEWLINE
        invariant
            pos <= j <= len,
            len == s@.len(),
            forall|k: int| pos <= k < j ==> s@[k] != NEWLINE,
        decreases len - j,
    {
        j = j + 1;
    }
    let ghost rest = s@.skip(pos as int);
    proof {
        assert(forall|k: int| 0 <= k < j - pos ==> rest[k] == s@[k + pos]);
        if j < len {
            assert(rest[j - pos] == s@[j as int]);
            lemma_find_first_scan(rest, NEWLINE, j - pos);
        } else {
            lemma_find_first_scan(rest, NEWLINE, rest.len() as int);
        }
    }
    let line = sub_bytes(s, pos, j);
    proof {
        assert(line@ =~= rest.subrange(0, j - pos));
    }
    let cand = line_candidate(line.as_slice());
    if j >= len {
        // Last line: the split is exactly this one segment.
        proof {
            assert(rest.subrange(0, j - pos) =~= rest);
            assert(split_lines(rest) =~= seq![rest]);
            assert(split_lines(rest)[0] == rest);
            assert(seq![rest].drop_first() =~= Seq::<Seq<u8>>::empty());
            assert(first_hit(Seq::<Seq<u8>>::empty()) is None);
        }
        cand
    } else {
        proof {
            assert(split_lines(rest) == seq![rest.subrange(0, j - pos)] + split_lines(
                rest.skip(j - pos + 1),
            ));
            assert(rest.skip(j - pos + 1) =~= s@.skip(j + 1));
            assert(split_lines(rest).drop_first() =~= split_lines(s@.skip(j + 1)));
            assert(split_lines(rest)[0] == line@);
        }
        if cand.is_some() {
            cand
        } else {
            scan_lines(s, j + 1)
        }
    }
}

/// Best-effort parse of stack text into (source, line, column). Tries, per
/// line: a parenthesized `(file:line:col)` suffix, then `func@file:line:col`,
/// then a bare trailing `file:line:col`; the first line that parses wins.
/// A malformed or absent stack yields `(None, None, None)`.
pub fn parse_stack_info(stack: Option<&[u8]>) -> (r: (Option<Vec<u8>>, Option<u32>, Option<u32>))
    ensures
        match stack {
            None => r.0 is None && r.1 is None && r.2 is None,
            Some(s) => match parse_stack_spec(s@) {
                None => r.0 is None && r.1 is None && r.2 is None,
                Some((src, line, col)) => {
                    &&& r.0 is Some && r.0.unwrap()@ == src
                    &&& r.1 == Some(line)
                    &&& r.2 == Some(col)
                },
            },
        },
{
    match stack {
        None => (None, None, None),
        Some(s) => {
            proof {
                assert(s@.skip(0) =~= s@);
            }
            match scan_lines(s, 0) {
                None => (None, None, None),
                Some((src, line, col)) => (Some(src), Some(line), Some(col)),
            }
        },
    }
}

} // verus!
