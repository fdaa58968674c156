//! Boolean filter expressions over scalar fields.
//!
//! A filter has the form `field op literal`, the three parts separated by
//! single spaces: `status = 'inactive'`, `count > 10`, `done != true`. The
//! operators are `=`, `!=`, `>`, `>=`, `<` and `<=`; a literal is a
//! single-quoted string, `true`, `false`, or a decimal integer that fits in
//! 64 bits. A document matches when it holds a scalar field of that name
//! whose value compares as asked; strings and booleans admit only `=` and
//! `!=`.

use vstd::prelude::*;

use crate::doc::Doc;
use crate::doc::FieldVal;
use crate::doc::FieldValue;
use crate::score::idx_of;
use crate::score::lemma_idx_of;
use crate::text::string_push;

verus! {

/// A comparison operator of a filter expression.
#[derive(Debug, Clone, Copy, PartialEq, Eq, Structural)]
pub enum CmpOp {
    Eq,
    Ne,
    Gt,
    Ge,
    Lt,
    Le,
}

/// The literal a filter compares against, at the specification level.
pub enum FilterValV {
    Int(i64),
    Text(Seq<char>),
    Truth(bool),
}

/// The literal a filter compares against.
pub enum FilterVal {
    Int(i64),
    Text(String),
    Truth(bool),
}

impl View for FilterVal {
    type V = FilterValV;

    open spec fn view(&self) -> FilterValV {
        match self {
            FilterVal::Int(v) => FilterValV::Int(*v),
            FilterVal::Text(s) => FilterValV::Text(s@),
            FilterVal::Truth(b) => FilterValV::Truth(*b),
        }
    }
}

/// A parsed filter, at the specification level.
pub struct FilterView {
    pub field: Seq<char>,
    pub op: CmpOp,
    pub value: FilterValV,
}

/// A parsed filter: a field name, an operator and a literal.
pub struct Filter {
    field: String,
    op: CmpOp,
    value: FilterVal,
}

impl View for Filter {
    type V = FilterView;

    closed spec fn view(&self) -> FilterView {
        FilterView { field: self.field@, op: self.op, value: self.value@ }
    }
}

/// Whether every character is a decimal digit.
pub open spec fn all_digits(s: Seq<char>) -> bool {
    forall|k: int| 0 <= k < s.len() ==> 48 <= #[trigger] s[k] as u32 <= 57
}

/// The value of a digit string, most significant digit first.
pub open spec fn dec_val(s: Seq<char>) -> int
    decreases s.len(),
{
    if s.len() == 0 {
        0
    } else {
        dec_val(s.drop_last()) * 10 + (s.last() as u32 - 48)
    }
}

/// A digit string's value is never negative.
pub proof fn lemma_dec_val_nonneg(s: Seq<char>)
    requires
        all_digits(s),
    ensures
        dec_val(s) >= 0,
    decreases s.len(),
{
    if s.len() > 0 {
        assert(all_digits(s.drop_last()));
        lemma_dec_val_nonneg(s.drop_last());
    }
}

/// A digit string's value only grows as digits are appended.
pub proof fn lemma_dec_val_prefix(s: Seq<char>, i: int)
    requires
        all_digits(s),
        0 <= i <= s.len(),
    ensures
        dec_val(s.take(i)) <= dec_val(s),
    decreases s.len(),
{
    if i < s.len() {
        assert(all_digits(s.drop_last()));
        assert(s.take(i) =~= s.drop_last().take(i));
        lemma_dec_val_prefix(s.drop_last(), i);
        lemma_dec_val_nonneg(s.drop_last());
    } else {
        assert(s.take(i) =~= s);
    }
}

/// The operator a one- or two-character token denotes.
pub open spec fn op_of(s: Seq<char>) -> Option<CmpOp> {
    if s.len() == 1 {
        if s[0] == '=' {
            Some(CmpOp::Eq)
        } else if s[0] == '>' {
            Some(CmpOp::Gt)
        } else if s[0] == '<' {
            Some(CmpOp::Lt)
        } else {
            None
        }
    } else if s.len() == 2 && s[1] == '=' {
        if s[0] == '!' {
            Some(CmpOp::Ne)
        } else if s[0] == '>' {
            Some(CmpOp::Ge)
        } else if s[0] == '<' {
            Some(CmpOp::Le)
        } else {
            None
        }
    } else {
        None
    }
}

/// The literal a token denotes: a quoted string, `true`, `false`, or a
/// decimal integer that fits in 64 bits.
pub open spec fn lit_of(s: Seq<char>) -> Option<FilterValV> {
    if s.len() == 0 {
        None
    } else if s[0] == '\'' {
        if s.len() >= 2 && s.last() == '\'' {
            Some(FilterValV::Text(s.subrange(1, s.len() - 1)))
        } else {
            None
        }
    } else if s =~= seq!['t', 'r', 'u', 'e'] {
        Some(FilterValV::Truth(true))
    } else if s =~= seq!['f', 'a', 'l', 's', 'e'] {
        Some(FilterValV::Truth(false))
    } else {
        let (neg, digits) = if s[0] == '-' {
            (true, s.drop_first())
        } else {
            (false, s)
        };
        if digits.len() == 0 || !all_digits(digits) {
            None
        } else {
            let v = dec_val(digits);
            if neg {
                if v <= 0x8000_0000_0000_0000 {
                    Some(FilterValV::Int((-v) as i64))
                } else {
                    None
                }
            } else {
                if v <= i64::MAX {
                    Some(FilterValV::Int(v as i64))
                } else {
                    None
                }
            }
        }
    }
}

/// The filter an expression denotes: a field name, an operator and a
/// literal, separated by single spaces; or nothing when the expression is
/// malformed.
pub open spec fn parse_filter_spec(s: Seq<char>) -> Option<FilterView> {
    let i = idx_of(s, ' ');
    if i <= 0 {
        None
    } else {
        let rest = s.skip(i + 1);
        let j = idx_of(rest, ' ');
        if j <= 0 {
            None
        } else {
            match op_of(rest.take(j)) {
                Some(op) => match lit_of(rest.skip(j + 1)) {
                    Some(v) => Some(FilterView { field: s.take(i), op, value: v }),
                    None => None,
                },
                None => None,
            }
        }
    }
}

/// How an integer field value compares against an integer literal.
pub open spec fn cmp_int(op: CmpOp, a: int, b: int) -> bool {
    match op {
        CmpOp::Eq => a == b,
        CmpOp::Ne => a != b,
        CmpOp::Gt => a > b,
        CmpOp::Ge => a >= b,
        CmpOp::Lt => a < b,
        CmpOp::Le => a <= b,
    }
}

/// Whether a field value satisfies the filter's comparison. Strings and
/// booleans admit equality and inequality only; a value of any other kind
/// than the literal's never matches.
pub open spec fn value_matches(v: FieldVal, op: CmpOp, lit: FilterValV) -> bool {
    match (v, lit) {
        (FieldVal::Int32(a), FilterValV::Int(b)) => cmp_int(op, a as int, b as int),
        (FieldVal::Int64(a), FilterValV::Int(b)) => cmp_int(op, a as int, b as int),
        (FieldVal::Str(a), FilterValV::Text(b)) => match op {
            CmpOp::Eq => a == b,
            CmpOp::Ne => a != b,
            _ => false,
        },
        (FieldVal::Bool(a), FilterValV::Truth(b)) => match op {
            CmpOp::Eq => a == b,
            CmpOp::Ne => a != b,
            _ => false,
        },
        _ => false,
    }
}

/// Whether a document matches the filter: it holds the named field and the
/// value compares as asked.
pub open spec fn doc_matches(fields: crate::doc::FieldsView, f: FilterView) -> bool {
    match crate::doc::value_of(fields, f.field) {
        Some(v) => value_matches(v, f.op, f.value),
        None => false,
    }
}

/// The characters of a string, in order.
fn str_chars(s: &str) -> (v: Vec<char>)
    ensures
        v@ == s@,
{
    let n = s.unicode_len();
    let mut v: Vec<char> = Vec::new();
    for i in 0..n
        invariant
            n == s@.len(),
            v@ =~= s@.take(i as int),
    {
        v.push(s.get_char(i));
        proof {
            assert(v@ =~= s@.take(i + 1));
        }
    }
    proof {
        assert(s@.take(n as int) =~= s@);
    }
    v
}

/// The string holding the given character range.
fn chars_to_string(cs: &Vec<char>, from: usize, to: usize) -> (r: String)
    requires
        from <= to <= cs@.len(),
    ensures
        r@ == cs@.subrange(from as int, to as int),
{
    let mut r = String::new();
    for i in from..to
        invariant
            from <= i <= to <= cs@.len(),
            r@ =~= cs@.subrange(from as int, i as int),
    {
        string_push(&mut r, cs[i]);
        proof {
            assert(r@ =~= cs@.subrange(from as int, i + 1));
        }
    }
    r
}

/// The first position at or after `from` holding the character, if any.
fn find_from(cs: &Vec<char>, from: usize, c: char) -> (r: Option<usize>)
    requires
        from <= cs@.len(),
    ensures
        match r {
            Some(k) => from <= k < cs@.len() && cs@[k as int] == c && (forall|j: int|
                from <= j < k ==> cs@[j] != c),
            None => forall|j: int| from <= j < cs@.len() ==> cs@[j] != c,
        },
{
    let n = cs.len();
    for i in from..n
        invariant
            n == cs@.len(),
            forall|j: int| from <= j < i ==> cs@[j] != c,
    {
        if cs[i] == c {
            return Some(i);
        }
    }
    None
}

/// Parse a filter expression; `None` when it is malformed.
pub fn parse_filter(s: &str) -> (r: Option<Filter>)
    ensures
        match r {
            Some(f) => parse_filter_spec(s@) == Some(f@),
            None => parse_filter_spec(s@) is None,
        },
{
    let cs = str_chars(s);
    let n = cs.len();
    proof {
        lemma_idx_of(cs@, ' ');
    }
    let i = match find_from(&cs, 0, ' ') {
        Some(i) => i,
        None => {
            return None;
        },
    };
    proof {
        assert(idx_of(cs@, ' ') == i);
    }
    if i == 0 {
        return None;
    }
    let ghost rest = cs@.skip(i + 1);
    proof {
        lemma_idx_of(rest, ' ');
        assert(forall|m: int| 0 <= m < rest.len() ==> rest[m] == cs@[m + i + 1]);
    }
    let k = match find_from(&cs, i + 1, ' ') {
        Some(k) => k,
        None => {
            proof {
                assert(idx_of(rest, ' ') == -1) by {
                    if idx_of(rest, ' ') >= 0 {
                        let m = idx_of(rest, ' ');
                        assert(cs@[m + i + 1] == ' ');
                    }
                }
            }
            return None;
        },
    };
    let ghost j = k - (i + 1);
    proof {
        assert(rest[j as int] == ' ');
        assert(forall|m: int| 0 <= m < j ==> rest[m] != ' ');
        assert(idx_of(rest, ' ') == j);
    }
    if k == i + 1 {
        return None;
    }
    // The operator token: one or two characters between the spaces.
    let ghost op_s = rest.take(j as int);
    proof {
        assert(op_s.len() == j);
        assert(forall|m: int| 0 <= m < j ==> op_s[m] == cs@[m + i + 1]);
    }
    let oplen = k - (i + 1);
    let op: CmpOp = if oplen == 1 {
        let c0 = cs[i + 1];
        if c0 == '=' {
            CmpOp::Eq
        } else if c0 == '>' {
            CmpOp::Gt
        } else if c0 == '<' {
            CmpOp::Lt
        } else {
            proof {
                assert(op_of(op_s) is None);
            }
            return None;
        }
    } else if oplen == 2 && cs[i + 2] == '=' {
        let c0 = cs[i + 1];
        if c0 == '!' {
            CmpOp::Ne
        } else if c0 == '>' {
            CmpOp::Ge
        } else if c0 == '<' {
            CmpOp::Le
        } else {
            proof {
                assert(op_of(op_s) is None);
            }
            return None;
        }
    } else {
        proof {
            assert(op_of(op_s) is None);
        }
        return None;
    };
    proof {
        assert(op_of(op_s) == Some(op));
    }
    // The literal token: everything after the second space.
    let ghost lit = rest.skip(j + 1);
    proof {
        assert(lit =~= cs@.skip(k + 1));
    }
    if k + 1 >= n {
        proof {
            assert(lit.len() == 0);
        }
        return None;
    }
    let value: FilterVal = match parse_literal(&cs, k + 1) {
        Some(v) => v,
        None => {
            return None;
        },
    };
    let field = chars_to_string(&cs, 0, i);
    proof {
        assert(field@ =~= cs@.take(i as int));
    }
    let f = Filter { field, op, value };
    proof {
        assert(parse_filter_spec(cs@) == Some(f@));
    }
    Some(f)
}

/// Parse the literal that starts at `start`; `None` when it is malformed.
fn parse_literal(cs: &Vec<char>, start: usize) -> (r: Option<FilterVal>)
    requires
        start < cs@.len(),
    ensures
        match r {
            Some(v) => lit_of(cs@.skip(start as int)) == Some(v@),
            None => lit_of(cs@.skip(start as int)) is None,
        },
{
    let n = cs.len();
    let ghost lit = cs@.skip(start as int);
    proof {
        assert(lit.len() == n - start);
        assert(forall|m: int| 0 <= m < lit.len() ==> lit[m] == cs@[m + start]);
    }
    if cs[start] == '\'' {
        if n - start >= 2 && cs[n - 1] == '\'' {
            let text = chars_to_string(cs, start + 1, n - 1);
            proof {
                assert(lit.last() == cs@[n - 1]);
                assert(text@ =~= lit.subrange(1, lit.len() as int - 1));
            }
            Some(FilterVal::Text(text))
        } else {
            proof {
                if lit.len() >= 2 {
                    assert(lit.last() == cs@[n - 1]);
                }
            }
            None
        }
    } else if n - start == 4 && cs[start] == 't' && cs[start + 1] == 'r' && cs[start + 2] == 'u'
        && cs[start + 3] == 'e' {
        proof {
            assert(lit =~= seq!['t', 'r', 'u', 'e']);
        }
        Some(FilterVal::Truth(true))
    } else if n - start == 5 && cs[start] == 'f' && cs[start + 1] == 'a' && cs[start + 2] == 'l'
        && cs[start + 3] == 's' && cs[start + 4] == 'e' {
        proof {
            assert(lit =~= seq!['f', 'a', 'l', 's', 'e']);
        }
        Some(FilterVal::Truth(false))
    } else {
        proof {
            assert(!(lit =~= seq!['t', 'r', 'u', 'e']));
            assert(!(lit =~= seq!['f', 'a', 'l', 's', 'e']));
            assert(lit[0] == cs@[start as int]);
        }
        let neg = cs[start] == '-';
        let d0: usize = if neg {
            start + 1
        } else {
            start
        };
        proof {
            if neg {
                assert(lit.drop_first() =~= cs@.subrange(d0 as int, n as int));
            } else {
                assert(lit =~= cs@.subrange(d0 as int, n as int));
            }
        }
        if d0 >= n {
            return None;
        }
        match parse_digits(cs, d0, neg) {
            Some(v) => Some(FilterVal::Int(v)),
            None => None,
        }
    }
}

/// Parse the decimal digits from `d0` to the end as an integer, negated when
/// `neg` holds; `None` on a non-digit or a value outside the 64-bit range.
fn parse_digits(cs: &Vec<char>, d0: usize, neg: bool) -> (r: Option<i64>)
    requires
        d0 < cs@.len(),
    ensures
        ({
            let digits = cs@.subrange(d0 as int, cs@.len() as int);
            match r {
                Some(v) => {
                    &&& all_digits(digits)
                    &&& (neg ==> dec_val(digits) <= 0x8000_0000_0000_0000 && v as int == -dec_val(
                        digits,
                    ))
                    &&& (!neg ==> dec_val(digits) <= i64::MAX && v as int == dec_val(digits))
                },
                None => !all_digits(digits) || (neg && dec_val(digits) > 0x8000_0000_0000_0000) || (
                !neg && dec_val(digits) > i64::MAX),
            }
        }),
{
    let n = cs.len();
    let ghost digits = cs@.subrange(d0 as int, n as int);
    let bound: i128 = if neg {
        0x8000_0000_0000_0000i128
    } else {
        0x7fff_ffff_ffff_ffffi128
    };
    let mut acc: i128 = 0;
    let mut p = d0;
    while p < n
        invariant
            d0 <= p <= n,
            n == cs@.len(),
            d0 < n,
            digits == cs@.subrange(d0 as int, n as int),
            all_digits(digits.take(p - d0)),
            acc == dec_val(digits.take(p - d0)),
            0 <= acc <= bound,
            bound == (if neg {
                0x8000_0000_0000_0000i128
            } else {
                0x7fff_ffff_ffff_ffffi128
            }),
        decreases n - p,
    {
        let c = cs[p];
        let cv = c as u32;
        proof {
            assert(digits[p - d0] == cs@[p as int]);
        }
        if cv < 48 || cv > 57 {
            proof {
                assert(digits[p - d0] as u32 == cv);
                assert(!all_digits(digits));
            }
            return None;
        }
        let d = (cv - 48) as i128;
        let acc2 = acc * 10 + d;
        proof {
            let t = digits.take(p - d0 + 1);
            assert(t.drop_last() =~= digits.take(p - d0));
            assert(t.last() == digits[p - d0]);
            assert forall|m: int| 0 <= m < t.len() implies 48 <= #[trigger] t[m] as u32 <= 57 by {
                assert(t[m] == digits[m]);
                if m < p - d0 {
                    assert(48 <= digits.take(p - d0)[m] as u32 <= 57);
                }
            }
            assert(dec_val(t) == acc2);
        }
        if acc2 > bound {
            proof {
                if all_digits(digits) {
                    lemma_dec_val_prefix(digits, p - d0 + 1);
                }
            }
            return None;
        }
        acc = acc2;
        p = p + 1;
    }
    proof {
        assert(digits.take(n - d0) =~= digits);
    }
    if neg {
        if acc == 0x8000_0000_0000_0000i128 {
            Some(i64::MIN)
        } else {
            Some(-(acc as i64))
        }
    } else {
        Some(acc as i64)
    }
}

/// Whether the document matches the filter.
pub fn eval_filter(doc: &Doc, f: &Filter) -> (r: bool)
    ensures
        r == doc_matches(doc@.fields, f@),
{
    match doc.get_value_ref(f.field.as_str()) {
        Some(v) => match (v, &f.value) {
            (FieldValue::Int32(a), FilterVal::Int(b)) => cmp_i64(f.op, *a as i64, *b),
            (FieldValue::Int64(a), FilterVal::Int(b)) => cmp_i64(f.op, *a, *b),
            (FieldValue::Str(a), FilterVal::Text(b)) => match f.op {
                CmpOp::Eq => *a == *b,
                CmpOp::Ne => !(*a == *b),
                _ => false,
            },
            (FieldValue::Bool(a), FilterVal::Truth(b)) => match f.op {
                CmpOp::Eq => *a == *b,
                CmpOp::Ne => *a != *b,
                _ => false,
            },
            _ => false,
        },
        None => false,
    }
}

/// Compare two 64-bit integers under the operator.
fn cmp_i64(op: CmpOp, a: i64, b: i64) -> (r: bool)
    ensures
        r == cmp_int(op, a as int, b as int),
{
    match op {
        CmpOp::Eq => a == b,
        CmpOp::Ne => a != b,
        CmpOp::Gt => a > b,
        CmpOp::Ge => a >= b,
        CmpOp::Lt => a < b,
        CmpOp::Le => a <= b,
    }
}

} // verus!
