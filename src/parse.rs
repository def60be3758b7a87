//! The operand grammar: `[pos;len]`, `[-pos;len]`, `b0101`, `<ptr`, `>ptr`, and numbers.
use vstd::prelude::*;

use crate::bignum::{decimal_to_binary, gmp_binary};
use crate::error::ErrorType;
use crate::text::{chars_of, is_space, is_space_char, lemma_trim_len, string_of, trim, trim_chars};
use crate::value::{is_pointer, Operand, Value};
use crate::words::append_chars;

verus! {

/// Whether `s` is `[`, then characters other than a line feed, then `]`.
pub open spec fn bracketed(s: Seq<char>) -> bool {
    &&& s.len() >= 2
    &&& s[0] == '['
    &&& s.last() == ']'
    &&& forall|j: int| 1 <= j < s.len() - 1 ==> #[trigger] s[j] != '\n'
}

/// Relies on `regex::Regex::is_match` with the pattern `^\[(.*?)\]$`, where `.` is any
/// character but a line feed and `$` is the end of the text.
#[verifier::external_body]
fn is_bracketed(s: &str) -> (r: bool)
    ensures
        r == bracketed(s@),
{
    regex::Regex::new(r"^\[(.*?)\]$").unwrap().is_match(s)
}

/// What a pointer's inner text splits into.
pub struct Split {
    pub pos: Seq<char>,
    pub len: Seq<char>,
    pub second: bool,
    pub back: bool,
    pub nested: bool,
}

/// One character of a pointer's inner text: white space is dropped, the first `;` before any
/// bracket starts the length, a `-` before any position character marks the pointer as counted
/// from the top, and the rest goes to the position or the length.
pub open spec fn split_step(st: Split, c: char) -> Split {
    if is_space(c) {
        st
    } else {
        let nested = st.nested || c == '[' || c == ']';
        if c == ';' && !nested {
            Split { pos: st.pos, len: st.len, second: true, back: st.back, nested }
        } else if c == '-' && st.pos.len() == 0 && !st.second {
            Split { pos: st.pos, len: st.len, second: st.second, back: true, nested }
        } else if !st.second {
            Split { pos: st.pos.push(c), len: st.len, second: st.second, back: st.back, nested }
        } else {
            Split { pos: st.pos, len: st.len.push(c), second: st.second, back: st.back, nested }
        }
    }
}

pub open spec fn split(u: Seq<char>) -> Split
    decreases u.len(),
{
    if u.len() == 0 {
        Split { pos: Seq::empty(), len: Seq::empty(), second: false, back: false, nested: false }
    } else {
        split_step(split(u.drop_last()), u.last())
    }
}

/// The result of parsing an operand's text.
pub enum Parsed {
    Operand(Operand),
    /// The text is no operand.
    Invalid,
    /// A bit literal holds this character, other than `0` and `1`.
    BadBit(char),
    /// A position refers to this operand, which is not a pointer.
    NotPointer(Operand),
}

/// A number, with an optional `n` in front of what GMP reads as a base-10 integer; negative
/// numbers are refused, since an operand's bits stand for a natural number.
pub open spec fn parse_number(t: Seq<char>) -> Parsed {
    let d = if t.len() > 0 && t[0] == 'n' { t.drop_first() } else { t };
    match gmp_binary(d) {
        Some(b) => if b.len() > 0 && b[0] == '-' {
            Parsed::Invalid
        } else {
            Parsed::Operand(Operand::Num(b.map_values(|c: char| c == '1')))
        },
        None => Parsed::Invalid,
    }
}

/// The first character of `u` other than `0` and `1`.
pub open spec fn first_bad(u: Seq<char>) -> char
    decreases u.len(),
{
    if u.len() == 0 {
        ' '
    } else if !(u[0] == '0' || u[0] == '1') {
        u[0]
    } else {
        first_bad(u.drop_first())
    }
}

/// The message of a bit literal that holds `c`.
pub open spec fn bad_bit_text(c: char) -> Seq<char> {
    seq!['\''] + seq![c] + "' is invalid for boolvec"@
}

proof fn lemma_first_bad_at(u: Seq<char>, k: int)
    requires
        0 <= k < u.len(),
        !(u[k] == '0' || u[k] == '1'),
        forall|j: int| 0 <= j < k ==> (#[trigger] u[j] == '0' || u[j] == '1'),
    ensures
        first_bad(u) == u[k],
    decreases k,
{
    if k > 0 {
        let w = u.drop_first();
        assert forall|j: int| 0 <= j < k - 1 implies (#[trigger] w[j] == '0' || w[j] == '1') by {
            assert(w[j] == u[j + 1]);
        }
        assert(u[0] == '0' || u[0] == '1');
        lemma_first_bad_at(w, k - 1);
    }
}

/// The bits of a literal after its `b`.
pub open spec fn parse_bits(u: Seq<char>) -> Parsed {
    if forall|i: int| 0 <= i < u.len() ==> (#[trigger] u[i] == '0' || u[i] == '1') {
        Parsed::Operand(Operand::Bits(u.map_values(|c: char| c == '1')))
    } else {
        Parsed::BadBit(first_bad(u))
    }
}

/// What the text `s` parses to. Each text handed down is shorter than `s`; the guards that
/// say so always hold.
pub open spec fn parse(s: Seq<char>) -> Parsed
    decreases s.len(),
{
    let t = trim(s);
    if t.len() > s.len() {
        Parsed::Invalid
    } else if bracketed(t) {
        let sp = split(t.subrange(1, t.len() - 1));
        let lt = if sp.len.len() == 0 { seq!['1'] } else { sp.len };
        if sp.pos.len() < s.len() && lt.len() < s.len() {
            let p = parse(sp.pos);
            let l = parse(lt);
            if p is BadBit || p is NotPointer {
                p
            } else if l is BadBit || l is NotPointer {
                l
            } else {
                match (p, l) {
                    (Parsed::Operand(po), Parsed::Operand(lo)) => Parsed::Operand(
                        Operand::Ptr(Box::new(po), Box::new(lo), sp.back),
                    ),
                    _ => Parsed::Invalid,
                }
            }
        } else {
            Parsed::Invalid
        }
    } else if t.len() > 0 && t[0] == 'b' {
        parse_bits(t.drop_first())
    } else if t.len() > 0 && (t[0] == '<' || t[0] == '>') {
        if t.len() - 1 < s.len() {
            match parse(t.drop_first()) {
                Parsed::Operand(o) => if is_pointer(o) {
                    Parsed::Operand(Operand::Pos(Box::new(o), t[0] == '>'))
                } else {
                    Parsed::NotPointer(o)
                },
                other => other,
            }
        } else {
            Parsed::Invalid
        }
    } else {
        parse_number(t)
    }
}

/// Whether `r` is what `create` owes for the parse `p`.
pub open spec fn created(p: Parsed, r: Result<Option<Value>, ErrorType>) -> bool {
    match p {
        Parsed::Operand(o) => r matches Ok(Some(v)) && v@ == o,
        Parsed::Invalid => r matches Ok(None),
        Parsed::BadBit(c) => r matches Err(ErrorType::Generic(m)) && m@ == bad_bit_text(c),
        Parsed::NotPointer(o) => r matches Err(ErrorType::InvalidPointer(v)) && v@ == o,
    }
}

pub(crate) fn sub_chars(v: &Vec<char>, from: usize, to: usize) -> (r: Vec<char>)
    requires
        from <= to <= v@.len(),
    ensures
        r@ == v@.subrange(from as int, to as int),
{
    let mut r: Vec<char> = Vec::new();
    let mut i: usize = from;
    while i < to
        invariant
            from <= i <= to <= v@.len(),
            r@ =~= v@.subrange(from as int, i as int),
        decreases to - i,
    {
        r.push(v[i]);
        i = i + 1;
    }
    r
}

fn bad_bit_message(c: char) -> (r: String)
    ensures
        r@ == bad_bit_text(c),
{
    let mut m: Vec<char> = vec!['\''];
    m.push(c);
    let tail = chars_of("' is invalid for boolvec");
    append_chars(&mut m, &tail);
    proof {
        assert(m@ =~= bad_bit_text(c));
    }
    string_of(&m)
}

impl Value {
    /// Parses `value` as an operand; where `require_pointer` holds, anything but a pointer
    /// is refused.
    pub fn new(value: &str, require_pointer: bool) -> (r: Result<Value, ErrorType>)
        ensures
            match parse(value@) {
                Parsed::Operand(o) => if require_pointer && !is_pointer(o) {
                    r matches Err(ErrorType::InvalidPointer(v)) && v@ == o
                } else {
                    r matches Ok(v) && v@ == o
                },
                Parsed::Invalid => r matches Err(ErrorType::InvalidValue(t)) && t@ == value@,
                Parsed::BadBit(c) => r matches Err(ErrorType::Generic(m)) && m@ == bad_bit_text(c),
                Parsed::NotPointer(o) => r matches Err(ErrorType::InvalidPointer(v)) && v@ == o,
            },
    {
        let chars = chars_of(value);
        match Value::create(&chars) {
            Ok(Some(v)) => {
                if require_pointer && !v.is_ptr() {
                    Err(ErrorType::InvalidPointer(v))
                } else {
                    Ok(v)
                }
            },
            Ok(None) => Err(ErrorType::InvalidValue(string_of(&chars))),
            Err(e) => Err(e),
        }
    }

    /// Parses the operand text `v`: `Ok(None)` where it is no operand.
    pub fn create(v: &Vec<char>) -> (r: Result<Option<Value>, ErrorType>)
        ensures
            created(parse(v@), r),
        decreases v@.len(),
    {
        let t = trim_chars(v);
        proof {
            lemma_trim_len(v@);
        }
        let ts = string_of(&t);
        if is_bracketed(ts.as_str()) {
            let n = t.len();
            let mut pos: Vec<char> = Vec::new();
            let mut len: Vec<char> = Vec::new();
            let mut second = false;
            let mut back = false;
            let mut nested = false;
            let mut i: usize = 1;
            while i < n - 1
                invariant
                    n == t@.len(),
                    n >= 2,
                    1 <= i <= n - 1,
                    pos@.len() + len@.len() <= i - 1,
                    (Split { pos: pos@, len: len@, second, back, nested }) == split(
                        t@.subrange(1, i as int),
                    ),
                decreases n - 1 - i,
            {
                let c = t[i];
                proof {
                    assert(t@.subrange(1, i + 1).drop_last() =~= t@.subrange(1, i as int));
                }
                if !is_space_char(c) {
                    nested = nested || c == '[' || c == ']';
                    if c == ';' && !nested {
                        second = true;
                    } else if c == '-' && pos.len() == 0 && !second {
                        back = true;
                    } else if !second {
                        pos.push(c);
                    } else {
                        len.push(c);
                    }
                }
                i = i + 1;
            }
            if len.len() == 0 {
                len.push('1');
                proof {
                    assert(len@ =~= seq!['1']);
                }
            }
            let p = Value::create(&pos);
            let l = Value::create(&len);
            match p {
                Err(e) => Err(e),
                Ok(po) => match l {
                    Err(e) => Err(e),
                    Ok(lo) => match (po, lo) {
                        (Some(pv), Some(lv)) => Ok(
                            Some(Value::Pointer { pos: Box::new(pv), len: Box::new(lv), rev: back }),
                        ),
                        _ => Ok(None),
                    },
                },
            }
        } else if t.len() > 0 && t[0] == 'b' {
            let mut bits: Vec<bool> = Vec::new();
            let mut i: usize = 1;
            while i < t.len()
                invariant
                    1 <= i <= t@.len(),
                    t@ == trim(v@),
                    trim(v@).len() <= v@.len(),
                    !bracketed(t@),
                    t@[0] == 'b',
                    forall|j: int| 1 <= j < i ==> (#[trigger] t@[j] == '0' || t@[j] == '1'),
                    bits@ =~= t@.subrange(1, i as int).map_values(|c: char| c == '1'),
                decreases t@.len() - i,
            {
                let c = t[i];
                if c != '0' && c != '1' {
                    proof {
                        let u = t@.drop_first();
                        assert(u[i - 1] == t@[i as int]);
                        assert(!(u[i - 1] == '0' || u[i - 1] == '1'));
                        assert forall|j: int| 0 <= j < i - 1 implies (#[trigger] u[j] == '0' || u[j]
                            == '1') by {
                            assert(u[j] == t@[j + 1]);
                        }
                        lemma_first_bad_at(u, i - 1);
                        assert(parse_bits(u) == Parsed::BadBit(c));
                        assert(parse(v@) == parse_bits(u));
                    }
                    return Err(ErrorType::Generic(bad_bit_message(c)));
                }
                bits.push(c == '1');
                i = i + 1;
            }
            proof {
                assert(t@.subrange(1, t@.len() as int) =~= t@.drop_first());
                let u = t@.drop_first();
                assert forall|j: int| 0 <= j < u.len() implies (#[trigger] u[j] == '0' || u[j] == '1') by {
                    assert(u[j] == t@[j + 1]);
                }
            }
            Ok(Some(Value::Boolvec(bits)))
        } else if t.len() > 0 && (t[0] == '<' || t[0] == '>') {
            let rest = sub_chars(&t, 1, t.len());
            proof {
                assert(rest@ =~= t@.drop_first());
            }
            match Value::create(&rest) {
                Ok(Some(q)) => {
                    if q.is_ptr() {
                        Ok(Some(Value::Position(Box::new(q), t[0] == '>')))
                    } else {
                        Err(ErrorType::InvalidPointer(q))
                    }
                },
                other => other,
            }
        } else {
            let d = if t.len() > 0 && t[0] == 'n' {
                sub_chars(&t, 1, t.len())
            } else {
                sub_chars(&t, 0, t.len())
            };
            proof {
                if t@.len() > 0 && t@[0] == 'n' {
                    assert(d@ =~= t@.drop_first());
                } else {
                    assert(d@ =~= t@);
                }
            }
            let ds = string_of(&d);
            match decimal_to_binary(ds.as_str()) {
                Some(b) => {
                    let bc = chars_of(b.as_str());
                    if bc.len() > 0 && bc[0] == '-' {
                        return Ok(None);
                    }
                    let mut bits: Vec<bool> = Vec::new();
                    let mut i: usize = 0;
                    while i < bc.len()
                        invariant
                            i <= bc@.len(),
                            bits@ =~= bc@.subrange(0, i as int).map_values(|c: char| c == '1'),
                        decreases bc@.len() - i,
                    {
                        bits.push(bc[i] == '1');
                        i = i + 1;
                    }
                    proof {
                        assert(bc@.subrange(0, bc@.len() as int) =~= bc@);
                    }
                    Ok(Some(Value::Bignum(bits)))
                },
                None => Ok(None),
            }
        }
    }
}

} // verus!
