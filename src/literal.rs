//! String literals in source text, and the text that `print` reads back from bits.
use vstd::prelude::*;

use crate::bignum::{binary_to_decimal, decimal_text};
use crate::bits::{bits_to_usize, fit, fit_bits, lemma_nat_bits_value, nat_bits, nat_of, usize_to_bits};
use crate::parse::{bracketed, parse, parse_bits, Parsed};
use crate::text::{is_space, string_of, trim, trim_end, trim_start};
use crate::value::Operand;

verus! {

pub open spec fn pow2(k: nat) -> nat
    decreases k,
{
    if k == 0 {
        1
    } else {
        2 * pow2((k - 1) as nat)
    }
}

/// The eight bits that stand for `c` in a literal: its code, truncated to a byte.
pub open spec fn char_bits(c: char) -> Seq<bool> {
    fit(nat_bits((c as u32) as nat), 8)
}

/// The bits of `s`, eight per character.
pub open spec fn literal_bits(s: Seq<char>) -> Seq<bool>
    decreases s.len(),
{
    if s.len() == 0 {
        Seq::empty()
    } else {
        char_bits(s[0]) + literal_bits(s.drop_first())
    }
}

/// `0` and `1` characters for bits.
pub open spec fn bit_text(b: Seq<bool>) -> Seq<char> {
    b.map_values(|x: bool| if x { '1' } else { '0' })
}

/// The character an escape sequence `\c` stands for.
pub open spec fn escape(c: char) -> char {
    if c == 'n' {
        '\n'
    } else if c == 't' {
        '\t'
    } else {
        c
    }
}

/// The state of encoding a line: the text so far, inside a literal, after a backslash.
pub struct Encoding {
    pub out: Seq<char>,
    pub in_string: bool,
    pub literal: bool,
}

pub open spec fn encode_step(st: Encoding, c: char) -> Encoding {
    if !st.in_string && c == '"' {
        Encoding { out: st.out.push('b'), in_string: true, literal: false }
    } else if st.in_string {
        if c == '\\' && !st.literal {
            Encoding { out: st.out, in_string: true, literal: true }
        } else if c == '"' && !st.literal {
            Encoding { out: st.out, in_string: false, literal: false }
        } else {
            let ch = if st.literal { escape(c) } else { c };
            Encoding { out: st.out + bit_text(char_bits(ch)), in_string: true, literal: false }
        }
    } else {
        Encoding { out: st.out.push(c), in_string: false, literal: st.literal }
    }
}

pub open spec fn encoding(s: Seq<char>) -> Encoding
    decreases s.len(),
{
    if s.len() == 0 {
        Encoding { out: Seq::empty(), in_string: false, literal: false }
    } else {
        encode_step(encoding(s.drop_last()), s.last())
    }
}

/// `s` with each double-quoted literal replaced by `b` and the bits of its characters.
pub open spec fn encode_strings(s: Seq<char>) -> Seq<char> {
    encoding(s).out
}

/// Encoding keeps a line's first character, but for an opening quote, which becomes `b`.
pub proof fn lemma_encode_first(c: Seq<char>)
    ensures
        c.len() == 0 ==> encode_strings(c) == Seq::<char>::empty(),
        c.len() > 0 ==> encode_strings(c).len() > 0 && encode_strings(c)[0] == (if c[0] == '"' {
            'b'
        } else {
            c[0]
        }),
    decreases c.len(),
{
    if c.len() > 1 {
        let d = c.drop_last();
        lemma_encode_first(d);
        let prev = encoding(d);
        let next = encode_step(prev, c.last());
        assert(d[0] == c[0]);
        assert(next.out.len() >= prev.out.len() && next.out[0] == prev.out[0]) by {
            if !prev.in_string && c.last() == '"' {
                assert(next.out == prev.out.push('b'));
            } else if prev.in_string {
                if !(c.last() == '\\' && !prev.literal) && !(c.last() == '"' && !prev.literal) {
                    let ch = if prev.literal { escape(c.last()) } else { c.last() };
                    assert(next.out == prev.out + bit_text(char_bits(ch)));
                }
            } else {
                assert(next.out == prev.out.push(c.last()));
            }
        }
        assert(encoding(c) == next);
    } else if c.len() == 1 {
        assert(c.drop_last().len() == 0);
        assert(encoding(c.drop_last()).out == Seq::<char>::empty());
        assert(c.last() == c[0]);
        assert(encoding(c) == encode_step(encoding(c.drop_last()), c.last()));
    }
}

/// The bytes that `print` writes for `b`: each group of eight bits read as a number, up to
/// the first zero byte or the last whole group.
pub open spec fn text_bytes(b: Seq<bool>) -> Seq<u8>
    decreases b.len(),
{
    if b.len() < 8 {
        Seq::empty()
    } else {
        let n = nat_of(b.subrange(0, 8));
        if n == 0 {
            Seq::empty()
        } else {
            seq![n as u8] + text_bytes(b.subrange(8, b.len() as int))
        }
    }
}

/// `s` up to its first NUL character.
pub open spec fn before_nul(s: Seq<char>) -> Seq<char>
    decreases s.len(),
{
    if s.len() == 0 {
        s
    } else if (s[0] as u32) == 0 {
        Seq::empty()
    } else {
        seq![s[0]] + before_nul(s.drop_first())
    }
}

pub proof fn lemma_nat_of_bound(s: Seq<bool>)
    ensures
        nat_of(s) < pow2(s.len()),
    decreases s.len(),
{
    if s.len() > 0 {
        lemma_nat_of_bound(s.drop_last());
    }
}

proof fn lemma_pow2_8()
    ensures
        pow2(8) == 256,
{
    assert(pow2(0) == 1);
    assert(pow2(1) == 2);
    assert(pow2(2) == 4);
    assert(pow2(3) == 8);
    assert(pow2(4) == 16);
    assert(pow2(5) == 32);
    assert(pow2(6) == 64);
    assert(pow2(7) == 128);
    assert(pow2(8) == 256);
}

proof fn lemma_nat_bits_len(n: nat, k: nat)
    requires
        n < pow2(k),
        k >= 1,
    ensures
        nat_bits(n).len() <= k,
    decreases n,
{
    if n >= 2 {
        assert(k >= 2) by {
            if k == 1 {
                assert(pow2(1) == 2 * pow2(0));
            }
        }
        assert(pow2(k) == 2 * pow2((k - 1) as nat));
        lemma_nat_bits_len(n / 2, (k - 1) as nat);
    }
}

pub proof fn lemma_nat_of_zero_prefix(z: nat, s: Seq<bool>)
    ensures
        nat_of(Seq::new(z, |i: int| false) + s) == nat_of(s),
    decreases s.len() + z,
{
    let zs = Seq::new(z, |i: int| false);
    if s.len() > 0 {
        assert((zs + s).drop_last() =~= zs + s.drop_last());
        lemma_nat_of_zero_prefix(z, s.drop_last());
    } else if z > 0 {
        assert((zs + s).drop_last() =~= Seq::new((z - 1) as nat, |i: int| false) + s);
        lemma_nat_of_zero_prefix((z - 1) as nat, s);
    } else {
        assert(zs + s =~= s);
    }
}

/// A character below 256 reads back from its eight bits as its own code.
proof fn lemma_char_bits_value(c: char)
    requires
        (c as u32) < 256,
    ensures
        nat_of(char_bits(c)) == (c as u32) as nat,
        char_bits(c).len() == 8,
{
    let n = (c as u32) as nat;
    lemma_pow2_8();
    lemma_nat_bits_len(n, 8);
    lemma_nat_bits_value(n);
    let nb = nat_bits(n);
    if nb.len() == 8 {
        assert(nb.subrange(0, 8) =~= nb);
    } else {
        lemma_nat_of_zero_prefix((8 - nb.len()) as nat, nb);
    }
}

/// Encoding characters below 256 as a literal and reading the bits back as `print` does gives
/// their codes, up to the first NUL.
pub proof fn lemma_literal_round_trip(s: Seq<char>)
    requires
        forall|i: int| 0 <= i < s.len() ==> (#[trigger] s[i] as u32) < 256,
    ensures
        text_bytes(literal_bits(s)) == before_nul(s).map_values(|c: char| (c as u32) as u8),
    decreases s.len(),
{
    if s.len() > 0 {
        let b = literal_bits(s);
        let cb = char_bits(s[0]);
        let rest = s.drop_first();
        assert forall|i: int| 0 <= i < rest.len() implies (#[trigger] rest[i] as u32) < 256 by {
            assert(rest[i] == s[i + 1]);
        }
        lemma_char_bits_value(s[0]);
        lemma_literal_round_trip(rest);
        assert(b.subrange(0, 8) =~= cb);
        assert(b.subrange(8, b.len() as int) =~= literal_bits(rest));
        let n = nat_of(b.subrange(0, 8));
        assert(n == (s[0] as u32) as nat);
        if (s[0] as u32) == 0 {
            assert(n == 0);
            assert(text_bytes(b) == Seq::<u8>::empty());
            assert(before_nul(s).map_values(|c: char| (c as u32) as u8) =~= Seq::<u8>::empty());
        } else {
            assert(text_bytes(b) == seq![n as u8] + text_bytes(literal_bits(rest)));
            assert(before_nul(s) == seq![s[0]] + before_nul(rest));
            assert(before_nul(s).map_values(|c: char| (c as u32) as u8) =~= seq![(s[0] as u32) as u8]
                + before_nul(rest).map_values(|c: char| (c as u32) as u8));
        }
    } else {
        assert(before_nul(s).map_values(|c: char| (c as u32) as u8) =~= Seq::<u8>::empty());
    }
}

proof fn lemma_literal_bits_push(u: Seq<char>, c: char)
    ensures
        literal_bits(u.push(c)) == literal_bits(u) + char_bits(c),
    decreases u.len(),
{
    if u.len() == 0 {
        let w = u.push(c);
        assert(w[0] == c);
        assert(w.drop_first() =~= Seq::<char>::empty());
        assert(literal_bits(w.drop_first()) == Seq::<bool>::empty());
        assert(literal_bits(w) =~= char_bits(c) + Seq::<bool>::empty());
        assert(literal_bits(u) == Seq::<bool>::empty());
        assert(literal_bits(u) + char_bits(c) =~= char_bits(c));
    } else {
        assert(u.push(c).drop_first() =~= u.drop_first().push(c));
        lemma_literal_bits_push(u.drop_first(), c);
        assert(literal_bits(u.push(c)) =~= char_bits(u[0]) + (literal_bits(u.drop_first())
            + char_bits(c)));
    }
}

/// `s` as it is written inside a literal: a backslash before each quote and backslash.
pub open spec fn escaped(s: Seq<char>) -> Seq<char>
    decreases s.len(),
{
    if s.len() == 0 {
        s
    } else {
        let c = s.last();
        escaped(s.drop_last()) + if c == '"' || c == '\\' {
            seq!['\\', c]
        } else {
            seq![c]
        }
    }
}

proof fn lemma_encode_open(u: Seq<char>)
    ensures
        encoding(seq!['"'] + escaped(u)) == (Encoding {
            out: seq!['b'] + bit_text(literal_bits(u)),
            in_string: true,
            literal: false,
        }),
    decreases u.len(),
{
    if u.len() == 0 {
        let s = seq!['"'] + escaped(u);
        assert(s =~= seq!['"']);
        assert(s.drop_last() =~= Seq::<char>::empty());
        assert(bit_text(literal_bits(u)) =~= Seq::<char>::empty());
        assert(seq!['b'] + bit_text(literal_bits(u)) =~= Seq::<char>::empty().push('b'));
        assert(s.last() == '"');
        assert(encoding(s) == encode_step(encoding(s.drop_last()), s.last()));
        assert(encoding(s.drop_last()).out == Seq::<char>::empty());
    } else {
        let v = u.drop_last();
        let c = u.last();
        lemma_encode_open(v);
        let a = seq!['"'] + escaped(v);
        let prev = encoding(a);
        assert(u =~= v.push(c));
        lemma_literal_bits_push(v, c);
        assert(bit_text(literal_bits(u)) =~= bit_text(literal_bits(v)) + bit_text(char_bits(c)));
        let done = Encoding {
            out: seq!['b'] + bit_text(literal_bits(u)),
            in_string: true,
            literal: false,
        };
        if c == '"' || c == '\\' {
            let a1 = a.push('\\');
            let a2 = a1.push(c);
            assert(seq!['"'] + escaped(u) =~= a2);
            assert(a2.drop_last() =~= a1);
            assert(a1.drop_last() =~= a);
            assert(encoding(a1) == encode_step(prev, '\\'));
            assert(escape(c) == c);
            assert(encoding(a2) == encode_step(encoding(a1), c));
            assert(encoding(a2).out =~= done.out);
            assert(encoding(a2) == done);
        } else {
            let a1 = a.push(c);
            assert(seq!['"'] + escaped(u) =~= a1);
            assert(a1.drop_last() =~= a);
            assert(encoding(a1) == encode_step(prev, c));
            assert(encoding(a1).out =~= done.out);
            assert(encoding(a1) == done);
        }
    }
}

/// A quoted literal, its quotes and backslashes escaped, becomes `b` and the bits of its
/// characters.
pub proof fn lemma_encode_literal(u: Seq<char>)
    ensures
        encode_strings(seq!['"'] + escaped(u) + seq!['"']) == seq!['b'] + bit_text(literal_bits(u)),
{
    lemma_encode_open(u);
    let s = seq!['"'] + escaped(u) + seq!['"'];
    assert(s.drop_last() =~= seq!['"'] + escaped(u));
}

/// A literal of characters below 256, written with its quotes and backslashes escaped,
/// compiles to a bit operand from which `print` reads back its characters up to the first NUL.
pub proof fn lemma_string_print_round_trip(u: Seq<char>)
    requires
        forall|i: int| 0 <= i < u.len() ==> (#[trigger] u[i] as u32) < 256,
    ensures
        parse(encode_strings(seq!['"'] + escaped(u) + seq!['"'])) == Parsed::Operand(
            Operand::Bits(literal_bits(u)),
        ),
        text_bytes(literal_bits(u)) == before_nul(u).map_values(|c: char| (c as u32) as u8),
{
    lemma_encode_literal(u);
    let bt = bit_text(literal_bits(u));
    let t = seq!['b'] + bt;
    assert(!is_space(t[0]));
    assert(trim_start(t) == t);
    assert(!is_space(t.last())) by {
        if bt.len() > 0 {
            assert(t.last() == bt[bt.len() - 1]);
        }
    }
    assert(trim_end(t) == t);
    assert(trim(t) == t);
    assert(!bracketed(t));
    assert(t.drop_first() =~= bt);
    assert forall|i: int| 0 <= i < bt.len() implies (#[trigger] bt[i] == '0' || bt[i] == '1') by {}
    assert(bt.map_values(|c: char| c == '1') =~= literal_bits(u));
    assert(parse_bits(bt) == Parsed::Operand(Operand::Bits(literal_bits(u))));
    lemma_literal_round_trip(u);
}

fn char_to_boolvec(c: char) -> (r: Vec<bool>)
    ensures
        r@ == char_bits(c),
{
    let bits = usize_to_bits((c as u32) as usize);
    fit_bits(&bits, 8)
}

/// Replaces each double-quoted literal of `line` by a bit literal.
pub fn parse_strings(line: &Vec<char>) -> (r: Vec<char>)
    ensures
        r@ == encode_strings(line@),
{
    let mut out: Vec<char> = Vec::new();
    let mut in_string = false;
    let mut literal = false;
    let mut i: usize = 0;
    while i < line.len()
        invariant
            i <= line@.len(),
            (Encoding { out: out@, in_string, literal }) == encoding(line@.subrange(0, i as int)),
        decreases line@.len() - i,
    {
        let c = line[i];
        proof {
            assert(line@.subrange(0, i + 1).drop_last() =~= line@.subrange(0, i as int));
        }
        if !in_string && c == '"' {
            in_string = true;
            literal = false;
            out.push('b');
        } else if in_string {
            if c == '\\' && !literal {
                literal = true;
            } else if c == '"' && !literal {
                in_string = false;
            } else {
                let ch = if literal {
                    if c == 'n' {
                        '\n'
                    } else if c == 't' {
                        '\t'
                    } else {
                        c
                    }
                } else {
                    c
                };
                literal = false;
                let bits = char_to_boolvec(ch);
                let ghost before = out@;
                let mut k: usize = 0;
                while k < 8
                    invariant
                        k <= 8,
                        bits@ == char_bits(ch),
                        bits@.len() == 8,
                        out@ =~= before + bit_text(bits@.subrange(0, k as int)),
                    decreases 8 - k,
                {
                    out.push(if bits[k] { '1' } else { '0' });
                    k = k + 1;
                }
                proof {
                    assert(bits@.subrange(0, 8) =~= bits@);
                }
            }
        } else {
            out.push(c);
        }
        i = i + 1;
    }
    proof {
        assert(line@.subrange(0, line@.len() as int) =~= line@);
    }
    out
}

/// The bytes that `print` writes for `bits`.
pub fn text_bytes_of(bits: &Vec<bool>) -> (r: Vec<u8>)
    ensures
        r@ == text_bytes(bits@),
{
    let mut r: Vec<u8> = Vec::new();
    let mut i: usize = 0;
    proof {
        assert(bits@.subrange(0, bits@.len() as int) =~= bits@);
        assert(Seq::<u8>::empty() + text_bytes(bits@) =~= text_bytes(bits@));
    }
    let total = bits.len();
    while bits.len() - i >= 8
        invariant
            total == bits@.len(),
            i <= bits@.len(),
            text_bytes(bits@) == r@ + text_bytes(bits@.subrange(i as int, bits@.len() as int)),
        decreases bits@.len() - i,
    {
        let mut group: Vec<bool> = Vec::new();
        let mut k: usize = 0;
        while k < 8
            invariant
                k <= 8,
                i + 8 <= bits@.len(),
                total == bits@.len(),
                group@ =~= bits@.subrange(i as int, i + k),
            decreases 8 - k,
        {
            group.push(bits[i + k]);
            k = k + 1;
        }
        let ghost rest = bits@.subrange(i as int, bits@.len() as int);
        proof {
            assert(rest.subrange(0, 8) =~= group@);
            assert(rest.subrange(8, rest.len() as int) =~= bits@.subrange(i + 8, bits@.len() as int));
            lemma_nat_of_bound(group@);
            lemma_pow2_8();
        }
        let n = match bits_to_usize(&group) {
            Some(n) => n,
            None => 0,
        };
        if n == 0 {
            proof {
                assert(r@ + Seq::<u8>::empty() =~= r@);
            }
            return r;
        }
        let ghost prev = r@;
        r.push(n as u8);
        proof {
            assert(prev + (seq![n as u8] + text_bytes(bits@.subrange(i + 8, bits@.len() as int))) =~= r@ + text_bytes(bits@.subrange(i + 8, bits@.len() as int)));
        }
        i = i + 8;
    }
    proof {
        assert(r@ + Seq::<u8>::empty() =~= r@);
    }
    r
}

/// The decimal text that `numprint` writes for `bits`.
pub fn numprint_text(bits: &Vec<bool>) -> (r: String)
    ensures
        r@ == decimal_text(nat_of(bits@)),
{
    if bits.len() == 0 {
        let zero = vec!['0'];
        proof {
            assert(decimal_text(0) == seq![crate::bignum::digit_char(0)]);
            assert(zero@ =~= decimal_text(0));
        }
        return string_of(&zero);
    }
    let mut digits: Vec<char> = Vec::new();
    let mut i: usize = 0;
    while i < bits.len()
        invariant
            i <= bits@.len(),
            digits@ =~= bit_text(bits@.subrange(0, i as int)),
        decreases bits@.len() - i,
    {
        digits.push(if bits[i] { '1' } else { '0' });
        i = i + 1;
    }
    let text = string_of(&digits);
    proof {
        assert(bits@.subrange(0, bits@.len() as int) =~= bits@);
        assert(text@.map_values(|c: char| c == '1') =~= bits@);
    }
    binary_to_decimal(text.as_str())
}

} // verus!
