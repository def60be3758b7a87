//! Bit sequences, most significant bit first, and the numbers they denote.
use vstd::prelude::*;

verus! {

/// The number that `s` denotes, its first bit the most significant.
pub open spec fn nat_of(s: Seq<bool>) -> nat
    decreases s.len(),
{
    if s.len() == 0 {
        0
    } else {
        2 * nat_of(s.drop_last()) + if s.last() { 1nat } else { 0nat }
    }
}

/// The shortest bit sequence that denotes `n` (a single `false` for zero).
pub open spec fn nat_bits(n: nat) -> Seq<bool>
    decreases n,
{
    if n < 2 {
        seq![n == 1]
    } else {
        nat_bits(n / 2).push(n % 2 == 1)
    }
}

/// `s` brought to exactly `w` bits: the low `w` bits where `s` is wider,
/// zero-extended at the front where it is narrower.
pub open spec fn fit(s: Seq<bool>, w: nat) -> Seq<bool> {
    if s.len() >= w {
        s.subrange(s.len() - w, s.len() as int)
    } else {
        Seq::new((w - s.len()) as nat, |i: int| false) + s
    }
}

/// The `i`-th group of `w` bits of `s`.
pub open spec fn group(s: Seq<bool>, w: nat, i: nat) -> Seq<bool> {
    s.subrange((i * w) as int, ((i + 1) * w) as int)
}

pub proof fn lemma_nat_of_prefix_le(s: Seq<bool>, i: int)
    requires
        0 <= i <= s.len(),
    ensures
        nat_of(s.subrange(0, i)) <= nat_of(s),
    decreases s.len(),
{
    if i < s.len() {
        lemma_nat_of_prefix_le(s.drop_last(), i);
        assert(s.drop_last().subrange(0, i) =~= s.subrange(0, i));
    } else {
        assert(s.subrange(0, i) =~= s);
    }
}

pub proof fn lemma_nat_bits_value(n: nat)
    ensures
        nat_of(nat_bits(n)) == n,
        nat_bits(n).len() >= 1,
    decreases n,
{
    if n >= 2 {
        lemma_nat_bits_value(n / 2);
        assert(nat_bits(n).drop_last() =~= nat_bits(n / 2));
        assert(nat_bits(n).last() == (n % 2 == 1));
        assert(nat_of(nat_bits(n)) == 2 * nat_of(nat_bits(n / 2)) + if n % 2 == 1 { 1nat } else { 0nat });
    } else {
        let s = seq![n == 1];
        assert(s.drop_last() =~= Seq::<bool>::empty());
        assert(nat_of(s.drop_last()) == 0);
        assert(nat_of(s) == 2 * nat_of(s.drop_last()) + if s.last() { 1nat } else { 0nat });
    }
}

/// Bits without leading zeros are the shortest bits of their number.
pub proof fn lemma_shortest_bits(s: Seq<bool>)
    requires
        s.len() >= 1,
        s.len() == 1 || s[0],
    ensures
        nat_bits(nat_of(s)) == s,
    decreases s.len(),
{
    if s.len() == 1 {
        assert(s.drop_last() =~= Seq::<bool>::empty());
        assert(nat_of(s.drop_last()) == 0);
        assert(s.last() == s[0]);
        assert(nat_of(s) == 2 * nat_of(s.drop_last()) + if s.last() { 1nat } else { 0nat });
        assert(nat_bits(nat_of(s)) =~= s);
    } else {
        let t = s.drop_last();
        lemma_shortest_bits(t);
        if nat_of(t) == 0 {
            assert(nat_bits(0) =~= seq![false]);
            assert(t[0]);
        }
        let n = nat_of(s);
        assert(n == 2 * nat_of(t) + if s.last() { 1nat } else { 0nat });
        assert(n / 2 == nat_of(t));
        assert(nat_bits(n) == nat_bits(n / 2).push(n % 2 == 1));
        assert(nat_bits(n) =~= s);
    }
}

/// The number that `b` denotes, where it fits in a `usize`.
pub fn bits_to_usize(b: &Vec<bool>) -> (r: Option<usize>)
    ensures
        r == (if nat_of(b@) <= usize::MAX { Some(nat_of(b@) as usize) } else { None::<usize> }),
{
    let mut acc: usize = 0;
    let mut i: usize = 0;
    while i < b.len()
        invariant
            i <= b@.len(),
            acc as nat == nat_of(b@.subrange(0, i as int)),
        decreases b@.len() - i,
    {
        proof {
            assert(b@.subrange(0, i + 1).drop_last() =~= b@.subrange(0, i as int));
            lemma_nat_of_prefix_le(b@, i + 1);
        }
        let bit: usize = if b[i] { 1 } else { 0 };
        match acc.checked_mul(2) {
            Some(d) => match d.checked_add(bit) {
                Some(n) => {
                    acc = n;
                },
                None => {
                    return None;
                },
            },
            None => {
                return None;
            },
        }
        i = i + 1;
    }
    proof {
        assert(b@.subrange(0, i as int) =~= b@);
    }
    Some(acc)
}

/// The shortest bits of `n`.
pub fn usize_to_bits(n: usize) -> (r: Vec<bool>)
    ensures
        r@ == nat_bits(n as nat),
    decreases n,
{
    if n < 2 {
        vec![n == 1]
    } else {
        let mut v = usize_to_bits(n / 2);
        v.push(n % 2 == 1);
        v
    }
}

/// `s` brought to exactly `w` bits, as `fit` says.
pub fn fit_bits(s: &Vec<bool>, w: usize) -> (r: Vec<bool>)
    ensures
        r@ == fit(s@, w as nat),
{
    let mut r: Vec<bool> = Vec::new();
    if s.len() >= w {
        let start = s.len() - w;
        let mut i: usize = start;
        while i < s.len()
            invariant
                start <= i <= s@.len(),
                start == s@.len() - w,
                r@ =~= s@.subrange(start as int, i as int),
            decreases s@.len() - i,
        {
            r.push(s[i]);
            i = i + 1;
        }
    } else {
        let pad = w - s.len();
        let mut i: usize = 0;
        while i < pad
            invariant
                i <= pad,
                r@ =~= Seq::new(i as nat, |j: int| false),
            decreases pad - i,
        {
            r.push(false);
            i = i + 1;
        }
        let mut k: usize = 0;
        while k < s.len()
            invariant
                k <= s@.len(),
                r@ =~= Seq::new(pad as nat, |j: int| false) + s@.subrange(0, k as int),
            decreases s@.len() - k,
        {
            r.push(s[k]);
            k = k + 1;
        }
    }
    r
}

} // verus!
