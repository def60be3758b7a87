//! Operands: literal bits, numbers, pointers into the stack, and positions derived from pointers.
use vstd::prelude::*;

use crate::bits::{bits_to_usize, lemma_shortest_bits, nat_bits, nat_of, usize_to_bits};
use crate::literal::lemma_nat_of_zero_prefix;
use crate::error::RuntimeError;
use crate::garden::Garden;

verus! {

/// An operand as it is parsed once, before it is resolved against a stack.
pub enum Value {
    /// Literal bits, most significant first.
    Boolvec(Vec<bool>),
    /// A number, held as its shortest bits, most significant first.
    Bignum(Vec<bool>),
    /// The start (`false`) or the end (`true`) of the region a pointer addresses.
    Position(Box<Value>, bool),
    /// `len` bits at `pos`, counted from the top of the stack where `rev` holds.
    Pointer { pos: Box<Value>, len: Box<Value>, rev: bool },
}

/// The mathematical form of a `Value`.
pub enum Operand {
    Bits(Seq<bool>),
    Num(Seq<bool>),
    Pos(Box<Operand>, bool),
    Ptr(Box<Operand>, Box<Operand>, bool),
}

impl View for Value {
    type V = Operand;

    open spec fn view(&self) -> Operand
        decreases self,
    {
        match self {
            Value::Boolvec(b) => Operand::Bits(b@),
            Value::Bignum(b) => Operand::Num(b@),
            Value::Position(p, end) => Operand::Pos(Box::new((**p)@), *end),
            Value::Pointer { pos, len, rev } => Operand::Ptr(
                Box::new((**pos)@),
                Box::new((**len)@),
                *rev,
            ),
        }
    }
}

/// The absolute offset of a pointer whose position resolves to `p`, on a stack of `len` bits.
pub open spec fn start_of(len: nat, p: nat, rev: bool) -> Option<nat> {
    if p > usize::MAX {
        None
    } else if rev {
        if p <= len {
            Some((len - p) as nat)
        } else {
            None
        }
    } else {
        Some(p)
    }
}

/// The bits that a pointer with position `p` and width `w` addresses in `st`.
pub open spec fn region(st: Seq<bool>, p: nat, w: nat, rev: bool) -> Option<Seq<bool>> {
    match start_of(st.len(), p, rev) {
        Some(s) => if s + w <= st.len() {
            Some(st.subrange(s as int, (s + w) as int))
        } else {
            None
        },
        None => None,
    }
}

/// The number a position denotes: the start of the region, plus its width where `end` holds.
pub open spec fn position_of(len: nat, p: nat, w: nat, rev: bool, end: bool) -> Option<nat> {
    match start_of(len, p, rev) {
        Some(s) => {
            let n = if end { s + w } else { s };
            if n <= usize::MAX {
                Some(n)
            } else {
                None
            }
        },
        None => None,
    }
}

/// The bits that `o` stands for on the stack `st`, where it can be resolved.
pub open spec fn resolve(o: Operand, st: Seq<bool>) -> Option<Seq<bool>>
    decreases o,
{
    match o {
        Operand::Bits(b) => Some(b),
        Operand::Num(b) => Some(b),
        Operand::Ptr(p, l, rev) => match (resolve(*p, st), resolve(*l, st)) {
            (Some(pb), Some(lb)) => region(st, nat_of(pb), nat_of(lb), rev),
            _ => None,
        },
        Operand::Pos(q, end) => match *q {
            Operand::Ptr(p, l, rev) => match resolve(*p, st) {
                Some(pb) => if end {
                    match resolve(*l, st) {
                        Some(lb) => match position_of(st.len(), nat_of(pb), nat_of(lb), rev, true) {
                            Some(n) => Some(nat_bits(n)),
                            None => None,
                        },
                        None => None,
                    }
                } else {
                    match position_of(st.len(), nat_of(pb), 0, rev, false) {
                        Some(n) => Some(nat_bits(n)),
                        None => None,
                    }
                },
                None => None,
            },
            _ => None,
        },
    }
}

/// The number `o` stands for on `st`, where it fits in a machine word.
pub open spec fn resolve_word(o: Operand, st: Seq<bool>) -> Option<nat> {
    match resolve(o, st) {
        Some(b) => if nat_of(b) <= usize::MAX {
            Some(nat_of(b))
        } else {
            None
        },
        None => None,
    }
}

/// The absolute offset a pointer addresses on `st`; none for other operands.
pub open spec fn offset(o: Operand, st: Seq<bool>) -> Option<nat> {
    match o {
        Operand::Ptr(p, l, rev) => match resolve(*p, st) {
            Some(pb) => start_of(st.len(), nat_of(pb), rev),
            None => None,
        },
        _ => None,
    }
}

/// The natural width of `o` on `st`: the declared length of a pointer, the fewest bits that hold
/// a number, the length of the bits of anything else.
pub open spec fn width(o: Operand, st: Seq<bool>) -> Option<nat> {
    match o {
        Operand::Ptr(p, l, rev) => resolve_word(*l, st),
        Operand::Num(b) => Some(nat_bits(nat_of(b)).len()),
        _ => match resolve(o, st) {
            Some(b) => Some(b.len()),
            None => None,
        },
    }
}

pub open spec fn is_pointer(o: Operand) -> bool {
    o is Ptr
}

/// On a stack of length `L`, a pointer whose position resolves to `p` and whose length
/// resolves to `l` starts at `L - p` when counted from the top and at `p` otherwise; its width
/// is `l`; `<ptr` resolves to that start and `>ptr` to that start plus `l`.
pub proof fn lemma_pointer_offsets(st: Seq<bool>, q: Operand, m: Operand, p: nat, l: nat, rev: bool)
    requires
        resolve(q, st) matches Some(b) && nat_of(b) == p,
        resolve(m, st) matches Some(b) && nat_of(b) == l,
        p <= usize::MAX,
        l <= usize::MAX,
        st.len() <= usize::MAX,
        rev ==> p <= st.len(),
    ensures
        ({
            let ptr = Operand::Ptr(Box::new(q), Box::new(m), rev);
            let start: nat = if rev { (st.len() - p) as nat } else { p };
            &&& offset(ptr, st) == Some(start)
            &&& width(ptr, st) == Some(l)
            &&& resolve(Operand::Pos(Box::new(ptr), false), st) == Some(nat_bits(start))
            &&& start + l <= usize::MAX ==> resolve(Operand::Pos(Box::new(ptr), true), st) == Some(
                nat_bits(start + l),
            )
        }),
{
    let ptr = Operand::Ptr(Box::new(q), Box::new(m), rev);
    let start: nat = if rev { (st.len() - p) as nat } else { p };
    assert(offset(ptr, st) == Some(start));
    assert(resolve(Operand::Pos(Box::new(ptr), false), st) == Some(nat_bits(start)));
}

fn copy_bits(b: &Vec<bool>) -> (r: Vec<bool>)
    ensures
        r@ == b@,
{
    let mut r: Vec<bool> = Vec::new();
    let mut i: usize = 0;
    while i < b.len()
        invariant
            i <= b@.len(),
            r@ =~= b@.subrange(0, i as int),
        decreases b@.len() - i,
    {
        r.push(b[i]);
        i = i + 1;
    }
    assert(r@ =~= b@);
    r
}

impl Value {
    pub fn is_ptr(&self) -> (r: bool)
        ensures
            r == is_pointer(self@),
    {
        match self {
            Value::Pointer { .. } => true,
            _ => false,
        }
    }

    /// The bits this value stands for on the machine's stack.
    pub fn get_boolvec(&self, garden: &Garden) -> (r: Result<Vec<bool>, RuntimeError>)
        ensures
            match resolve(self@, garden.stack_view()) {
                Some(b) => r is Ok && r->Ok_0@ == b,
                None => r == Err::<Vec<bool>, RuntimeError>(RuntimeError::Unresolvable),
            },
        decreases self,
    {
        let _total = garden.stack_len();
        match self {
            Value::Boolvec(b) => Ok(copy_bits(b)),
            Value::Bignum(b) => Ok(copy_bits(b)),
            Value::Pointer { pos, len, rev } => {
                let pb = match pos.get_boolvec(garden) {
                    Ok(v) => v,
                    Err(_) => return Err(RuntimeError::Unresolvable),
                };
                let lb = match len.get_boolvec(garden) {
                    Ok(v) => v,
                    Err(_) => return Err(RuntimeError::Unresolvable),
                };
                match Value::start(garden, &pb, *rev) {
                    Some(s) => match bits_to_usize(&lb) {
                        Some(w) => {
                            if s <= garden.stack_len() && w <= garden.stack_len() - s {
                                Ok(garden.slice(s, s + w))
                            } else {
                                Err(RuntimeError::Unresolvable)
                            }
                        },
                        None => Err(RuntimeError::Unresolvable),
                    },
                    None => Err(RuntimeError::Unresolvable),
                }
            },
            Value::Position(q, end) => match &**q {
                Value::Pointer { pos, len, rev } => {
                    assert((**q)@ == Operand::Ptr(Box::new((**pos)@), Box::new((**len)@), *rev));
                    let pb = match pos.get_boolvec(garden) {
                        Ok(v) => v,
                        Err(_) => return Err(RuntimeError::Unresolvable),
                    };
                    match Value::start(garden, &pb, *rev) {
                        Some(s) => {
                            if *end {
                                let lb = match len.get_boolvec(garden) {
                                    Ok(v) => v,
                                    Err(_) => return Err(RuntimeError::Unresolvable),
                                };
                                match bits_to_usize(&lb) {
                                    Some(w) => match s.checked_add(w) {
                                        Some(n) => Ok(usize_to_bits(n)),
                                        None => Err(RuntimeError::Unresolvable),
                                    },
                                    None => Err(RuntimeError::Unresolvable),
                                }
                            } else {
                                Ok(usize_to_bits(s))
                            }
                        },
                        None => Err(RuntimeError::Unresolvable),
                    }
                },
                _ => {
                    assert(!is_pointer((**q)@));
                    Err(RuntimeError::Unresolvable)
                },
            },
        }
    }

    /// `start_of` for a position whose bits are `pb`, on the machine's stack.
    fn start(garden: &Garden, pb: &Vec<bool>, rev: bool) -> (r: Option<usize>)
        ensures
            r == (match start_of(garden.stack_view().len(), nat_of(pb@), rev) {
                Some(s) => Some(s as usize),
                None => None::<usize>,
            }),
            r is Some && rev ==> r->Some_0 <= garden.stack_view().len(),
    {
        match bits_to_usize(pb) {
            Some(p) => {
                if rev {
                    let len = garden.stack_len();
                    if p <= len {
                        Some(len - p)
                    } else {
                        None
                    }
                } else {
                    Some(p)
                }
            },
            None => None,
        }
    }

    /// The number this value stands for, as its shortest bits.
    pub fn get_bignum(&self, garden: &Garden) -> (r: Result<Vec<bool>, RuntimeError>)
        ensures
            match resolve(self@, garden.stack_view()) {
                Some(b) => r is Ok && r->Ok_0@ == nat_bits(nat_of(b)),
                None => r == Err::<Vec<bool>, RuntimeError>(RuntimeError::Unresolvable),
            },
    {
        let b = match self.get_boolvec(garden) {
            Ok(b) => b,
            Err(e) => return Err(e),
        };
        let mut k: usize = 0;
        while k < b.len() && !b[k]
            invariant
                k <= b@.len(),
                forall|j: int| 0 <= j < k ==> !#[trigger] b@[j],
            decreases b@.len() - k,
        {
            k = k + 1;
        }
        proof {
            assert(b@ =~= Seq::new(k as nat, |i: int| false) + b@.subrange(k as int, b@.len() as int));
            lemma_nat_of_zero_prefix(k as nat, b@.subrange(k as int, b@.len() as int));
        }
        if k == b.len() {
            proof {
                assert(b@.subrange(k as int, b@.len() as int) =~= Seq::<bool>::empty());
                assert(nat_bits(0) =~= seq![false]);
            }
            return Ok(vec![false]);
        }
        let mut r: Vec<bool> = Vec::new();
        let mut i: usize = k;
        while i < b.len()
            invariant
                k <= i <= b@.len(),
                r@ =~= b@.subrange(k as int, i as int),
            decreases b@.len() - i,
        {
            r.push(b[i]);
            i = i + 1;
        }
        proof {
            lemma_shortest_bits(r@);
        }
        Ok(r)
    }

    /// The number this value stands for, as a machine word.
    pub fn get_usize(&self, garden: &Garden) -> (r: Result<usize, RuntimeError>)
        ensures
            match resolve_word(self@, garden.stack_view()) {
                Some(n) => r == Ok::<usize, RuntimeError>(n as usize),
                None => r is Err,
            },
    {
        match self.get_boolvec(garden) {
            Ok(b) => match bits_to_usize(&b) {
                Some(n) => Ok(n),
                None => Err(RuntimeError::Overflow),
            },
            Err(e) => Err(e),
        }
    }

    /// The absolute offset a pointer addresses.
    pub fn get_ptr_position(&self, garden: &Garden) -> (r: Result<usize, RuntimeError>)
        ensures
            match offset(self@, garden.stack_view()) {
                Some(n) => r == Ok::<usize, RuntimeError>(n as usize),
                None => r is Err,
            },
    {
        match self {
            Value::Pointer { pos, rev, .. } => {
                let pb = match pos.get_boolvec(garden) {
                    Ok(v) => v,
                    Err(_) => return Err(RuntimeError::Unresolvable),
                };
                match Value::start(garden, &pb, *rev) {
                    Some(s) => Ok(s),
                    None => Err(RuntimeError::Unresolvable),
                }
            },
            _ => Err(RuntimeError::Unresolvable),
        }
    }

    /// The declared width of a pointer.
    pub fn get_ptr_size(&self, garden: &Garden) -> (r: Result<usize, RuntimeError>)
        ensures
            is_pointer(self@) ==> match width(self@, garden.stack_view()) {
                Some(n) => r == Ok::<usize, RuntimeError>(n as usize),
                None => r is Err,
            },
            !is_pointer(self@) ==> r is Err,
    {
        match self {
            Value::Pointer { len, .. } => len.get_usize(garden),
            _ => Err(RuntimeError::Unresolvable),
        }
    }

    /// The natural width of this value.
    pub fn get_size(&self, garden: &Garden) -> (r: Result<usize, RuntimeError>)
        ensures
            match width(self@, garden.stack_view()) {
                Some(n) => n <= usize::MAX && r == Ok::<usize, RuntimeError>(n as usize),
                None => r is Err,
            },
    {
        match self {
            Value::Pointer { len, .. } => len.get_usize(garden),
            Value::Bignum(_) => match self.get_bignum(garden) {
                Ok(b) => Ok(b.len()),
                Err(e) => Err(e),
            },
            _ => match self.get_boolvec(garden) {
                Ok(b) => Ok(b.len()),
                Err(e) => Err(e),
            },
        }
    }

    /// Whether this value fits in `new_size` bits.
    pub fn can_coerce(&self, new_size: usize, garden: &Garden) -> (r: Result<bool, RuntimeError>)
        ensures
            match width(self@, garden.stack_view()) {
                Some(n) => r == Ok::<bool, RuntimeError>(n <= new_size),
                None => r is Err,
            },
    {
        match self.get_size(garden) {
            Ok(n) => Ok(n <= new_size),
            Err(e) => Err(e),
        }
    }
}

} // verus!
