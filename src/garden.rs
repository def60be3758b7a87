//! The machine's state: the bit stack, the call stack and the instruction pointer.
use vstd::prelude::*;

use crate::bignum::decimal_text;
use crate::bits::{fit, fit_bits, group, nat_of};
use crate::literal::numprint_text;
use crate::tater::{label_of, Tater};
use crate::error::RuntimeError;

verus! {

pub struct Garden {
    pub stack: Vec<bool>,
    pub call_stack: Vec<usize>,
    pub instruction: usize,
    pub validity: bool,
    pub input_string: String,
    pub seed: u64,
}

/// `st` with the `len` bits at `pos` replaced by `fit(num, len)`.
pub open spec fn overwrite(st: Seq<bool>, num: Seq<bool>, pos: nat, len: nat) -> Seq<bool> {
    st.subrange(0, pos as int) + fit(num, len) + st.subrange((pos + len) as int, st.len() as int)
}

/// One stack operation: a `push` of `n` copies of a bit, or a `pop` of `n` bits.
pub enum StackOp {
    Push(nat, bool),
    Pop(nat),
}

/// The stack after `ops`, each as `Garden::push` and `Garden::pop` state it; none where a pop
/// asks for more bits than the stack holds.
pub open spec fn apply_ops(st: Seq<bool>, ops: Seq<StackOp>) -> Option<Seq<bool>>
    decreases ops.len(),
{
    if ops.len() == 0 {
        Some(st)
    } else {
        match ops[0] {
            StackOp::Push(n, v) => apply_ops(st + Seq::new(n, |i: int| v), ops.drop_first()),
            StackOp::Pop(n) => if n <= st.len() {
                apply_ops(st.subrange(0, st.len() - n), ops.drop_first())
            } else {
                None
            },
        }
    }
}

pub open spec fn pushed(ops: Seq<StackOp>) -> nat
    decreases ops.len(),
{
    if ops.len() == 0 {
        0
    } else {
        (match ops[0] {
            StackOp::Push(n, _) => n,
            StackOp::Pop(_) => 0,
        }) + pushed(ops.drop_first())
    }
}

pub open spec fn popped(ops: Seq<StackOp>) -> nat
    decreases ops.len(),
{
    if ops.len() == 0 {
        0
    } else {
        (match ops[0] {
            StackOp::Push(_, _) => 0,
            StackOp::Pop(n) => n,
        }) + popped(ops.drop_first())
    }
}

/// After any run of pushes and pops that all succeed, the stack holds its first length plus
/// the bits pushed less the bits popped, which is never below zero; the first pop that asks for
/// more than the stack holds fails.
pub proof fn lemma_push_pop_length(st: Seq<bool>, ops: Seq<StackOp>)
    ensures
        apply_ops(st, ops) matches Some(r) ==> popped(ops) <= st.len() + pushed(ops) && r.len()
            == st.len() + pushed(ops) - popped(ops),
    decreases ops.len(),
{
    if ops.len() > 0 {
        match ops[0] {
            StackOp::Push(n, v) => lemma_push_pop_length(st + Seq::new(n, |i: int| v), ops.drop_first()),
            StackOp::Pop(n) => if n <= st.len() {
                lemma_push_pop_length(st.subrange(0, st.len() - n), ops.drop_first());
            },
        }
    }
}

impl Garden {
    /// The bit stack, bottom first.
    pub open spec fn stack_view(&self) -> Seq<bool> {
        self.stack@
    }

    /// The return addresses, oldest first.
    pub open spec fn calls_view(&self) -> Seq<usize> {
        self.call_stack@
    }

    /// A fresh machine; `seed` seeds its random source.
    pub fn new(seed: u64) -> (r: Garden)
        ensures
            r.stack_view() == Seq::<bool>::empty(),
            r.calls_view() == Seq::<usize>::empty(),
            r.instruction == 0,
            r.validity,
            r.input_string@ == Seq::<char>::empty(),
            r.seed == seed,
    {
        Garden {
            stack: Vec::new(),
            call_stack: Vec::new(),
            instruction: 0,
            validity: true,
            input_string: String::new(),
            seed: seed,
        }
    }

    pub fn stack_len(&self) -> (r: usize)
        ensures
            r == self.stack_view().len(),
    {
        self.stack.len()
    }

    /// Appends `bits` copies of `value`.
    pub fn push(&mut self, bits: usize, value: bool)
        requires
            old(self).stack_view().len() + bits <= usize::MAX,
        ensures
            final(self).stack_view() == old(self).stack_view() + Seq::new(bits as nat, |i: int| value),
            final(self).calls_view() == old(self).calls_view(),
            final(self).instruction == old(self).instruction,
    {
        let mut i: usize = 0;
        while i < bits
            invariant
                i <= bits,
                self.stack@ =~= old(self).stack@ + Seq::new(i as nat, |j: int| value),
                self.call_stack@ == old(self).call_stack@,
                self.instruction == old(self).instruction,
            decreases bits - i,
        {
            self.stack.push(value);
            i = i + 1;
        }
    }

    /// Removes `bits` bits from the top; fails, changing nothing, where fewer are there.
    pub fn pop(&mut self, bits: usize) -> (r: Result<(), RuntimeError>)
        ensures
            r is Err <==> bits > old(self).stack_view().len(),
            r is Err ==> r == Err::<(), RuntimeError>(RuntimeError::StackUnderflow) && *final(self)
                == *old(self),
            r is Ok ==> final(self).stack_view() == old(self).stack_view().subrange(
                0,
                old(self).stack_view().len() - bits,
            ),
            final(self).calls_view() == old(self).calls_view(),
            final(self).instruction == old(self).instruction,
    {
        let len = self.stack.len();
        if bits > len {
            return Err(RuntimeError::StackUnderflow);
        }
        self.stack.truncate(len - bits);
        Ok(())
    }

    /// The bits from `start` up to `end`.
    pub fn slice(&self, start: usize, end: usize) -> (r: Vec<bool>)
        requires
            start <= end <= self.stack_view().len(),
        ensures
            r@ == self.stack_view().subrange(start as int, end as int),
    {
        let mut r: Vec<bool> = Vec::new();
        let mut i: usize = start;
        while i < end
            invariant
                start <= i <= end <= self.stack@.len(),
                r@ =~= self.stack@.subrange(start as int, i as int),
            decreases end - i,
        {
            r.push(self.stack[i]);
            i = i + 1;
        }
        r
    }

    /// Overwrites the `len` bits at `pos` with `num`, truncated or zero-extended to `len`.
    pub fn set_bits_boolvec(&mut self, num: &Vec<bool>, pos: usize, len: usize)
        requires
            pos + len <= old(self).stack_view().len(),
        ensures
            final(self).stack_view() == overwrite(old(self).stack_view(), num@, pos as nat, len as nat),
            final(self).calls_view() == old(self).calls_view(),
            final(self).instruction == old(self).instruction,
    {
        let bits = fit_bits(num, len);
        let _total = self.stack.len();
        let mut i: usize = 0;
        while i < len
            invariant
                i <= len,
                pos + len <= self.stack@.len(),
                _total == self.stack@.len(),
                bits@ == fit(num@, len as nat),
                bits@.len() == len,
                self.stack@.len() == old(self).stack@.len(),
                forall|j: int|
                    0 <= j < self.stack@.len() ==> #[trigger] self.stack@[j] == if pos <= j < pos + i {
                        bits@[j - pos]
                    } else {
                        old(self).stack@[j]
                    },
                self.call_stack@ == old(self).call_stack@,
                self.instruction == old(self).instruction,
            decreases len - i,
        {
            self.stack.set(pos + i, bits[i]);
            i = i + 1;
        }
        assert(self.stack@ =~= overwrite(old(self).stack@, num@, pos as nat, len as nat));
    }

    /// The stack as successive groups of `bits_per_byte` bits, each as an unsigned decimal
    /// number; bits after the last whole group are left out.
    pub fn print_bytes(&self, bits_per_byte: usize) -> (r: Vec<String>)
        requires
            bits_per_byte > 0,
        ensures
            r@.len() == self.stack_view().len() / (bits_per_byte as nat),
            forall|i: int|
                0 <= i < r@.len() ==> #[trigger] r@[i]@ == decimal_text(
                    nat_of(group(self.stack_view(), bits_per_byte as nat, i as nat)),
                ),
    {
        let total = self.stack.len();
        let n = total / bits_per_byte;
        let mut r: Vec<String> = Vec::new();
        let mut i: usize = 0;
        while i < n
            invariant
                bits_per_byte > 0,
                total == self.stack@.len(),
                n == self.stack@.len() / (bits_per_byte as nat),
                i <= n,
                r@.len() == i,
                forall|j: int|
                    0 <= j < i ==> #[trigger] r@[j]@ == decimal_text(
                        nat_of(group(self.stack@, bits_per_byte as nat, j as nat)),
                    ),
            decreases n - i,
        {
            proof {
                assert((i + 1) * bits_per_byte <= n * bits_per_byte) by (nonlinear_arith)
                    requires i + 1 <= n;
                assert(n * bits_per_byte <= self.stack@.len()) by (nonlinear_arith)
                    requires n == self.stack@.len() / (bits_per_byte as nat), bits_per_byte > 0;
                assert((i + 1) * bits_per_byte == i * bits_per_byte + bits_per_byte) by (nonlinear_arith);
            }
            let start = i * bits_per_byte;
            let bits = self.slice(start, start + bits_per_byte);
            r.push(numprint_text(&bits));
            i = i + 1;
        }
        r
    }

    /// Pushes the current instruction index and jumps to the label `name`; fails, changing
    /// nothing, where no such label is bound.
    pub fn call(&mut self, tater: &Tater, name: &String) -> (r: Result<(), RuntimeError>)
        ensures
            match label_of(tater.labels_view(), name@) {
                Some(t) => r is Ok && final(self).calls_view() == old(self).calls_view().push(
                    old(self).instruction,
                ) && final(self).instruction == t,
                None => r == Err::<(), RuntimeError>(RuntimeError::NoSuchLabel) && *final(self)
                    == *old(self),
            },
            final(self).stack_view() == old(self).stack_view(),
    {
        match tater.find_label(name) {
            Some(t) => {
                self.call_stack.push(self.instruction);
                self.instruction = t;
                Ok(())
            },
            None => Err(RuntimeError::NoSuchLabel),
        }
    }

    /// Resumes at the most recent return address; fails on an empty call stack.
    pub fn ret(&mut self) -> (r: Result<(), RuntimeError>)
        ensures
            r is Err <==> old(self).calls_view().len() == 0,
            r is Err ==> r == Err::<(), RuntimeError>(RuntimeError::EmptyCallStack) && *final(self)
                == *old(self),
            r is Ok ==> final(self).instruction == old(self).calls_view().last()
                && final(self).calls_view() == old(self).calls_view().drop_last(),
            final(self).stack_view() == old(self).stack_view(),
    {
        if self.call_stack.len() == 0 {
            return Err(RuntimeError::EmptyCallStack);
        }
        match self.call_stack.pop() {
            Some(pos) => {
                self.instruction = pos;
                Ok(())
            },
            None => Err(RuntimeError::EmptyCallStack),
        }
    }

    /// Jumps to the label `name`, leaving the call stack as it is; fails, changing nothing,
    /// where no such label is bound.
    pub fn goto(&mut self, tater: &Tater, name: &String) -> (r: Result<(), RuntimeError>)
        ensures
            match label_of(tater.labels_view(), name@) {
                Some(t) => r is Ok && final(self).instruction == t,
                None => r == Err::<(), RuntimeError>(RuntimeError::NoSuchLabel) && *final(self)
                    == *old(self),
            },
            *final(self) == (Garden { instruction: final(self).instruction, ..*old(self) }),
    {
        match tater.find_label(name) {
            Some(t) => {
                self.instruction = t;
                Ok(())
            },
            None => Err(RuntimeError::NoSuchLabel),
        }
    }
}

} // verus!
