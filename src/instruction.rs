//! The instruction set: each instruction parses its arguments once and runs against the machine.
use vstd::prelude::*;

use crate::error::{ArgumentType, Error, ErrorType, RuntimeError};
use crate::garden::{overwrite, Garden};
use crate::parse::{parse, Parsed};
use crate::text::{chars_of, string_of};
use crate::value::{is_pointer, offset, resolve, resolve_word, width, Operand, Value};
use crate::words::same_chars;

verus! {

pub struct Put(pub Value, pub Option<Value>);

pub struct Pop(pub Value);

pub struct Move {
    pub to: Value,
    pub from: Value,
}

pub struct Call(pub String);

pub struct Return;

pub struct Extern {
    pub name: String,
    pub val: Value,
}

/// One compiled instruction.
pub enum Instruction {
    Put(Put),
    Pop(Pop),
    Move(Move),
    Call(Call),
    Return(Return),
    Extern(Extern),
}

/// The mathematical form of an instruction.
pub enum Op {
    Put(Operand, Option<Operand>),
    Pop(Operand),
    Move(Operand, Operand),
    Call(Seq<char>),
    Return,
    Extern(Seq<char>, Operand),
}

impl View for Instruction {
    type V = Op;

    open spec fn view(&self) -> Op {
        match self {
            Instruction::Put(Put(s, v)) => Op::Put(
                s@,
                match v {
                    Some(x) => Some(x@),
                    None => None,
                },
            ),
            Instruction::Pop(Pop(s)) => Op::Pop(s@),
            Instruction::Move(m) => Op::Move(m.to@, m.from@),
            Instruction::Call(Call(n)) => Op::Call(n@),
            Instruction::Return(_) => Op::Return,
            Instruction::Extern(e) => Op::Extern(e.name@, e.val@),
        }
    }
}

/// The operand that `s` parses to; where `ptr` holds, only a pointer.
pub open spec fn operand_of(s: Seq<char>, ptr: bool) -> Option<Operand> {
    match parse(s) {
        Parsed::Operand(o) => if ptr && !is_pointer(o) {
            None
        } else {
            Some(o)
        },
        _ => None,
    }
}

/// The number one, the value `extern` passes where it is given none.
pub open spec fn one() -> Operand {
    Operand::Num(seq![true])
}

pub open spec fn is_known(name: Seq<char>) -> bool {
    name == "put"@ || name == "pop"@ || name == "move"@ || name == "call"@ || name == "return"@
        || name == "extern"@
}

/// How many arguments the instruction `name` takes.
pub open spec fn arity(name: Seq<char>) -> ArgumentType {
    if name == "put"@ || name == "extern"@ {
        ArgumentType::Range(1, 2)
    } else if name == "pop"@ || name == "call"@ {
        ArgumentType::Exact(1)
    } else if name == "move"@ {
        ArgumentType::Exact(2)
    } else {
        ArgumentType::Exact(0)
    }
}

/// The instruction that `name` with `args` compiles to, where it compiles.
pub open spec fn compile(name: Seq<char>, args: Seq<Seq<char>>) -> Option<Op> {
    let n = args.len();
    if !is_known(name) || !arity(name).accepts(n) {
        None
    } else if name == "put"@ {
        match operand_of(args[0], false) {
            Some(a) => if n == 2 {
                match operand_of(args[1], false) {
                    Some(b) => Some(Op::Put(a, Some(b))),
                    None => None,
                }
            } else {
                Some(Op::Put(a, None))
            },
            None => None,
        }
    } else if name == "pop"@ {
        match operand_of(args[0], false) {
            Some(a) => Some(Op::Pop(a)),
            None => None,
        }
    } else if name == "move"@ {
        match (operand_of(args[0], true), operand_of(args[1], false)) {
            (Some(a), Some(b)) => Some(Op::Move(a, b)),
            _ => None,
        }
    } else if name == "call"@ {
        Some(Op::Call(args[0]))
    } else if name == "return"@ {
        Some(Op::Return)
    } else {
        if n == 2 {
            match operand_of(args[1], false) {
                Some(b) => Some(Op::Extern(args[0], b)),
                None => None,
            }
        } else {
            Some(Op::Extern(args[0], one()))
        }
    }
}

pub open spec fn args_view(args: Seq<Vec<char>>) -> Seq<Seq<char>> {
    args.map_values(|a: Vec<char>| a@)
}

/// What `put` leaves on the stack `st`.
pub open spec fn put_effect(size: Operand, val: Option<Operand>, st: Seq<bool>) -> Option<Seq<bool>> {
    match resolve_word(size, st) {
        Some(n) => if st.len() + n > usize::MAX {
            None
        } else {
            let grown = st + Seq::new(n, |i: int| false);
            match val {
                None => Some(grown),
                Some(v) => match (width(v, grown), resolve(v, grown)) {
                    (Some(k), Some(b)) => if k > n {
                        None
                    } else {
                        Some(overwrite(grown, b, st.len(), n))
                    },
                    _ => None,
                },
            }
        },
        None => None,
    }
}

/// Whether `put` refuses because its value is wider than the room it makes.
pub open spec fn put_too_wide(size: Operand, val: Option<Operand>, st: Seq<bool>) -> bool {
    match (resolve_word(size, st), val) {
        (Some(n), Some(v)) => st.len() + n <= usize::MAX && match width(
            v,
            st + Seq::new(n, |i: int| false),
        ) {
            Some(k) => k > n,
            None => false,
        },
        _ => false,
    }
}

/// What `pop` leaves on the stack `st`.
pub open spec fn pop_effect(size: Operand, st: Seq<bool>) -> Option<Seq<bool>> {
    match resolve_word(size, st) {
        Some(n) => if n <= st.len() {
            Some(st.subrange(0, st.len() - n))
        } else {
            None
        },
        None => None,
    }
}

/// Whether `move` refuses because its source is wider than its destination.
pub open spec fn too_wide(to: Operand, from: Operand, st: Seq<bool>) -> bool {
    match (width(to, st), width(from, st)) {
        (Some(w), Some(k)) => k > w,
        _ => false,
    }
}

/// What `move` leaves on the stack `st`.
pub open spec fn move_effect(to: Operand, from: Operand, st: Seq<bool>) -> Option<Seq<bool>> {
    match (width(to, st), width(from, st)) {
        (Some(w), Some(k)) => if k > w {
            None
        } else {
            match (offset(to, st), resolve(from, st)) {
                (Some(p), Some(b)) => if p + w <= st.len() {
                    Some(overwrite(st, b, p, w))
                } else {
                    None
                },
                _ => None,
            }
        },
        _ => None,
    }
}

fn option_operand_view(v: &Option<Value>) -> (r: Ghost<Option<Operand>>)
    ensures
        r@ == (match v {
            Some(x) => Some(x@),
            None => None::<Operand>,
        }),
{
    Ghost(
        match v {
            Some(x) => Some(x@),
            None => None,
        },
    )
}

pub(crate) fn is_word(name: &Vec<char>, word: &str) -> (r: bool)
    ensures
        r == (name@ == word@),
{
    let w = chars_of(word);
    same_chars(name, &w)
}

impl Put {
    pub fn exec(&self, garden: &mut Garden) -> (r: Result<(), RuntimeError>)
        ensures
            r is Ok <==> put_effect(
                self.0@,
                match self.1 {
                    Some(x) => Some(x@),
                    None => None,
                },
                old(garden).stack_view(),
            ) is Some,
            r is Ok ==> final(garden).stack_view() == put_effect(
                self.0@,
                match self.1 {
                    Some(x) => Some(x@),
                    None => None,
                },
                old(garden).stack_view(),
            )->Some_0,
            put_too_wide(
                self.0@,
                match self.1 {
                    Some(x) => Some(x@),
                    None => None,
                },
                old(garden).stack_view(),
            ) ==> r == Err::<(), RuntimeError>(RuntimeError::TooWide),
            final(garden).calls_view() == old(garden).calls_view(),
            final(garden).instruction == old(garden).instruction,
    {
        let size = match self.0.get_usize(garden) {
            Ok(n) => n,
            Err(e) => return Err(e),
        };
        let pos = garden.stack_len();
        if size > usize::MAX - pos {
            return Err(RuntimeError::Overflow);
        }
        garden.push(size, false);
        match &self.1 {
            Some(val) => {
                match val.can_coerce(size, garden) {
                    Ok(true) => {},
                    Ok(false) => return Err(RuntimeError::TooWide),
                    Err(e) => return Err(e),
                }
                match val.get_boolvec(garden) {
                    Ok(bits) => {
                        garden.set_bits_boolvec(&bits, pos, size);
                        Ok(())
                    },
                    Err(e) => Err(e),
                }
            },
            None => Ok(()),
        }
    }
}

impl Pop {
    pub fn exec(&self, garden: &mut Garden) -> (r: Result<(), RuntimeError>)
        ensures
            r is Ok <==> pop_effect(self.0@, old(garden).stack_view()) is Some,
            r is Ok ==> final(garden).stack_view() == pop_effect(
                self.0@,
                old(garden).stack_view(),
            )->Some_0,
            r is Err ==> *final(garden) == *old(garden),
            final(garden).calls_view() == old(garden).calls_view(),
            final(garden).instruction == old(garden).instruction,
    {
        let size = match self.0.get_usize(garden) {
            Ok(n) => n,
            Err(e) => return Err(e),
        };
        garden.pop(size)
    }
}

impl Move {
    pub fn exec(&self, garden: &mut Garden) -> (r: Result<(), RuntimeError>)
        ensures
            r is Ok <==> move_effect(self.to@, self.from@, old(garden).stack_view()) is Some,
            r is Ok ==> final(garden).stack_view() == move_effect(
                self.to@,
                self.from@,
                old(garden).stack_view(),
            )->Some_0,
            too_wide(self.to@, self.from@, old(garden).stack_view()) ==> r == Err::<
                (),
                RuntimeError,
            >(RuntimeError::TooWide),
            r is Err ==> *final(garden) == *old(garden),
            final(garden).calls_view() == old(garden).calls_view(),
            final(garden).instruction == old(garden).instruction,
    {
        let size = match self.to.get_size(garden) {
            Ok(n) => n,
            Err(e) => return Err(e),
        };
        match self.from.can_coerce(size, garden) {
            Ok(true) => {},
            Ok(false) => return Err(RuntimeError::TooWide),
            Err(e) => return Err(e),
        }
        let pos = match self.to.get_ptr_position(garden) {
            Ok(p) => p,
            Err(e) => return Err(e),
        };
        let val = match self.from.get_boolvec(garden) {
            Ok(b) => b,
            Err(e) => return Err(e),
        };
        if pos > garden.stack_len() || size > garden.stack_len() - pos {
            return Err(RuntimeError::Unresolvable);
        }
        garden.set_bits_boolvec(&val, pos, size);
        Ok(())
    }
}

proof fn lemma_names_distinct()
    ensures
        "put"@ != "pop"@,
        "put"@ != "move"@,
        "put"@ != "call"@,
        "put"@ != "return"@,
        "put"@ != "extern"@,
        "pop"@ != "move"@,
        "pop"@ != "call"@,
        "pop"@ != "return"@,
        "pop"@ != "extern"@,
        "move"@ != "call"@,
        "move"@ != "return"@,
        "move"@ != "extern"@,
        "call"@ != "return"@,
        "call"@ != "extern"@,
        "return"@ != "extern"@,
{
    reveal_strlit("put");
    reveal_strlit("pop");
    reveal_strlit("move");
    reveal_strlit("call");
    reveal_strlit("return");
    reveal_strlit("extern");
    assert("put"@[1] != "pop"@[1]);
    assert("move"@[0] != "call"@[0]);
    assert("return"@[0] != "extern"@[0]);
    assert("put"@.len() != "move"@.len());
    assert("put"@.len() != "return"@.len());
    assert("move"@.len() != "return"@.len());
}

/// The contract every constructor of an instruction keeps.
pub open spec fn constructed(name: Seq<char>, args: Seq<Seq<char>>, r: Result<Instruction, ErrorType>) -> bool {
    &&& r is Ok <==> compile(name, args) is Some
    &&& r is Ok ==> r->Ok_0@ == compile(name, args)->Some_0
    &&& !arity(name).accepts(args.len()) ==> (r matches Err(ErrorType::ArgumentError { .. }))
}

fn operand(arg: &Vec<char>, require_pointer: bool) -> (r: Result<Value, ErrorType>)
    ensures
        r is Ok <==> operand_of(arg@, require_pointer) is Some,
        r is Ok ==> r->Ok_0@ == operand_of(arg@, require_pointer)->Some_0,
{
    Value::new(string_of(arg).as_str(), require_pointer)
}

fn check_arity(name: &Vec<char>, n: usize, range: ArgumentType, err: &Error) -> (r: Result<(), ErrorType>)
    ensures
        r is Ok <==> range.accepts(n as nat),
        r is Err ==> (r matches Err(ErrorType::ArgumentError { .. })),
{
    let nm = string_of(name);
    err.check_args("instruction", nm.as_str(), n, range)
}

impl Put {
    pub fn new(name: &Vec<char>, args: &Vec<Vec<char>>, err: &Error) -> (r: Result<Instruction, ErrorType>)
        requires
            name@ == "put"@,
        ensures
            constructed(name@, args_view(args@), r),
    {
        proof {
            lemma_names_distinct();
        }
        let ghost av = args_view(args@);
        match check_arity(name, args.len(), ArgumentType::Range(1, 2), err) {
            Ok(()) => {},
            Err(e) => return Err(e),
        }
        assert(forall|j: int| 0 <= j < args@.len() ==> #[trigger] av[j] == args@[j]@);
        let val = if args.len() >= 2 {
            match operand(&args[1], false) {
                Ok(v) => Some(v),
                Err(e) => return Err(e),
            }
        } else {
            None
        };
        match operand(&args[0], false) {
            Ok(size) => Ok(Instruction::Put(Put(size, val))),
            Err(e) => Err(e),
        }
    }
}

impl Pop {
    pub fn new(name: &Vec<char>, args: &Vec<Vec<char>>, err: &Error) -> (r: Result<Instruction, ErrorType>)
        requires
            name@ == "pop"@,
        ensures
            constructed(name@, args_view(args@), r),
    {
        proof {
            lemma_names_distinct();
        }
        let ghost av = args_view(args@);
        match check_arity(name, args.len(), ArgumentType::Exact(1), err) {
            Ok(()) => {},
            Err(e) => return Err(e),
        }
        assert(av[0] == args@[0]@);
        match operand(&args[0], false) {
            Ok(v) => Ok(Instruction::Pop(Pop(v))),
            Err(e) => Err(e),
        }
    }
}

impl Move {
    pub fn new(name: &Vec<char>, args: &Vec<Vec<char>>, err: &Error) -> (r: Result<Instruction, ErrorType>)
        requires
            name@ == "move"@,
        ensures
            constructed(name@, args_view(args@), r),
    {
        proof {
            lemma_names_distinct();
        }
        let ghost av = args_view(args@);
        match check_arity(name, args.len(), ArgumentType::Exact(2), err) {
            Ok(()) => {},
            Err(e) => return Err(e),
        }
        assert(av[0] == args@[0]@ && av[1] == args@[1]@);
        let to = match operand(&args[0], true) {
            Ok(v) => v,
            Err(e) => return Err(e),
        };
        match operand(&args[1], false) {
            Ok(from) => Ok(Instruction::Move(Move { to, from })),
            Err(e) => Err(e),
        }
    }
}

impl Call {
    pub fn new(name: &Vec<char>, args: &Vec<Vec<char>>, err: &Error) -> (r: Result<Instruction, ErrorType>)
        requires
            name@ == "call"@,
        ensures
            constructed(name@, args_view(args@), r),
    {
        proof {
            lemma_names_distinct();
        }
        let ghost av = args_view(args@);
        match check_arity(name, args.len(), ArgumentType::Exact(1), err) {
            Ok(()) => {},
            Err(e) => return Err(e),
        }
        assert(av[0] == args@[0]@);
        Ok(Instruction::Call(Call(string_of(&args[0]))))
    }
}

impl Return {
    pub fn new(name: &Vec<char>, args: &Vec<Vec<char>>, err: &Error) -> (r: Result<Instruction, ErrorType>)
        requires
            name@ == "return"@,
        ensures
            constructed(name@, args_view(args@), r),
    {
        proof {
            lemma_names_distinct();
        }
        match check_arity(name, args.len(), ArgumentType::Exact(0), err) {
            Ok(()) => {},
            Err(e) => return Err(e),
        }
        Ok(Instruction::Return(Return))
    }
}

impl Extern {
    pub fn new(name: &Vec<char>, args: &Vec<Vec<char>>, err: &Error) -> (r: Result<Instruction, ErrorType>)
        requires
            name@ == "extern"@,
        ensures
            constructed(name@, args_view(args@), r),
    {
        proof {
            lemma_names_distinct();
        }
        let ghost av = args_view(args@);
        match check_arity(name, args.len(), ArgumentType::Range(1, 2), err) {
            Ok(()) => {},
            Err(e) => return Err(e),
        }
        assert(forall|j: int| 0 <= j < args@.len() ==> #[trigger] av[j] == args@[j]@);
        let val = if args.len() == 2 {
            match operand(&args[1], false) {
                Ok(v) => v,
                Err(e) => return Err(e),
            }
        } else {
            let one_bit = vec![true];
            assert(one_bit@ =~= seq![true]);
            Value::Bignum(one_bit)
        };
        Ok(Instruction::Extern(Extern { name: string_of(&args[0]), val }))
    }
}

/// Compiles the instruction `name` with the argument texts `args`.
pub fn create_instruction(name: &Vec<char>, args: &Vec<Vec<char>>, err: &Error) -> (r: Result<
    Instruction,
    ErrorType,
>)
    ensures
        r is Ok <==> compile(name@, args_view(args@)) is Some,
        r is Ok ==> r->Ok_0@ == compile(name@, args_view(args@))->Some_0,
        !is_known(name@) ==> (r matches Err(ErrorType::NonExistent { kind, value }) && kind@
            == "instruction"@ && value@ == name@),
        is_known(name@) && !arity(name@).accepts(args@.len() as nat) ==> (r matches Err(
            ErrorType::ArgumentError { .. }
        )),
{
    if is_word(name, "put") {
        Put::new(name, args, err)
    } else if is_word(name, "pop") {
        Pop::new(name, args, err)
    } else if is_word(name, "move") {
        Move::new(name, args, err)
    } else if is_word(name, "call") {
        Call::new(name, args, err)
    } else if is_word(name, "return") {
        Return::new(name, args, err)
    } else if is_word(name, "extern") {
        Extern::new(name, args, err)
    } else {
        Err(ErrorType::NonExistent { kind: "instruction".to_string(), value: string_of(name) })
    }
}

} // verus!
