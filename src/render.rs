//! The text of values and diagnostics, as they are reported.
use vstd::prelude::*;

use crate::bignum::decimal_text;
use crate::bits::{lemma_nat_bits_value, nat_of, usize_to_bits};
use crate::error::{ArgumentType, ErrorType};
use crate::literal::numprint_text;
use crate::tater::Diagnostic;
use crate::text::{chars_of, string_of};
use crate::value::{Operand, Value};
use crate::words::append_chars;

verus! {

/// How an argument count constraint reads in a message.
pub open spec fn arity_text(a: ArgumentType) -> Seq<char> {
    match a {
        ArgumentType::Exact(n) => decimal_text(n as nat) + " argument(s)!"@,
        ArgumentType::Range(min, max) => decimal_text(min as nat) + "->"@ + decimal_text(max as nat)
            + " argument(s)"@,
        ArgumentType::AtLeast(n) => "atleast "@ + decimal_text(n as nat) + " argument(s)"@,
        ArgumentType::AtMost(n) => "atmost "@ + decimal_text(n as nat) + " argument(s)"@,
    }
}

/// How an operand reads in a message: `v` or `n` and a number's decimal digits, `[-pos:len]`,
/// `<ptr`, `>ptr`.
pub open spec fn operand_text(o: Operand) -> Seq<char>
    decreases o,
{
    match o {
        Operand::Bits(b) => "v"@ + decimal_text(nat_of(b)),
        Operand::Num(b) => "n"@ + decimal_text(nat_of(b)),
        Operand::Ptr(p, l, rev) => "["@ + (if rev { "-"@ } else { Seq::empty() }) + operand_text(*p)
            + ":"@ + operand_text(*l) + "]"@,
        Operand::Pos(q, end) => seq![if end { '>' } else { '<' }] + operand_text(*q),
    }
}

/// How a compile error reads in a message.
pub open spec fn error_text(e: ErrorType) -> Seq<char> {
    match e {
        ErrorType::Generic(g) => "Generic: "@ + g@ + "!"@,
        ErrorType::InvalidValue(v) => "InvalidValue: "@ + v@ + "!"@,
        ErrorType::ArgumentError { kind, name, num, range } => "ArgumentError: "@ + kind@ + " '"@
            + name@ + "' was given "@ + decimal_text(num as nat) + " argument(s) but expected "@
            + arity_text(range) + "!"@,
        ErrorType::NonExistent { kind, value } => "NameError: no such "@ + kind@ + " of name '"@
            + value@ + "'!"@,
        ErrorType::Empty(name) => name@ + " is empty!"@,
        ErrorType::InvalidPointer(v) => operand_text(v@) + " is an invalid pointer!"@,
    }
}

fn push_str(out: &mut Vec<char>, s: &str)
    ensures
        final(out)@ == old(out)@ + s@,
{
    let c = chars_of(s);
    append_chars(out, &c);
}

fn push_string(out: &mut Vec<char>, s: &String)
    ensures
        final(out)@ == old(out)@ + s@,
{
    push_str(out, s.as_str());
}

fn push_decimal(out: &mut Vec<char>, n: usize)
    ensures
        final(out)@ == old(out)@ + decimal_text(n as nat),
{
    let bits = usize_to_bits(n);
    proof {
        lemma_nat_bits_value(n as nat);
    }
    let d = numprint_text(&bits);
    push_string(out, &d);
}

impl ArgumentType {
    /// The constraint as it reads in a message.
    pub fn message(&self) -> (r: String)
        ensures
            r@ == arity_text(*self),
    {
        let mut out: Vec<char> = Vec::new();
        match *self {
            ArgumentType::Exact(n) => {
                push_decimal(&mut out, n);
                push_str(&mut out, " argument(s)!");
            },
            ArgumentType::Range(min, max) => {
                push_decimal(&mut out, min);
                push_str(&mut out, "->");
                push_decimal(&mut out, max);
                push_str(&mut out, " argument(s)");
            },
            ArgumentType::AtLeast(n) => {
                push_str(&mut out, "atleast ");
                push_decimal(&mut out, n);
                push_str(&mut out, " argument(s)");
            },
            ArgumentType::AtMost(n) => {
                push_str(&mut out, "atmost ");
                push_decimal(&mut out, n);
                push_str(&mut out, " argument(s)");
            },
        }
        proof {
            assert(out@ =~= arity_text(*self));
        }
        string_of(&out)
    }
}

impl Value {
    fn write_text(&self, out: &mut Vec<char>)
        ensures
            final(out)@ == old(out)@ + operand_text(self@),
        decreases self,
    {
        let ghost start = out@;
        match self {
            Value::Boolvec(b) => {
                push_str(out, "v");
                let d = numprint_text(b);
                push_string(out, &d);
            },
            Value::Bignum(b) => {
                push_str(out, "n");
                let d = numprint_text(b);
                push_string(out, &d);
            },
            Value::Pointer { pos, len, rev } => {
                push_str(out, "[");
                if *rev {
                    push_str(out, "-");
                }
                pos.write_text(out);
                push_str(out, ":");
                len.write_text(out);
                push_str(out, "]");
                proof {
                    if !*rev {
                        assert("["@ + Seq::<char>::empty() =~= "["@);
                    }
                }
            },
            Value::Position(q, end) => {
                out.push(if *end { '>' } else { '<' });
                q.write_text(out);
            },
        }
        proof {
            assert(out@ =~= start + operand_text(self@));
        }
    }

    /// The value as it reads in a message.
    pub fn message(&self) -> (r: String)
        ensures
            r@ == operand_text(self@),
    {
        let mut out: Vec<char> = Vec::new();
        self.write_text(&mut out);
        proof {
            assert(out@ =~= operand_text(self@));
        }
        string_of(&out)
    }
}

impl ErrorType {
    /// The error as it reads in a message.
    pub fn message(&self) -> (r: String)
        ensures
            r@ == error_text(*self),
    {
        let mut out: Vec<char> = Vec::new();
        match self {
            ErrorType::Generic(g) => {
                push_str(&mut out, "Generic: ");
                push_string(&mut out, g);
                push_str(&mut out, "!");
            },
            ErrorType::InvalidValue(v) => {
                push_str(&mut out, "InvalidValue: ");
                push_string(&mut out, v);
                push_str(&mut out, "!");
            },
            ErrorType::ArgumentError { kind, name, num, range } => {
                push_str(&mut out, "ArgumentError: ");
                push_string(&mut out, kind);
                push_str(&mut out, " '");
                push_string(&mut out, name);
                push_str(&mut out, "' was given ");
                push_decimal(&mut out, *num);
                push_str(&mut out, " argument(s) but expected ");
                let a = range.message();
                push_string(&mut out, &a);
                push_str(&mut out, "!");
            },
            ErrorType::NonExistent { kind, value } => {
                push_str(&mut out, "NameError: no such ");
                push_string(&mut out, kind);
                push_str(&mut out, " of name '");
                push_string(&mut out, value);
                push_str(&mut out, "'!");
            },
            ErrorType::Empty(name) => {
                push_string(&mut out, name);
                push_str(&mut out, " is empty!");
            },
            ErrorType::InvalidPointer(v) => {
                v.write_text(&mut out);
                push_str(&mut out, " is an invalid pointer!");
            },
        }
        proof {
            assert(out@ =~= error_text(*self));
        }
        string_of(&out)
    }
}

impl Diagnostic {
    /// The full report: the line, the file if any, the error, and the line's text.
    pub fn message(&self) -> (r: String)
        ensures
            r@ == "Error on line "@ + decimal_text(self.error.line as nat) + (match self.error.file {
                Some(f) => " in file '"@ + f@ + "'!"@,
                None => Seq::<char>::empty(),
            }) + ", "@ + error_text(self.kind) + ".\n>>> "@ + self.error.text@,
    {
        let mut out: Vec<char> = Vec::new();
        push_str(&mut out, "Error on line ");
        push_decimal(&mut out, self.error.line);
        let ghost mid = out@;
        match &self.error.file {
            Some(f) => {
                push_str(&mut out, " in file '");
                push_string(&mut out, f);
                push_str(&mut out, "'!");
            },
            None => {},
        }
        push_str(&mut out, ", ");
        let k = self.kind.message();
        push_string(&mut out, &k);
        push_str(&mut out, ".\n>>> ");
        push_string(&mut out, &self.error.text);
        proof {
            if self.error.file is None {
                assert(mid + Seq::<char>::empty() =~= mid);
            }
            assert(out@ =~= "Error on line "@ + decimal_text(self.error.line as nat) + (match self.error.file {
                Some(f) => " in file '"@ + f@ + "'!"@,
                None => Seq::<char>::empty(),
            }) + ", "@ + error_text(self.kind) + ".\n>>> "@ + self.error.text@);
        }
        string_of(&out)
    }
}

} // verus!
