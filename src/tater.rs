//! The compiler, which turns source lines into labels, defines and code, and the engine that
//! runs the code.
use vstd::prelude::*;

use crate::error::{ArgumentType, Error, ErrorType, RuntimeError};
use crate::garden::Garden;
use crate::instruction::{
    compile, create_instruction, is_word, move_effect, pop_effect, put_effect, Extern,
    Instruction, Op,
};
use crate::parse::sub_chars;
use crate::literal::{encode_strings, lemma_encode_first, parse_strings};
use crate::text::{
    is_space, lemma_trim_first, strip_comment, chars_of, clean_line, head_word, head_word_len, remove_comments, string_of, trim, trim_chars,
    trim_start, trim_start_chars,
};
use crate::words::{
    defs_wf, lemma_join_first, lemma_substitute_empty, lemma_substitute_first, lemma_words_shape,
    append_chars, defs_view, join, parse_defines, split_arguments, split_words,
    substitute, words, arguments,
};

verus! {

pub struct Tater {
    pub code: Vec<Instruction>,
    pub defines: Vec<(Vec<char>, Vec<char>)>,
    pub labels: Vec<(String, usize)>,
    pub print_parsed: bool,
}

/// A failure while compiling, with the line it happened on.
pub struct Diagnostic {
    pub error: Error,
    pub kind: ErrorType,
}

/// What a compiled line asks of its caller.
pub enum LineResult {
    Done,
    /// The line was `#require path`: the caller compiles the lines of `path` in its place.
    Require(String),
}

/// What happened in one step of the engine.
#[derive(Debug, PartialEq, Eq, Structural)]
pub enum Event {
    Continue,
    /// The instruction at this index is an `extern`, which the caller carries out.
    External(usize),
}

/// Why a run stopped.
#[derive(Debug, PartialEq, Eq, Structural)]
pub enum Stop {
    Halted,
    External(usize),
    OutOfSteps,
}

/// The machine as the engine sees it.
pub struct State {
    pub stack: Seq<bool>,
    pub calls: Seq<usize>,
    pub ip: nat,
}

pub open spec fn state_of(g: Garden) -> State {
    State { stack: g.stack_view(), calls: g.calls_view(), ip: g.instruction as nat }
}

/// The index bound to `name`; the latest binding wins.
pub open spec fn label_of(labels: Seq<(Seq<char>, usize)>, name: Seq<char>) -> Option<usize>
    decreases labels.len(),
{
    if labels.len() == 0 {
        None
    } else if labels.last().0 == name {
        Some(labels.last().1)
    } else {
        label_of(labels.drop_last(), name)
    }
}

/// What running `op` does to `st`, whose instruction pointer has already moved past it.
pub open spec fn step_spec(op: Op, st: State, labels: Seq<(Seq<char>, usize)>) -> Option<State> {
    match op {
        Op::Put(s, v) => match put_effect(s, v, st.stack) {
            Some(n) => Some(State { stack: n, calls: st.calls, ip: st.ip }),
            None => None,
        },
        Op::Pop(s) => match pop_effect(s, st.stack) {
            Some(n) => Some(State { stack: n, calls: st.calls, ip: st.ip }),
            None => None,
        },
        Op::Move(t, f) => match move_effect(t, f, st.stack) {
            Some(n) => Some(State { stack: n, calls: st.calls, ip: st.ip }),
            None => None,
        },
        Op::Call(name) => match label_of(labels, name) {
            Some(t) => Some(State { stack: st.stack, calls: st.calls.push(st.ip as usize), ip: t as nat }),
            None => None,
        },
        Op::Return => if st.calls.len() == 0 {
            None
        } else {
            Some(State { stack: st.stack, calls: st.calls.drop_last(), ip: st.calls.last() as nat })
        },
        Op::Extern(_, _) => Some(st),
    }
}

/// `ws[from..]` joined with single spaces.
fn join_words(ws: &Vec<Vec<char>>, from: usize) -> (r: Vec<char>)
    requires
        from < ws@.len(),
    ensures
        r@ == join(ws@.map_values(|p: Vec<char>| p@).subrange(from as int, ws@.len() as int)),
{
    let ghost wv = ws@.map_values(|p: Vec<char>| p@);
    let _n = ws.len();
    let mut r: Vec<char> = Vec::new();
    append_chars(&mut r, &ws[from]);
    let mut i: usize = from + 1;
    proof {
        let first = wv.subrange(from as int, from + 1);
        assert(first.len() == 1);
        assert(first[0] == ws@[from as int]@);
    }
    while i < ws.len()
        invariant
            from < i <= ws@.len(),
            wv == ws@.map_values(|p: Vec<char>| p@),
            r@ == join(wv.subrange(from as int, i as int)),
        decreases ws@.len() - i,
    {
        let ghost prev = r@;
        r.push(' ');
        append_chars(&mut r, &ws[i]);
        proof {
            let sub = wv.subrange(from as int, i + 1);
            assert(sub.drop_last() =~= wv.subrange(from as int, i as int));
            assert(sub.last() == ws@[i as int]@);
            assert(r@ =~= prev + seq![' '] + ws@[i as int]@);
        }
        i = i + 1;
    }
    r
}

/// Where running `code` from `st` for at most `fuel` instructions stops, and in what state;
/// none where an instruction fails.
pub open spec fn run_spec(code: Seq<Op>, labels: Seq<(Seq<char>, usize)>, st: State, fuel: nat) -> Option<
    (Stop, State),
>
    decreases fuel,
{
    if st.ip >= code.len() {
        Some((Stop::Halted, st))
    } else if fuel == 0 {
        Some((Stop::OutOfSteps, st))
    } else {
        let pre = State { stack: st.stack, calls: st.calls, ip: st.ip + 1 };
        match step_spec(code[st.ip as int], pre, labels) {
            None => None,
            Some(next) => if code[st.ip as int] is Extern {
                Some((Stop::External(st.ip as usize), next))
            } else {
                run_spec(code, labels, next, (fuel - 1) as nat)
            },
        }
    }
}

/// A `call` to a label bound to a `return` resumes right after the `call`, with the stack and
/// the call stack as they were before it.
pub proof fn lemma_call_then_return(
    name: Seq<char>,
    st: State,
    labels: Seq<(Seq<char>, usize)>,
    target: usize,
)
    requires
        label_of(labels, name) == Some(target),
        st.ip + 1 <= usize::MAX,
    ensures
        ({
            let called = step_spec(
                Op::Call(name),
                State { stack: st.stack, calls: st.calls, ip: (st.ip + 1) as nat },
                labels,
            );
            &&& called matches Some(c) && c.ip == target
            &&& step_spec(
                Op::Return,
                State { stack: called->Some_0.stack, calls: called->Some_0.calls, ip: (target + 1) as nat },
                labels,
            ) == Some(State { stack: st.stack, calls: st.calls, ip: (st.ip + 1) as nat })
        }),
{
    assert(st.calls.push((st.ip + 1) as usize).drop_last() =~= st.calls);
}

/// What a macro line `e` (starting with `#`) does: `#define name text...` adds a define,
/// `#require path` asks for the lines of `path`, anything else fails.
pub open spec fn macro_outcome(
    defs: Seq<(Seq<char>, Seq<char>)>,
    new_defs: Seq<(Seq<char>, Seq<char>)>,
    e: Seq<char>,
    r: Result<LineResult, Diagnostic>,
) -> bool {
    let mt = trim(e.drop_first());
    let name = head_word(mt);
    let rest = mt.subrange(name.len() as int, mt.len() as int);
    let ws = words(rest);
    &&& name.len() == 0 ==> (r matches Err(d) && d.kind is Empty)
    &&& name == "define"@ && ws.len() >= 2 ==> r == Ok::<LineResult, Diagnostic>(LineResult::Done)
        && new_defs == defs.push((ws[0], join(ws.drop_first())))
    &&& name == "define"@ && ws.len() < 2 ==> (r matches Err(d) && d.kind is ArgumentError)
    &&& name == "require"@ && ws.len() >= 1 ==> (r matches Ok(LineResult::Require(p)) && p@ == trim(
        rest,
    ))
    &&& name == "require"@ && ws.len() == 0 ==> (r matches Err(d) && d.kind is ArgumentError)
    &&& name.len() > 0 && name != "define"@ && name != "require"@ ==> (r matches Err(d)
        && d.kind matches ErrorType::NonExistent { kind, value } && kind@ == "macro"@ && value@
        == name)
    &&& !(name == "define"@ && ws.len() >= 2) ==> new_defs == defs
}

/// A line after its comment, white space and string literals are dealt with.
pub open spec fn encoded(raw: Seq<char>) -> Seq<char> {
    encode_strings(clean_line(raw))
}

impl Tater {
    pub open spec fn labels_view(&self) -> Seq<(Seq<char>, usize)> {
        self.labels@.map_values(|p: (String, usize)| (p.0@, p.1))
    }

    pub open spec fn defines_view(&self) -> Seq<(Seq<char>, Seq<char>)> {
        defs_view(self.defines@)
    }

    /// Every define has a non-empty name and a text that starts with other than white space.
    pub open spec fn wf(&self) -> bool {
        defs_wf(self.defines_view())
    }

    pub open spec fn code_view(&self) -> Seq<Op> {
        self.code@.map_values(|i: Instruction| i@)
    }

    pub fn new(print_parsed: bool) -> (r: Tater)
        ensures
            r.code_view() == Seq::<Op>::empty(),
            r.defines_view() == Seq::<(Seq<char>, Seq<char>)>::empty(),
            r.labels_view() == Seq::<(Seq<char>, usize)>::empty(),
            r.print_parsed == print_parsed,
            r.wf(),
    {
        let r = Tater { code: Vec::new(), defines: Vec::new(), labels: Vec::new(), print_parsed };
        assert(r.code_view() =~= Seq::<Op>::empty());
        assert(r.defines_view() =~= Seq::<(Seq<char>, Seq<char>)>::empty());
        assert(r.labels_view() =~= Seq::<(Seq<char>, usize)>::empty());
        r
    }

    fn parse_macros(&mut self, e: &Vec<char>, err: Error) -> (r: Result<LineResult, Diagnostic>)
        requires
            e@.len() > 0,
        ensures
            macro_outcome(old(self).defines_view(), final(self).defines_view(), e@, r),
            final(self).code_view() == old(self).code_view(),
            final(self).labels_view() == old(self).labels_view(),
            r matches Err(d) ==> d.error == err,
            old(self).wf() ==> final(self).wf(),
    {
        let body = sub_chars(e, 1, e.len());
        proof {
            assert(body@ =~= e@.drop_first());
            reveal_strlit("define");
            reveal_strlit("require");
        }
        let mt = trim_chars(&body);
        let k = head_word_len(&mt);
        if k == 0 {
            return Err(Diagnostic { error: err, kind: ErrorType::Empty("macro".to_string()) });
        }
        let name = sub_chars(&mt, 0, k);
        let rest = sub_chars(&mt, k, mt.len());
        let ws = split_words(&rest);
        if is_word(&name, "define") {
            match err.check_args("macro", "define", ws.len(), ArgumentType::AtLeast(2)) {
                Ok(()) => {},
                Err(kind) => {
                    return Err(Diagnostic { error: err, kind });
                },
            }
            let ghost wv = ws@.map_values(|p: Vec<char>| p@);
            let mut dname: Vec<char> = Vec::new();
            append_chars(&mut dname, &ws[0]);
            let text = join_words(&ws, 1);
            proof {
                assert(wv.subrange(1, wv.len() as int) =~= wv.drop_first());
                lemma_words_shape(rest@);
                let tail = wv.drop_first();
                assert(tail[0] == wv[1]);
                lemma_join_first(tail);
                assert(!is_space(wv[1][0]));
            }
            let ghost before = self.defines@;
            self.defines.push((dname, text));
            proof {
                assert(defs_view(self.defines@) =~= defs_view(before).push((wv[0], join(wv.drop_first()))));
                let nd = defs_view(self.defines@);
                if defs_wf(defs_view(before)) {
                    assert forall|k: int| 0 <= k < nd.len() implies #[trigger] nd[k].0.len() > 0
                        && nd[k].1.len() > 0 && !is_space(nd[k].1[0]) by {
                        if k < defs_view(before).len() {
                            assert(nd[k] == defs_view(before)[k]);
                        }
                    }
                }
            }
            Ok(LineResult::Done)
        } else if is_word(&name, "require") {
            match err.check_args("macro", "require", ws.len(), ArgumentType::AtLeast(1)) {
                Ok(()) => {},
                Err(kind) => {
                    return Err(Diagnostic { error: err, kind });
                },
            }
            Ok(LineResult::Require(string_of(&trim_chars(&rest))))
        } else {
            Err(
                Diagnostic {
                    error: err,
                    kind: ErrorType::NonExistent { kind: "macro".to_string(), value: string_of(&name) },
                },
            )
        }
    }

    /// Binds the label of a line `@name` to the index the next instruction will take.
    fn parse_labels(&mut self, e: &Vec<char>) -> (r: bool)
        ensures
            r == (e@.len() > 0 && e@[0] == '@'),
            r ==> final(self).labels_view() == old(self).labels_view().push(
                (e@.drop_first(), old(self).code@.len() as usize),
            ),
            !r ==> final(self).labels_view() == old(self).labels_view(),
            final(self).code_view() == old(self).code_view(),
            final(self).defines_view() == old(self).defines_view(),
    {
        if e.len() > 0 && e[0] == '@' {
            let name = sub_chars(e, 1, e.len());
            proof {
                assert(name@ =~= e@.drop_first());
            }
            let at = self.code.len();
            let ghost before = self.labels@;
            self.labels.push((string_of(&name), at));
            proof {
                assert(self.labels_view() =~= before.map_values(|p: (String, usize)| (p.0@, p.1)).push(
                    (name@, at),
                ));
            }
            true
        } else {
            false
        }
    }

    /// Compiles one source line: its comment and white space are dropped, its string
    /// literals encoded; then it is a macro, a label, or an instruction after its defines
    /// are substituted. A blank line does nothing.
    pub fn parse_line(&mut self, line_arg: &str, line: usize, path: Option<String>) -> (r: Result<
        LineResult,
        Diagnostic,
    >)
        ensures
            ({
                let e = encoded(line_arg@);
                let t = trim_start(substitute(old(self).defines_view(), e));
                let name = head_word(t);
                let args = arguments(t.subrange(name.len() as int, t.len() as int));
                &&& (r matches Err(d) ==> d.error.text@ == clean_line(line_arg@) && d.error.line
                    == line && d.error.file == path)
                &&& old(self).wf() ==> final(self).wf()
                &&& old(self).wf() && clean_line(line_arg@).len() == 0 ==> r == Ok::<
                    LineResult,
                    Diagnostic,
                >(LineResult::Done) && final(self).code_view() == old(self).code_view()
                    && final(self).labels_view() == old(self).labels_view()
                    && final(self).defines_view() == old(self).defines_view()
                &&& old(self).wf() && clean_line(line_arg@).len() > 0 && !(e[0] == '#' || e[0] == '@')
                    && r is Ok ==> final(self).code_view().len() == old(self).code_view().len() + 1
                &&& e.len() > 0 && e[0] == '#' ==> final(self).code_view() == old(self).code_view()
                    && final(self).labels_view() == old(self).labels_view() && macro_outcome(
                    old(self).defines_view(),
                    final(self).defines_view(),
                    e,
                    r,
                )
                &&& e.len() > 0 && e[0] == '@' ==> r == Ok::<LineResult, Diagnostic>(LineResult::Done)
                    && final(self).code_view() == old(self).code_view()
                    && final(self).defines_view() == old(self).defines_view()
                    && final(self).labels_view() == old(self).labels_view().push(
                    (e.drop_first(), old(self).code@.len() as usize),
                )
                &&& !(e.len() > 0 && (e[0] == '#' || e[0] == '@')) ==> {
                    &&& final(self).defines_view() == old(self).defines_view()
                    &&& final(self).labels_view() == old(self).labels_view()
                    &&& name.len() == 0 ==> r == Ok::<LineResult, Diagnostic>(LineResult::Done)
                        && final(self).code_view() == old(self).code_view()
                    &&& name.len() > 0 ==> (r is Ok <==> compile(name, args) is Some)
                    &&& name.len() > 0 && r is Ok ==> r == Ok::<LineResult, Diagnostic>(
                        LineResult::Done,
                    ) && final(self).code_view() == old(self).code_view().push(
                        compile(name, args)->Some_0,
                    )
                    &&& r is Err ==> final(self).code_view() == old(self).code_view()
                }
            }),
    {
        let raw = chars_of(line_arg);
        let nc = remove_comments(&raw);
        let l = trim_chars(&nc);
        let err = Error::new(string_of(&l), line, path);
        let e = parse_strings(&l);
        proof {
            lemma_trim_first(strip_comment(line_arg@));
            lemma_encode_first(l@);
            if self.wf() {
                if e@.len() > 0 {
                    lemma_substitute_first(self.defines_view(), e@);
                    let sub = substitute(self.defines_view(), e@);
                    assert(trim_start(sub) == sub);
                    assert(head_word(sub).len() > 0);
                } else {
                    lemma_substitute_empty(self.defines_view());
                    assert(substitute(self.defines_view(), e@) == Seq::<char>::empty());
                    assert(trim_start(Seq::<char>::empty()) == Seq::<char>::empty());
                }
            }
        }
        if e.len() > 0 && e[0] == '#' {
            return self.parse_macros(&e, err);
        }
        if self.parse_labels(&e) {
            return Ok(LineResult::Done);
        }
        let s = parse_defines(&self.defines, &e);
        let t = trim_start_chars(&s);
        let k = head_word_len(&t);
        if k == 0 {
            return Ok(LineResult::Done);
        }
        let name = sub_chars(&t, 0, k);
        let after = sub_chars(&t, k, t.len());
        let args = split_arguments(&after);
        match create_instruction(&name, &args, &err) {
            Ok(ins) => {
                let ghost before = self.code@;
                self.code.push(ins);
                proof {
                    assert(self.code_view() =~= before.map_values(|i: Instruction| i@).push(ins@));
                }
                Ok(LineResult::Done)
            },
            Err(kind) => Err(Diagnostic { error: err, kind }),
        }
    }

    /// The index bound to the label `name`.
    pub fn find_label(&self, name: &String) -> (r: Option<usize>)
        ensures
            r == label_of(self.labels_view(), name@),
    {
        let ghost lv = self.labels_view();
        let mut i: usize = self.labels.len();
        proof {
            assert(lv.subrange(0, lv.len() as int) =~= lv);
        }
        while i > 0
            invariant
                i <= self.labels@.len(),
                lv == self.labels_view(),
                label_of(lv, name@) == label_of(lv.subrange(0, i as int), name@),
            decreases i,
        {
            proof {
                assert(lv.subrange(0, i as int).drop_last() =~= lv.subrange(0, i - 1));
            }
            if self.labels[i - 1].0 == *name {
                return Some(self.labels[i - 1].1);
            }
            i = i - 1;
        }
        None
    }

    /// The `extern` instruction at `i`, if that is what stands there.
    pub fn external_at(&self, i: usize) -> (r: Option<&Extern>)
        ensures
            r is Some <==> i < self.code@.len() && self.code@[i as int] is Extern,
            r matches Some(e) ==> self.code@[i as int] == Instruction::Extern(*e),
    {
        if i < self.code.len() {
            match &self.code[i] {
                Instruction::Extern(e) => Some(e),
                _ => None,
            }
        } else {
            None
        }
    }

    /// Runs the instruction at the instruction pointer, which moves past it first.
    pub fn step(&self, garden: &mut Garden) -> (r: Result<Event, RuntimeError>)
        requires
            old(garden).instruction < self.code@.len(),
        ensures
            ({
                let pre = State {
                    stack: old(garden).stack_view(),
                    calls: old(garden).calls_view(),
                    ip: (old(garden).instruction + 1) as nat,
                };
                let post = step_spec(self.code@[old(garden).instruction as int]@, pre, self.labels_view());
                &&& r is Ok <==> post is Some
                &&& r is Ok ==> state_of(*final(garden)) == post->Some_0
            }),
            r == Ok::<Event, RuntimeError>(Event::External(old(garden).instruction as usize))
                <==> self.code@[old(garden).instruction as int] is Extern,
            r matches Ok(Event::External(i)) ==> i == old(garden).instruction,
    {
        let _len = self.code.len();
        let at = garden.instruction;
        garden.instruction = at + 1;
        match &self.code[at] {
            Instruction::Put(p) => match p.exec(garden) {
                Ok(()) => Ok(Event::Continue),
                Err(e) => Err(e),
            },
            Instruction::Pop(p) => match p.exec(garden) {
                Ok(()) => Ok(Event::Continue),
                Err(e) => Err(e),
            },
            Instruction::Move(m) => match m.exec(garden) {
                Ok(()) => Ok(Event::Continue),
                Err(e) => Err(e),
            },
            Instruction::Call(c) => match garden.call(self, &c.0) {
                Ok(()) => Ok(Event::Continue),
                Err(e) => Err(e),
            },
            Instruction::Return(_) => match garden.ret() {
                Ok(()) => Ok(Event::Continue),
                Err(e) => Err(e),
            },
            Instruction::Extern(_) => Ok(Event::External(at)),
        }
    }

    /// Runs at most `max_steps` instructions: until the end of the code, an `extern`, which the
    /// caller carries out before it runs on, or a failure.
    pub fn run(&self, garden: &mut Garden, max_steps: usize) -> (r: Result<Stop, RuntimeError>)
        ensures
            match run_spec(
                self.code_view(),
                self.labels_view(),
                state_of(*old(garden)),
                max_steps as nat,
            ) {
                Some((stop, st)) => r == Ok::<Stop, RuntimeError>(stop) && state_of(*final(garden))
                    == st,
                None => r is Err,
            },
            r matches Ok(Stop::External(i)) ==> i < self.code@.len() && self.code@[i as int] is Extern
                && final(garden).instruction == i + 1,
    {
        let len = self.code.len();
        let mut n: usize = 0;
        while n < max_steps
            invariant
                len == self.code@.len(),
                n <= max_steps,
                run_spec(self.code_view(), self.labels_view(), state_of(*old(garden)), max_steps as nat)
                    == run_spec(
                    self.code_view(),
                    self.labels_view(),
                    state_of(*garden),
                    (max_steps - n) as nat,
                ),
            decreases max_steps - n,
        {
            if garden.instruction >= len {
                return Ok(Stop::Halted);
            }
            let at = garden.instruction;
            proof {
                assert(self.code_view()[at as int] == self.code@[at as int]@);
            }
            match self.step(garden) {
                Ok(Event::External(i)) => {
                    return Ok(Stop::External(i));
                },
                Ok(Event::Continue) => {},
                Err(e) => {
                    return Err(e);
                },
            }
            n = n + 1;
        }
        if garden.instruction >= len {
            Ok(Stop::Halted)
        } else {
            Ok(Stop::OutOfSteps)
        }
    }
}

} // verus!
