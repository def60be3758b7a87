use tater::bignum::{binary_to_decimal, decimal_to_binary};
use tater::bits::{bits_to_usize, fit_bits, usize_to_bits};
use tater::error::{ArgumentType, Error, ErrorType, RuntimeError};
use tater::garden::Garden;
use tater::instruction::{create_instruction, Call, Extern, Instruction, Move, Pop, Put, Return};
use tater::literal::{numprint_text, parse_strings, text_bytes_of};
use tater::tater::{Event, LineResult, Stop, Tater};
use tater::text::{chars_of, remove_comments, string_of, trim_chars};
use tater::value::Value;
use tater::words::{parse_defines, split_arguments, split_words};

fn chars(s: &str) -> Vec<char> {
    s.chars().collect()
}

fn text(v: &[char]) -> String {
    v.iter().collect()
}

fn bits(s: &str) -> Vec<bool> {
    s.chars().map(|c| c == '1').collect()
}

fn value(s: &str) -> Value {
    match Value::new(s, false) {
        Ok(v) => v,
        Err(_) => panic!("{} does not parse", s),
    }
}

fn compile(lines: &[&str]) -> Tater {
    let mut t = Tater::new(false);
    for (i, l) in lines.iter().enumerate() {
        match t.parse_line(l, i + 1, None) {
            Ok(LineResult::Done) => {}
            Ok(LineResult::Require(_)) => panic!("unexpected require"),
            Err(_) => panic!("line {} does not compile", l),
        }
    }
    t
}

fn run_to_end(t: &Tater, g: &mut Garden) -> Vec<u8> {
    let mut out = Vec::new();
    loop {
        match t.run(g, 10_000) {
            Ok(Stop::Halted) => return out,
            Ok(Stop::External(i)) => {
                let e = t.external_at(i).unwrap();
                assert_eq!(e.name, "print");
                let b = e.val.get_boolvec(g).unwrap();
                out.extend(text_bytes_of(&b));
            }
            Ok(Stop::OutOfSteps) => panic!("program did not stop"),
            Err(e) => panic!("run failed: {:?}", e),
        }
    }
}

#[test]
fn argument_type_accepts() {
    assert!(ArgumentType::Exact(2).is_valid(2));
    assert!(!ArgumentType::Exact(2).is_valid(1));
    assert!(ArgumentType::Range(1, 2).is_valid(1));
    assert!(ArgumentType::Range(1, 2).is_valid(2));
    assert!(!ArgumentType::Range(1, 2).is_valid(3));
    assert!(!ArgumentType::Range(1, 2).is_valid(0));
    assert!(ArgumentType::AtLeast(2).is_valid(5));
    assert!(!ArgumentType::AtLeast(2).is_valid(1));
    assert!(ArgumentType::AtMost(1).is_valid(0));
    assert!(!ArgumentType::AtMost(1).is_valid(2));
}

#[test]
fn check_args_reports_arity() {
    let e = Error::new("pop".to_string(), 3, Some("f.tat".to_string()));
    assert!(e.check_args("instruction", "pop", 1, ArgumentType::Exact(1)).is_ok());
    match e.check_args("instruction", "pop", 2, ArgumentType::Exact(1)) {
        Err(ErrorType::ArgumentError { kind, name, num, range }) => {
            assert_eq!(kind, "instruction");
            assert_eq!(name, "pop");
            assert_eq!(num, 2);
            assert_eq!(range, ArgumentType::Exact(1));
        }
        _ => panic!("expected an argument error"),
    }
    assert_eq!(e.line, 3);
    assert_eq!(e.file, Some("f.tat".to_string()));
}

#[test]
fn bit_helpers() {
    assert_eq!(bits_to_usize(&bits("1001")), Some(9));
    assert_eq!(bits_to_usize(&vec![]), Some(0));
    assert_eq!(bits_to_usize(&vec![true; 70]), None);
    assert_eq!(usize_to_bits(9), bits("1001"));
    assert_eq!(usize_to_bits(0), bits("0"));
    assert_eq!(fit_bits(&bits("1001"), 6), bits("001001"));
    assert_eq!(fit_bits(&bits("1001"), 2), bits("01"));
}

#[test]
fn gmp_conversions() {
    assert_eq!(decimal_to_binary("72"), Some("1001000".to_string()));
    assert_eq!(decimal_to_binary("0"), Some("0".to_string()));
    assert_eq!(decimal_to_binary("x1"), None);
    assert_eq!(binary_to_decimal("1001000"), "72");
    assert_eq!(numprint_text(&bits("1001")), "9");
    assert_eq!(numprint_text(&vec![]), "0");
    assert_eq!(numprint_text(&bits("10000000000000000000000000000000000000000000000000000000000000000000")), "147573952589676412928");
}

#[test]
fn operand_grammar() {
    assert!(matches!(value("b101"), Value::Boolvec(ref b) if *b == bits("101")));
    assert!(matches!(value("42"), Value::Bignum(ref b) if *b == bits("101010")));
    assert!(matches!(value("n72"), Value::Bignum(ref b) if *b == bits("1001000")));
    assert!(matches!(value("  7  "), Value::Bignum(ref b) if *b == bits("111")));
    match value("[5;3]") {
        Value::Pointer { pos, len, rev } => {
            assert!(!rev);
            assert!(matches!(*pos, Value::Bignum(ref b) if *b == bits("101")));
            assert!(matches!(*len, Value::Bignum(ref b) if *b == bits("11")));
        }
        _ => panic!("expected a pointer"),
    }
    match value("[ -2 ]") {
        Value::Pointer { pos, len, rev } => {
            assert!(rev);
            assert!(matches!(*pos, Value::Bignum(ref b) if *b == bits("10")));
            assert!(matches!(*len, Value::Bignum(ref b) if *b == bits("1")));
        }
        _ => panic!("expected a pointer"),
    }
    assert!(matches!(value("<[1;2]"), Value::Position(ref p, false) if p.is_ptr()));
    assert!(matches!(value(">[1;2]"), Value::Position(ref p, true) if p.is_ptr()));
    assert!(matches!(Value::new("xyz", false), Err(ErrorType::InvalidValue(ref s)) if s == "xyz"));
    assert!(matches!(Value::new("b102", false), Err(ErrorType::Generic(ref m)) if m == "'2' is invalid for boolvec"));
    assert!(matches!(Value::new("<5", false), Err(ErrorType::InvalidPointer(Value::Bignum(ref b))) if *b == bits("101")));
    assert!(matches!(Value::new("5", true), Err(ErrorType::InvalidPointer(Value::Bignum(ref b))) if *b == bits("101")));
    assert!(matches!(Value::new("-5", false), Err(ErrorType::InvalidValue(ref s)) if s == "-5"));
    assert!(Value::new("[0;4]", true).is_ok());
}

#[test]
fn pointer_offsets_on_a_stack() {
    let mut g = Garden::new(0);
    g.push(10, false);
    let l = g.stack_len();
    assert_eq!(l, 10);
    assert_eq!(value("[-3;2]").get_ptr_position(&g), Ok(7));
    assert_eq!(value("[3;2]").get_ptr_position(&g), Ok(3));
    assert_eq!(value("[3;2]").get_ptr_size(&g), Ok(2));
    assert_eq!(value("<[3;2]").get_usize(&g), Ok(3));
    assert_eq!(value(">[3;2]").get_usize(&g), Ok(5));
    assert_eq!(value("<[-3;2]").get_usize(&g), Ok(7));
    assert_eq!(value(">[-3;2]").get_usize(&g), Ok(9));
    assert!(value("[-11;1]").get_ptr_position(&g).is_err());
    assert!(value("[9;2]").get_boolvec(&g).is_err());
    assert!(value("5").get_ptr_position(&g).is_err());
}

#[test]
fn bignum_of_values() {
    let mut g = Garden::new(0);
    assert_eq!(Put(value("8"), Some(value("5"))).exec(&mut g), Ok(()));
    assert_eq!(value("[0;8]").get_bignum(&g), Ok(bits("101")));
    assert_eq!(value("b000").get_bignum(&g), Ok(bits("0")));
    assert_eq!(value("b0011").get_bignum(&g), Ok(bits("11")));
    assert_eq!(value(">[2;3]").get_bignum(&g), Ok(bits("101")));
}

#[test]
fn widths_and_coercion() {
    let mut g = Garden::new(0);
    g.push(8, false);
    assert_eq!(value("9").get_size(&g), Ok(4));
    assert_eq!(value("b0001").get_size(&g), Ok(4));
    assert_eq!(value("[0;6]").get_size(&g), Ok(6));
    assert_eq!(value(">[0;6]").get_size(&g), Ok(3));
    assert_eq!(value("9").can_coerce(3, &g), Ok(false));
    assert_eq!(value("9").can_coerce(4, &g), Ok(true));
}

#[test]
fn push_pop_and_underflow() {
    let mut g = Garden::new(0);
    g.push(3, true);
    g.push(2, false);
    assert_eq!(g.stack, bits("11100"));
    assert_eq!(g.pop(2), Ok(()));
    assert_eq!(g.stack, bits("111"));
    assert_eq!(g.pop(4), Err(RuntimeError::StackUnderflow));
    assert_eq!(g.stack, bits("111"));
    assert_eq!(g.pop(3), Ok(()));
    assert_eq!(g.stack_len(), 0);
    assert_eq!(g.pop(1), Err(RuntimeError::StackUnderflow));
}

#[test]
fn set_bits_and_slices() {
    let mut g = Garden::new(0);
    g.push(6, false);
    g.set_bits_boolvec(&bits("101"), 1, 4);
    assert_eq!(g.stack, bits("001010"));
    assert_eq!(g.slice(1, 5), bits("0101"));
    g.set_bits_boolvec(&bits("111111"), 4, 2);
    assert_eq!(g.stack, bits("001011"));
}

#[test]
fn call_and_return_on_the_garden() {
    let t = compile(&["put 1", "put 1", "@a", "pop 1", "@b"]);
    let mut g = Garden::new(0);
    g.instruction = 4;
    assert_eq!(g.call(&t, &"a".to_string()), Ok(()));
    assert_eq!(g.instruction, 2);
    assert_eq!(g.call_stack, vec![4]);
    assert_eq!(g.goto(&t, &"b".to_string()), Ok(()));
    assert_eq!(g.instruction, 3);
    assert_eq!(g.goto(&t, &"c".to_string()), Err(RuntimeError::NoSuchLabel));
    assert_eq!(g.call(&t, &"c".to_string()), Err(RuntimeError::NoSuchLabel));
    assert_eq!(g.call_stack, vec![4]);
    assert_eq!(g.ret(), Ok(()));
    assert_eq!(g.instruction, 4);
    assert_eq!(g.ret(), Err(RuntimeError::EmptyCallStack));
}

#[test]
fn move_fails_iff_source_is_wider() {
    let mut g = Garden::new(0);
    let put3 = Put(value("3"), None);
    assert_eq!(put3.exec(&mut g), Ok(()));
    let narrow = Move { to: value("[0;3]"), from: value("9") };
    assert_eq!(narrow.exec(&mut g), Err(RuntimeError::TooWide));
    assert_eq!(g.stack, bits("000"));

    let mut g = Garden::new(0);
    let put4 = Put(value("4"), None);
    assert_eq!(put4.exec(&mut g), Ok(()));
    let fits = Move { to: value("[0;4]"), from: value("9") };
    assert_eq!(fits.exec(&mut g), Ok(()));
    assert_eq!(value("[0;4]").get_usize(&g), Ok(9));
}

#[test]
fn put_writes_its_value() {
    let mut g = Garden::new(0);
    assert_eq!(Put(value("8"), Some(value("n72"))).exec(&mut g), Ok(()));
    assert_eq!(g.stack, bits("01001000"));
    assert_eq!(Put(value("2"), Some(value("b11"))).exec(&mut g), Ok(()));
    assert_eq!(g.stack, bits("0100100011"));
}

#[test]
fn print_hello_character() {
    let t = compile(&["put 8;n72"]);
    let mut g = Garden::new(0);
    assert_eq!(t.run(&mut g, 100), Ok(Stop::Halted));
    let top = value("[-8;8]").get_boolvec(&g).unwrap();
    let out = text_bytes_of(&top);
    assert_eq!(out, vec![72u8]);
    assert_eq!(String::from_utf8_lossy(&out), "H");
}

#[test]
fn call_resumes_after_the_call() {
    let t = compile(&["call other", "put 5", "@other", "return"]);
    let mut g = Garden::new(0);
    assert_eq!(t.step(&mut g), Ok(Event::Continue));
    assert_eq!(g.instruction, 2);
    assert_eq!(t.step(&mut g), Ok(Event::Continue));
    assert_eq!(g.instruction, 1);
    assert_eq!(t.step(&mut g), Ok(Event::Continue));
    assert_eq!(g.stack_len(), 5);
    assert_eq!(g.instruction, 2);
    assert_eq!(t.step(&mut g), Err(RuntimeError::EmptyCallStack));
}

#[test]
fn call_to_unknown_label_fails() {
    let t = compile(&["call nowhere"]);
    let mut g = Garden::new(0);
    assert_eq!(t.run(&mut g, 10), Err(RuntimeError::NoSuchLabel));
}

#[test]
fn define_substitutes_like_the_literal() {
    let with_define = compile(&["#define WIDTH 8", "put WIDTH"]);
    let plain = compile(&["put 8"]);
    let mut a = Garden::new(0);
    let mut b = Garden::new(0);
    assert_eq!(with_define.run(&mut a, 100), Ok(Stop::Halted));
    assert_eq!(plain.run(&mut b, 100), Ok(Stop::Halted));
    assert_eq!(a.stack, b.stack);
    assert_eq!(a.stack_len(), 8);
    assert_eq!(with_define.code.len(), 1);
}

#[test]
fn define_keeps_separators() {
    let defs = vec![(chars("A"), chars("1 2")), (chars("A"), chars("9")), (chars("B"), chars("3"))];
    assert_eq!(text(&parse_defines(&defs, &chars("move [A;B] A,x"))), "move [A;B] 1 2,x");
    assert_eq!(text(&parse_defines(&defs, &chars("move [A] <B"))), "move [1 2] <3");
    assert_eq!(text(&parse_defines(&defs, &chars("put B"))), "put 3");
}

#[test]
fn string_literal_round_trip() {
    let enc = parse_strings(&chars("put 16;\"Hi\""));
    assert_eq!(text(&enc), "put 16;b0100100001101001");
    let t = compile(&["put 16;\"Hi\""]);
    let mut g = Garden::new(0);
    assert_eq!(t.run(&mut g, 100), Ok(Stop::Halted));
    let all = value("[0;16]").get_boolvec(&g).unwrap();
    assert_eq!(text_bytes_of(&all), b"Hi".to_vec());
    let escaped = parse_strings(&chars("\"\\n\\\\\\\"\""));
    assert_eq!(text(&escaped), "b000010100101110000100010");
}

#[test]
fn extern_without_value_passes_one() {
    let t = compile(&["put 8;n72", "extern print"]);
    let mut g = Garden::new(0);
    assert_eq!(run_to_end(&t, &mut g), Vec::<u8>::new());
}

#[test]
fn sized_pointer_cannot_be_an_argument() {
    let mut t = Tater::new(false);
    assert!(matches!(t.parse_line("extern print;[0;8]", 1, None), Err(d) if matches!(d.kind, ErrorType::ArgumentError { .. })));
    assert!(t.parse_line("extern print;[0]", 1, None).is_ok());
}

#[test]
fn print_stops_at_zero_byte() {
    assert_eq!(text_bytes_of(&bits("010010000000000001001000")), vec![72u8]);
    assert_eq!(text_bytes_of(&bits("0100100001")), vec![72u8]);
    assert_eq!(text_bytes_of(&vec![]), Vec::<u8>::new());
}

#[test]
fn cleaning_is_idempotent() {
    let once = trim_chars(&remove_comments(&chars("  put 8 ? a comment ? more  ")));
    assert_eq!(text(&once), "put 8");
    let twice = trim_chars(&remove_comments(&once));
    assert_eq!(once, twice);
}

#[test]
fn words_and_arguments() {
    let ws: Vec<String> = split_words(&chars("  define  X   1 2 ")).iter().map(|w| text(w)).collect();
    assert_eq!(ws, vec!["define", "X", "1", "2"]);
    let args: Vec<String> = split_arguments(&chars(" a ; ;b;  ")).iter().map(|w| text(w)).collect();
    assert_eq!(args, vec!["a", "b"]);
    assert_eq!(string_of(&chars_of("xy")), "xy");
}

#[test]
fn compile_errors() {
    let mut t = Tater::new(false);
    match t.parse_line("jump 3 ? go", 7, Some("p.tat".to_string())) {
        Err(d) => {
            assert!(matches!(d.kind, ErrorType::NonExistent { ref value, .. } if value == "jump"));
            assert_eq!(d.error.text, "jump 3");
            assert_eq!(d.error.line, 7);
        }
        _ => panic!("expected an error"),
    }
    assert!(matches!(t.parse_line("pop 1;2", 1, None), Err(d) if matches!(d.kind, ErrorType::ArgumentError { .. })));
    assert!(matches!(t.parse_line("move 5;1", 1, None), Err(d) if matches!(d.kind, ErrorType::InvalidPointer(_))));
    assert!(matches!(t.parse_line("#", 1, None), Err(d) if matches!(d.kind, ErrorType::Empty(_))));
    assert!(matches!(t.parse_line("#include x", 1, None), Err(d) if matches!(d.kind, ErrorType::NonExistent { .. })));
    assert!(matches!(t.parse_line("#define X", 1, None), Err(d) if matches!(d.kind, ErrorType::ArgumentError { .. })));
    assert!(matches!(t.parse_line("#require   lib.tat ", 1, None), Ok(LineResult::Require(ref p)) if p == "lib.tat"));
    assert!(matches!(t.parse_line("   ? only a comment", 1, None), Ok(LineResult::Done)));
    assert_eq!(t.code.len(), 0);
}

#[test]
fn labels_bind_the_next_instruction() {
    let t = compile(&["put 1", "@here", "pop 1", "@here2"]);
    assert_eq!(t.find_label(&"here".to_string()), Some(1));
    assert_eq!(t.find_label(&"here2".to_string()), Some(2));
    assert_eq!(t.find_label(&"nope".to_string()), None);
}

#[test]
fn extern_defaults_to_one() {
    let t = compile(&["extern numprint"]);
    match &t.code[0] {
        Instruction::Extern(e) => {
            assert_eq!(e.name, "numprint");
            assert!(matches!(e.val, Value::Bignum(ref b) if *b == vec![true]));
        }
        _ => panic!("expected extern"),
    }
    let err = Error::new("extern".to_string(), 1, None);
    assert!(matches!(create_instruction(&chars("extern"), &vec![], &err), Err(ErrorType::ArgumentError { .. })));
}

#[test]
fn stack_dump_groups() {
    let mut g = Garden::new(0);
    assert_eq!(Put(value("8"), Some(value("5"))).exec(&mut g), Ok(()));
    assert_eq!(Put(value("8"), Some(value("255"))).exec(&mut g), Ok(()));
    g.push(3, true);
    assert_eq!(g.print_bytes(8), vec!["5".to_string(), "255".to_string()]);
    assert_eq!(g.print_bytes(16), vec!["1535".to_string()]);
}

#[test]
fn constructors_check_their_arguments() {
    let err = Error::new("x".to_string(), 1, None);
    assert!(matches!(Put::new(&chars("put"), &vec![chars("8"), chars("5")], &err), Ok(Instruction::Put(_))));
    assert!(matches!(Put::new(&chars("put"), &vec![chars("8"), chars("zz")], &err), Err(ErrorType::InvalidValue(_))));
    assert!(matches!(Pop::new(&chars("pop"), &vec![], &err), Err(ErrorType::ArgumentError { .. })));
    assert!(matches!(Move::new(&chars("move"), &vec![chars("[0]"), chars("1")], &err), Ok(Instruction::Move(_))));
    assert!(matches!(Call::new(&chars("call"), &vec![chars("f")], &err), Ok(Instruction::Call(ref c)) if c.0 == "f"));
    assert!(matches!(Return::new(&chars("return"), &vec![chars("f")], &err), Err(ErrorType::ArgumentError { .. })));
    assert!(matches!(Extern::new(&chars("extern"), &vec![chars("print"), chars("b1")], &err), Ok(Instruction::Extern(ref e)) if e.name == "print"));
}

#[test]
fn put_refuses_a_wider_value() {
    let mut g = Garden::new(0);
    assert_eq!(Put(value("2"), Some(value("5"))).exec(&mut g), Err(RuntimeError::TooWide));
    let mut g = Garden::new(0);
    assert_eq!(Put(value("2"), Some(value("b111"))).exec(&mut g), Err(RuntimeError::TooWide));
    let mut g = Garden::new(0);
    assert_eq!(Put(value("4"), Some(value("b0011"))).exec(&mut g), Ok(()));
    assert_eq!(g.stack, bits("0011"));
}

#[test]
fn start_position_ignores_the_length() {
    let g = Garden::new(0);
    assert_eq!(value("[0;[1;1]]").get_ptr_position(&g), Ok(0));
    assert_eq!(value("<[0;[1;1]]").get_usize(&g), Ok(0));
    assert!(value(">[0;[1;1]]").get_usize(&g).is_err());
}

#[test]
fn number_width_is_its_fewest_bits() {
    let g = Garden::new(0);
    assert_eq!(Value::Bignum(bits("0011")).get_size(&g), Ok(2));
    assert_eq!(Value::Bignum(bits("000")).get_size(&g), Ok(1));
    assert_eq!(value("0").get_size(&g), Ok(1));
}

#[test]
fn unknown_macro_names_itself() {
    let mut t = Tater::new(false);
    match t.parse_line("#include x", 1, None) {
        Err(d) => assert!(matches!(d.kind, ErrorType::NonExistent { ref kind, ref value } if kind == "macro" && value == "include")),
        _ => panic!("expected an error"),
    }
}

#[test]
fn escaped_literal_round_trip() {
    let t = compile(&["put 24;\"a\\\"\\\\\""]);
    let mut g = Garden::new(0);
    assert_eq!(t.run(&mut g, 100), Ok(Stop::Halted));
    let all = value("[0;24]").get_boolvec(&g).unwrap();
    assert_eq!(text_bytes_of(&all), b"a\"\\".to_vec());
}

#[test]
fn blank_lines_do_nothing_with_defines() {
    let mut t = compile(&["#define X 1", "put X"]);
    assert!(matches!(t.parse_line("   ", 9, None), Ok(LineResult::Done)));
    assert!(matches!(t.parse_line("?? note", 10, None), Ok(LineResult::Done)));
    assert_eq!(t.code.len(), 1);
    assert!(matches!(t.parse_line(",", 11, None), Err(_)));
    assert_eq!(t.code.len(), 1);
}

#[test]
fn messages() {
    assert_eq!(ArgumentType::Range(1, 2).message(), "1->2 argument(s)");
    assert_eq!(ArgumentType::Exact(0).message(), "0 argument(s)!");
    assert_eq!(value("[-5;b11]").message(), "[-n5:v3]");
    assert_eq!(value(">[0]").message(), ">[n0:n1]");
    let mut t = Tater::new(false);
    match t.parse_line("pop 1;2 ? x", 4, Some("a.tat".to_string())) {
        Err(d) => assert_eq!(
            d.message(),
            "Error on line 4 in file 'a.tat'!, ArgumentError: instruction 'pop' was given 2 argument(s) but expected 1 argument(s)!!.\n>>> pop 1;2"
        ),
        _ => panic!("expected an error"),
    }
    match t.parse_line("move 7;1", 12, None) {
        Err(d) => assert_eq!(d.message(), "Error on line 12, n7 is an invalid pointer!.\n>>> move 7;1"),
        _ => panic!("expected an error"),
    }
}
