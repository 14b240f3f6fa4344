use tinylisp::ast::Ast;
use tinylisp::errors::ReplError;
use tinylisp::eval::rep;
use tinylisp::parser::{read_form, tokenize, ParserError, Token};
use tinylisp::printer::pr_str;
use tinylisp::root_env::Heap;

const FUEL: u64 = u64::MAX;

fn run(heap: &mut Heap, line: &str) -> Result<Ast, ReplError> {
    rep(line, heap, FUEL)
}

fn show(heap: &mut Heap, line: &str) -> String {
    match run(heap, line) {
        Ok(v) => pr_str(&v, true),
        Err(e) => panic!("{} failed: {:?}", line, e),
    }
}

fn fresh() -> Heap {
    Heap::new()
}

fn read_back(text: &str) -> String {
    pr_str(&read_form(text).ok().unwrap(), true)
}

#[test]
fn round_trip_integers() {
    for n in [0i64, 7, 42, -17, i64::MAX, i64::MIN] {
        let v = Ast::Integer(n);
        let text = pr_str(&v, true);
        assert_eq!(text, n.to_string());
        match read_form(&text) {
            Ok(Ast::Integer(m)) => assert_eq!(m, n),
            _ => panic!("{} did not read back", text),
        }
    }
}

#[test]
fn round_trip_strings() {
    for s in ["hello", "hello world", "a (b) c", "  padded  "] {
        let v = Ast::String(s.to_string());
        let text = pr_str(&v, true);
        assert_eq!(text, format!("'{}'", s));
        match read_form(&text) {
            Ok(Ast::String(t)) => assert_eq!(t, s),
            _ => panic!("{} did not read back", text),
        }
    }
}

#[test]
fn round_trip_booleans_and_nil() {
    assert!(matches!(read_form(&pr_str(&Ast::Boolean(true), true)), Ok(Ast::Boolean(true))));
    assert!(matches!(read_form(&pr_str(&Ast::Boolean(false), true)), Ok(Ast::Boolean(false))));
    assert!(matches!(read_form(&pr_str(&Ast::Nil, true)), Ok(Ast::Nil)));
}

#[test]
fn tail_recursion_runs_in_constant_stack() {
    let mut h = fresh();
    show(&mut h, "(def! loop (fun* (n) (if (= n 0) 0 (loop (- n 1)))))");
    assert_eq!(show(&mut h, "(loop 1000000)"), "0");
}

#[test]
fn closures_keep_their_scope() {
    let mut h = fresh();
    show(&mut h, "(def! f (let* (x 1) (fun* () x)))");
    assert_eq!(show(&mut h, "(f)"), "1");
    assert!(matches!(run(&mut h, "x"), Err(ReplError::SymbolUndefined(s)) if s == "x"));
}

#[test]
fn let_star_sees_earlier_bindings() {
    let mut h = fresh();
    assert_eq!(show(&mut h, "(let* (a 1 b (+ a 1)) b)"), "2");
}

#[test]
fn letrec_allows_self_reference() {
    let mut h = fresh();
    assert_eq!(show(&mut h, "(letrec (f (fun* (n) (if (= n 0) 1 (f (- n 1))))) (f 3))"), "1");
}

#[test]
fn atoms_swap_and_reset() {
    let mut h = fresh();
    show(&mut h, "(def! a (atom 5))");
    show(&mut h, "(swap! a (fun* (x) (+ x 1)))");
    assert_eq!(show(&mut h, "(deref a)"), "6");
    assert_eq!(show(&mut h, "(reset! a 0)"), "0");
    assert_eq!(show(&mut h, "(deref a)"), "0");
    assert_eq!(show(&mut h, "(atom? a)"), "true");
    assert_eq!(show(&mut h, "(atom? 5)"), "false");
}

#[test]
fn type_mismatch_names_function_and_position() {
    let mut h = fresh();
    match run(&mut h, "(+ 1 'x')") {
        Err(ReplError::ParserError(ParserError::TypeMismatch(f, pos, ty, Ast::String(got)))) => {
            assert_eq!(f, "+");
            assert_eq!(pos, 2);
            assert_eq!(ty, "Integer");
            assert_eq!(got, "x");
        }
        other => panic!("unexpected {:?}", other),
    }
}

#[test]
fn unresolved_symbol_carries_name() {
    let mut h = fresh();
    assert!(matches!(run(&mut h, "zzz"), Err(ReplError::SymbolUndefined(s)) if s == "zzz"));
}

#[test]
fn only_false_is_false() {
    let mut h = fresh();
    assert_eq!(show(&mut h, "(if 0 't' 'f')"), "'t'");
    assert_eq!(show(&mut h, "(if nil 't' 'f')"), "'t'");
    assert_eq!(show(&mut h, "(if (list) 't' 'f')"), "'t'");
    assert_eq!(show(&mut h, "(if false 't' 'f')"), "'f'");
}

#[test]
fn empty_list_is_an_error() {
    let mut h = fresh();
    assert!(matches!(run(&mut h, "()"), Err(ReplError::EmptyCall)));
}

#[test]
fn do_sequences_and_returns_last() {
    let mut h = fresh();
    assert_eq!(show(&mut h, "(do (def! x 4) (def! y 5) (+ x y))"), "9");
    assert_eq!(show(&mut h, "(do)"), "nil");
}

#[test]
fn def_returns_value_and_binds_in_current_frame() {
    let mut h = fresh();
    assert_eq!(show(&mut h, "(def! x 10)"), "10");
    assert_eq!(show(&mut h, "(let* (y 1) (def! x 20))"), "20");
    assert_eq!(show(&mut h, "x"), "10");
}

#[test]
fn arithmetic() {
    let mut h = fresh();
    assert_eq!(show(&mut h, "(+ 2 3)"), "5");
    assert_eq!(show(&mut h, "(- 2 3)"), "-1");
    assert_eq!(show(&mut h, "(* -4 3)"), "-12");
    assert_eq!(show(&mut h, "(/ 7 2)"), "3");
    assert_eq!(show(&mut h, "(/ -7 2)"), "-3");
    assert_eq!(show(&mut h, "(/ 7 -2)"), "-3");
}

#[test]
fn arithmetic_errors() {
    let mut h = fresh();
    assert!(matches!(run(&mut h, "(/ 1 0)"), Err(ReplError::DivisionByZero(n)) if n == "/"));
    assert!(matches!(run(&mut h, "(+ 9223372036854775807 1)"), Err(ReplError::IntegerOverflow(n)) if n == "+"));
    assert!(matches!(run(&mut h, "(/ -9223372036854775808 -1)"), Err(ReplError::IntegerOverflow(_))));
    assert!(matches!(run(&mut h, "(+ 1)"), Err(ReplError::ArityMismatch(n, 2, 1)) if n == "+"));
    match run(&mut h, "(+ 'a' 'b')") {
        Err(ReplError::ParserError(ParserError::TypeMismatch(_, pos, _, _))) => assert_eq!(pos, 2),
        other => panic!("unexpected {:?}", other),
    }
    match run(&mut h, "(- 'a' 1)") {
        Err(ReplError::ParserError(ParserError::TypeMismatch(_, pos, _, _))) => assert_eq!(pos, 1),
        other => panic!("unexpected {:?}", other),
    }
}

#[test]
fn equality_and_order() {
    let mut h = fresh();
    assert_eq!(show(&mut h, "(= 1 1)"), "true");
    assert_eq!(show(&mut h, "(= 1 2)"), "false");
    assert_eq!(show(&mut h, "(= 1 'a')"), "false");
    assert_eq!(show(&mut h, "(= 'a' 'a')"), "true");
    assert_eq!(show(&mut h, "(= nil nil)"), "true");
    assert_eq!(show(&mut h, "(= (list 1 (list 2)) (list 1 (list 2)))"), "true");
    assert_eq!(show(&mut h, "(= (list 1 2) (list 1 3))"), "false");
    assert_eq!(show(&mut h, "(= (list 1 2) (list 1))"), "false");
    assert_eq!(show(&mut h, "(< 1 2)"), "true");
    assert_eq!(show(&mut h, "(< 2 1)"), "false");
    assert_eq!(show(&mut h, "(< 1 'x')"), "false");
}

#[test]
fn list_operations() {
    let mut h = fresh();
    assert_eq!(show(&mut h, "(list 1 2 3)"), "(1 2 3)");
    assert_eq!(show(&mut h, "(list? (list))"), "true");
    assert_eq!(show(&mut h, "(list? 1)"), "false");
    assert_eq!(show(&mut h, "(empty? (list))"), "true");
    assert_eq!(show(&mut h, "(empty? (list 1))"), "false");
    assert_eq!(show(&mut h, "(count (list 1 2 3))"), "3");
    assert_eq!(show(&mut h, "(count 7)"), "0");
}

#[test]
fn string_concatenation() {
    let mut h = fresh();
    assert_eq!(show(&mut h, "(str 'ab' 'cd' 'e')"), "'abcde'");
    match run(&mut h, "(str 'a' 1)") {
        Err(ReplError::ParserError(ParserError::TypeMismatch(f, pos, ty, _))) => {
            assert_eq!(f, "str");
            assert_eq!(pos, 2);
            assert_eq!(ty, "String");
        }
        other => panic!("unexpected {:?}", other),
    }
}

#[test]
fn slurp_asks_for_files_and_reads_supplied_ones() {
    let mut h = fresh();
    assert!(matches!(run(&mut h, "(slurp 'a.txt')"), Err(ReplError::FileNeeded(p)) if p == "a.txt"));
    h.supply_file("a.txt".to_string(), Ok("(+ 1 2)".to_string()));
    assert_eq!(show(&mut h, "(slurp 'a.txt')"), "'(+ 1 2)'");
    assert_eq!(show(&mut h, "(eval (read-str (slurp 'a.txt')))"), "3");
    h.supply_file("gone".to_string(), Err("not found".to_string()));
    assert!(matches!(run(&mut h, "(slurp 'gone')"), Err(ReplError::IoError(m)) if m == "not found"));
}

#[test]
fn read_str_and_eval() {
    let mut h = fresh();
    assert_eq!(show(&mut h, "(read-str '(+ 1 2)')"), "(+ 1 2)");
    assert_eq!(show(&mut h, "(eval (read-str '(+ 1 2)'))"), "3");
    assert_eq!(show(&mut h, "(eval (list + 4 5))"), "9");
    assert!(matches!(run(&mut h, "(read-str ')')"), Err(ReplError::ParserError(ParserError::Unexpected(0, _)))));
}

#[test]
fn eval_uses_the_root_frame() {
    let mut h = fresh();
    show(&mut h, "(def! x 1)");
    assert_eq!(show(&mut h, "(let* (x 2) (eval (read-str 'x')))"), "1");
}

#[test]
fn prn_prints_debug_form() {
    let mut h = fresh();
    assert_eq!(show(&mut h, "(prn (list 1 'a' true))"), "nil");
    assert_eq!(show(&mut h, "(prn +)"), "nil");
    assert_eq!(h.take_printed(), vec!["[1, a, true]".to_string(), "<builtin:+>".to_string()]);
    assert!(h.take_printed().is_empty());
}

#[test]
fn calling_a_non_function_fails() {
    let mut h = fresh();
    assert!(matches!(run(&mut h, "(1 2)"), Err(ReplError::NotCallable(Ast::Integer(1)))));
}

#[test]
fn malformed_forms_fail() {
    let mut h = fresh();
    assert!(matches!(run(&mut h, "(if true 1)"), Err(ReplError::MalformedForm(f)) if f == "if"));
    assert!(matches!(run(&mut h, "(def! x)"), Err(ReplError::MalformedForm(f)) if f == "def!"));
    assert!(matches!(run(&mut h, "(let* x 1)"), Err(ReplError::MalformedForm(f)) if f == "let*"));
    assert!(matches!(run(&mut h, "(def! 1 2)"), Err(ReplError::ParserError(ParserError::ExpectedSymbol))));
    assert!(matches!(run(&mut h, "(fun* (1) 2)"), Err(ReplError::ParserError(ParserError::ExpectedSymbol))));
    assert!(matches!(run(&mut h, "(atom)"), Err(ReplError::ArityMismatch(_, 1, 0))));
}

#[test]
fn closure_arguments_are_positional() {
    let mut h = fresh();
    show(&mut h, "(def! first (fun* (a b) a))");
    assert_eq!(show(&mut h, "(first 1 2 3)"), "1");
    assert!(matches!(run(&mut h, "((fun* (a b) b) 1)"), Err(ReplError::SymbolUndefined(s)) if s == "b"));
}

#[test]
fn fuel_bounds_evaluation() {
    let mut h = fresh();
    assert!(matches!(rep("(+ 1 2)", &mut h, 1), Err(ReplError::OutOfFuel)));
    assert!(matches!(rep("(+ 1 2)", &mut h, 5), Ok(Ast::Integer(3))));
    show(&mut h, "(def! spin (fun* () (spin)))");
    assert!(matches!(rep("(spin)", &mut h, 1000), Err(ReplError::OutOfFuel)));
}

#[test]
fn reader_errors() {
    assert!(matches!(read_form(""), Err(ParserError::ExpectedAnyGotEof)));
    assert!(matches!(read_form("   "), Err(ParserError::ExpectedAnyGotEof)));
    assert!(matches!(read_form("(1 2"), Err(ParserError::ExpectedAnyGotEof)));
    assert!(matches!(read_form(")"), Err(ParserError::Unexpected(0, _))));
}

#[test]
fn reader_tokens() {
    assert_eq!(read_back("(a  b\t(c))"), "(a b (c))");
    assert_eq!(read_back("+5"), "5");
    assert_eq!(read_back("-0"), "0");
    assert!(matches!(read_form("12a"), Ok(Ast::Symbol(s)) if s == "12a"));
    assert!(matches!(read_form("-"), Ok(Ast::Symbol(s)) if s == "-"));
    assert!(matches!(read_form("99999999999999999999"), Ok(Ast::Symbol(_))));
    assert!(matches!(read_form("'a b'"), Ok(Ast::String(s)) if s == "a b"));
    assert!(matches!(read_form("'abc  "), Ok(Ast::Symbol(s)) if s == "abc"));
    assert!(matches!(read_form("\u{3000}x\u{2003}"), Ok(Ast::Symbol(s)) if s == "x"));
    assert!(matches!(read_form("1 2"), Ok(Ast::Integer(1))));
}

#[test]
fn debug_text() {
    let v = read_form("(1 'two' (three) nil)").ok().unwrap();
    assert_eq!(pr_str(&v, false), "[1, two, [three], nil]");
    assert_eq!(pr_str(&v, true), "(1 'two' (three) nil)");
    let mut h = fresh();
    assert_eq!(show(&mut h, "(fun* (x) x)"), "<function>");
    assert_eq!(show(&mut h, "+"), "<builtin:+>");
}

#[test]
fn heap_copy_is_independent() {
    let mut h = fresh();
    show(&mut h, "(def! x 1)");
    let mut snapshot = h.copy();
    show(&mut h, "(def! x 2)");
    assert_eq!(show(&mut snapshot, "x"), "1");
    assert_eq!(show(&mut h, "x"), "2");
}

#[test]
fn error_messages() {
    let mut h = fresh();
    let text = |r: Result<Ast, ReplError>| match r {
        Err(e) => e.message(),
        Ok(v) => panic!("unexpected value {}", pr_str(&v, true)),
    };
    assert_eq!(
        text(run(&mut h, "(+ 1 'x')")),
        "Type mismatch: Expected Integer at argument position 2 of + but got x"
    );
    assert_eq!(text(run(&mut h, "zzz")), "Symbol undefined: zzz");
    assert_eq!(text(run(&mut h, "(")), "Error: Expected any input but got EOF");
    assert_eq!(text(run(&mut h, ")")), "Error on position 0: Unexpected 'RightParen'");
    assert_eq!(text(run(&mut h, "(count)")), "count takes 1 argument(s) but got 0");
    assert_eq!(text(run(&mut h, "(if)")), "Malformed if form");
    assert_eq!(text(run(&mut h, "(1)")), "Not a function: 1");
    assert_eq!(text(run(&mut h, "()")), "The empty list cannot be called");
    assert_eq!(text(run(&mut h, "(/ 1 0)")), "Division by zero in /");
    assert_eq!(text(run(&mut h, "(slurp 'f')")), "File not supplied: f");
    assert_eq!(text(rep("(+ 1 2)", &mut h, 0)), "Evaluation step budget exhausted");
    assert_eq!(
        ParserError::ExpectedGot(3, Token::RightParen, Token::Integer(-4)).message(),
        "Error on position 3: Expected 'RightParen', but got 'Integer(-4)'"
    );
}

#[test]
fn more_fuel_gives_the_same_result() {
    let line = "(let* (f (fun* (n acc) (if (= n 0) acc (f (- n 1) (+ acc n))))) (f 10 0))";
    let mut small = fresh();
    let mut large = fresh();
    let a = rep(line, &mut small, 200);
    let b = rep(line, &mut large, u64::MAX);
    assert!(matches!(a, Ok(Ast::Integer(55))));
    assert!(matches!(b, Ok(Ast::Integer(55))));
}

#[test]
fn rebinding_replaces_earlier_binding() {
    let mut h = fresh();
    show(&mut h, "(def! x 1)");
    show(&mut h, "(def! x 2)");
    assert_eq!(show(&mut h, "x"), "2");
    assert_eq!(show(&mut h, "((fun* (a a) a) 1 2)"), "2");
    assert_eq!(show(&mut h, "(let* (b 1 b 3) b)"), "3");
}

#[test]
fn tokens_carry_byte_offsets() {
    let toks = tokenize("12a\u{00A0}99999999999999999999");
    assert_eq!(toks.len(), 2);
    assert!(matches!(&toks[0], (0, Token::Symbol(s)) if s == "12a"));
    assert!(matches!(&toks[1], (5, Token::Symbol(s)) if s == "99999999999999999999"));
    let toks = tokenize("\u{e9}()");
    assert_eq!(toks.len(), 3);
    assert!(matches!(&toks[0], (0, Token::Symbol(s)) if s == "\u{e9}"));
    assert!(matches!(&toks[1], (2, Token::LeftParen)));
    assert!(matches!(&toks[2], (3, Token::RightParen)));
    let toks = tokenize("\u{e9} 'a b' x");
    assert!(matches!(&toks[1], (4, Token::String(s)) if s == "a b"));
    assert!(matches!(&toks[2], (9, Token::Symbol(s)) if s == "x"));
    let toks = tokenize("(+ 1 -2)");
    assert_eq!(toks.len(), 5);
    assert!(matches!(&toks[2], (3, Token::Integer(1))));
    assert!(matches!(&toks[3], (5, Token::Integer(-2))));
    assert!(matches!(&toks[4], (7, Token::RightParen)));
}

#[test]
fn forgotten_files_are_asked_for_again() {
    let mut h = fresh();
    h.supply_file("f".to_string(), Ok("one".to_string()));
    assert_eq!(show(&mut h, "(slurp 'f')"), "'one'");
    h.forget_files();
    assert!(matches!(run(&mut h, "(slurp 'f')"), Err(ReplError::FileNeeded(p)) if p == "f"));
}
