use mini_scheme::env::Env;
use mini_scheme::error::Error;
use mini_scheme::eval::{apply_func, eval};
use mini_scheme::lexer::{is_digit_ahead, read_while, tokenize, CharClass};
use mini_scheme::number::Number;
use mini_scheme::reader::{parse, parse_all};
use mini_scheme::repl::{eval_to_string, make_global_env, run, Repl, ReplStep};
use mini_scheme::value::{Token, Value};

fn err_of(input: &str) -> Error {
    let mut env = make_global_env();
    run(input, &mut env).unwrap_err()
}

fn err_of_program(inputs: &[&str]) -> Error {
    let mut env = make_global_env();
    let mut last = Ok(Value::Nil);
    for input in inputs {
        last = run(input, &mut env);
    }
    last.unwrap_err()
}

fn show(input: &str) -> String {
    let mut env = make_global_env();
    run(input, &mut env).unwrap().to_text()
}

fn show_program(inputs: &[&str]) -> String {
    let mut env = make_global_env();
    let mut result = Value::Nil;
    for input in inputs {
        result = run(input, &mut env).unwrap();
    }
    result.to_text()
}

fn datum(text: &str) -> Value {
    let tokens = tokenize(text).unwrap();
    parse(&tokens).unwrap().0
}

fn out(step: ReplStep) -> String {
    match step {
        ReplStep::Output(s) => s,
        ReplStep::Exit => panic!("unexpected exit"),
        ReplStep::Continue => panic!("unexpected continue"),
    }
}

fn num(n: i64) -> Value {
    Value::Number(Number::from_i64(n))
}

// ===== README scenarios =====

#[test]
fn readme_factorial_definition_returns_name() {
    assert_eq!(
        show("(def (factorial n) (if (= n 0) 1 (* n (factorial (- n 1)))))"),
        "factorial"
    );
}

#[test]
fn readme_make_adder() {
    assert_eq!(
        show_program(&[
            "(def (make-adder n) (lambda (x) (+ n x)))",
            "(def add-5 (make-adder 5))",
            "(add-5 100)"
        ]),
        "105"
    );
}

#[test]
fn readme_y_combinator() {
    assert_eq!(
        show_program(&[
            "(def Y (lambda (F) ((lambda (x) (F (lambda (v) ((x x) v)))) (lambda (x) (F (lambda (v) ((x x) v)))))))",
            "(def F (lambda (f) (lambda (n) (if (= n 0) 1 (* n (f (- n 1)))))))",
            "(def factorial (Y F))",
            "(factorial 10)"
        ]),
        "3628800"
    );
}

// ===== The loop (the integration scenarios, through the library's loop) =====

#[test]
fn repl_arithmetic() {
    let mut repl = Repl::new();
    assert_eq!(out(repl.feed("(+ 1 2 3)\n")), "6\n");
    assert!(matches!(repl.feed("(exit)\n"), ReplStep::Exit));
}

#[test]
fn repl_def_and_call() {
    let mut repl = Repl::new();
    assert_eq!(out(repl.feed("(def (square x) (* x x))\n")), "square\n");
    assert_eq!(out(repl.feed("(square 7)\n")), "49\n");
}

#[test]
fn repl_nil_not_printed() {
    let mut repl = Repl::new();
    assert_eq!(out(repl.feed("(begin)\n")), "");
    assert_eq!(out(repl.feed("(+ 1 1)\n")), "2\n");
}

#[test]
fn repl_multiline_input() {
    let mut repl = Repl::new();
    assert!(matches!(repl.feed("(+ 1\n"), ReplStep::Continue));
    assert_eq!(repl.prompt(), "...   ");
    assert!(matches!(repl.feed("   2\n"), ReplStep::Continue));
    assert_eq!(out(repl.feed("   3)\n")), "6\n");
    assert_eq!(repl.prompt(), "mini> ");
}

#[test]
fn repl_error_recovery() {
    let mut repl = Repl::new();
    let first = out(repl.feed("(/ 1 0)\n"));
    assert!(first.contains("Error"));
    assert_eq!(first, "Error: Division by zero\n");
    assert_eq!(out(repl.feed("(+ 1 1)\n")), "2\n");
}

#[test]
fn repl_exit() {
    let mut repl = Repl::new();
    assert!(matches!(repl.feed("(exit)\n"), ReplStep::Exit));
    let mut padded = Repl::new();
    assert!(matches!(padded.feed("   (exit)  \n"), ReplStep::Exit));
}

#[test]
fn repl_factorial() {
    let mut repl = Repl::new();
    assert_eq!(
        out(repl.feed("(def (factorial n) (if (= n 0) 1 (* n (factorial (- n 1)))))\n")),
        "factorial\n"
    );
    assert_eq!(out(repl.feed("(factorial 10)\n")), "3628800\n");
}

#[test]
fn repl_closure() {
    let mut repl = Repl::new();
    assert_eq!(out(repl.feed("(def (make-adder n) (lambda (x) (+ n x)))\n")), "make-adder\n");
    assert_eq!(out(repl.feed("(def add5 (make-adder 5))\n")), "add5\n");
    assert_eq!(out(repl.feed("(add5 100)\n")), "105\n");
}

#[test]
fn repl_blank_line_and_display_output() {
    let mut repl = Repl::new();
    assert!(matches!(repl.feed("   \n"), ReplStep::Continue));
    assert_eq!(out(repl.feed("(display \"hi\")\n")), "hi");
    assert_eq!(out(repl.feed("(begin (display 1) (newline) 2)\n")), "1\n2\n");
    assert_eq!(out(repl.feed("(display '(a \"b\"))\n")), "(a \"b\")");
}

// ===== Laws on concrete values =====

#[test]
fn law_define_then_lookup_example() {
    let mut env = Env::new();
    env.define(0, "x".to_string(), num(42));
    assert_eq!(env.lookup(0, &"x".to_string()).unwrap(), num(42));
    env.define(0, "x".to_string(), num(7));
    assert_eq!(env.lookup(0, &"x".to_string()).unwrap(), num(7));
}

#[test]
fn law_define_other_name_example() {
    let mut env = Env::new();
    env.define(0, "x".to_string(), num(1));
    env.define(0, "y".to_string(), num(2));
    assert_eq!(env.lookup(0, &"x".to_string()).unwrap(), num(1));
}

#[test]
fn law_new_frame_and_lexical_scope_example() {
    let mut env = Env::new();
    env.define(0, "x".to_string(), num(1));
    let child = env.with_parent(0);
    assert_eq!(child, 1);
    assert_eq!(env.lookup(child, &"x".to_string()).unwrap(), num(1));
    env.define(child, "y".to_string(), num(2));
    env.define(child, "x".to_string(), num(3));
    assert_eq!(env.lookup(child, &"x".to_string()).unwrap(), num(3));
    assert_eq!(env.lookup(0, &"x".to_string()).unwrap(), num(1));
    assert_eq!(env.lookup(0, &"y".to_string()), Err(Error::UndefinedVariable("y".to_string())));
}

#[test]
fn law_set_then_lookup_example() {
    let mut env = Env::new();
    env.define(0, "x".to_string(), num(1));
    let child = env.with_parent(0);
    assert_eq!(env.set_in_env(child, &"x".to_string(), num(9)), Ok(()));
    assert_eq!(env.lookup(child, &"x".to_string()).unwrap(), num(9));
    assert_eq!(env.lookup(0, &"x".to_string()).unwrap(), num(9));
    assert_eq!(
        env.set_in_env(child, &"zz".to_string(), num(1)),
        Err(Error::SetUndefined("zz".to_string()))
    );
}

#[test]
fn law_eval_set_then_lookup_example() {
    assert_eq!(show_program(&["(def x 1)", "(set! x (+ x 41))", "x"]), "42");
}

#[test]
fn law_closure_scope_example() {
    assert_eq!(show_program(&["(def x 1)", "(def (f x) x)", "(f 5)"]), "5");
    assert_eq!(show_program(&["(def x 1)", "(def (f x) x)", "(f 5)", "x"]), "1");
    assert_eq!(show_program(&["(def y 10)", "(def (g x) (+ x y))", "(g 5)"]), "15");
}

#[test]
fn law_car_cdr_of_cons_example() {
    assert_eq!(show("(car (cons 1 '(2 3)))"), "1");
    assert_eq!(show("(cdr (cons 1 '(2 3)))"), "(2 3)");
    assert_eq!(show("(cdr (cons 1 '()))"), "()");
    assert_eq!(show("(cons 1 2)"), "(1 2)");
}

#[test]
fn law_arithmetic_commutes_example() {
    assert_eq!(show("(+ (/ 1 3) 2)"), show("(+ 2 (/ 1 3))"));
    assert_eq!(show("(* (/ 2 3) 5)"), show("(* 5 (/ 2 3))"));
}

#[test]
fn law_equality_examples() {
    assert_eq!(show("(eq? 2.5 2.5)"), "#t");
    assert_eq!(show("(eq? '() '())"), "#t");
    assert_eq!(show("(eq? \"a\" \"a\")"), "#f");
    assert_eq!(show("(equal? '(1 (2 3)) '(1 (2 3)))"), "#t");
    assert_eq!(show("(equal? '(1 (2 3)) '(1 (2 4)))"), show("(equal? '(1 (2 4)) '(1 (2 3)))"));
    assert_eq!(show("(equal? (/ 1 2) 0.5)"), "#t");
    assert_eq!(show("(equal? car car)"), "#t");
    assert_eq!(show("(equal? (lambda () 1) (lambda () 1))"), "#f");
}

#[test]
fn law_atoms_and_quote_example() {
    assert_eq!(show("2.5"), "2.5");
    assert_eq!(show("\"s\""), "\"s\"");
    assert_eq!(show("(quote (a (b)))"), "(a (b))");
    assert_eq!(show("+"), "#<builtin:+>");
    assert_eq!(show("(lambda (x) x)"), "#<closure>");
}

#[test]
fn law_depth_budget_example() {
    let mut env = make_global_env();
    run("(def (down n) (if (= n 0) 0 (down (- n 1))))", &mut env).unwrap();
    let call = datum("(down 20)");
    assert_eq!(eval(&call, 0, &mut env, 5), Err(Error::DepthExceeded));
    assert_eq!(eval(&call, 0, &mut env, 500).unwrap(), num(0));
    assert_eq!(eval(&call, 0, &mut env, 5000).unwrap(), num(0));
    run("(def (spin) (spin))", &mut env).unwrap();
    assert_eq!(eval(&datum("(spin)"), 0, &mut env, 300), Err(Error::DepthExceeded));
}

#[test]
fn law_frames_are_kept_example() {
    let mut env = make_global_env();
    let before = env.frame_count();
    run("(let ((a 1)) a)", &mut env).unwrap();
    let after = env.frame_count();
    assert!(after >= before);
    assert_eq!(after, before + 1);
}

// ===== Numbers =====

#[test]
fn numbers_fractions_print() {
    assert_eq!(show("(/ 1 3)"), "0.3333333333333333");
    assert_eq!(show("(/ 2 3)"), "0.6666666666666666");
    assert_eq!(show("(/ 10 4)"), "2.5");
    assert_eq!(show("(- 0.5)"), "-0.5");
    assert_eq!(show("(/ -7 2)"), "-3.5");
    assert_eq!(show("(* 2.5 4)"), "10");
    assert_eq!(show("(+ 0.1 0.2)"), "0.3");
    assert_eq!(show("(/ 1 7)"), "0.1428571428571428");
    assert_eq!(show("(/ 2)"), "0.5");
    assert_eq!(show("(/ 1 100000000000000000)"), "0.00000000000000001");
    assert_eq!(show("(/ 100 3)"), "33.33333333333333");
    assert_eq!(show("(/ -1 300)"), "-0.003333333333333333");
    assert_eq!(show("(/ 12345678901234567 2)"), "6172839450617283.5");
    assert_eq!(show("(+ 1234567890123456 0.5)"), "1234567890123456.5");
    assert_eq!(show("0.12345678901234567"), "0.12345678901234567");
    assert_eq!(show("-9.223372036854775807"), "-9.223372036854775807");
    assert_eq!(show("(/ 1 1024)"), "0.0009765625");
    assert_eq!(show("(+ 123456789012345 0.5)"), "123456789012345.5");
    assert_eq!(show("3."), "3");
    assert_eq!(show("-0.25"), "-0.25");
}

#[test]
fn numbers_decimal_is_reduced() {
    assert_eq!(Number::decimal(314, 2), Number::decimal(157, 1).div(&Number::from_i64(5)));
    assert_eq!(Number::decimal(50, 1), Number::from_i64(5));
    assert_eq!(Value::Number(Number::decimal(50, 1)).to_text(), "5");
}

#[test]
fn numbers_comparisons_of_fractions() {
    assert_eq!(show("(< (/ 1 3) (/ 1 2))"), "#t");
    assert_eq!(show("(>= (/ 1 3) (/ 1 2))"), "#f");
    assert_eq!(show("(= (/ 2 4) 0.5)"), "#t");
    assert_eq!(show("(<= -1 -1)"), "#t");
}

#[test]
fn numbers_have_no_size_limit() {
    assert_eq!(show("(* 9223372036854775807 2)"), "18446744073709551614");
    assert_eq!(show("(- 9223372036854775807)"), "-9223372036854775807");
    assert_eq!(show("(+ 9223372036854775807 1)"), "9223372036854775808");
    assert_eq!(
        show("(* 123456789012345678901234567890 987654321098765432109876543210)"),
        "121932631137021795226185032733622923332237463801111263526900"
    );
    assert_eq!(show("(- 1 100000000000000000000000)"), "-99999999999999999999999");
    assert_eq!(show("(/ 100000000000000000000000 4)"), "25000000000000000000000");
    assert_eq!(show("(< 99999999999999999999 100000000000000000000)"), "#t");
    assert_eq!(show("(= (/ 10000000000000000000000 3) (/ 20000000000000000000000 6))"), "#t");
}

// ===== Lexer details =====

#[test]
fn lexer_escapes_and_runs() {
    assert_eq!(
        tokenize(r#""\t\\\"\q""#).unwrap(),
        vec![Token::Str("\t\\\"\\q".to_string())]
    );
    assert_eq!(
        tokenize("12abc - -x").unwrap(),
        vec![
            Token::Number(Number::from_i64(12)),
            Token::Symbol("abc".to_string()),
            Token::Symbol("-".to_string()),
            Token::Symbol("-x".to_string()),
        ]
    );
    assert_eq!(
        tokenize("a'b#c ;x\n(").unwrap(),
        vec![Token::Symbol("a'b#c".to_string()), Token::LParen]
    );
}

#[test]
fn lexer_helpers() {
    let chars: Vec<char> = "-12.5x".chars().collect();
    assert!(is_digit_ahead(&chars, 0));
    assert!(!is_digit_ahead(&chars, 4));
    assert!(!is_digit_ahead(&chars, 5));
    let (text, end) = read_while(&chars, 0, CharClass::Numeric);
    assert_eq!(text, "-12.5");
    assert_eq!(end, 5);
    let word: Vec<char> = "ab(c".chars().collect();
    let (sym, stop) = read_while(&word, 0, CharClass::Symbolic);
    assert_eq!(sym, "ab");
    assert_eq!(stop, 2);
}

#[test]
fn lexer_unicode_whitespace() {
    assert_eq!(
        tokenize("a\u{2003}").unwrap_err(),
        Error::UnexpectedWhitespace
    );
    let tokens = tokenize("ab\u{a0}");
    assert_eq!(tokens, Err(Error::UnexpectedWhitespace));
    let word: Vec<char> = "ab\u{a0}c".chars().collect();
    assert_eq!(read_while(&word, 0, CharClass::Symbolic).1, 2);
}

#[test]
fn reader_rest_and_all() {
    let tokens = tokenize("(a) b").unwrap();
    let (val, rest) = parse(&tokens).unwrap();
    assert_eq!(val.to_text(), "(a)");
    assert_eq!(rest, &[Token::Symbol("b".to_string())]);
    let all = parse_all(&tokenize("'a (b . c) #t").unwrap()).unwrap();
    assert_eq!(all.len(), 3);
    assert_eq!(all[0].to_text(), "(quote a)");
    assert_eq!(all[1].to_text(), "(b . c)");
}

// ===== Every error =====

#[test]
fn errors_of_the_lexer() {
    assert_eq!(tokenize("\"abc\\").unwrap_err(), Error::UnexpectedEndOfString);
    assert_eq!(tokenize("\"abc").unwrap_err(), Error::UnterminatedString);
    assert_eq!(tokenize("#x").unwrap_err(), Error::ExpectedBoolean);
    assert_eq!(tokenize("1.2.3").unwrap_err(), Error::InvalidNumber("1.2.3".to_string()));
    assert_eq!(tokenize("1-2").unwrap_err(), Error::InvalidNumber("1-2".to_string()));
}

#[test]
fn long_numerals_are_read() {
    assert_eq!(show("99999999999999999999"), "99999999999999999999");
    assert_eq!(show("0.0000000000000000001"), "0.0000000000000000001");
    assert_eq!(
        show("-1234567890.12345678901234567890123"),
        "-1234567890.12345678901234567890123"
    );
}

#[test]
fn errors_of_the_reader() {
    let none: Vec<Token> = Vec::new();
    assert_eq!(parse(&none).unwrap_err(), Error::UnexpectedEnd);
    assert_eq!(err_of("(+ 1"), Error::MissingRParen);
    assert_eq!(err_of(")"), Error::UnexpectedRParen);
    assert_eq!(err_of("'"), Error::UnexpectedEnd);
}

#[test]
fn errors_of_the_special_forms() {
    assert_eq!(err_of("xyz"), Error::UndefinedVariable("xyz".to_string()));
    assert_eq!(err_of("(set! z 99)"), Error::SetUndefined("z".to_string()));
    assert_eq!(err_of("(quote)"), Error::QuoteArity);
    assert_eq!(err_of("(if 1)"), Error::IfArity);
    assert_eq!(err_of("(def)"), Error::DefMissingTarget);
    assert_eq!(err_of("(def x)"), Error::DefRequiresValue);
    assert_eq!(err_of("(def (1 x) x)"), Error::DefNameNotSymbol);
    assert_eq!(err_of("(def (f 1) 1)"), Error::DefParamNotSymbol);
    assert_eq!(err_of("(def 1 2)"), Error::DefBadTarget);
    assert_eq!(err_of("(def () 2)"), Error::DefBadTarget);
    assert_eq!(err_of("(lambda (x))"), Error::LambdaArity);
    assert_eq!(err_of("(lambda (1) 1)"), Error::LambdaParamNotSymbol);
    assert_eq!(err_of("(lambda x 1)"), Error::LambdaParamsNotList);
    assert_eq!(err_of("(set! x)"), Error::SetArity);
    assert_eq!(err_of("(set! 1 2)"), Error::SetNotSymbol);
    assert_eq!(err_of("(cond (1))"), Error::CondInvalidClause);
    assert_eq!(err_of("(let ())"), Error::LetArity);
    assert_eq!(err_of("(let 1 2)"), Error::LetBindingsNotList);
    assert_eq!(err_of("(let ((1 2)) 3)"), Error::LetNameNotSymbol);
    assert_eq!(err_of("(let ((x)) 3)"), Error::LetInvalidBinding);
}

#[test]
fn error_def_empty_header() {
    let mut env = make_global_env();
    let form = Value::List(vec![
        Value::Symbol("def".to_string()),
        Value::List(vec![]),
        num(1),
    ]);
    assert_eq!(eval(&form, 0, &mut env, 100), Err(Error::DefEmptyName));
}

#[test]
fn errors_of_application() {
    assert_eq!(err_of_program(&["(def (f x) x)", "(f 1 2)"]), Error::ArgCount(1, 2));
    assert_eq!(err_of("(42 1 2)"), Error::NotAFunction(num(42)));
    let mut env = make_global_env();
    let unknown = Value::BuiltinFunc("frob".to_string());
    assert_eq!(
        apply_func(&unknown, &[], &mut env, 10),
        Err(Error::UnknownBuiltin("frob".to_string()))
    );
}

#[test]
fn errors_of_the_builtins() {
    assert_eq!(err_of("(/ 1 0)"), Error::DivisionByZero);
    assert_eq!(err_of("(/ 0)"), Error::DivisionByZero);
    assert_eq!(err_of("(/ 1 \"a\" 0)"), Error::DivisionByZero);
    assert_eq!(err_of("(/)"), Error::DivisionArity);
    assert_eq!(err_of("(+ 1 'a)"), Error::ExpectedNumber);
    assert_eq!(err_of("(- 'a)"), Error::ExpectedNumber);
    assert_eq!(err_of("(< 1)"), Error::ComparisonArity);
    assert_eq!(err_of("(< 1 'a)"), Error::ComparisonNumbers);
    assert_eq!(err_of("(car)"), Error::CarArity);
    assert_eq!(err_of("(car 1)"), Error::CarNotList);
    assert_eq!(err_of("(cdr)"), Error::CdrArity);
    assert_eq!(err_of("(cdr '())"), Error::CdrNotList);
    assert_eq!(err_of("(cons 1)"), Error::ConsArity);
    assert_eq!(err_of("(eq? 1)"), Error::EqArity);
    assert_eq!(err_of("(equal? 1)"), Error::EqualArity);
    assert_eq!(err_of("(not)"), Error::NotArity);
    assert_eq!(err_of("(display)"), Error::DisplayArity);
}

#[test]
fn error_messages() {
    assert_eq!(Error::UndefinedVariable("xyz".to_string()).message(), "Undefined variable: xyz");
    assert_eq!(Error::ArgCount(1, 2).message(), "Expected 1 arguments, got 2");
    assert_eq!(Error::NotAFunction(num(42)).message(), "Not a function: 42");
    assert_eq!(Error::MissingRParen.message(), "Unexpected end of input: missing ')'");
    assert_eq!(Error::InvalidNumber("1.2.3".to_string()).message(), "Invalid number: 1.2.3");
    assert_eq!(eval_to_string("(/ 1 0)"), Err("Division by zero".to_string()));
    assert_eq!(eval_to_string("(car '(\"x\"))"), Ok("\"x\"".to_string()));
}

// ===== Special forms, more cases =====

#[test]
fn special_form_details() {
    assert_eq!(show("(if '() 1 2)"), "1");
    assert_eq!(show("(if 0 1 2)"), "1");
    assert_eq!(show("(cond (#f 1))"), "()");
    assert_eq!(show("(cond ((= 1 1) 1 2 3))"), "3");
    assert_eq!(show("(and 1 2)"), "2");
    assert_eq!(show("(begin)"), "()");
    assert_eq!(show("()"), "()");
    assert_eq!(show("(let ((x 1)) (set! x 2) x)"), "2");
    assert_eq!(show("(list 1 (list 2 3) \"s\" #f)"), "(1 (2 3) \"s\" #f)");
    assert_eq!(show("(pair? (list))"), "#f");
    assert_eq!(show("(procedure? (lambda () 1))"), "#t");
    assert_eq!(show("(not '())"), "#f");
}

// ===== or, list?, length, append, map, apply =====

#[test]
fn or_returns_first_truthy_value() {
    assert_eq!(show("(or)"), "#f");
    assert_eq!(show("(or #f #f)"), "#f");
    assert_eq!(show("(or #f 2 3)"), "2");
    assert_eq!(show("(or '() #f)"), "()");
    assert_eq!(show_program(&["(def x 0)", "(or 1 (set! x 5))", "x"]), "0");
    assert_eq!(err_of("(or #f undefined-name)"), Error::UndefinedVariable("undefined-name".to_string()));
}

#[test]
fn list_predicate() {
    assert_eq!(show("(list? '(1 2))"), "#t");
    assert_eq!(show("(list? '())"), "#t");
    assert_eq!(show("(list? 1)"), "#f");
    assert_eq!(show("(list?)"), "#f");
}

#[test]
fn length_of_lists() {
    assert_eq!(show("(length '(1 2 3))"), "3");
    assert_eq!(show("(length '())"), "0");
    assert_eq!(err_of("(length 5)"), Error::LengthNotList);
    assert_eq!(err_of("(length)"), Error::LengthArity);
    assert_eq!(err_of("(length '(1) '(2))"), Error::LengthArity);
}

#[test]
fn append_concatenates_lists() {
    assert_eq!(show("(append '(1 2) '(3) '() '(4 5))"), "(1 2 3 4 5)");
    assert_eq!(show("(append)"), "()");
    assert_eq!(show("(append '() '())"), "()");
    assert_eq!(show("(append '((1)) '(2))"), "((1) 2)");
    assert_eq!(err_of("(append '(1) 2)"), Error::AppendNotList);
}

#[test]
fn map_applies_to_each_element() {
    assert_eq!(show("(map (lambda (x) (* x x)) '(1 2 3))"), "(1 4 9)");
    assert_eq!(show("(map car '((1 2) (3 4)))"), "(1 3)");
    assert_eq!(show("(map (lambda (x) x) '())"), "()");
    assert_eq!(
        show_program(&["(def (make-adder n) (lambda (x) (+ n x)))", "(map (make-adder 10) '(1 2))"]),
        "(11 12)"
    );
    assert_eq!(err_of("(map car)"), Error::MapArity);
    assert_eq!(err_of("(map car 5)"), Error::MapNotList);
    assert_eq!(err_of("(map 5 '(1))"), Error::NotAFunction(num(5)));
    assert_eq!(err_of("(map (lambda (x y) x) '(1))"), Error::ArgCount(2, 1));
}

#[test]
fn apply_spreads_a_list_of_arguments() {
    assert_eq!(show("(apply + '(1 2 3))"), "6");
    assert_eq!(show("(apply + '())"), "0");
    assert_eq!(show("(apply (lambda (a b) (- a b)) '(10 4))"), "6");
    assert_eq!(show("(apply map (list car '((1 2) (3 4))))"), "(1 3)");
    assert_eq!(err_of("(apply +)"), Error::ApplyArity);
    assert_eq!(err_of("(apply + 1)"), Error::ApplyNotList);
}

#[test]
fn map_and_apply_spend_depth() {
    let mut env = make_global_env();
    let call = datum("(map car '((1)))");
    assert_eq!(eval(&call, 0, &mut env, 3).unwrap().to_text(), "(1)");
    let mut env = make_global_env();
    let f = Value::BuiltinFunc("car".to_string());
    let items = datum("((1))");
    let map = Value::BuiltinFunc("map".to_string());
    assert_eq!(apply_func(&map, &[f, items], &mut env, 0), Err(Error::DepthExceeded));
}

#[test]
fn new_error_messages() {
    assert_eq!(Error::LengthArity.message(), "length requires exactly 1 argument");
    assert_eq!(Error::LengthNotList.message(), "length: argument must be a list");
    assert_eq!(Error::AppendNotList.message(), "append: arguments must be lists");
    assert_eq!(Error::MapArity.message(), "map requires exactly 2 arguments");
    assert_eq!(Error::MapNotList.message(), "map: second argument must be a list");
    assert_eq!(Error::ApplyArity.message(), "apply requires exactly 2 arguments");
    assert_eq!(Error::ApplyNotList.message(), "apply: second argument must be a list");
}

// ===== Reading back, argument checks, balance =====

#[test]
fn printed_data_read_back() {
    for text in [
        "(+ (* 2 3) 4)",
        "0.12345678901234567",
        "1234567890123456.5",
        "-0.001",
        "(a \"s\" #t #f (1.5 -2) ())",
    ] {
        let v = datum(text);
        let again = datum(&v.to_text());
        assert_eq!(again, v);
    }
}

#[test]
fn parse_returns_the_rest_untouched() {
    let tokens = tokenize("(1 2) x 3").unwrap();
    let (v, rest) = parse(&tokens).unwrap();
    assert_eq!(v.to_text(), "(1 2)");
    assert_eq!(rest, &tokens[4..]);
    let alone = tokenize("(1 2)").unwrap();
    let (w, rest2) = parse(&alone).unwrap();
    assert_eq!(w, v);
    assert!(rest2.is_empty());
}

#[test]
fn arithmetic_reports_non_numbers_first() {
    assert_eq!(err_of("(+ 9223372036854775807 1 'a)"), Error::ExpectedNumber);
    assert_eq!(err_of("(* 9223372036854775807 2 \"x\")"), Error::ExpectedNumber);
    assert_eq!(show("(+ 9223372036854775807 1)"), "9223372036854775808");
}

#[test]
fn balanced_texts_concatenate() {
    let a = "(def s \"(\\\"\") ; x";
    assert!(mini_scheme::repl::is_balanced(a));
    for b in ["", "(", ")", "(+ 1 2)", "\"", "\"(\""] {
        let ab = format!("{}{}", a, b);
        assert_eq!(mini_scheme::repl::is_balanced(&ab), mini_scheme::repl::is_balanced(b));
    }
}

#[test]
fn whitespace_agrees_with_std() {
    for code in 0u32..0x3100 {
        let c = match char::from_u32(code) {
            Some(c) => c,
            None => continue,
        };
        if "()\";'#-0123456789".contains(c) {
            continue;
        }
        let r = tokenize(&c.to_string());
        if c.is_whitespace() {
            if c == ' ' || c == '\t' || c == '\n' || c == '\r' {
                assert_eq!(r, Ok(vec![]));
            } else {
                assert_eq!(r, Err(Error::UnexpectedWhitespace), "code {:x}", code);
            }
        } else {
            assert_eq!(r, Ok(vec![Token::Symbol(c.to_string())]), "code {:x}", code);
        }
    }
}

#[test]
fn value_equality_is_equal_p() {
    let mut env = make_global_env();
    let f = run("(lambda (x) x)", &mut env).unwrap();
    assert!(f != f.copy());
    assert_eq!(datum("0.5"), datum("0.50").copy());
    assert_eq!(num(2), Value::Number(Number::decimal(20, 1)));
    assert_eq!(datum("(1 (2 \"s\"))"), datum("(1 (2 \"s\"))"));
    assert!(datum("(1 2)") != datum("(1 3)"));
}

#[test]
fn depth_budget_per_call() {
    let mut env = make_global_env();
    run("(def (count n) (if (= n 0) 0 (+ 1 (count (- n 1)))))", &mut env).unwrap();
    let call = datum("(count 100)");
    assert_eq!(eval(&call, 0, &mut env, 500), Ok(num(100)));
    assert_eq!(eval(&call, 0, &mut env, 200), Err(Error::DepthExceeded));
}
