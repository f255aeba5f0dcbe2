use mini_scheme::env::Env;
use mini_scheme::error::Error;
use mini_scheme::lexer::tokenize;
use mini_scheme::number::Number;
use mini_scheme::reader::{parse, parse_all};
use mini_scheme::repl::{eval_to_string, is_balanced, make_global_env, run};
use mini_scheme::value::{Token, Value};

// Evaluates one input in a fresh global environment.
fn eval_input(input: &str) -> Result<Value, Error> {
    let mut env = make_global_env();
    run(input, &mut env)
}

// Evaluates several inputs in one environment; the value of the last.
fn eval_program(inputs: &[&str]) -> Result<Value, Error> {
    let mut env = make_global_env();
    let mut result = Value::Nil;
    for input in inputs {
        result = run(input, &mut env)?;
    }
    Ok(result)
}

fn eval_str(input: &str) -> String {
    eval_input(input).unwrap().to_text()
}

fn eval_program_str(inputs: &[&str]) -> String {
    eval_program(inputs).unwrap().to_text()
}

fn sym(s: &str) -> Token {
    Token::Symbol(s.to_string())
}

fn num_tok(n: i64) -> Token {
    Token::Number(Number::from_i64(n))
}

// ===== Tokenizer =====

#[test]
fn tokenize_integer() {
    let tokens = tokenize("42").unwrap();
    assert_eq!(tokens, vec![num_tok(42)]);
}

#[test]
fn tokenize_negative_number() {
    let tokens = tokenize("-7").unwrap();
    assert_eq!(tokens, vec![num_tok(-7)]);
}

#[test]
fn tokenize_float() {
    let tokens = tokenize("3.14").unwrap();
    assert_eq!(tokens, vec![Token::Number(Number::decimal(314, 2))]);
}

#[test]
fn tokenize_string() {
    let tokens = tokenize(r#""hello""#).unwrap();
    assert_eq!(tokens, vec![Token::Str("hello".to_string())]);
}

#[test]
fn tokenize_string_escape() {
    let tokens = tokenize(r#""a\nb""#).unwrap();
    assert_eq!(tokens, vec![Token::Str("a\nb".to_string())]);
}

#[test]
fn tokenize_booleans() {
    let tokens = tokenize("#t #f").unwrap();
    assert_eq!(tokens, vec![Token::Bool(true), Token::Bool(false)]);
}

#[test]
fn tokenize_symbol() {
    let tokens = tokenize("foo").unwrap();
    assert_eq!(tokens, vec![sym("foo")]);
}

#[test]
fn tokenize_s_expression() {
    let tokens = tokenize("(+ 1 2)").unwrap();
    assert_eq!(tokens, vec![Token::LParen, sym("+"), num_tok(1), num_tok(2), Token::RParen]);
}

#[test]
fn tokenize_comment() {
    let tokens = tokenize("; this is a comment\n42").unwrap();
    assert_eq!(tokens, vec![num_tok(42)]);
}

#[test]
fn tokenize_quote_sugar() {
    let tokens = tokenize("'x").unwrap();
    assert_eq!(tokens, vec![Token::Quote, sym("x")]);
}

#[test]
fn tokenize_unterminated_string() {
    assert!(tokenize(r#""hello"#).is_err());
}

#[test]
fn tokenize_invalid_hash() {
    assert!(tokenize("#x").is_err());
}

// ===== Parser =====

#[test]
fn parse_atom() {
    let tokens = tokenize("42").unwrap();
    let (val, rest) = parse(&tokens).unwrap();
    assert_eq!(val.to_text(), "42");
    assert!(rest.is_empty());
}

#[test]
fn parse_empty_list_is_nil() {
    let tokens = tokenize("()").unwrap();
    let (val, _) = parse(&tokens).unwrap();
    assert_eq!(val, Value::Nil);
}

#[test]
fn parse_nested_list() {
    let tokens = tokenize("(+ (* 2 3) 4)").unwrap();
    let (val, rest) = parse(&tokens).unwrap();
    assert_eq!(val.to_text(), "(+ (* 2 3) 4)");
    assert!(rest.is_empty());
}

#[test]
fn parse_quote_sugar() {
    let tokens = tokenize("'(1 2)").unwrap();
    let (val, _) = parse(&tokens).unwrap();
    assert_eq!(val.to_text(), "(quote (1 2))");
}

#[test]
fn parse_all_multiple() {
    let tokens = tokenize("1 2 3").unwrap();
    let results = parse_all(&tokens).unwrap();
    assert_eq!(results.len(), 3);
}

#[test]
fn parse_missing_rparen() {
    let tokens = tokenize("(+ 1").unwrap();
    assert!(parse(&tokens).is_err());
}

#[test]
fn parse_unexpected_rparen() {
    let tokens = tokenize(")").unwrap();
    assert!(parse(&tokens).is_err());
}

// ===== Evaluator: self-evaluating =====

#[test]
fn eval_number() {
    assert_eq!(eval_str("42"), "42");
}

#[test]
fn eval_string() {
    assert_eq!(eval_str(r#""hello""#), r#""hello""#);
}

#[test]
fn eval_bool() {
    assert_eq!(eval_str("#t"), "#t");
    assert_eq!(eval_str("#f"), "#f");
}

// ===== Evaluator: arithmetic =====

#[test]
fn eval_add() {
    assert_eq!(eval_str("(+ 1 2 3)"), "6");
}

#[test]
fn eval_add_identity() {
    assert_eq!(eval_str("(+)"), "0");
}

#[test]
fn eval_mul() {
    assert_eq!(eval_str("(* 2 3 4)"), "24");
}

#[test]
fn eval_mul_identity() {
    assert_eq!(eval_str("(*)"), "1");
}

#[test]
fn eval_sub() {
    assert_eq!(eval_str("(- 10 3)"), "7");
}

#[test]
fn eval_unary_minus() {
    assert_eq!(eval_str("(- 5)"), "-5");
}

#[test]
fn eval_div() {
    assert_eq!(eval_str("(/ 10 2)"), "5");
}

#[test]
fn eval_div_by_zero() {
    assert!(eval_input("(/ 1 0)").is_err());
}

// ===== Evaluator: comparison =====

#[test]
fn eval_eq_numbers() {
    assert_eq!(eval_str("(= 3 3)"), "#t");
    assert_eq!(eval_str("(= 3 4)"), "#f");
}

#[test]
fn eval_lt() {
    assert_eq!(eval_str("(< 1 2)"), "#t");
    assert_eq!(eval_str("(< 2 1)"), "#f");
}

#[test]
fn eval_gt() {
    assert_eq!(eval_str("(> 2 1)"), "#t");
}

#[test]
fn eval_lte() {
    assert_eq!(eval_str("(<= 2 2)"), "#t");
    assert_eq!(eval_str("(<= 3 2)"), "#f");
}

#[test]
fn eval_gte() {
    assert_eq!(eval_str("(>= 2 2)"), "#t");
}

// ===== Evaluator: quote =====

#[test]
fn eval_quote() {
    assert_eq!(eval_str("(quote (1 2 3))"), "(1 2 3)");
}

#[test]
fn eval_quote_sugar() {
    assert_eq!(eval_str("'(a b c)"), "(a b c)");
}

// ===== Evaluator: if =====

#[test]
fn eval_if_true() {
    assert_eq!(eval_str("(if #t 1 2)"), "1");
}

#[test]
fn eval_if_false() {
    assert_eq!(eval_str("(if #f 1 2)"), "2");
}

#[test]
fn eval_if_no_else() {
    assert_eq!(eval_str("(if #f 1)"), "()");
}

// ===== Evaluator: def =====

#[test]
fn eval_def_variable() {
    assert_eq!(eval_program_str(&["(def x 42)", "x"]), "42");
}

#[test]
fn eval_def_function() {
    assert_eq!(eval_program_str(&["(def (square n) (* n n))", "(square 5)"]), "25");
}

// ===== Evaluator: lambda =====

#[test]
fn eval_lambda_call() {
    assert_eq!(eval_str("((lambda (x) (+ x 1)) 10)"), "11");
}

#[test]
fn eval_lambda_no_params() {
    assert_eq!(eval_str("((lambda () 42))"), "42");
}

// ===== Evaluator: closures =====

#[test]
fn eval_closure_lexical_scope() {
    assert_eq!(
        eval_program_str(&[
            "(def (make-adder n) (lambda (x) (+ n x)))",
            "(def add5 (make-adder 5))",
            "(add5 10)"
        ]),
        "15"
    );
}

#[test]
fn eval_closure_capture() {
    assert_eq!(
        eval_program_str(&[
            "(def (counter) (let ((n 0)) (lambda () (set! n (+ n 1)) n)))",
            "(def c (counter))",
            "(c)",
            "(c)",
            "(c)"
        ]),
        "3"
    );
}

// ===== Evaluator: begin =====

#[test]
fn eval_begin() {
    assert_eq!(eval_str("(begin 1 2 3)"), "3");
}

// ===== Evaluator: set! =====

#[test]
fn eval_set() {
    assert_eq!(eval_program_str(&["(def x 1)", "(set! x 42)", "x"]), "42");
}

// ===== Evaluator: cond =====

#[test]
fn eval_cond() {
    assert_eq!(eval_str("(cond (#f 1) (#t 2) (else 3))"), "2");
}

#[test]
fn eval_cond_else() {
    assert_eq!(eval_str("(cond (#f 1) (else 99))"), "99");
}

// ===== Evaluator: let =====

#[test]
fn eval_let() {
    assert_eq!(eval_str("(let ((x 2) (y 3)) (+ x y))"), "5");
}

#[test]
fn eval_let_empty_bindings() {
    assert_eq!(eval_str("(let () 42)"), "42");
}

// ===== Evaluator: and =====

#[test]
fn eval_and_all_true() {
    assert_eq!(eval_str("(and 1 2 3)"), "3");
}

#[test]
fn eval_and_short_circuit() {
    assert_eq!(eval_str("(and 1 #f 3)"), "#f");
}

#[test]
fn eval_and_empty() {
    assert_eq!(eval_str("(and)"), "#t");
}

// ===== Builtins: car/cdr/cons =====

#[test]
fn eval_car() {
    assert_eq!(eval_str("(car '(1 2 3))"), "1");
}

#[test]
fn eval_cdr() {
    assert_eq!(eval_str("(cdr '(1 2 3))"), "(2 3)");
}

#[test]
fn eval_cdr_singleton() {
    assert_eq!(eval_str("(cdr '(1))"), "()");
}

#[test]
fn eval_cons() {
    assert_eq!(eval_str("(cons 1 '(2 3))"), "(1 2 3)");
}

#[test]
fn eval_cons_nil() {
    assert_eq!(eval_str("(cons 1 '())"), "(1)");
}

// ===== Builtins: list =====

#[test]
fn eval_list() {
    assert_eq!(eval_str("(list 1 2 3)"), "(1 2 3)");
}

#[test]
fn eval_list_empty() {
    assert_eq!(eval_str("(list)"), "()");
}

// ===== Builtins: type predicates =====

#[test]
fn eval_type_predicates() {
    assert_eq!(eval_str("(number? 42)"), "#t");
    assert_eq!(eval_str("(number? \"x\")"), "#f");
    assert_eq!(eval_str("(string? \"hi\")"), "#t");
    assert_eq!(eval_str("(boolean? #t)"), "#t");
    assert_eq!(eval_str("(symbol? 'x)"), "#t");
    assert_eq!(eval_str("(null? '())"), "#t");
    assert_eq!(eval_str("(null? '(1))"), "#f");
    assert_eq!(eval_str("(pair? '(1 2))"), "#t");
    assert_eq!(eval_str("(pair? '())"), "#f");
    assert_eq!(eval_str("(procedure? +)"), "#t");
    assert_eq!(eval_str("(procedure? 42)"), "#f");
}

// ===== Builtins: eq?/equal? =====

#[test]
fn eval_eq() {
    assert_eq!(eval_str("(eq? 'a 'a)"), "#t");
    assert_eq!(eval_str("(eq? 'a 'b)"), "#f");
    assert_eq!(eval_str("(eq? 1 1)"), "#t");
}

#[test]
fn eval_equal() {
    assert_eq!(eval_str("(equal? '(1 2) '(1 2))"), "#t");
    assert_eq!(eval_str("(equal? '(1 2) '(1 3))"), "#f");
}

// ===== Builtins: not =====

#[test]
fn eval_not() {
    assert_eq!(eval_str("(not #f)"), "#t");
    assert_eq!(eval_str("(not #t)"), "#f");
    assert_eq!(eval_str("(not 0)"), "#f");
}

// ===== Recursion =====

#[test]
fn eval_factorial() {
    assert_eq!(
        eval_program_str(&[
            "(def (factorial n) (if (= n 0) 1 (* n (factorial (- n 1)))))",
            "(factorial 10)"
        ]),
        "3628800"
    );
}

#[test]
fn eval_fibonacci() {
    assert_eq!(
        eval_program_str(&[
            "(def (fib n) (if (< n 2) n (+ (fib (- n 1)) (fib (- n 2)))))",
            "(fib 10)"
        ]),
        "55"
    );
}

#[test]
fn eval_map_user_defined() {
    assert_eq!(
        eval_program_str(&[
            "(def (my-map f lst) (if (null? lst) '() (cons (f (car lst)) (my-map f (cdr lst)))))",
            "(my-map (lambda (x) (* x x)) '(1 2 3 4 5))"
        ]),
        "(1 4 9 16 25)"
    );
}

// ===== Errors =====

#[test]
fn error_undefined_variable() {
    assert!(eval_input("xyz").is_err());
}

#[test]
fn error_not_a_function() {
    assert!(eval_input("(42 1 2)").is_err());
}

#[test]
fn error_arity_mismatch() {
    let result = eval_program(&["(def (f x) x)", "(f 1 2)"]);
    assert!(result.is_err());
}

#[test]
fn error_set_undefined() {
    assert!(eval_input("(set! z 99)").is_err());
}

// ===== is_balanced =====

#[test]
fn balanced_simple() {
    assert!(is_balanced("(+ 1 2)"));
    assert!(!is_balanced("(+ 1"));
    assert!(is_balanced(""));
}

#[test]
fn balanced_string() {
    assert!(is_balanced(r#""hello""#));
    assert!(!is_balanced(r#""hello"#));
}

#[test]
fn balanced_nested() {
    assert!(is_balanced("((a) (b (c)))"));
    assert!(!is_balanced("((a) (b (c))"));
}

// ===== Printing =====

#[test]
fn display_integer() {
    assert_eq!(Value::Number(Number::from_i64(5)).to_text(), "5");
}

#[test]
fn display_float() {
    assert_eq!(Value::Number(Number::decimal(314, 2)).to_text(), "3.14");
}

#[test]
fn display_nil() {
    assert_eq!(Value::Nil.to_text(), "()");
}

#[test]
fn display_closure() {
    let env = Env::new();
    let val = Value::Closure { params: vec![], body: vec![], env: env.frame_count() - 1 };
    assert_eq!(val.to_text(), "#<closure>");
}

#[test]
fn display_builtin() {
    assert_eq!(Value::BuiltinFunc("+".to_string()).to_text(), "#<builtin:+>");
}

// ===== eval_to_string =====

#[test]
fn eval_to_string_basic() {
    assert_eq!(eval_to_string("(+ 2 3)").unwrap(), "5");
}
