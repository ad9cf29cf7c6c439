use kadom::expr::{ArithOp, Expr, LiteralValue};
use kadom::interpreter::Interpreter;
use kadom::lexer::{Scanner, Token, TokenType};
use kadom::expr::{number_equals, number_less, number_less_equal, text_less};
use kadom::lexer::TokenType::{
    And, Bang, BangEqual, Class, Comma, Dot, Else, Eof, Equal, EqualEqual, False, For, Fun,
    Greater, GreaterEqual, Identifier, If, LeftBrace, LeftParent, Less, LessEqual, Minus, Nil,
    Number, Or, Plus, Print, Return, RightBrace, RightParent, Semicolon, Slash, Star, Super, This,
    True, Var, While,
};
use kadom::parser::Parser;

fn to_number(s: String) -> u64 {
    s.parse::<f64>().unwrap().to_bits()
}

fn to_double(i: i64) -> u64 {
    (i as f64).to_bits()
}

fn arith(op: ArithOp, x: u64, y: u64) -> u64 {
    let (a, b) = (f64::from_bits(x), f64::from_bits(y));
    let r = match op {
        ArithOp::Add => a + b,
        ArithOp::Sub => a - b,
        ArithOp::Mul => a * b,
        ArithOp::Div => a / b,
    };
    r.to_bits()
}

fn render(b: u64) -> String {
    f64::from_bits(b).to_string()
}

fn scan(source: &str) -> Result<Vec<Token>, String> {
    Scanner::new(source.to_string()).scan_tokens(&to_number)
}

/// Runs a program in a fresh session; the printed texts and the outcome.
fn run_program(source: &str) -> (Vec<String>, Result<(), String>) {
    let mut interpreter = Interpreter::new();
    run_in(&mut interpreter, source)
}

fn run_in(interpreter: &mut Interpreter, source: &str) -> (Vec<String>, Result<(), String>) {
    let tokens = match scan(source) {
        Ok(t) => t,
        Err(e) => return (Vec::new(), Err(e)),
    };
    let statements = match Parser::new(tokens).parse(&to_double) {
        Ok(s) => s,
        Err(e) => return (Vec::new(), Err(e)),
    };
    let mut printed = Vec::new();
    let outcome = interpreter.interpret(statements, &arith, &mut printed);
    let texts = printed.iter().map(|v| v.to_text(&render)).collect();
    (texts, outcome)
}

/// The value of one expression.
fn value_of(expression: &str) -> Result<LiteralValue, String> {
    let tokens = scan(&format!("{};", expression))?;
    let mut statements = Parser::new(tokens).parse(&to_double)?;
    assert_eq!(statements.len(), 1);
    match statements.remove(0) {
        kadom::stmt::Stmt::Expression { expression } => {
            let env = kadom::environment::Environment::new();
            expression.evaluate(&env, &arith)
        }
        _ => panic!("not an expression statement"),
    }
}

fn number(v: &Result<LiteralValue, String>) -> f64 {
    match v {
        Ok(LiteralValue::Number(b)) => f64::from_bits(*b),
        other => panic!("not a number: {:?}", other),
    }
}

fn kinds(source: &str) -> Vec<TokenType> {
    scan(source).unwrap().iter().map(|t| t.token_type).collect()
}

#[test]
fn printy_print_ast() {
    let minus_token = Token::new(TokenType::Minus, "-".to_string(), None, u64::MAX);
    let one_two_three = Expr::Literal { value: LiteralValue::Number(123.0f64.to_bits()) };
    let group = Expr::Grouping {
        expression: Box::new(Expr::Literal { value: LiteralValue::Number(45.67f64.to_bits()) }),
    };
    let multiply_token = Token::new(TokenType::Star, "*".to_string(), None, u64::MAX);
    let ast = Expr::Binary {
        left: Box::new(Expr::Unary { operator: minus_token, right: Box::new(one_two_three) }),
        operator: multiply_token,
        right: Box::new(group),
    };
    assert_eq!(ast.to_text(&render), "(* (- 123) (group 45.67))");
    assert_eq!(ast.to_text(&render), ast.to_text(&render));
}

#[test]
fn printed_form_of_parsed_expressions() {
    let tokens = scan("-a == (\"s\" + nil);").unwrap();
    let statements = Parser::new(tokens).parse(&to_double).unwrap();
    match &statements[0] {
        kadom::stmt::Stmt::Expression { expression } => {
            assert_eq!(expression.to_text(&render), "(== (- var a) (group (+ s nil)))");
        }
        _ => panic!("not an expression statement"),
    }
}

#[test]
fn arithmetic_follows_precedence() {
    assert_eq!(number(&value_of("1 + 2 * 3")), 7.0);
    assert_eq!(number(&value_of("(1 + 2) * 3")), 9.0);
    assert_eq!(number(&value_of("10 - 4 - 3")), 3.0);
    assert_eq!(number(&value_of("7 / 2")), 3.5);
    assert_eq!(number(&value_of("-2 * -3")), 6.0);
    assert_eq!(number(&value_of("0.1 + 0.2")), 0.1f64 + 0.2f64);
}

#[test]
fn string_concatenation() {
    match value_of("\"a\" + \"b\"") {
        Ok(LiteralValue::String(s)) => assert_eq!(s, "ab"),
        other => panic!("unexpected {:?}", other),
    }
    assert_eq!(value_of("\"a\" + 1").unwrap_err(), "Mismatched types for +: String and Number");
    assert_eq!(value_of("1 - \"a\"").unwrap_err(), "Mismatched types for -: Number and String");
}

#[test]
fn unary_truthiness() {
    assert!(matches!(value_of("!0"), Ok(LiteralValue::True)));
    assert!(matches!(value_of("!1"), Ok(LiteralValue::False)));
    assert!(matches!(value_of("!\"\""), Ok(LiteralValue::True)));
    assert!(matches!(value_of("!\"x\""), Ok(LiteralValue::False)));
    assert!(matches!(value_of("!nil"), Ok(LiteralValue::True)));
    assert!(matches!(value_of("!false"), Ok(LiteralValue::True)));
    assert!(matches!(value_of("!true"), Ok(LiteralValue::False)));
    assert!(matches!(value_of("!-0"), Ok(LiteralValue::True)));
}

#[test]
fn equality_is_total() {
    assert!(matches!(value_of("1 == \"1\""), Ok(LiteralValue::False)));
    assert!(matches!(value_of("1 != \"1\""), Ok(LiteralValue::True)));
    assert!(matches!(value_of("nil == nil"), Ok(LiteralValue::True)));
    assert!(matches!(value_of("nil == false"), Ok(LiteralValue::False)));
    assert!(matches!(value_of("\"ab\" == \"ab\""), Ok(LiteralValue::True)));
    assert!(matches!(value_of("-0 == 0"), Ok(LiteralValue::True)));
    assert!(matches!(value_of("0 / 0 == 0 / 0"), Ok(LiteralValue::False)));
}

#[test]
fn comparisons() {
    assert!(matches!(value_of("2 >= 2"), Ok(LiteralValue::True)));
    assert!(matches!(value_of("2 > 2"), Ok(LiteralValue::False)));
    assert!(matches!(value_of("-1 < 0"), Ok(LiteralValue::True)));
    assert!(matches!(value_of("-2 <= -3"), Ok(LiteralValue::False)));
    assert!(matches!(value_of("\"a\" < \"b\""), Ok(LiteralValue::True)));
    assert!(matches!(value_of("\"ab\" > \"a\""), Ok(LiteralValue::True)));
    assert!(matches!(value_of("\"b\" <= \"a\""), Ok(LiteralValue::False)));
    assert_eq!(value_of("\"a\" < 1").unwrap_err(), "Mismatched types for <: String and Number");
    assert_eq!(value_of("nil < nil").unwrap_err(), "Operator < cannot be evaluated for Nil and Nil");
    assert_eq!(
        value_of("true * 2").unwrap_err(),
        "Operator * cannot be evaluated for True and Number"
    );
}

#[test]
fn negation_needs_a_number() {
    assert_eq!(number(&value_of("-(1 + 1)")), -2.0);
    assert_eq!(value_of("-\"a\"").unwrap_err(), "Negation not implemented for String");
}

#[test]
fn variable_lifecycle() {
    let (out, r) = run_program("var x = 5; print x;");
    assert_eq!(out, vec!["5".to_string()]);
    assert!(r.is_ok());
    let (out, r) = run_program("print y;");
    assert!(out.is_empty());
    assert_eq!(r.unwrap_err(), "Variable y not declared yet!");
    let (out, r) = run_program("var x = 1; var x = 2; print x;");
    assert_eq!(out, vec!["2".to_string()]);
    assert!(r.is_ok());
    let (out, _) = run_program("var n; print n;");
    assert_eq!(out, vec!["nil".to_string()]);
}

#[test]
fn session_keeps_variables_between_runs() {
    let mut interpreter = Interpreter::new();
    let (_, r) = run_in(&mut interpreter, "var greeting = \"hi\";");
    assert!(r.is_ok());
    let (out, r) = run_in(&mut interpreter, "print greeting + \"!\";");
    assert_eq!(out, vec!["hi!".to_string()]);
    assert!(r.is_ok());
}

#[test]
fn run_stops_at_first_failing_statement() {
    let (out, r) = run_program("print 1; print y; print 2;");
    assert_eq!(out, vec!["1".to_string()]);
    assert_eq!(r.unwrap_err(), "Variable y not declared yet!");
}

#[test]
fn print_renders_values() {
    let (out, r) = run_program("print 2.5; print \"s\"; print true; print false; print nil; print 1 / 3;");
    assert!(r.is_ok());
    assert_eq!(out, vec!["2.5", "s", "true", "false", "nil", &(1.0f64 / 3.0).to_string()]);
}

#[test]
fn parser_recovers_once_per_broken_statement() {
    let tokens = scan("1 +; 2 *; print 3;").unwrap();
    let err = Parser::new(tokens).parse(&to_double).unwrap_err();
    assert_eq!(err, "Expected expression on line 1\nExpected expression on line 1");
    assert_eq!(err.lines().count(), 2);
}

#[test]
fn parser_errors() {
    let parse = |s: &str| Parser::new(scan(s).unwrap()).parse(&to_double);
    assert_eq!(parse("var = 1;").unwrap_err(), "Expected variable name");
    assert_eq!(parse("print 1").unwrap_err(), "Expected ';' after statement");
    assert_eq!(parse("(1 + 2;").unwrap_err(), "Expected ')' here");
    assert_eq!(parse("\n\n;").unwrap_err(), "Expected expression on line 3");
    assert_eq!(parse("var x = 1\nprint x;").unwrap_err(), "Expected ';' after statement");
    assert_eq!(parse("").unwrap().len(), 0);
    assert_eq!(parse("var a = 1; print a; a;").unwrap().len(), 3);
}

#[test]
fn unterminated_string_is_one_error() {
    let err = scan("print 1;\n\"abc\nd").unwrap_err();
    assert_eq!(err, "Unterminated string starting on line 2\n");
    assert_eq!(scan("\"").unwrap_err(), "Unterminated string starting on line 1\n");
}

#[test]
fn unrecognised_characters_are_all_reported() {
    assert_eq!(
        scan("@ 1 #").unwrap_err(),
        "Unrecognised character: @ at line 1\nUnrecognised character: # at line 1\n"
    );
    assert_eq!(scan("\n\né").unwrap_err(), "Unrecognised character: é at line 3\n");
}

#[test]
fn operators_use_maximal_munch() {
    assert_eq!(
        kinds("!= ! == = <= < >= > / ( ) { } , . - + ; *"),
        vec![
            BangEqual, Bang, EqualEqual, Equal, LessEqual, Less, GreaterEqual, Greater, Slash,
            LeftParent, RightParent, LeftBrace, RightBrace, Comma, Dot, Minus, Plus, Semicolon,
            Star, Eof
        ]
    );
}

#[test]
fn comments_run_to_end_of_line() {
    assert_eq!(kinds("1 // two 3\n4"), vec![Number, Number, Eof]);
    assert_eq!(kinds("// only"), vec![Eof]);
    let (out, _) = run_program("// nothing\nprint 8 / 2;");
    assert_eq!(out, vec!["4".to_string()]);
}

#[test]
fn numbers_and_identifiers() {
    let tokens = scan("12.5 7. _x9 orchid or nil").unwrap();
    let got: Vec<(TokenType, String)> =
        tokens.iter().map(|t| (t.token_type, t.lexeme.clone())).collect();
    assert_eq!(
        got,
        vec![
            (Number, "12.5".to_string()),
            (Number, "7".to_string()),
            (Dot, ".".to_string()),
            (Identifier, "_x9".to_string()),
            (Identifier, "orchid".to_string()),
            (Or, "or".to_string()),
            (Nil, "nil".to_string()),
            (Eof, "".to_string()),
        ]
    );
    match &tokens[0].literal_option {
        Some(kadom::lexer::LiteralValue::FVal(b)) => assert_eq!(f64::from_bits(*b), 12.5),
        other => panic!("unexpected {:?}", other),
    }
}

#[test]
fn keywords_are_recognised() {
    assert_eq!(
        kinds("and class else false for fun if nil or print return super this true var while"),
        vec![
            And, Class, Else, False, For, Fun, If, Nil, Or, Print, Return, Super, This, True, Var,
            While, Eof
        ]
    );
}

#[test]
fn string_tokens_track_lines() {
    let tokens = scan("\"a\nb\" x").unwrap();
    assert_eq!(tokens[0].token_type, TokenType::StringLiteral);
    assert_eq!(tokens[0].lexeme, "\"a\nb\"");
    assert_eq!(tokens[0].line_number, 2);
    match &tokens[0].literal_option {
        Some(kadom::lexer::LiteralValue::StringVal(s)) => assert_eq!(s, "a\nb"),
        other => panic!("unexpected {:?}", other),
    }
    assert_eq!(tokens[1].line_number, 2);
    assert_eq!(tokens[2].token_type, TokenType::Eof);
    assert_eq!(tokens[2].lexeme, "");
}

#[test]
fn literal_from_token() {
    let t = Token::new(
        TokenType::StringLiteral,
        "\"q\"".to_string(),
        Some(kadom::lexer::LiteralValue::StringVal("q".to_string())),
        1,
    );
    assert!(matches!(LiteralValue::from_token(t, &to_double), Ok(LiteralValue::String(s)) if s == "q"));
    let t = Token::new(TokenType::Number, "4".to_string(), None, 1);
    assert_eq!(LiteralValue::from_token(t, &to_double).unwrap_err(), "Could not unwrap as number");
    let t = Token::new(
        TokenType::Number,
        "5".to_string(),
        Some(kadom::lexer::LiteralValue::IntVal(5)),
        1,
    );
    assert_eq!(LiteralValue::from_token(t, &to_double).unwrap(), LiteralValue::Number(5.0f64.to_bits()));
    let t = Token::new(
        TokenType::Number,
        "0".to_string(),
        Some(kadom::lexer::LiteralValue::IntVal(i64::MAX)),
        1,
    );
    assert_eq!(
        LiteralValue::from_token(t, &to_double).unwrap(),
        LiteralValue::Number(9223372036854775808.0f64.to_bits())
    );
    let t = Token::new(TokenType::Nil, "nil".to_string(), None, 1);
    assert!(matches!(LiteralValue::from_token(t, &to_double), Ok(LiteralValue::Nil)));
    assert_eq!(kadom::expr::unwrap_as_string(None).unwrap_err(), "Could not unwrap as string");
}

#[test]
fn environment_define_and_get() {
    let mut env = kadom::environment::Environment::new();
    assert_eq!(env.get(&"a".to_string()).unwrap_err(), "Variable a not declared yet!");
    env.define("a".to_string(), LiteralValue::True);
    env.define("b".to_string(), LiteralValue::Nil);
    env.define("a".to_string(), LiteralValue::String("z".to_string()));
    assert!(matches!(env.get(&"a".to_string()), Ok(LiteralValue::String(s)) if s == "z"));
    assert!(matches!(env.get(&"b".to_string()), Ok(LiteralValue::Nil)));
}

#[test]
fn character_classes_and_decimals() {
    assert!(kadom::lexer::is_alpha('_'));
    assert!(!kadom::lexer::is_alpha('1'));
    assert!(kadom::lexer::is_alphanumeric('1'));
    assert!(!kadom::lexer::is_alphanumeric('é'));
    assert_eq!(kadom::text::decimal_text(1234).iter().collect::<String>(), "1234");
    assert_eq!(kadom::text::decimal_text(0).iter().collect::<String>(), "0");
}

#[test]
fn number_bits_compare_as_doubles() {
    let b = |x: f64| x.to_bits();
    assert!(number_equals(b(0.0), b(-0.0)));
    assert!(!number_equals(b(f64::NAN), b(f64::NAN)));
    assert!(number_less(b(-1.5), b(-1.0)));
    assert!(number_less(b(1.0), b(f64::INFINITY)));
    assert!(!number_less(b(f64::NAN), b(1.0)));
    assert!(number_less_equal(b(-0.0), b(0.0)));
    assert!(text_less(&"abc".to_string(), &"abd".to_string()));
    assert!(!text_less(&"b".to_string(), &"abc".to_string()));
}

#[test]
fn values_compare_structurally() {
    assert_eq!(value_of("1 + 1").unwrap(), LiteralValue::Number(2.0f64.to_bits()));
    assert_eq!(value_of("\"a\" + \"b\"").unwrap(), LiteralValue::String("ab".to_string()));
    assert_ne!(LiteralValue::True, LiteralValue::False);
    assert_ne!(LiteralValue::Nil, LiteralValue::False);
    let nan = LiteralValue::Number(f64::NAN.to_bits());
    assert_ne!(nan.clone(), nan);
    assert_eq!(LiteralValue::Number(0.0f64.to_bits()), LiteralValue::Number((-0.0f64).to_bits()));
}
