use f_lang::ast::{ArraySize, BinaryOperator, CatchClause, Expression, Statement, Type, UnaryOperator};
use f_lang::compiler::analyzer::analyze;
use f_lang::compiler::codegen::{collect_types, generate_c, TypeTable, RUNTIME};
use f_lang::compiler::{compile_to_c, CompileError};
use f_lang::interpreter::{check_implicit_conversion_warning, ConversionWarning, EvalError, Interpreter, Value};
use f_lang::lexer::{Lexer, LexerError, Token, TokenKind};
use f_lang::names::NameSet;
use f_lang::parser::{copy_token, ParseError, Parser};

fn lex(src: &str) -> Result<Vec<Token>, LexerError> {
    Lexer::new(src).tokenize()
}

fn parse(src: &str) -> Result<Vec<Statement>, ParseError> {
    let tokens = lex(src).expect("lexes");
    Parser::new(tokens).parse_program()
}

fn var(n: &str) -> Expression {
    Expression::Variable(n.to_string())
}

fn hex(v: u64) -> Expression {
    Expression::HexLiteral(v, false)
}

fn bin(op: BinaryOperator, a: Expression, b: Expression) -> Expression {
    Expression::BinaryOp(op, Box::new(a), Box::new(b))
}

fn assign(lhs: Expression, rhs: Expression) -> Statement {
    Statement::Expression(bin(BinaryOperator::Assign, lhs, rhs))
}

// ---------------------------------------------------------------------------
// The lexer.

#[test]
fn lexer_declaration() {
    assert_eq!(
        lex("var i32 $x = -1A."),
        Ok(vec![
            Token::Var,
            Token::Type(Type::I32),
            Token::Variable("x".to_string()),
            Token::Equal,
            Token::HexLiteral(0x1A, true),
            Token::Dot,
        ])
    );
}

#[test]
fn lexer_hex_values() {
    assert_eq!(lex("A 10 FFFFFFFFFFFFFFFF"), Ok(vec![
        Token::HexLiteral(10, false),
        Token::HexLiteral(16, false),
        Token::HexLiteral(u64::MAX, false),
    ]));
    assert_eq!(lex("10000000000000000"), Err(LexerError::InvalidHexLiteral("10000000000000000".to_string(), 1)));
    assert_eq!(lex("1a"), Err(LexerError::InvalidHexLiteral("1a".to_string(), 1)));
}

#[test]
fn lexer_comments_are_skipped() {
    assert_eq!(lex("var (This is a comment) i8"), Ok(vec![Token::Var, Token::Type(Type::I8)]));
    assert_eq!(lex("(outer (inner) still) loop"), Ok(vec![Token::Loop]));
    assert_eq!(lex("\n(Never closed"), Err(LexerError::UnterminatedComment(2)));
}

#[test]
fn lexer_parentheses_after_a_blank_are_comments() {
    assert_eq!(
        lex("var i32 $a = 3. ( 3 * 5 = 15 )\nvar i32 $b = #f($a)."),
        Ok(vec![
            Token::Var,
            Token::Type(Type::I32),
            Token::Variable("a".to_string()),
            Token::Equal,
            Token::HexLiteral(3, false),
            Token::Dot,
            Token::Var,
            Token::Type(Type::I32),
            Token::Variable("b".to_string()),
            Token::Equal,
            Token::Function("f".to_string()),
            Token::LParen,
            Token::Variable("a".to_string()),
            Token::RParen,
            Token::Dot,
        ])
    );
    assert_eq!(lex("(a (b) c)$x"), Ok(vec![Token::Variable("x".to_string())]));
    assert_eq!(lex("var i32 $a.\n(oops"), Err(LexerError::UnterminatedComment(2)));
    assert_eq!(lex("$x = ($y)."), Ok(vec![Token::Variable("x".to_string()), Token::Equal, Token::Dot]));
}

#[test]
fn lexer_parentheses_that_hold_tokens() {
    assert_eq!(
        lex("#f($a, 2)"),
        Ok(vec![
            Token::Function("f".to_string()),
            Token::LParen,
            Token::Variable("a".to_string()),
            Token::Comma,
            Token::HexLiteral(2, false),
            Token::RParen,
        ])
    );
}

#[test]
fn lexer_operators() {
    assert_eq!(
        lex("<< >> < > - 5 ~ ? & | + = @ . , * { } [ ]"),
        Ok(vec![
            Token::ShiftLeft,
            Token::ShiftRight,
            Token::LessThan,
            Token::GreaterThan,
            Token::Minus,
            Token::HexLiteral(5, false),
            Token::BitwiseNot,
            Token::Exists,
            Token::BitwiseAnd,
            Token::BitwiseOr,
            Token::Plus,
            Token::Equal,
            Token::At,
            Token::Dot,
            Token::Comma,
            Token::Asterisk,
            Token::LBrace,
            Token::RBrace,
            Token::LBracket,
            Token::RBracket,
        ])
    );
}

#[test]
fn lexer_keywords_and_types() {
    assert_eq!(
        lex("array func loop try catch throw u8 i16 u16 u32 i64 u64"),
        Ok(vec![
            Token::Array,
            Token::Func,
            Token::Loop,
            Token::Try,
            Token::Catch,
            Token::Throw,
            Token::Type(Type::U8),
            Token::Type(Type::I16),
            Token::Type(Type::U16),
            Token::Type(Type::U32),
            Token::Type(Type::I64),
            Token::Type(Type::U64),
        ])
    );
}

#[test]
fn lexer_errors() {
    assert_eq!(lex("\n\n%"), Err(LexerError::InvalidCharacter('%', 3)));
    assert_eq!(lex("$ "), Err(LexerError::InvalidIdentifier("$".to_string(), 1)));
    assert_eq!(lex("variable"), Err(LexerError::InvalidIdentifier("variable".to_string(), 1)));
    assert_eq!(lex("-"), Ok(vec![Token::Minus]));
    assert_eq!(lex("$a_b1"), Ok(vec![Token::Variable("a_b1".to_string())]));
}

// ---------------------------------------------------------------------------
// The parser.

#[test]
fn parser_left_grouping_and_precedence() {
    assert_eq!(
        parse("$a = 1 + 2 - 3."),
        Ok(vec![assign(var("a"), bin(BinaryOperator::Sub, bin(BinaryOperator::Add, hex(1), hex(2)), hex(3)))])
    );
    assert_eq!(
        parse("$x = $a | $b & $c."),
        Ok(vec![assign(
            var("x"),
            bin(BinaryOperator::BitwiseOr, var("a"), bin(BinaryOperator::BitwiseAnd, var("b"), var("c")))
        )])
    );
    assert_eq!(
        parse("$x = $a & $b << 1."),
        Ok(vec![assign(
            var("x"),
            bin(BinaryOperator::BitwiseAnd, var("a"), bin(BinaryOperator::ShiftLeft, var("b"), hex(1)))
        )])
    );
    assert_eq!(
        parse("$x = $a + $b | 1 < 2."),
        Ok(vec![assign(
            var("x"),
            bin(
                BinaryOperator::LessThan,
                bin(BinaryOperator::Add, var("a"), bin(BinaryOperator::BitwiseOr, var("b"), hex(1))),
                hex(2)
            )
        )])
    );
}

#[test]
fn parser_only_the_leftmost_equal_assigns() {
    assert_eq!(
        parse("$a = $b = 3."),
        Ok(vec![assign(var("a"), bin(BinaryOperator::Equal, var("b"), hex(3)))])
    );
}

#[test]
fn parser_postfix_and_primaries() {
    let add = |a: Expression, b: Expression| bin(BinaryOperator::Add, a, b);
    assert_eq!(
        parse("$x = $b~ + $c? + $arr[1] + #f($a, 2) + #g +(3)."),
        Ok(vec![assign(
            var("x"),
            add(
                add(
                    add(
                        add(
                            add(
                                Expression::UnaryOp(UnaryOperator::BitwiseNot, Box::new(var("b"))),
                                Expression::UnaryOp(UnaryOperator::Exists, Box::new(var("c")))
                            ),
                            Expression::ArrayElement("arr".to_string(), Box::new(hex(1)))
                        ),
                        Expression::FunctionCall("f".to_string(), vec![var("a"), hex(2)])
                    ),
                    Expression::FunctionCall("g".to_string(), vec![])
                ),
                hex(3)
            )
        )])
    );
    assert_eq!(
        parse("$arr[1] = -2."),
        Ok(vec![assign(
            Expression::ArrayElement("arr".to_string(), Box::new(hex(1))),
            Expression::HexLiteral(2, true)
        )])
    );
}

#[test]
fn parser_statements() {
    assert_eq!(
        parse("var u8 $f. array i32*3 $a = {1, 2}. array u8*$n $b. array i8*2 $c = {}."),
        Ok(vec![
            Statement::VariableDeclaration { ty: Type::U8, name: "f".to_string(), initializer: None },
            Statement::ArrayDeclaration {
                ty: Type::I32,
                size: ArraySize::Literal(3),
                name: "a".to_string(),
                initializer: Some(vec![hex(1), hex(2)]),
            },
            Statement::ArrayDeclaration {
                ty: Type::U8,
                size: ArraySize::Variable("n".to_string()),
                name: "b".to_string(),
                initializer: None,
            },
            Statement::ArrayDeclaration { ty: Type::I8, size: ArraySize::Literal(2), name: "c".to_string(), initializer: Some(vec![]) },
        ])
    );
    assert_eq!(
        parse("func i32 #f(i32 $a, u8 $b) = { $f = $a. }. func u8 #g = { }. func i8 #h() = { }."),
        Ok(vec![
            Statement::FunctionDeclaration {
                ret_type: Type::I32,
                name: "f".to_string(),
                params: vec![(Type::I32, "a".to_string()), (Type::U8, "b".to_string())],
                body: vec![assign(var("f"), var("a"))],
            },
            Statement::FunctionDeclaration { ret_type: Type::U8, name: "g".to_string(), params: vec![], body: vec![] },
            Statement::FunctionDeclaration { ret_type: Type::I8, name: "h".to_string(), params: vec![], body: vec![] },
        ])
    );
    assert_eq!(
        parse("try { loop { throw 1 @ 1. }. } catch 1 { } catch 2 { $a = 1. }."),
        Ok(vec![Statement::TryCatch {
            try_body: vec![Statement::Loop(vec![Statement::Throw { exception_code: 1, condition: hex(1) }])],
            catch_clauses: vec![
                CatchClause { exception_code: 1, body: vec![] },
                CatchClause { exception_code: 2, body: vec![assign(var("a"), hex(1))] },
            ],
        }])
    );
}

#[test]
fn parser_expression_statement_must_assign() {
    assert_eq!(
        parse("$a + 1."),
        Err(ParseError::SyntaxError("Expression statement must be an assignment, found Some(Plus)".to_string()))
    );
    assert_eq!(
        parse("$a $b."),
        Err(ParseError::SyntaxError(
            "Expression statement must be an assignment, found Some(Variable(\"b\"))".to_string()
        ))
    );
    assert_eq!(
        parse("$a"),
        Err(ParseError::SyntaxError("Expression statement must be an assignment, found None".to_string()))
    );
    assert_eq!(parse("#f = 1."), Err(ParseError::InvalidAssignmentTarget));
    assert_eq!(parse("#f(1) = 1."), Err(ParseError::InvalidAssignmentTarget));
}

#[test]
fn parser_errors() {
    assert_eq!(
        parse("var $x."),
        Err(ParseError::UnexpectedToken { expected: "Type".to_string(), found: Some(Token::Variable("x".to_string())) })
    );
    assert_eq!(parse("var i32 $x"), Err(ParseError::UnexpectedEndOfInput));
    assert_eq!(parse("var i32"), Err(ParseError::UnexpectedToken { expected: "Variable".to_string(), found: None }));
    assert_eq!(
        parse("throw 1 $x."),
        Err(ParseError::UnexpectedToken { expected: "At".to_string(), found: Some(Token::Variable("x".to_string())) })
    );
    assert_eq!(
        parse("throw $x @ 1."),
        Err(ParseError::UnexpectedToken { expected: "HexLiteral".to_string(), found: Some(Token::Variable("x".to_string())) })
    );
    assert_eq!(
        parse("array i32*3 #f."),
        Err(ParseError::UnexpectedToken { expected: "ArrayIdentifier".to_string(), found: Some(Token::Function("f".to_string())) })
    );
    assert_eq!(
        parse("array i32*#f $a."),
        Err(ParseError::UnexpectedToken { expected: "Variable or HexLiteral".to_string(), found: Some(Token::Function("f".to_string())) })
    );
    assert_eq!(
        parse("func i32 $f = { }."),
        Err(ParseError::UnexpectedToken { expected: "FunctionIdentifier".to_string(), found: Some(Token::Variable("f".to_string())) })
    );
    assert_eq!(
        parse("$a = $b < $c < $d."),
        Err(ParseError::UnexpectedToken { expected: "Dot".to_string(), found: Some(Token::LessThan) })
    );
    assert_eq!(
        parse("$a = ."),
        Err(ParseError::UnexpectedToken { expected: "Primary Expression".to_string(), found: Some(Token::Dot) })
    );
    assert_eq!(parse("loop { $a = 1."), Err(ParseError::UnexpectedEndOfInput));
    assert_eq!(
        parse("$a =(1. $b = 2)."),
        Err(ParseError::UnexpectedToken { expected: "RParen".to_string(), found: Some(Token::Dot) })
    );
}

// ---------------------------------------------------------------------------
// The analyzer and the generation of C.

#[test]
fn analyzer_messages() {
    let p = parse("func i32 #f = { func i32 #g = { }. }.").unwrap();
    assert_eq!(analyze(&p), Err("Syntax Error: Function declaration 'g' is prohibited inside a function.".to_string()));
    let p = parse("func i32 #f = { array i32*2 $arr = {1, 2}. var i32 $x = $arr. var i32 $y = $arr[0]. }.").unwrap();
    assert_eq!(analyze(&p), Err("Cannot access array 'arr' because it might be fully consumed.".to_string()));
    let p = parse("func i32 #f = { $arr[0] = 1. }.").unwrap();
    assert_eq!(analyze(&p), Err("Cannot assign to dynamically scoped array 'arr' (Read-Only)".to_string()));
    let p = parse("func i32 #f(i32 $a) = { $f = $a. }.").unwrap();
    assert_eq!(analyze(&p), Ok(()));
    let p = parse("var i32 $x = 1. var i32 $y = $x. var i32 $z = $x.").unwrap();
    assert_eq!(analyze(&p), Ok(()));
}

#[test]
fn analyzer_exists_does_not_consume() {
    let p = parse("func i32 #f = { var i32 $a = 1. var i32 $b = $a?. var i32 $c = $a. $f = $b + $c. }.").unwrap();
    assert_eq!(analyze(&p), Ok(()));
    let p = parse("func i32 #f = { var i32 $a = 1. var i32 $c = $a. var i32 $b = $a?. }.").unwrap();
    assert_eq!(analyze(&p), Ok(()));
}

#[test]
fn codegen_exists_tests_liveness() {
    let p = parse("func i32 #f = { var i32 $a = 1. $f = $a? + $g? + $arr[0]?. }.").unwrap();
    let c = generate_c(&p);
    assert!(c.contains("((uint64_t)l_a)"));
    assert!(c.contains("dynamic_var_live(\"g\")"));
    assert!(c.contains(", 0))"));
    assert!(c.contains("uint64_t dynamic_var_live(const char* name) {"));
}

#[test]
fn analyzer_assignment_revives() {
    let p = parse("func i32 #f = { var i32 $x = 1. var i32 $y = $x. $x = 2. var i32 $z = $x. }.").unwrap();
    assert_eq!(analyze(&p), Ok(()));
}

#[test]
fn codegen_program() {
    let p = parse("func i32 #main = { $main = 2. }.").unwrap();
    let c = generate_c(&p);
    assert!(c.starts_with(RUNTIME));
    let rest = &c[RUNTIME.len()..];
    assert!(rest.starts_with("int32_t f_main(void);\n\n"));
    assert!(rest.contains("int32_t f_main(void) {\n"));
    assert!(rest.contains("(v_main = 0x2ULL, l_main = 1, v_main)"));
    assert!(rest.contains("    uint8_t l_main = 1;\n    ScopeNode sn_main = {\"main\", &v_main, &l_main, current_scope};\n"));
    assert!(rest.contains("    return v_main;\n}\n\n"));
    assert!(rest.ends_with("int main() {\n    int32_t ret = f_main();\n    return (int)ret;\n}\n"));
    match compile_to_c(&p) {
        Ok(code) => assert_eq!(code, c),
        Err(e) => panic!("unexpected {:?}", e),
    }
}

#[test]
fn codegen_expressions() {
    let p = parse("func u8 #f(u8 $a) = { $f = -1F + $a~ + $a? + $g. }.").unwrap();
    let c = generate_c(&p);
    assert!(c.contains("-0x1FULL"));
    assert!(c.contains("(~(l_a = 0, v_a))"));
    assert!(c.contains("((uint64_t)l_a)"));
    assert!(c.contains("get_dynamic_var(\"g\")"));
    assert!(c.contains("uint8_t f_f(uint8_t v_a);\n"));
}

#[test]
fn compile_refuses_what_the_analyzer_refuses() {
    let p = parse("func i32 #f = { var i32 $x = 1. var i32 $y = $x. var i32 $z = $x. }.").unwrap();
    match compile_to_c(&p) {
        Err(CompileError::AnalyzerError(m)) => assert_eq!(m, "Variable 'x' is used after being consumed."),
        Err(e) => panic!("unexpected {:?}", e),
        Ok(_) => panic!("accepted"),
    }
}

#[test]
fn collect_types_of_declarations() {
    let p = parse("var i8 $a. array u16*2 $b. func i32 #f(u8 $p) = { var u64 $q. }.").unwrap();
    let mut t = TypeTable::new();
    for s in &p {
        collect_types(s, &mut t);
    }
    assert_eq!(
        t.entries,
        vec![
            ("a".to_string(), Type::I8),
            ("b".to_string(), Type::U16),
            ("p".to_string(), Type::U8),
            ("q".to_string(), Type::U64),
        ]
    );
}

// ---------------------------------------------------------------------------
// Values, conversions and the interpreter's state.

#[test]
fn value_conversions() {
    assert!(matches!(Value::from_u64(257, Type::U8), Value::U8(1)));
    assert!(matches!(Value::from_u64(Value::I8(-1).as_u64(), Type::U8), Value::U8(255)));
    assert!(matches!(Value::from_u64(Value::U8(255).as_u64(), Type::I8), Value::I8(-1)));
    assert!(matches!(Value::from_u64(Value::I8(-5).as_u64(), Type::I32), Value::I32(-5)));
    assert!(matches!(Value::from_u64(Value::U16(0xFFFF).as_u64(), Type::U64), Value::U64(0xFFFF)));
    assert_eq!(Value::I16(-2).as_u64(), u64::MAX - 1);
    assert_eq!(Value::U32(7).as_i64(), 7);
    assert_eq!(Value::I8(-3).as_i64(), -3);
    assert_eq!(Value::U64(u64::MAX).as_i64(), -1);
    assert!(Value::is_signed(Type::I16));
    assert!(!Value::is_signed(Type::U64));
    assert_eq!(Value::bit_width(Type::U16), 16);
    assert_eq!(Value::bit_width(Type::I64), 64);
    assert_eq!(Value::U32(1).get_type(), Type::U32);
    assert!(matches!(Value::default_val(Type::I32), Value::I32(0)));
}

#[test]
fn conversion_warnings() {
    assert_eq!(check_implicit_conversion_warning(Type::U8, Type::U16), vec![]);
    assert_eq!(check_implicit_conversion_warning(Type::I8, Type::I8), vec![]);
    assert_eq!(check_implicit_conversion_warning(Type::I8, Type::U8), vec![ConversionWarning::SignMismatch(Type::I8, Type::U8)]);
    assert_eq!(check_implicit_conversion_warning(Type::U16, Type::U8), vec![ConversionWarning::Narrowing(Type::U16, Type::U8)]);
    assert_eq!(
        check_implicit_conversion_warning(Type::I64, Type::U32),
        vec![ConversionWarning::SignMismatch(Type::I64, Type::U32), ConversionWarning::Narrowing(Type::I64, Type::U32)]
    );
    assert_eq!(check_implicit_conversion_warning(Type::U8, Type::I16), vec![ConversionWarning::SignMismatch(Type::U8, Type::I16)]);
}

#[test]
fn eval_statement_declares_in_the_current_scope() {
    let p = parse("var i32 $x = 5. var u8 $y. var i32 $z = $x.").unwrap();
    let mut interp = Interpreter::new();
    for s in &p {
        assert!(interp.eval_statement(s).is_ok());
    }
    let scope = &interp.frames[0].scopes[0];
    assert_eq!(scope.len(), 3);
    assert_eq!(scope[0].0, "x");
    assert!(!scope[0].1.is_alive);
    assert!(matches!(scope[0].1.val, Value::I32(5)));
    assert!(scope[1].1.is_alive);
    assert!(matches!(scope[1].1.val, Value::U8(0)));
    assert!(matches!(scope[2].1.val, Value::I32(5)));
}

#[test]
fn eval_statement_reports_consumption() {
    let p = parse("var i32 $x = 5. var i32 $y = $x. var i32 $z = $x.").unwrap();
    let mut interp = Interpreter::new();
    assert!(interp.eval_statement(&p[0]).is_ok());
    assert!(interp.eval_statement(&p[1]).is_ok());
    match interp.eval_statement(&p[2]) {
        Err(EvalError::ConsumedVariable(n)) => assert_eq!(n, "x"),
        other => panic!("unexpected {:?}", other),
    }
}

#[test]
fn call_leaves_only_the_global_frame() {
    let p = parse("
        func i32 #f(i32 $a) = { var i32 $inner = $a. $f = $inner. }.
        func i32 #main = { var i32 $r = #f(3). $main = $r. }.
    ").unwrap();
    let mut interp = Interpreter::new();
    assert!(matches!(interp.run_program(&p), Ok(3)));
    assert_eq!(interp.frames.len(), 1);
    assert_eq!(interp.frames[0].scopes.len(), 1);
    assert!(interp.frames[0].scopes[0].is_empty());
    assert_eq!(interp.functions.len(), 2);
}

#[test]
fn loop_leaves_its_declarations() {
    let p = parse("
        var i32 $n = 0.
        try { loop { var i32 $tmp = 1. throw 3 @ $tmp. }. } catch 3 { var i32 $c = 2. }.
    ").unwrap();
    let mut interp = Interpreter::new();
    for s in &p {
        assert!(interp.eval_statement(s).is_ok());
    }
    assert_eq!(interp.frames[0].scopes.len(), 1);
    assert_eq!(interp.frames[0].scopes[0].len(), 1);
    assert_eq!(interp.frames[0].scopes[0][0].0, "n");
}

#[test]
fn out_of_fuel_stops_an_endless_loop() {
    let p = parse("func i32 #main = { loop { var i32 $x = 1. }. }.").unwrap();
    let mut interp = Interpreter::new();
    assert!(matches!(interp.run_program_with_fuel(&p, 1000), Err(EvalError::OutOfFuel)));
}

#[test]
fn a_budget_that_suffices_gives_the_full_result() {
    let p = parse("
        func i32 #twice(i32 $v) = { $twice = $v << 1. }.
        func i32 #main = { var i32 $r = #twice(F). $main = $r. }.
    ").unwrap();
    let mut a = Interpreter::new();
    let mut b = Interpreter::new();
    assert!(matches!(a.run_program_with_fuel(&p, 64), Ok(30)));
    assert!(matches!(b.run_program(&p), Ok(30)));
    let mut c = Interpreter::new();
    assert!(matches!(c.run_program_with_fuel(&p, 2), Err(EvalError::OutOfFuel)));
}

#[test]
fn name_sets() {
    let mut a = NameSet::new();
    a.insert("x".to_string());
    a.insert("y".to_string());
    a.insert("x".to_string());
    assert!(a.contains(&"x".to_string()));
    assert!(!a.contains(&"z".to_string()));
    let b = a.copy();
    a.remove(&"x".to_string());
    assert!(!a.contains(&"x".to_string()));
    assert!(b.contains(&"x".to_string()));
    let mut c = NameSet::new();
    c.insert("z".to_string());
    c.extend(&b);
    assert!(c.contains(&"x".to_string()) && c.contains(&"y".to_string()) && c.contains(&"z".to_string()));
}

#[test]
fn type_table_gives_the_latest_entry() {
    let mut t = TypeTable::new();
    t.insert("a".to_string(), Type::I8);
    t.insert("a".to_string(), Type::U64);
    assert_eq!(t.get(&"a".to_string()), Some(Type::U64));
    assert_eq!(t.get(&"b".to_string()), None);
}

#[test]
fn token_kinds_and_copies() {
    assert_eq!(Token::Variable("v".to_string()).kind(), TokenKind::Variable);
    assert_eq!(Token::HexLiteral(3, true).kind(), TokenKind::HexLiteral);
    assert_eq!(Token::RBracket.kind(), TokenKind::RBracket);
    let t = Token::Function("f".to_string());
    assert_eq!(copy_token(&t), t);
    assert_eq!(copy_token(&Token::Type(Type::U16)), Token::Type(Type::U16));
}

#[test]
fn error_messages() {
    assert_eq!(LexerError::InvalidCharacter('%', 3).message(), "Invalid character '%' at line 3");
    assert_eq!(LexerError::UnterminatedComment(12).message(), "Unterminated comment at line 12");
    assert_eq!(LexerError::InvalidIdentifier("if".to_string(), 1).message(), "Invalid identifier 'if' at line 1");
    assert_eq!(LexerError::InvalidHexLiteral("1a".to_string(), 2).message(), "Invalid hex literal '1a' at line 2");
    assert_eq!(
        ParseError::UnexpectedToken { expected: "Dot".to_string(), found: Some(Token::LessThan) }.message(),
        "Unexpected token: expected Dot, found Some(LessThan)"
    );
    assert_eq!(
        ParseError::UnexpectedToken { expected: "Type".to_string(), found: None }.message(),
        "Unexpected token: expected Type, found None"
    );
    assert_eq!(ParseError::UnexpectedEndOfInput.message(), "Unexpected end of input");
    assert_eq!(ParseError::InvalidAssignmentTarget.message(), "Invalid assignment target");
    assert_eq!(ParseError::SyntaxError("x".to_string()).message(), "Syntax error: x");
    assert_eq!(CompileError::AnalyzerError("m".to_string()).message(), "Analyzer error: m");
    assert_eq!(CompileError::GccError("gcc compilation failed".to_string()).message(), "C compiler error: gcc compilation failed");
    let io = CompileError::IoError(std::io::Error::new(std::io::ErrorKind::Other, "disk full"));
    assert_eq!(io.message(), "IO error: disk full");
}

#[test]
fn token_texts_in_messages() {
    // The text of each token agrees with what `{:?}` writes for it.
    let tokens = vec![
        Token::Type(Type::I32),
        Token::Variable("a_1".to_string()),
        Token::Function("main".to_string()),
        Token::HexLiteral(255, true),
        Token::HexLiteral(0, false),
        Token::Variable("q\"b\\c\n".to_string()),
        Token::LBracket,
        Token::Asterisk,
    ];
    for t in tokens {
        let e = ParseError::UnexpectedToken { expected: "Dot".to_string(), found: Some(copy_token(&t)) };
        assert_eq!(e.message(), format!("Unexpected token: expected Dot, found Some({:?})", t));
    }
    assert_eq!(
        ParseError::UnexpectedToken { expected: "Dot".to_string(), found: Some(Token::HexLiteral(255, true)) }.message(),
        "Unexpected token: expected Dot, found Some(HexLiteral(255, true))"
    );
    assert_eq!(
        ParseError::UnexpectedToken { expected: "Dot".to_string(), found: Some(Token::Type(Type::U64)) }.message(),
        "Unexpected token: expected Dot, found Some(Type(U64))"
    );
}

#[test]
fn comment_groups_give_no_token() {
    assert_eq!(Lexer::new("var i32 $a.\n(oops").tokenize(), Err(LexerError::UnterminatedComment(2)));
    assert_eq!(Lexer::new("(a (b) c)$x").tokenize(), Ok(vec![Token::Variable("x".to_string())]));
    assert_eq!(
        Lexer::new("$y (x) $z").tokenize(),
        Ok(vec![Token::Variable("y".to_string()), Token::Variable("z".to_string())])
    );
}

#[test]
fn keywords_one_by_one() {
    let mut lx = Lexer::new("u8*D");
    assert_eq!(lx.lex_keyword(), Ok(Some(Token::Type(Type::U8))));
    let mut lx = Lexer::new("throw");
    assert_eq!(lx.lex_keyword(), Ok(Some(Token::Throw)));
    let mut lx = Lexer::new("if");
    assert_eq!(lx.lex_keyword(), Err(LexerError::InvalidIdentifier("if".to_string(), 1)));
}

fn two_frames() -> Interpreter<'static> {
    let p: &'static Vec<Statement> = Box::leak(Box::new(
        parse("var i32 $a = 7. array i32*2 $arr = {1, 2}.").unwrap(),
    ));
    let mut interp = Interpreter::new();
    for s in p.iter() {
        assert!(interp.eval_statement(s).is_ok());
    }
    interp.frames.push(f_lang::interpreter::Frame { scopes: vec![vec![]] });
    interp
}

#[test]
fn outer_variables_are_read_only() {
    let mut it = two_frames();
    assert!(matches!(it.eval_expression(&var("a"), 100), Ok(Value::I32(7))));
    assert!(matches!(it.eval_expression(&var("a"), 100), Ok(Value::I32(7))));
    let elem = Expression::ArrayElement("arr".to_string(), Box::new(hex(1)));
    assert!(matches!(it.eval_expression(&elem, 100), Ok(Value::I32(2))));
    assert!(matches!(it.eval_expression(&elem, 100), Ok(Value::I32(2))));
    assert!(it.frames[0].scopes[0][0].1.is_alive);
    match it.eval_assignment(&var("a"), &hex(1), 100) {
        Err(EvalError::UndefinedVariable(m)) => assert_eq!(m, "a is read-only"),
        other => panic!("unexpected {:?}", other),
    }
    match it.eval_assignment(&elem, &hex(1), 100) {
        Err(EvalError::UndefinedVariable(m)) => assert_eq!(m, "arr is read-only"),
        other => panic!("unexpected {:?}", other),
    }
    match it.eval_assignment(&var("zz"), &hex(1), 100) {
        Err(EvalError::UndefinedVariable(m)) => assert_eq!(m, "zz"),
        other => panic!("unexpected {:?}", other),
    }
    let nope = Expression::ArrayElement("nope".to_string(), Box::new(hex(3)));
    match it.eval_assignment(&nope, &hex(1), 100) {
        Err(EvalError::UndefinedVariable(m)) => assert_eq!(m, "nope[3]"),
        other => panic!("unexpected {:?}", other),
    }
    assert!(matches!(it.lookup_variable(&"a".to_string()), Ok((0, 0, 0))));
    assert!(matches!(it.lookup_variable(&"b".to_string()), Err(EvalError::UndefinedVariable(_))));
    assert_eq!(it.frames.len(), 2);
}

#[test]
fn reading_a_whole_array_gives_its_elements() {
    let mut it = two_frames();
    match it.eval_expression(&var("arr"), 100) {
        Ok(Value::Array(Type::I32, elems)) => {
            assert_eq!(elems.len(), 2);
            assert!(matches!(elems[0], Some(Value::I32(1))));
            assert!(matches!(elems[1], Some(Value::I32(2))));
        },
        other => panic!("unexpected {:?}", other),
    }
    // In the caller's frame the array is read only: a second read gives it again.
    assert!(matches!(it.eval_expression(&var("arr"), 100), Ok(Value::Array(Type::I32, _))));
    assert!(it.frames[0].scopes[0][1].1.is_alive);
    // In its own frame, a read consumes the array, and the consumed
    // elements read as `None`.
    it.frames.pop();
    let elem = Expression::ArrayElement("arr".to_string(), Box::new(hex(0)));
    assert!(matches!(it.eval_expression(&elem, 100), Ok(Value::I32(1))));
    match it.eval_expression(&var("arr"), 100) {
        Ok(Value::Array(Type::I32, elems)) => {
            assert!(elems[0].is_none());
            assert!(matches!(elems[1], Some(Value::I32(2))));
        },
        other => panic!("unexpected {:?}", other),
    }
    assert!(matches!(it.eval_expression(&var("arr"), 100), Err(EvalError::ConsumedVariable(_))));
}

#[test]
fn a_function_returns_an_array_result() {
    let p: &'static Vec<Statement> = Box::leak(Box::new(
        parse("func i32 #f = { array u8*2 $f = {7, 9}. }.").unwrap(),
    ));
    let mut it = Interpreter::new();
    match it.eval_function_call(&p[0], &vec![], 100) {
        Ok(Value::Array(Type::U8, elems)) => {
            assert!(matches!(elems[0], Some(Value::U8(7))));
            assert!(matches!(elems[1], Some(Value::U8(9))));
        },
        other => panic!("unexpected {:?}", other),
    }
}

#[test]
fn calling_a_non_function() {
    let s: &'static Statement = Box::leak(Box::new(assign(var("a"), hex(1))));
    let mut it = Interpreter::new();
    match it.eval_function_call(s, &vec![], 10) {
        Err(EvalError::UndefinedVariable(m)) => assert_eq!(m, "Not a function"),
        other => panic!("unexpected {:?}", other),
    }
    assert_eq!(it.frames.len(), 1);
}
