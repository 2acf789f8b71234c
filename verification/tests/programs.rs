use f_lang::ast::Program;
use f_lang::compiler::analyzer::analyze;
use f_lang::compiler::compile_to_c;
use f_lang::interpreter::{ConversionWarning, EvalError, Interpreter};
use f_lang::ast::Type;
use f_lang::lexer::Lexer;
use f_lang::parser::Parser;

fn parse(src: &str) -> Program {
    let mut lexer = Lexer::new(src);
    let tokens = lexer.tokenize().expect("lexes");
    let mut parser = Parser::new(tokens);
    parser.parse_program().expect("parses")
}

struct Run {
    result: Result<i32, EvalError>,
    output: Vec<u8>,
    warnings: Vec<ConversionWarning>,
}

fn run_with_input(program: &Program, input: &[u8]) -> Run {
    let mut interp = Interpreter::with_input(input.to_vec());
    let result = interp.run_program(program);
    Run { result, output: interp.output().clone(), warnings: interp.warnings().clone() }
}

fn run(program: &Program) -> Run {
    run_with_input(program, b"")
}

/// The checks that both the interpreter and the compiler make: the
/// analyzer accepts the program, and it compiles to C.
fn accepted(program: &Program) -> bool {
    analyze(program).is_ok() && compile_to_c(program).is_ok()
}

const HELLO: &str = "
(Store character codes in a global array)
array u8*D $hello = {48, 65, 6C, 6C, 6F, 2C, 20, 57, 6F, 72, 6C, 64, A}.

(Helper function to copy variables)
func i32 #copy_i = {
    $copy_i = $i. (Reference the caller's $i. External scope, so it is not consumed)
}.

(Main processing function)
func i32 #main = {
    var i32 $i = 0.
    try {
        loop {
            var i32 $i_for_check = #copy_i.
            var i32 $i_for_array = #copy_i.
            throw 1 @ $i_for_check = D.
            var i32 $next_i = $i + 1.
            var u8 $char = $hello[$i_for_array].
            var i32 $unused = #_putc($char).
            $i = $next_i.
        }.
    } catch 1 {
        (Normal exit)
    }.
}.
";

#[test]
fn test_hello_world() {
    let p = parse(HELLO);
    assert!(accepted(&p));
    let r = run(&p);
    assert!(matches!(r.result, Ok(0)));
    assert_eq!(String::from_utf8_lossy(&r.output), "Hello, World\n");
}

#[test]
fn test_hello_world_with_top_level_call() {
    // The documented program calls `#main` from its top level, so `#main`
    // is not run a second time: the text is written once.
    let src = format!("{}\nvar i32 $exit_code = #main.\n", HELLO);
    let p = parse(&src);
    assert!(accepted(&p));
    let r = run(&p);
    assert!(matches!(r.result, Ok(0)));
    assert_eq!(String::from_utf8_lossy(&r.output), "Hello, World\n");
    let c = compile_to_c(&p).unwrap();
    assert!(c.ends_with("    return 0;\n}\n"));
    assert!(!c.contains("int32_t ret = f_main();"));
}

#[test]
fn test_c_main_calls_main_without_top_level_call() {
    let c = compile_to_c(&parse(HELLO)).unwrap();
    assert!(c.ends_with("    int32_t ret = f_main();\n    return (int)ret;\n}\n"));
}

const MULTIPLY: &str = "
(Helper functions for copying variables)
func i32 #copy_a = { $copy_a = $a. }.
func i32 #copy_b = { $copy_b = $b. }.

func i32 #multiply(i32 $a, i32 $b) = {
    var i32 $result = 0.
    try {
        loop {
            ( Copy $b and check the termination condition )
            var i32 $b_check = #copy_b.
            throw 1 @ $b_check = 0.

            ( Copy $a and $b respectively )
            var i32 $a_copy = #copy_a.
            var i32 $b_copy = #copy_b.

            var i32 $next_a = $a. (The copy source is consumed here)
            $result = $result + $a_copy. (Add to the result)
            var i32 $a = $next_a. (Restore the original variable)

            var i32 $next_b = $b - 1. (Subtraction. The original $b is consumed here)
            $b = $next_b. (Restore the original variable)
        }.
    } catch 1 {
        ( Come here when $b becomes 0. At this time, $a is alive but $b is consumed )
        var i32 $unused = $a. (Discard the remaining $a)
    }.
    $multiply = $result.
}.
";

#[test]
fn test_documented_multiplication() {
    let src = format!("{}
func i32 #main = {{
    var i32 $x = 3.
    var i32 $y = 5.
    var i32 $ans = #multiply($x, $y). ( 3 * 5 = 15 )
}}.
", MULTIPLY);
    let p = parse(&src);
    assert!(accepted(&p));
    assert!(matches!(run(&p).result, Ok(0)));
}

#[test]
fn test_multiplication_gives_15() {
    let src = format!("{}
func i32 #main = {{
    var i32 $x = 3.
    var i32 $y = 5.
    var i32 $ans = #multiply($x, $y).
    $main = $ans.
}}.
", MULTIPLY);
    let p = parse(&src);
    assert!(matches!(run(&p).result, Ok(15)));
}

#[test]
fn test_redefinition_in_c_sets_the_variable() {
    let p = parse("
        func i32 #main = {
            var i32 $x = 1.
            var i32 $y = $x.
            var i32 $x = 2.
            $main = $x.
        }.
    ");
    let c = compile_to_c(&p).unwrap();
    assert_eq!(c.matches("int32_t v_x = ").count(), 1);
    assert!(c.contains("\n    v_x = 0x2ULL;\n    l_x = 1;\n"));
}

#[test]
fn test_redefinition_keeps_the_binding() {
    // A `var` on a name that the function already binds defines it anew
    // where it stands; a new name declared in a loop vanishes with it.
    let p = parse("
        func i32 #main = {
            var i32 $x = 1.
            var i32 $y = $x.
            try {
                loop {
                    var i32 $x = 5.
                    var i32 $tmp = 1.
                    throw 1 @ 1.
                }.
            } catch 1 {}.
            $main = $x.
        }.
    ");
    assert!(matches!(run(&p).result, Ok(5)));
    let q = parse("
        func i32 #main = {
            try {
                loop {
                    var i32 $tmp = 1.
                    throw 1 @ 1.
                }.
            } catch 1 {}.
            $main = $tmp.
        }.
    ");
    assert!(matches!(run(&q).result, Err(EvalError::UndefinedVariable(_))));
}

#[test]
fn test_arithmetic() {
    let p = parse("
        func i32 #main = {
            var i32 $a = A.
            var i32 $b = 3.
            var i32 $c = $a + $b.
            var i32 $d = $c - 5.
            $main = $d.
        }.
    ");
    assert!(accepted(&p));
    assert!(matches!(run(&p).result, Ok(8)));
}

#[test]
fn test_self_assign() {
    let p = parse("
        func i32 #main = {
            var i32 $count = 0.
            $count = $count + 1.
            $count = $count + 1.
            $main = $count.
        }.
    ");
    assert!(accepted(&p));
    assert!(matches!(run(&p).result, Ok(2)));
}

#[test]
fn test_self_assign_twice_on_the_right_fails() {
    let p = parse("
        func i32 #main = {
            var i32 $x = 1.
            $x = $x + $x.
        }.
    ");
    assert!(analyze(&p).is_err());
    match run(&p).result {
        Err(EvalError::ConsumedVariable(n)) => assert_eq!(n, "x"),
        other => panic!("unexpected {:?}", other),
    }
}

#[test]
fn test_dynamic_scope() {
    let p = parse("
        func i32 #copy_a = {
            $copy_a = $a. (References $a in the external scope, so it is not consumed)
        }.
        func i32 #main = {
            var i32 $a = A.
            var i32 $b = #copy_a.
            var i32 $c = $a.
            $main = $b + $c.
        }.
    ");
    assert!(accepted(&p));
    assert!(matches!(run(&p).result, Ok(0x14)));
}

#[test]
fn test_try_catch() {
    let p = parse("
        func i32 #main = {
            var i32 $a = 5.
            var i32 $r = 0.
            try {
                throw 1 @ $a > 0.
                $r = 2.
            } catch 1 {
                $r = 1.
            }.
            $main = $r.
        }.
    ");
    assert!(accepted(&p));
    assert!(matches!(run(&p).result, Ok(1)));
}

#[test]
fn test_throw_not_taken() {
    let p = parse("
        func i32 #main = {
            var i32 $a = 0.
            var i32 $r = 0.
            try {
                throw 1 @ $a > 0.
                $r = 2.
            } catch 1 {
                $r = 1.
            }.
            $main = $r.
        }.
    ");
    assert!(matches!(run(&p).result, Ok(2)));
}

#[test]
fn test_uncaught_exception() {
    let p = parse("
        func i32 #main = {
            try {
                throw 7 @ 1.
            } catch 1 {
            }.
        }.
    ");
    assert!(accepted(&p));
    assert!(matches!(run(&p).result, Err(EvalError::Exception(7))));
}

#[test]
fn test_array() {
    let p = parse("
        func i32 #main = {
            array i32*3 $arr = {1, 2, 3}.
            var i32 $x = $arr[0].
            var i32 $y = $arr[2].
            $main = $x + $y.
        }.
    ");
    assert!(accepted(&p));
    assert!(matches!(run(&p).result, Ok(4)));
}

#[test]
fn test_consume_err() {
    let p = parse("
        func i32 #main = {
            var i32 $x = 5.
            var i32 $y = $x. (The value of $x is read on this line, so $x is consumed)
            var i32 $z = $x. (Error! $x is already invalid)
        }.
    ");
    assert_eq!(analyze(&p), Err("Variable 'x' is used after being consumed.".to_string()));
    match run(&p).result {
        Err(EvalError::ConsumedVariable(n)) => assert_eq!(n, "x"),
        other => panic!("unexpected {:?}", other),
    }
}

#[test]
fn test_readonly_err() {
    let p = parse("
        func i32 #set_a = {
            $a = 1.
            $set_a = 0.
        }.
        func i32 #main = {
            var i32 $a = 5.
            var i32 $r = #set_a.
        }.
    ");
    assert_eq!(
        analyze(&p),
        Err("Cannot assign to dynamically scoped variable 'a' (Read-Only)".to_string())
    );
    match run(&p).result {
        Err(EvalError::UndefinedVariable(n)) => assert_eq!(n, "a is read-only"),
        other => panic!("unexpected {:?}", other),
    }
}

#[test]
fn test_loop() {
    let p = parse("
        func i32 #copy_i = {
            $copy_i = $i.
        }.
        func i32 #main = {
            var i32 $i = 0.
            try {
                loop {
                    var i32 $i_check = #copy_i.
                    throw 9 @ $i_check = 5. ( When $i_check becomes 5, throw exception 9 and break out of the loop )
                    var i32 $next = $i + 1.
                    $i = $next.
                }.
            } catch 9 {
            }.
            $main = $i.
        }.
    ");
    assert!(accepted(&p));
    assert!(matches!(run(&p).result, Ok(5)));
}

#[test]
fn test_logical() {
    let p = parse("
        func i32 #main = {
            var i32 $a = C.
            var i32 $b = A.
            var i32 $c = $a & $b.
            var i32 $d = $c | 1.
            var i32 $e = $d~.
            var i32 $f = $e + B.
            $main = $f.
        }.
    ");
    assert!(accepted(&p));
    assert!(matches!(run(&p).result, Ok(1)));
}

#[test]
fn test_fibonacci() {
    let p = parse("
        func i32 #copy_n = { $copy_n = $n. }.
        func i32 #copy_b = { $copy_b = $b. }.
        func i32 #fib(i32 $n) = {
            var i32 $a = 0.
            var i32 $b = 1.
            try {
                loop {
                    var i32 $check = #copy_n.
                    throw 1 @ $check = 0.
                    var i32 $b_copy = #copy_b.
                    var i32 $sum = $a + $b.
                    $a = $b_copy.
                    $b = $sum.
                    $n = $n - 1.
                }.
            } catch 1 {
            }.
            $fib = $a.
        }.
        func i32 #main = {
            var i32 $r = #fib(A).
            $main = $r.
        }.
    ");
    assert!(accepted(&p));
    assert!(matches!(run(&p).result, Ok(55)));
}

#[test]
fn test_operations() {
    let p = parse("
        func i32 #main = {
            var i32 $a = 1.
            var i32 $b = $a << 4.
            var i32 $c = $b >> 2.
            var i32 $d = -8.
            var i32 $e = $d >> 1.
            var i32 $lt = 4 < 5.
            var i32 $n = -1.
            var i32 $gt = $n > 0.
            $main = $c + $e + $lt + $gt.
        }.
    ");
    assert!(accepted(&p));
    assert!(matches!(run(&p).result, Ok(1)));
}

#[test]
fn test_unsigned_shift_is_logical() {
    let p = parse("
        func i32 #main = {
            var u8 $a = F0.
            var u8 $b = $a >> 4.
            $main = $b.
        }.
    ");
    assert!(matches!(run(&p).result, Ok(0xF)));
}

#[test]
fn test_precedence_follows_the_reference() {
    // `&` binds tighter than `|`, and shifts tighter than `&`.
    let p = parse("
        func i32 #main = {
            var i32 $x = 6 & 3 | 1.
            var i32 $y = 1 << 2 & 4.
            var i32 $z = 1 + 2 << 1.
            $main = $x + $y + $z.
        }.
    ");
    assert!(matches!(run(&p).result, Ok(12)));
}

#[test]
fn test_types() {
    let p = parse("
        func i32 #main = {
            var u8 $a = 5.
            var u16 $b = $a. (No warning)
            var i8 $c = -1.
            var u8 $d = $c. (Warning: Sign mismatch. Stored as 255 in $d)
            var u16 $e = 101.
            var u8 $f = $e. (Warning: Narrowing conversion)
            $main = $d + $f.
        }.
    ");
    assert!(accepted(&p));
    let r = run(&p);
    assert!(matches!(r.result, Ok(256)));
    assert_eq!(
        r.warnings,
        vec![
            ConversionWarning::SignMismatch(Type::I8, Type::U8),
            ConversionWarning::Narrowing(Type::U16, Type::U8),
            ConversionWarning::Narrowing(Type::I64, Type::I32),
        ]
    );
}

#[test]
fn test_default_init() {
    let p = parse("
        func i32 #main = {
            var u8 $flag. (Initial value omitted, automatically initialized to 0)
            var i32 $count.
            $main = $flag + $count + 7.
        }.
    ");
    assert!(accepted(&p));
    assert!(matches!(run(&p).result, Ok(7)));
}

#[test]
fn test_array_consume() {
    let p = parse("
        func i32 #main = {
            array i32*3 $arr = {A, B, C}.
            var i32 $val = $arr[1]. (Here $arr[1] is consumed)
            var i32 $val2 = $arr[2]. (Valid! $arr[2] has not been consumed)
            $main = $val + $val2.
        }.
    ");
    assert!(accepted(&p));
    assert!(matches!(run(&p).result, Ok(23)));
}

#[test]
fn test_array_consume_err() {
    let p = parse("
        func i32 #main = {
            array i32*3 $arr = {A, B, C}.
            var i32 $val = $arr[1].
            $arr[1] = 5. (Error! Re-assignment to a consumed slot is impossible)
        }.
    ");
    match run(&p).result {
        Err(EvalError::ConsumedVariable(n)) => assert_eq!(n, "arr[1]"),
        other => panic!("unexpected {:?}", other),
    }
}

#[test]
fn test_array_element_read_twice_fails() {
    let p = parse("
        func i32 #main = {
            array i32*3 $arr = {A, B, C}.
            var i32 $v = $arr[0].
            var i32 $w = $arr[0].
        }.
    ");
    match run(&p).result {
        Err(EvalError::ConsumedVariable(n)) => assert_eq!(n, "arr[0]"),
        other => panic!("unexpected {:?}", other),
    }
}

#[test]
fn test_outer_array_not_consumed() {
    let p = parse("
        array i32*3 $global_arr = {1, 2, 3}.
        func i32 #read_global = {
            var i32 $val = $global_arr[0]. (Since it's an external array, it is not consumed)
            $read_global = $val.
        }.
        func i32 #main = {
            var i32 $a = #read_global.
            var i32 $b = #read_global.
            $main = $a + $b.
        }.
    ");
    assert!(accepted(&p));
    assert!(matches!(run(&p).result, Ok(2)));
}

#[test]
fn test_array_sized_by_variable() {
    let p = parse("
        func i32 #main = {
            var i32 $size = 5.
            array i32*$size $my_array. (Here $size is consumed)
            var i32 $e = $my_array[4].
            $main = $e + $size?.
        }.
    ");
    assert!(matches!(run(&p).result, Ok(0)));
}

#[test]
fn test_array_index_out_of_range() {
    let p = parse("
        func i32 #main = {
            array i32*2 $arr = {1, 2}.
            var i32 $v = $arr[2].
        }.
    ");
    match run(&p).result {
        Err(EvalError::UndefinedVariable(n)) => assert_eq!(n, "arr[2]"),
        other => panic!("unexpected {:?}", other),
    }
}

#[test]
fn test_block_scope() {
    let p = parse("
        func i32 #main = {
            try {
                var i32 $x = 1.
                throw 1 @ 1.
            } catch 1 {
            }.
            $main = $x.
        }.
    ");
    match run(&p).result {
        Err(EvalError::UndefinedVariable(n)) => assert_eq!(n, "x"),
        other => panic!("unexpected {:?}", other),
    }
}

#[test]
fn test_redefinition_with_var() {
    let p = parse("
        func i32 #main = {
            var i32 $x = 1.
            var i32 $y = $x. (Here $x is consumed)
            var i32 $x = 2.  (Valid since it is a redefinition using var)
            $main = $x + $y.
        }.
    ");
    assert!(accepted(&p));
    assert!(matches!(run(&p).result, Ok(3)));
}

#[test]
fn test_argument_is_consumed() {
    let p = parse("
        func i32 #double(i32 $val) = {
            $double = $val << 1.
        }.
        func i32 #main = {
            var i32 $my_num = 5.
            var i32 $res = #double($my_num). (Here $my_num is consumed!)
            var i32 $err = $my_num.
        }.
    ");
    assert!(analyze(&p).is_err());
    match run(&p).result {
        Err(EvalError::ConsumedVariable(n)) => assert_eq!(n, "my_num"),
        other => panic!("unexpected {:?}", other),
    }
}

#[test]
fn test_function_return_value() {
    let p = parse("
        func i32 #double(i32 $val) = {
            $double = $val << 1.
        }.
        func i32 #main = {
            var i32 $my_num = 5.
            var i32 $res = #double($my_num).
            $main = $res.
        }.
    ");
    assert!(accepted(&p));
    assert!(matches!(run(&p).result, Ok(10)));
}

#[test]
fn test_exists_does_not_consume() {
    let p = parse("
        func i32 #main = {
            var i32 $a = 3.
            var i32 $before = $a?.
            var i32 $v = $a.
            var i32 $after = $a?.
            $main = $before + $v + $after.
        }.
    ");
    assert!(accepted(&p));
    assert!(matches!(run(&p).result, Ok(4)));
}

#[test]
fn test_leftmost_equal_assigns() {
    let p = parse("
        func i32 #main = {
            var i32 $a = 0.
            var i32 $b = 3.
            $a = $b = 3.
            $main = $a + $b?.
        }.
    ");
    assert!(accepted(&p));
    assert!(matches!(run(&p).result, Ok(1)));
}

#[test]
fn test_echo_line() {
    let p = parse("
        (Helper function to copy variables)
        func u8 #copy_char = { $copy_char = $char. }.

        func i32 #echo_line = {
            try {
                loop {
                    ( Input 1 character. Terminate on exception FFFF0001 (EOF/Error) )
                    var u8 $char = #_getc.
                    var u8 $char_copy = #copy_char.
                    throw 2 @ $char_copy = A.
                    var i32 $unused = #_putc($char).
                }.
            } catch FFFF0001 {
                ( Processing on EOF or input error )
            } catch 2 {
                var i32 $unused = #_putc(A).
            }.
            $echo_line = 0.
        }.

        func i32 #main = {
            var i32 $r = #echo_line.
            $main = $r.
        }.
    ");
    assert!(accepted(&p));
    let r = run_with_input(&p, b"hi\nrest");
    assert!(matches!(r.result, Ok(0)));
    assert_eq!(r.output, b"hi\n".to_vec());
    let r2 = run_with_input(&p, b"ab");
    assert!(matches!(r2.result, Ok(0)));
    assert_eq!(r2.output, b"ab".to_vec());
}

#[test]
fn test_no_main_exits_zero() {
    let p = parse("var i32 $x = 5.");
    assert!(matches!(run(&p).result, Ok(0)));
}

#[test]
fn test_exit_code_is_low_bits() {
    let p = parse("
        func u64 #main = {
            $main = 100000002.
        }.
    ");
    assert!(matches!(run(&p).result, Ok(2)));
}

#[test]
fn test_undefined_function() {
    let p = parse("
        func i32 #main = {
            var i32 $r = #missing.
        }.
    ");
    match run(&p).result {
        Err(EvalError::UndefinedVariable(n)) => assert_eq!(n, "missing"),
        other => panic!("unexpected {:?}", other),
    }
}

#[test]
fn test_short_call_is_refused() {
    let p = parse("
        func i32 #f(i32 $a) = { $f = $a. }.
        func i32 #main = { var i32 $r = #f. }.
    ");
    match run(&p).result {
        Err(EvalError::NotImplemented(n)) => assert_eq!(n, "f"),
        other => panic!("unexpected {:?}", other),
    }
    let q = parse("
        func i32 #main = { var i32 $r = #_putc. }.
    ");
    match run(&q).result {
        Err(EvalError::NotImplemented(n)) => assert_eq!(n, "_putc"),
        other => panic!("unexpected {:?}", other),
    }
}

#[test]
fn test_index_into_a_scalar() {
    let p = parse("
        func i32 #main = {
            var i32 $x = 1.
            var i32 $y = $x[0].
        }.
    ");
    assert!(matches!(run(&p).result, Err(EvalError::TypeMismatch)));
}

#[test]
fn test_assignment_revives() {
    let p = parse("
        func i32 #main = {
            var i32 $x = 1.
            var i32 $y = $x.
            $x = 5.
            $main = $x + $y.
        }.
    ");
    assert!(accepted(&p));
    assert!(matches!(run(&p).result, Ok(6)));
}

#[test]
fn test_bitwise_not_consumes() {
    let p = parse("
        func i32 #main = {
            var i32 $x = 9.
            var i32 $y = $x~.
            var i32 $z = $x.
        }.
    ");
    match run(&p).result {
        Err(EvalError::ConsumedVariable(n)) => assert_eq!(n, "x"),
        other => panic!("unexpected {:?}", other),
    }
}

#[test]
fn test_result_variable_starts_at_zero() {
    let p = parse("
        func u8 #nothing = {
            var i32 $unused = 1.
        }.
        func i32 #main = {
            var i32 $r = #nothing.
            $main = $r + 4.
        }.
    ");
    assert!(accepted(&p));
    assert!(matches!(run(&p).result, Ok(4)));
}

#[test]
fn test_negative_hex_literal() {
    let p = parse("
        func i32 #main = {
            var i32 $a = -1A.
            $main = $a + 2A.
        }.
    ");
    assert!(matches!(run(&p).result, Ok(16)));
}
