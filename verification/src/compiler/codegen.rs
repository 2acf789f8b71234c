//! The generation of C from a program: the text that `generate_c` writes is
//! stated as spec functions over the program, and the code is proved to
//! write it.
use vstd::prelude::*;
use crate::ast::{Type, Expression, UnaryOperator, BinaryOperator, Statement, ArraySize, CatchClause, Program, stmts_call};
use crate::names::NameSet;
use crate::text::{dec_digits, hex_digits, push_char, push_dec, push_hex, push_seq, chars_of};

verus! {

/// The C runtime that every generated program starts with.
pub const RUNTIME: &'static str = "#include <stdint.h>
#include <stdio.h>
#include <stdlib.h>
#include <string.h>
#include <setjmp.h>

// --- Fuga Runtime ---
typedef struct ExceptionEnv {
    jmp_buf buf;
    struct ExceptionEnv* next;
} ExceptionEnv;

ExceptionEnv* current_exception_env = NULL;
uint64_t current_exception_code = 0;

void fuga_throw(uint64_t code) {
    if (current_exception_env) {
        current_exception_code = code;
        longjmp(current_exception_env->buf, 1);
    } else {
        fprintf(stderr, \"Unhandled exception: %lx\\n\", (unsigned long)code);
        exit(1);
    }
}

typedef struct ScopeNode {
    const char* name;
    void* ptr;
    uint8_t* live;
    struct ScopeNode* next;
} ScopeNode;

ScopeNode* current_scope = NULL;

void* get_dynamic_var(const char* name) {
    for (ScopeNode* node = current_scope; node != NULL; node = node->next) {
        if (strcmp(node->name, name) == 0) return node->ptr;
    }
    fprintf(stderr, \"Undefined dynamic variable: %s\\n\", name);
    exit(1);
}

uint64_t dynamic_var_live(const char* name) {
    for (ScopeNode* node = current_scope; node != NULL; node = node->next) {
        if (strcmp(node->name, name) == 0) return *node->live;
    }
    return 0;
}

int32_t f__putc(uint64_t c) {
    putchar((int)c);
    fflush(stdout);
    return 0;
}

uint8_t f__getc() {
    int c = getchar();
    if (c == EOF) fuga_throw(0xFFFF0001);
    return (uint8_t)c;
}

";

// ---------------------------------------------------------------------------
// The types of the variables a program declares.

/// Names with their declared types; a later entry for a name stands over an
/// earlier one.
pub struct TypeTable {
    pub entries: Vec<(String, Type)>,
}

impl View for TypeTable {
    type V = Seq<(Seq<char>, Type)>;

    open spec fn view(&self) -> Seq<(Seq<char>, Type)> {
        self.entries@.map_values(|p: (String, Type)| (p.0@, p.1))
    }
}

/// The type last recorded for `name`.
pub open spec fn type_lookup(t: Seq<(Seq<char>, Type)>, name: Seq<char>) -> Option<Type>
    decreases t.len(),
{
    if t.len() == 0 {
        None
    } else if t.last().0 == name {
        Some(t.last().1)
    } else {
        type_lookup(t.drop_last(), name)
    }
}

impl TypeTable {
    pub fn new() -> (r: TypeTable)
        ensures
            r@ == Seq::<(Seq<char>, Type)>::empty(),
    {
        let r = TypeTable { entries: Vec::new() };
        assert(r@ =~= Seq::<(Seq<char>, Type)>::empty());
        r
    }

    pub fn insert(&mut self, name: String, ty: Type)
        ensures
            final(self)@ == old(self)@.push((name@, ty)),
    {
        self.entries.push((name, ty));
        assert(self@ =~= old(self)@.push((name@, ty)));
    }

    pub fn get(&self, name: &String) -> (r: Option<Type>)
        ensures
            r == type_lookup(self@, name@),
    {
        let mut n: usize = self.entries.len();
        assert(self@.take(n as int) =~= self@);
        while n > 0
            invariant
                n <= self.entries@.len(),
                type_lookup(self@, name@) == type_lookup(self@.take(n as int), name@),
            decreases n,
        {
            assert(self@.take(n as int).drop_last() =~= self@.take(n - 1));
            if crate::text::same_text(&self.entries[n - 1].0, name) {
                return Some(self.entries[n - 1].1);
            }
            n = n - 1;
        }
        None
    }
}

/// The variables that `s` declares, with their types, in order: those of
/// nested statements and function parameters included.
pub open spec fn types_in(s: Statement) -> Seq<(Seq<char>, Type)>
    decreases s,
{
    match s {
        Statement::VariableDeclaration { ty, name, .. } => seq![(name@, ty)],
        Statement::ArrayDeclaration { ty, name, .. } => seq![(name@, ty)],
        Statement::FunctionDeclaration { params, body, .. } => params@.map_values(
            |p: (Type, String)| (p.1@, p.0),
        ) + types_in_all(body@),
        Statement::Loop(body) => types_in_all(body@),
        Statement::TryCatch { try_body, catch_clauses } => types_in_all(try_body@) + types_in_catches(
            catch_clauses@,
        ),
        _ => Seq::empty(),
    }
}

pub open spec fn types_in_all(s: Seq<Statement>) -> Seq<(Seq<char>, Type)>
    decreases s,
{
    if s.len() == 0 {
        Seq::empty()
    } else {
        types_in_all(s.drop_last()) + types_in(s.last())
    }
}

pub open spec fn types_in_catches(s: Seq<CatchClause>) -> Seq<(Seq<char>, Type)>
    decreases s,
{
    if s.len() == 0 {
        Seq::empty()
    } else {
        types_in_catches(s.drop_last()) + types_in_all(s.last().body@)
    }
}

/// Records the types of the variables that `stmt` declares.
#[verifier::loop_isolation(false)]
pub fn collect_types(stmt: &Statement, global_types: &mut TypeTable)
    ensures
        final(global_types)@ == old(global_types)@ + types_in(*stmt),
    decreases stmt,
{
    match stmt {
        Statement::VariableDeclaration { ty, name, .. } => {
            global_types.insert(name.clone(), *ty);
            assert(final(global_types)@ =~= old(global_types)@ + types_in(*stmt));
        },
        Statement::ArrayDeclaration { ty, name, .. } => {
            global_types.insert(name.clone(), *ty);
            assert(final(global_types)@ =~= old(global_types)@ + types_in(*stmt));
        },
        Statement::FunctionDeclaration { params, body, .. } => {
            let mut i: usize = 0;
            while i < params.len()
                invariant
                    i <= params@.len(),
                    global_types@ =~= old(global_types)@ + params@.take(i as int).map_values(
                        |p: (Type, String)| (p.1@, p.0),
                    ),
                decreases params@.len() - i,
            {
                global_types.insert(params[i].1.clone(), params[i].0);
                i = i + 1;
            }
            assert(params@.take(params@.len() as int) =~= params@);
            collect_types_all(body, global_types);
            assert(final(global_types)@ =~= old(global_types)@ + types_in(*stmt));
        },
        Statement::Loop(body) => {
            collect_types_all(body, global_types);
        },
        Statement::TryCatch { try_body, catch_clauses } => {
            collect_types_all(try_body, global_types);
            let ghost mid = global_types@;
            let mut i: usize = 0;
            while i < catch_clauses.len()
                invariant
                    i <= catch_clauses@.len(),
                    global_types@ =~= mid + types_in_catches(catch_clauses@.take(i as int)),
                decreases catch_clauses@.len() - i,
            {
                assert(catch_clauses@.take(i + 1).drop_last() =~= catch_clauses@.take(i as int));
                collect_types_all(&catch_clauses[i].body, global_types);
                i = i + 1;
            }
            assert(catch_clauses@.take(catch_clauses@.len() as int) =~= catch_clauses@);
            assert(final(global_types)@ =~= old(global_types)@ + types_in(*stmt));
        },
        _ => {
            assert(final(global_types)@ =~= old(global_types)@ + types_in(*stmt));
        },
    }
}

fn collect_types_all(stmts: &Vec<Statement>, global_types: &mut TypeTable)
    ensures
        final(global_types)@ == old(global_types)@ + types_in_all(stmts@),
    decreases stmts,
{
    let mut i: usize = 0;
    while i < stmts.len()
        invariant
            i <= stmts@.len(),
            global_types@ =~= old(global_types)@ + types_in_all(stmts@.take(i as int)),
        decreases stmts@.len() - i,
    {
        assert(stmts@.take(i + 1).drop_last() =~= stmts@.take(i as int));
        collect_types(&stmts[i], global_types);
        i = i + 1;
    }
    assert(stmts@.take(stmts@.len() as int) =~= stmts@);
}

// ---------------------------------------------------------------------------
// Expressions.

/// The C name of a type.
pub open spec fn c_type(ty: Type) -> Seq<char> {
    match ty {
        Type::I8 => "int8_t"@,
        Type::U8 => "uint8_t"@,
        Type::I16 => "int16_t"@,
        Type::U16 => "uint16_t"@,
        Type::I32 => "int32_t"@,
        Type::U32 => "uint32_t"@,
        Type::I64 => "int64_t"@,
        Type::U64 => "uint64_t"@,
    }
}

fn type_to_c(ty: Type) -> (r: &'static str)
    ensures
        r@ == c_type(ty),
{
    match ty {
        Type::I8 => "int8_t",
        Type::U8 => "uint8_t",
        Type::I16 => "int16_t",
        Type::U16 => "uint16_t",
        Type::I32 => "int32_t",
        Type::U32 => "uint32_t",
        Type::I64 => "int64_t",
        Type::U64 => "uint64_t",
    }
}

/// The type under which a variable of an outer function is read: the one
/// last recorded for its name, else `i32`.
pub open spec fn dynamic_type(types: Seq<(Seq<char>, Type)>, name: Seq<char>) -> Type {
    match type_lookup(types, name) {
        Some(t) => t,
        None => Type::I32,
    }
}

/// A variable read: a local of the function by its C name, any other by
/// a search of the dynamic scope.
pub open spec fn gen_var(name: Seq<char>, locals: Set<Seq<char>>, types: Seq<(Seq<char>, Type)>) -> Seq<char> {
    if locals.contains(name) {
        "(l_"@ + name + " = 0, v_"@ + name + ")"@
    } else {
        "(*("@ + c_type(dynamic_type(types, name)) + "*)get_dynamic_var(\""@ + name + "\"))"@
    }
}

/// The C operator of a binary operator.
pub open spec fn c_operator(op: BinaryOperator) -> Seq<char> {
    match op {
        BinaryOperator::Add => " + "@,
        BinaryOperator::Sub => " - "@,
        BinaryOperator::BitwiseAnd => " & "@,
        BinaryOperator::BitwiseOr => " | "@,
        BinaryOperator::ShiftLeft => " << "@,
        BinaryOperator::ShiftRight => " >> "@,
        BinaryOperator::LessThan => " < "@,
        BinaryOperator::GreaterThan => " > "@,
        BinaryOperator::Equal => " == "@,
        BinaryOperator::Assign => " = "@,
    }
}

fn operator_to_c(op: BinaryOperator) -> (r: &'static str)
    ensures
        r@ == c_operator(op),
{
    match op {
        BinaryOperator::Add => " + ",
        BinaryOperator::Sub => " - ",
        BinaryOperator::BitwiseAnd => " & ",
        BinaryOperator::BitwiseOr => " | ",
        BinaryOperator::ShiftLeft => " << ",
        BinaryOperator::ShiftRight => " >> ",
        BinaryOperator::LessThan => " < ",
        BinaryOperator::GreaterThan => " > ",
        BinaryOperator::Equal => " == ",
        BinaryOperator::Assign => " = ",
    }
}

/// The text that writing to a variable of an outer function becomes.
pub open spec fn read_only_error(name: Seq<char>) -> Seq<char> {
    "(fprintf(stderr, \"Cannot modify read-only variable '%s'\\n\", \""@ + name + "\"), exit(1), 0)"@
}

/// The C text of `name?`: whether the variable is live, 0 where there is
/// none.
pub open spec fn gen_exists(name: Seq<char>, locals: Set<Seq<char>>) -> Seq<char> {
    if locals.contains(name) {
        "((uint64_t)l_"@ + name + ")"@
    } else {
        "dynamic_var_live(\""@ + name + "\")"@
    }
}

/// The C text of an expression. A read of a local variable marks it
/// consumed, an assignment marks it live again.
pub open spec fn gen_expr(e: Expression, locals: Set<Seq<char>>, types: Seq<(Seq<char>, Type)>) -> Seq<char>
    decreases e,
{
    match e {
        Expression::HexLiteral(v, neg) => if neg {
            "-0x"@ + hex_digits(v as nat) + "ULL"@
        } else {
            "0x"@ + hex_digits(v as nat) + "ULL"@
        },
        Expression::Variable(name) => gen_var(name@, locals, types),
        Expression::ArrayElement(name, idx) => {
            let i = gen_expr(*idx, locals, types);
            let n = name@;
            if locals.contains(n) {
                "(c_"@ + n + "["@ + i + "] ? (c_"@ + n + "["@ + i + "] = 0, v_"@ + n + "["@ + i
                    + "]) : (fprintf(stderr, \"Variable '%s' is used after being consumed.\\n\", \""@ + n
                    + "\"), exit(1), 0))"@
            } else {
                "((("@ + c_type(dynamic_type(types, n)) + "*)get_dynamic_var(\""@ + n + "\"))["@ + i + "])"@
            }
        },
        Expression::BinaryOp(op, l, r) => {
            if op == BinaryOperator::Assign && (*l) is Variable {
                let n = (*l)->Variable_0@;
                if locals.contains(n) {
                    "(v_"@ + n + " = "@ + gen_expr(*r, locals, types) + ", l_"@ + n + " = 1, v_"@ + n + ")"@
                } else {
                    read_only_error(n)
                }
            } else if op == BinaryOperator::Assign && (*l) is ArrayElement {
                let n = (*l)->ArrayElement_0@;
                if locals.contains(n) {
                    let i = gen_expr(*(*l)->ArrayElement_1, locals, types);
                    "(c_"@ + n + "["@ + i + "] = 1, v_"@ + n + "["@ + i + "] = "@ + gen_expr(*r, locals, types)
                        + ")"@
                } else {
                    read_only_error(n)
                }
            } else {
                "("@ + gen_expr(*l, locals, types) + c_operator(op) + gen_expr(*r, locals, types) + ")"@
            }
        },
        Expression::UnaryOp(op, inner) => match op {
            UnaryOperator::BitwiseNot => "(~"@ + gen_expr(*inner, locals, types) + ")"@,
            UnaryOperator::Exists => if (*inner) is Variable {
                gen_exists((*inner)->Variable_0@, locals)
            } else {
                "("@ + gen_expr(*inner, locals, types) + ", 0)"@
            },
        },
        Expression::FunctionCall(name, args) => "f_"@ + name@ + "("@ + gen_args(args@, locals, types) + ")"@,
    }
}

/// The C texts of `args`, separated by commas.
pub open spec fn gen_args(args: Seq<Expression>, locals: Set<Seq<char>>, types: Seq<(Seq<char>, Type)>) -> Seq<char>
    decreases args,
{
    if args.len() == 0 {
        Seq::empty()
    } else if args.len() == 1 {
        gen_expr(args[0], locals, types)
    } else {
        gen_args(args.drop_last(), locals, types) + ", "@ + gen_expr(args.last(), locals, types)
    }
}

fn push_var(code: &mut String, name: &String, locals: &NameSet, types: &TypeTable)
    ensures
        final(code)@ == old(code)@ + gen_var(name@, locals@, types@),
{
    if locals.contains(name) {
        code.append("(l_");
        push_seq(code, name);
        code.append(" = 0, v_");
        push_seq(code, name);
        code.append(")");
    } else {
        let ty = match types.get(name) {
            Some(t) => t,
            None => Type::I32,
        };
        code.append("(*(");
        code.append(type_to_c(ty));
        code.append("*)get_dynamic_var(\"");
        push_seq(code, name);
        code.append("\"))");
    }
}

fn push_read_only_error(code: &mut String, name: &String)
    ensures
        final(code)@ == old(code)@ + read_only_error(name@),
{
    code.append("(fprintf(stderr, \"Cannot modify read-only variable '%s'\\n\", \"");
    push_seq(code, name);
    code.append("\"), exit(1), 0)");
}

#[verifier::loop_isolation(false)]
fn generate_expression(expr: &Expression, local_vars: &NameSet, global_types: &TypeTable) -> (r: String)
    ensures
        r@ == gen_expr(*expr, local_vars@, global_types@),
    decreases expr,
{
    let mut code = String::new();
    match expr {
        Expression::HexLiteral(v, neg) => {
            if *neg {
                code.append("-0x");
            } else {
                code.append("0x");
            }
            push_hex(&mut code, *v);
            code.append("ULL");
        },
        Expression::Variable(name) => {
            push_var(&mut code, name, local_vars, global_types);
        },
        Expression::ArrayElement(name, idx) => {
            let i = generate_expression(idx, local_vars, global_types);
            if local_vars.contains(name) {
                code.append("(c_");
                push_seq(&mut code, name);
                code.append("[");
                push_seq(&mut code, &i);
                code.append("] ? (c_");
                push_seq(&mut code, name);
                code.append("[");
                push_seq(&mut code, &i);
                code.append("] = 0, v_");
                push_seq(&mut code, name);
                code.append("[");
                push_seq(&mut code, &i);
                code.append("]) : (fprintf(stderr, \"Variable '%s' is used after being consumed.\\n\", \"");
                push_seq(&mut code, name);
                code.append("\"), exit(1), 0))");
            } else {
                let ty = match global_types.get(name) {
                    Some(t) => t,
                    None => Type::I32,
                };
                code.append("(((");
                code.append(type_to_c(ty));
                code.append("*)get_dynamic_var(\"");
                push_seq(&mut code, name);
                code.append("\"))[");
                push_seq(&mut code, &i);
                code.append("])");
            }
        },
        Expression::BinaryOp(op, l, r) => {
            let mut done = false;
            if *op == BinaryOperator::Assign {
                match &**l {
                    Expression::Variable(name) => {
                        if local_vars.contains(name) {
                            let rv = generate_expression(r, local_vars, global_types);
                            code.append("(v_");
                            push_seq(&mut code, name);
                            code.append(" = ");
                            push_seq(&mut code, &rv);
                            code.append(", l_");
                            push_seq(&mut code, name);
                            code.append(" = 1, v_");
                            push_seq(&mut code, name);
                            code.append(")");
                        } else {
                            push_read_only_error(&mut code, name);
                        }
                        done = true;
                    },
                    Expression::ArrayElement(name, idx) => {
                        if local_vars.contains(name) {
                            let i = generate_expression(idx, local_vars, global_types);
                            let rv = generate_expression(r, local_vars, global_types);
                            code.append("(c_");
                            push_seq(&mut code, name);
                            code.append("[");
                            push_seq(&mut code, &i);
                            code.append("] = 1, v_");
                            push_seq(&mut code, name);
                            code.append("[");
                            push_seq(&mut code, &i);
                            code.append("] = ");
                            push_seq(&mut code, &rv);
                            code.append(")");
                        } else {
                            push_read_only_error(&mut code, name);
                        }
                        done = true;
                    },
                    _ => {},
                }
            }
            if !done {
                let lv = generate_expression(l, local_vars, global_types);
                let rv = generate_expression(r, local_vars, global_types);
                code.append("(");
                push_seq(&mut code, &lv);
                code.append(operator_to_c(*op));
                push_seq(&mut code, &rv);
                code.append(")");
            }
        },
        Expression::UnaryOp(op, inner) => {
            match op {
                UnaryOperator::BitwiseNot => {
                    let i = generate_expression(inner, local_vars, global_types);
                    code.append("(~");
                    push_seq(&mut code, &i);
                    code.append(")");
                },
                UnaryOperator::Exists => {
                    match &**inner {
                        Expression::Variable(name) => {
                            if local_vars.contains(name) {
                                code.append("((uint64_t)l_");
                                push_seq(&mut code, name);
                                code.append(")");
                            } else {
                                code.append("dynamic_var_live(\"");
                                push_seq(&mut code, name);
                                code.append("\")");
                            }
                        },
                        _ => {
                            let i = generate_expression(inner, local_vars, global_types);
                            code.append("(");
                            push_seq(&mut code, &i);
                            code.append(", 0)");
                        },
                    }
                },
            }
        },
        Expression::FunctionCall(name, args) => {
            code.append("f_");
            push_seq(&mut code, name);
            code.append("(");
            let mut i: usize = 0;
            while i < args.len()
                invariant
                    i <= args@.len(),
                    code@ == "f_"@ + name@ + "("@ + gen_args(args@.take(i as int), local_vars@, global_types@),
                decreases args@.len() - i,
            {
                if i > 0 {
                    code.append(", ");
                }
                let a = generate_expression(&args[i], local_vars, global_types);
                push_seq(&mut code, &a);
                assert(args@.take(i + 1).drop_last() =~= args@.take(i as int));
                i = i + 1;
            }
            assert(args@.take(args@.len() as int) =~= args@);
            code.append(")");
        },
    }
    code
}

// ---------------------------------------------------------------------------
// Statements.

/// `n` levels of indentation, four spaces each.
pub open spec fn indent(n: nat) -> Seq<char>
    decreases n,
{
    if n == 0 {
        Seq::empty()
    } else {
        indent((n - 1) as nat) + "    "@
    }
}

/// The lines that put a variable on the chain of dynamic scopes.
pub open spec fn scope_node(ind: Seq<char>, name: Seq<char>, by_address: bool) -> Seq<char> {
    ind + "uint8_t l_"@ + name + " = 1;\n"@ + ind + "ScopeNode sn_"@ + name + " = {\""@ + name + (if by_address {
        "\", &v_"@
    } else {
        "\", v_"@
    }) + name + ", &l_"@ + name + ", current_scope};\n"@ + ind + "current_scope = &sn_"@ + name + ";\n"@
}

/// The C text of a statement at indentation `n` with the locals `locals`,
/// and the locals after it.
pub open spec fn gen_stmt(s: Statement, n: nat, locals: Set<Seq<char>>, types: Seq<(Seq<char>, Type)>) -> (
    Seq<char>,
    Set<Seq<char>>,
)
    decreases s,
{
    let ind = indent(n);
    match s {
        Statement::VariableDeclaration { ty, name, initializer } => gen_var_stmt(ty, name@, initializer, ind, locals, types),
        Statement::ArrayDeclaration { ty, size, name, initializer } => {
            let l2 = locals.insert(name@);
            (gen_array_decl(ty, size, name@, initializer, ind, l2, types), l2)
        },
        Statement::Expression(e) => (ind + gen_expr(e, locals, types) + ";\n"@, locals),
        Statement::Loop(body) => {
            let ii = indent(n + 1);
            (
                ind + "while(1) {\n"@ + ii + "ScopeNode* loop_scope = current_scope;\n"@ + gen_block(
                    body@,
                    n + 1,
                    locals,
                    types,
                ).0 + ii + "current_scope = loop_scope;\n"@ + ind + "}\n"@,
                locals,
            )
        },
        Statement::TryCatch { try_body, catch_clauses } => {
            let ii = indent(n + 1);
            (
                try_head(ind, ii) + gen_block(try_body@, n + 2, locals, types).0 + try_middle(ii) + gen_catches(
                    catch_clauses@,
                    n,
                    locals,
                    types,
                ) + try_tail(ind, ii),
                locals,
            )
        },
        Statement::Throw { exception_code, condition } => (
            gen_throw(exception_code, gen_expr(condition, locals, types), ind),
            locals,
        ),
        Statement::FunctionDeclaration { .. } => (Seq::empty(), locals),
    }
}

/// The C text of `stmts` in order, each with the locals left by those
/// before it, and the locals after the last.
pub open spec fn gen_block(stmts: Seq<Statement>, n: nat, locals: Set<Seq<char>>, types: Seq<(Seq<char>, Type)>) -> (
    Seq<char>,
    Set<Seq<char>>,
)
    decreases stmts,
{
    if stmts.len() == 0 {
        (Seq::empty(), locals)
    } else {
        let (c1, l1) = gen_block(stmts.drop_last(), n, locals, types);
        let (c2, l2) = gen_stmt(stmts.last(), n, l1, types);
        (c1 + c2, l2)
    }
}

/// The branches of a `try` for its catch clauses.
pub open spec fn gen_catches(cs: Seq<CatchClause>, n: nat, locals: Set<Seq<char>>, types: Seq<(Seq<char>, Type)>) -> Seq<
    char,
>
    decreases cs,
{
    if cs.len() == 0 {
        Seq::empty()
    } else {
        let ii = indent(n + 1);
        gen_catches(cs.drop_last(), n, locals, types) + catch_head(ii, cs.len() == 1, cs.last().exception_code)
            + gen_block(cs.last().body@, n + 3, locals, types).0 + ii + "    }\n"@
    }
}

/// The stores of an array's initial elements.
pub open spec fn gen_inits(
    es: Seq<Expression>,
    name: Seq<char>,
    ind: Seq<char>,
    locals: Set<Seq<char>>,
    types: Seq<(Seq<char>, Type)>,
) -> Seq<char>
    decreases es.len(),
{
    if es.len() == 0 {
        Seq::empty()
    } else {
        let i = dec_digits((es.len() - 1) as nat);
        gen_inits(es.drop_last(), name, ind, locals, types) + ind + "v_"@ + name + "["@ + i + "] = "@ + gen_expr(
            es.last(),
            locals,
            types,
        ) + ";\n"@ + ind + "c_"@ + name + "["@ + i + "] = 1;\n"@
    }
}


/// A `var` statement: a new variable, or, on a name that the function has
/// declared already, that variable set anew.
#[verifier::opaque]
pub open spec fn gen_var_stmt(
    ty: Type,
    name: Seq<char>,
    initializer: Option<Expression>,
    ind: Seq<char>,
    locals: Set<Seq<char>>,
    types: Seq<(Seq<char>, Type)>,
) -> (Seq<char>, Set<Seq<char>>) {
    if locals.contains(name) {
        (gen_var_redef(name, initializer, ind, locals, types), locals)
    } else {
        let l2 = locals.insert(name);
        (gen_var_decl(ty, name, initializer, ind, l2, types), l2)
    }
}

/// A `var` on a name that the function has declared already: that variable
/// is set anew and is live again.
pub open spec fn gen_var_redef(
    name: Seq<char>,
    initializer: Option<Expression>,
    ind: Seq<char>,
    locals: Set<Seq<char>>,
    types: Seq<(Seq<char>, Type)>,
) -> Seq<char> {
    ind + "v_"@ + name + " = "@ + (match initializer {
        Some(e) => gen_expr(e, locals, types),
        None => "0"@,
    }) + ";\n"@ + ind + "l_"@ + name + " = 1;\n"@
}

/// A variable's declaration; `locals` holds the variable itself.
pub open spec fn gen_var_decl(
    ty: Type,
    name: Seq<char>,
    initializer: Option<Expression>,
    ind: Seq<char>,
    locals: Set<Seq<char>>,
    types: Seq<(Seq<char>, Type)>,
) -> Seq<char> {
    ind + c_type(ty) + " v_"@ + name + " = "@ + (match initializer {
        Some(e) => gen_expr(e, locals, types),
        None => "0"@,
    }) + ";\n"@ + scope_node(ind, name, true)
}

/// An array's declaration; `locals` holds the array itself.
pub open spec fn gen_array_decl(
    ty: Type,
    size: ArraySize,
    name: Seq<char>,
    initializer: Option<Vec<Expression>>,
    ind: Seq<char>,
    locals: Set<Seq<char>>,
    types: Seq<(Seq<char>, Type)>,
) -> Seq<char> {
    let sz = array_size(size, locals, types);
    array_head(ty, name, sz, ind) + (match initializer {
        Some(v) => gen_inits(v@, name, ind, locals, types),
        None => array_zero(ty, name, sz, ind),
    }) + scope_node(ind, name, false)
}

pub open spec fn array_size(size: ArraySize, locals: Set<Seq<char>>, types: Seq<(Seq<char>, Type)>) -> Seq<char> {
    match size {
        ArraySize::Literal(v) => dec_digits(v as nat),
        ArraySize::Variable(m) => gen_var(m@, locals, types),
    }
}

pub open spec fn array_head(ty: Type, name: Seq<char>, sz: Seq<char>, ind: Seq<char>) -> Seq<char> {
    ind + c_type(ty) + " v_"@ + name + "["@ + sz + "];\n"@ + ind + "uint8_t c_"@ + name + "["@ + sz + "];\n"@
}

pub open spec fn array_zero(ty: Type, name: Seq<char>, sz: Seq<char>, ind: Seq<char>) -> Seq<char> {
    ind + "memset(v_"@ + name + ", 0, sizeof("@ + c_type(ty) + ") * "@ + sz + ");\n"@ + ind + "memset(c_"@ + name
        + ", 1, "@ + sz + ");\n"@
}

pub open spec fn gen_throw(code: u64, cond: Seq<char>, ind: Seq<char>) -> Seq<char> {
    ind + "if ("@ + cond + ") {\n"@ + ind + "    fuga_throw(0x"@ + hex_digits(code as nat) + ");\n"@ + ind + "}\n"@
}

pub open spec fn try_head(ind: Seq<char>, ii: Seq<char>) -> Seq<char> {
    ind + "{\n"@ + ii + "ScopeNode* try_scope = current_scope;\n"@ + ii + "ExceptionEnv env_try;\n"@ + ii
        + "env_try.next = current_exception_env;\n"@ + ii + "current_exception_env = &env_try;\n"@ + ii
        + "if (setjmp(env_try.buf) == 0) {\n"@
}

pub open spec fn try_middle(ii: Seq<char>) -> Seq<char> {
    ii + "    current_scope = try_scope;\n"@ + ii + "} else {\n"@ + ii + "    current_scope = try_scope;\n"@ + ii
        + "    uint64_t code = current_exception_code;\n"@
}

pub open spec fn try_tail(ind: Seq<char>, ii: Seq<char>) -> Seq<char> {
    ii + "    else {\n"@ + ii + "        current_exception_env = env_try.next;\n"@ + ii + "        fuga_throw(code);\n"@
        + ii + "    }\n"@ + ii + "}\n"@ + ii + "current_exception_env = env_try.next;\n"@ + ind + "}\n"@
}

pub open spec fn catch_head(ii: Seq<char>, first: bool, code: u64) -> Seq<char> {
    ii + (if first {
        "    if (code == 0x"@
    } else {
        "    else if (code == 0x"@
    }) + hex_digits(code as nat) + ") {\n"@
}

fn push_try_head(code: &mut String, ind: &String, ii: &String)
    ensures
        final(code)@ == old(code)@ + try_head(ind@, ii@),
{
    push_seq(code, ind);
    code.append("{\n");
    push_seq(code, ii);
    code.append("ScopeNode* try_scope = current_scope;\n");
    push_seq(code, ii);
    code.append("ExceptionEnv env_try;\n");
    push_seq(code, ii);
    code.append("env_try.next = current_exception_env;\n");
    push_seq(code, ii);
    code.append("current_exception_env = &env_try;\n");
    push_seq(code, ii);
    code.append("if (setjmp(env_try.buf) == 0) {\n");
}

fn push_try_middle(code: &mut String, ii: &String)
    ensures
        final(code)@ == old(code)@ + try_middle(ii@),
{
    push_seq(code, ii);
    code.append("    current_scope = try_scope;\n");
    push_seq(code, ii);
    code.append("} else {\n");
    push_seq(code, ii);
    code.append("    current_scope = try_scope;\n");
    push_seq(code, ii);
    code.append("    uint64_t code = current_exception_code;\n");
}

fn push_try_tail(code: &mut String, ind: &String, ii: &String)
    ensures
        final(code)@ == old(code)@ + try_tail(ind@, ii@),
{
    push_seq(code, ii);
    code.append("    else {\n");
    push_seq(code, ii);
    code.append("        current_exception_env = env_try.next;\n");
    push_seq(code, ii);
    code.append("        fuga_throw(code);\n");
    push_seq(code, ii);
    code.append("    }\n");
    push_seq(code, ii);
    code.append("}\n");
    push_seq(code, ii);
    code.append("current_exception_env = env_try.next;\n");
    push_seq(code, ind);
    code.append("}\n");
}

fn push_catch_head(code: &mut String, ii: &String, first: bool, c: u64)
    ensures
        final(code)@ == old(code)@ + catch_head(ii@, first, c),
{
    push_seq(code, ii);
    if first {
        code.append("    if (code == 0x");
    } else {
        code.append("    else if (code == 0x");
    }
    push_hex(code, c);
    code.append(") {\n");
}

fn push_throw(code: &mut String, c: u64, cond: &String, ind: &String)
    ensures
        final(code)@ == old(code)@ + gen_throw(c, cond@, ind@),
{
    push_seq(code, ind);
    code.append("if (");
    push_seq(code, cond);
    code.append(") {\n");
    push_seq(code, ind);
    code.append("    fuga_throw(0x");
    push_hex(code, c);
    code.append(");\n");
    push_seq(code, ind);
    code.append("}\n");
}

fn push_var_stmt(
    code: &mut String,
    ty: Type,
    name: &String,
    initializer: &Option<Expression>,
    ind: &String,
    local_vars: &mut NameSet,
    global_types: &TypeTable,
)
    ensures
        final(code)@ == old(code)@ + gen_var_stmt(ty, name@, *initializer, ind@, old(local_vars)@, global_types@).0,
        final(local_vars)@ == gen_var_stmt(ty, name@, *initializer, ind@, old(local_vars)@, global_types@).1,
{
    proof {
        reveal(gen_var_stmt);
    }
    if local_vars.contains(name) {
        push_var_redef(code, name, initializer, ind, local_vars, global_types);
    } else {
        local_vars.insert(name.clone());
        push_var_decl(code, ty, name, initializer, ind, local_vars, global_types);
    }
}

fn push_var_redef(
    code: &mut String,
    name: &String,
    initializer: &Option<Expression>,
    ind: &String,
    local_vars: &NameSet,
    global_types: &TypeTable,
)
    ensures
        final(code)@ == old(code)@ + gen_var_redef(name@, *initializer, ind@, local_vars@, global_types@),
{
    push_seq(code, ind);
    code.append("v_");
    push_seq(code, name);
    code.append(" = ");
    match initializer {
        Some(e) => {
            let t = generate_expression(e, local_vars, global_types);
            push_seq(code, &t);
        },
        None => {
            code.append("0");
        },
    }
    code.append(";\n");
    push_seq(code, ind);
    code.append("l_");
    push_seq(code, name);
    code.append(" = 1;\n");
}

fn push_var_decl(
    code: &mut String,
    ty: Type,
    name: &String,
    initializer: &Option<Expression>,
    ind: &String,
    local_vars: &NameSet,
    global_types: &TypeTable,
)
    ensures
        final(code)@ == old(code)@ + gen_var_decl(ty, name@, *initializer, ind@, local_vars@, global_types@),
{
    push_seq(code, ind);
    code.append(type_to_c(ty));
    code.append(" v_");
    push_seq(code, name);
    code.append(" = ");
    match initializer {
        Some(e) => {
            let t = generate_expression(e, local_vars, global_types);
            push_seq(code, &t);
        },
        None => {
            code.append("0");
        },
    }
    code.append(";\n");
    push_scope_node(code, ind, name, true);
}

fn push_array_decl(
    code: &mut String,
    ty: Type,
    size: &ArraySize,
    name: &String,
    initializer: &Option<Vec<Expression>>,
    ind: &String,
    local_vars: &NameSet,
    global_types: &TypeTable,
)
    ensures
        final(code)@ == old(code)@ + gen_array_decl(ty, *size, name@, *initializer, ind@, local_vars@, global_types@),
{
    let mut sz = String::new();
    match size {
        ArraySize::Literal(v) => {
            push_dec(&mut sz, *v);
        },
        ArraySize::Variable(m) => {
            push_var(&mut sz, m, local_vars, global_types);
        },
    }
    assert(sz@ =~= array_size(*size, local_vars@, global_types@));
    let ghost c0 = code@;
    push_array_head(code, ty, name, &sz, ind);
    let ghost c1 = code@;
    match initializer {
        Some(es) => {
            push_inits(code, es, name, ind, local_vars, global_types);
        },
        None => {
            push_array_zero(code, ty, name, &sz, ind);
        },
    }
    let ghost c2 = code@;
    push_scope_node(code, ind, name, false);
    assert(code@ =~= c0 + gen_array_decl(ty, *size, name@, *initializer, ind@, local_vars@, global_types@));
}

fn push_array_head(code: &mut String, ty: Type, name: &String, sz: &String, ind: &String)
    ensures
        final(code)@ == old(code)@ + array_head(ty, name@, sz@, ind@),
{
    push_seq(code, ind);
    code.append(type_to_c(ty));
    code.append(" v_");
    push_seq(code, name);
    code.append("[");
    push_seq(code, sz);
    code.append("];\n");
    push_seq(code, ind);
    code.append("uint8_t c_");
    push_seq(code, name);
    code.append("[");
    push_seq(code, sz);
    code.append("];\n");
}

fn push_array_zero(code: &mut String, ty: Type, name: &String, sz: &String, ind: &String)
    ensures
        final(code)@ == old(code)@ + array_zero(ty, name@, sz@, ind@),
{
    push_seq(code, ind);
    code.append("memset(v_");
    push_seq(code, name);
    code.append(", 0, sizeof(");
    code.append(type_to_c(ty));
    code.append(") * ");
    push_seq(code, sz);
    code.append(");\n");
    push_seq(code, ind);
    code.append("memset(c_");
    push_seq(code, name);
    code.append(", 1, ");
    push_seq(code, sz);
    code.append(");\n");
}

#[verifier::spinoff_prover]
fn push_inits(
    code: &mut String,
    es: &Vec<Expression>,
    name: &String,
    ind: &String,
    local_vars: &NameSet,
    global_types: &TypeTable,
)
    ensures
        final(code)@ == old(code)@ + gen_inits(es@, name@, ind@, local_vars@, global_types@),
{
    let mut i: usize = 0;
    while i < es.len()
        invariant
            i <= es@.len(),
            code@ == old(code)@ + gen_inits(es@.take(i as int), name@, ind@, local_vars@, global_types@),
        decreases es@.len() - i,
    {
        let t = generate_expression(&es[i], local_vars, global_types);
        push_seq(code, ind);
        code.append("v_");
        push_seq(code, name);
        code.append("[");
        push_dec(code, i as u64);
        code.append("] = ");
        push_seq(code, &t);
        code.append(";\n");
        push_seq(code, ind);
        code.append("c_");
        push_seq(code, name);
        code.append("[");
        push_dec(code, i as u64);
        code.append("] = 1;\n");
        assert(es@.take(i + 1).drop_last() =~= es@.take(i as int));
        i = i + 1;
    }
    assert(es@.take(es@.len() as int) =~= es@);
}

fn push_scope_node(code: &mut String, ind: &String, name: &String, by_address: bool)
    ensures
        final(code)@ == old(code)@ + scope_node(ind@, name@, by_address),
{
    push_seq(code, ind);
    code.append("uint8_t l_");
    push_seq(code, name);
    code.append(" = 1;\n");
    push_seq(code, ind);
    code.append("ScopeNode sn_");
    push_seq(code, name);
    code.append(" = {\"");
    push_seq(code, name);
    if by_address {
        code.append("\", &v_");
    } else {
        code.append("\", v_");
    }
    push_seq(code, name);
    code.append(", &l_");
    push_seq(code, name);
    code.append(", current_scope};\n");
    push_seq(code, ind);
    code.append("current_scope = &sn_");
    push_seq(code, name);
    code.append(";\n");
}

fn deeper(ind: &String, Ghost(n): Ghost<nat>) -> (r: String)
    requires
        ind@ == indent(n),
    ensures
        r@ == indent(n + 1),
{
    let mut r = ind.clone();
    r.append("    ");
    r
}

#[verifier::loop_isolation(false)]
fn generate_statements(
    stmts: &Vec<Statement>,
    code: &mut String,
    ind: &String,
    Ghost(n): Ghost<nat>,
    local_vars: &mut NameSet,
    global_types: &TypeTable,
)
    requires
        ind@ == indent(n),
    ensures
        final(code)@ == old(code)@ + gen_block(stmts@, n, old(local_vars)@, global_types@).0,
        final(local_vars)@ == gen_block(stmts@, n, old(local_vars)@, global_types@).1,
    decreases stmts,
{
    let mut i: usize = 0;
    while i < stmts.len()
        invariant
            i <= stmts@.len(),
            ind@ == indent(n),
            code@ == old(code)@ + gen_block(stmts@.take(i as int), n, old(local_vars)@, global_types@).0,
            local_vars@ == gen_block(stmts@.take(i as int), n, old(local_vars)@, global_types@).1,
        decreases stmts@.len() - i,
    {
        assert(stmts@.take(i + 1).drop_last() =~= stmts@.take(i as int));
        generate_statement(&stmts[i], code, ind, Ghost(n), local_vars, global_types);
        i = i + 1;
    }
    assert(stmts@.take(stmts@.len() as int) =~= stmts@);
}

#[verifier::loop_isolation(false)]
#[verifier::rlimit(100)]
#[verifier::spinoff_prover]
fn generate_statement(
    stmt: &Statement,
    code: &mut String,
    ind: &String,
    Ghost(n): Ghost<nat>,
    local_vars: &mut NameSet,
    global_types: &TypeTable,
)
    requires
        ind@ == indent(n),
    ensures
        final(code)@ == old(code)@ + gen_stmt(*stmt, n, old(local_vars)@, global_types@).0,
        final(local_vars)@ == gen_stmt(*stmt, n, old(local_vars)@, global_types@).1,
    decreases stmt,
{
    match stmt {
        Statement::VariableDeclaration { ty, name, initializer } => {
            push_var_stmt(code, *ty, name, initializer, ind, local_vars, global_types);
        },
        Statement::ArrayDeclaration { ty, size, name, initializer } => {
            local_vars.insert(name.clone());
            push_array_decl(code, *ty, size, name, initializer, ind, local_vars, global_types);
        },
        Statement::Expression(e) => {
            let t = generate_expression(e, local_vars, global_types);
            push_seq(code, ind);
            push_seq(code, &t);
            code.append(";\n");
        },
        Statement::Loop(body) => {
            let ii = deeper(ind, Ghost(n));
            push_seq(code, ind);
            code.append("while(1) {\n");
            push_seq(code, &ii);
            code.append("ScopeNode* loop_scope = current_scope;\n");
            let mut loop_vars = local_vars.copy();
            generate_statements(body, code, &ii, Ghost(n + 1), &mut loop_vars, global_types);
            push_seq(code, &ii);
            code.append("current_scope = loop_scope;\n");
            push_seq(code, ind);
            code.append("}\n");
        },
        Statement::TryCatch { try_body, catch_clauses } => {
            let ii = deeper(ind, Ghost(n));
            let iii = deeper(&ii, Ghost(n + 1));
            let iiii = deeper(&iii, Ghost(n + 2));
            push_try_head(code, ind, &ii);
            let mut try_vars = local_vars.copy();
            generate_statements(try_body, code, &iii, Ghost(n + 2), &mut try_vars, global_types);
            push_try_middle(code, &ii);
            let ghost before = code@;
            let mut i: usize = 0;
            while i < catch_clauses.len()
                invariant
                    i <= catch_clauses@.len(),
                    code@ == before + gen_catches(catch_clauses@.take(i as int), n, local_vars@, global_types@),
                decreases catch_clauses@.len() - i,
            {
                push_catch_head(code, &ii, i == 0, catch_clauses[i].exception_code);
                let mut catch_vars = local_vars.copy();
                generate_statements(&catch_clauses[i].body, code, &iiii, Ghost(n + 3), &mut catch_vars, global_types);
                push_seq(code, &ii);
                code.append("    }\n");
                assert(catch_clauses@.take(i + 1).drop_last() =~= catch_clauses@.take(i as int));
                i = i + 1;
            }
            assert(catch_clauses@.take(catch_clauses@.len() as int) =~= catch_clauses@);
            push_try_tail(code, ind, &ii);
        },
        Statement::Throw { exception_code, condition } => {
            let t = generate_expression(condition, local_vars, global_types);
            push_throw(code, *exception_code, &t, ind);
        },
        Statement::FunctionDeclaration { .. } => {},
    }
}

// ---------------------------------------------------------------------------
// A whole program.

/// `s` without the `$` signs it starts with.
pub open spec fn trim_dollars(s: Seq<char>) -> Seq<char>
    decreases s.len(),
{
    if s.len() > 0 && s[0] == '$' {
        trim_dollars(s.drop_first())
    } else {
        s
    }
}

/// The parameters of a function in C, separated by commas; in a forward
/// declaration (`trim`) each name without its leading `$` signs.
pub open spec fn param_list(ps: Seq<(Type, String)>, trim: bool) -> Seq<char>
    decreases ps.len(),
{
    if ps.len() == 0 {
        Seq::empty()
    } else {
        let p = ps.last();
        let one = c_type(p.0) + " v_"@ + (if trim {
            trim_dollars(p.1@)
        } else {
            p.1@
        });
        if ps.len() == 1 {
            one
        } else {
            param_list(ps.drop_last(), trim) + ", "@ + one
        }
    }
}

/// The head of a function in C up to its parameters' closing bracket.
pub open spec fn fn_head(ret_type: Type, name: Seq<char>, params: Seq<(Type, String)>, trim: bool) -> Seq<char> {
    c_type(ret_type) + " f_"@ + name + "("@ + (if params.len() == 0 {
        "void"@
    } else {
        param_list(params, trim)
    }) + ")"@
}

/// The forward declarations of the functions of a program.
pub open spec fn fwd_decls(p: Seq<Statement>) -> Seq<char>
    decreases p.len(),
{
    if p.len() == 0 {
        Seq::empty()
    } else {
        fwd_decls(p.drop_last()) + match p.last() {
            Statement::FunctionDeclaration { ret_type, name, params, .. } => fn_head(ret_type, name@, params@, true)
                + ";\n"@,
            _ => Seq::empty(),
        }
    }
}

/// The names of a function's parameters.
pub open spec fn param_names(ps: Seq<(Type, String)>) -> Set<Seq<char>>
    decreases ps.len(),
{
    if ps.len() == 0 {
        Set::empty()
    } else {
        param_names(ps.drop_last()).insert(ps.last().1@)
    }
}

/// The lines that put the parameters on the chain of dynamic scopes.
pub open spec fn param_nodes(ps: Seq<(Type, String)>) -> Seq<char>
    decreases ps.len(),
{
    if ps.len() == 0 {
        Seq::empty()
    } else {
        param_nodes(ps.drop_last()) + scope_node("    "@, ps.last().1@, true)
    }
}

/// A function's definition in C.
pub open spec fn fn_impl(
    ret_type: Type,
    name: Seq<char>,
    params: Seq<(Type, String)>,
    body: Seq<Statement>,
    types: Seq<(Seq<char>, Type)>,
) -> Seq<char> {
    fn_head(ret_type, name, params, false) + " {\n"@ + "    ScopeNode* prev_scope = current_scope;\n"@ + param_nodes(params)
        + "    "@ + c_type(ret_type) + " v_"@ + name + " = 0;\n"@ + scope_node("    "@, name, true) + fn_body(
        name,
        params,
        body,
        types,
    ) + "    current_scope = prev_scope;\n"@ + "    return v_"@ + name + ";\n"@ + "}\n\n"@
}

/// The statements of a function's body, with its parameters and its result
/// variable as locals.
#[verifier::opaque]
pub open spec fn fn_body(
    name: Seq<char>,
    params: Seq<(Type, String)>,
    body: Seq<Statement>,
    types: Seq<(Seq<char>, Type)>,
) -> Seq<char> {
    gen_block(body, 1, param_names(params).insert(name), types).0
}

/// The definitions of the functions of a program.
pub open spec fn fn_impls(p: Seq<Statement>, types: Seq<(Seq<char>, Type)>) -> Seq<char>
    decreases p.len(),
{
    if p.len() == 0 {
        Seq::empty()
    } else {
        fn_impls(p.drop_last(), types) + match p.last() {
            Statement::FunctionDeclaration { ret_type, name, params, body } => fn_impl(
                ret_type,
                name@,
                params@,
                body@,
                types,
            ),
            _ => Seq::empty(),
        }
    }
}

/// The C program for a program: the runtime, forward declarations, the
/// functions, and a `main` that runs the top level and returns what
/// `f_main` returns.
pub open spec fn gen_program(p: Seq<Statement>) -> Seq<char> {
    let types = types_in_all(p);
    RUNTIME@ + fwd_decls(p) + "\n"@ + fn_impls(p, types) + "int main() {\n"@ + gen_block(p, 1, Set::empty(), types).0
        + main_tail(stmts_call(p, "main"@))
}

/// The end of the C `main`: it calls `f_main` for the exit code, unless the
/// top level of the program calls `#main` itself.
pub open spec fn main_tail(top_calls_main: bool) -> Seq<char> {
    if top_calls_main {
        "    return 0;\n"@ + "}\n"@
    } else {
        "    int32_t ret = f_main();\n"@ + "    return (int)ret;\n"@ + "}\n"@
    }
}

fn trimmed(name: &String) -> (r: String)
    ensures
        r@ == trim_dollars(name@),
{
    let cs = chars_of(name.as_str());
    let mut i: usize = 0;
    assert(cs@.subrange(0, cs@.len() as int) =~= cs@);
    while i < cs.len() && cs[i] == '$'
        invariant
            i <= cs@.len(),
            cs@ == name@,
            trim_dollars(name@) == trim_dollars(cs@.subrange(i as int, cs@.len() as int)),
        decreases cs@.len() - i,
    {
        assert(cs@.subrange(i as int, cs@.len() as int).drop_first() =~= cs@.subrange(i + 1, cs@.len() as int));
        i = i + 1;
    }
    let mut r = String::new();
    let mut k: usize = i;
    while k < cs.len()
        invariant
            i <= k <= cs@.len(),
            r@ =~= cs@.subrange(i as int, k as int),
        decreases cs@.len() - k,
    {
        push_char(&mut r, cs[k]);
        k = k + 1;
    }
    r
}

fn push_params(code: &mut String, params: &Vec<(Type, String)>, trim: bool)
    ensures
        final(code)@ == old(code)@ + param_list(params@, trim),
{
    let mut i: usize = 0;
    while i < params.len()
        invariant
            i <= params@.len(),
            code@ == old(code)@ + param_list(params@.take(i as int), trim),
        decreases params@.len() - i,
    {
        let ghost c0 = code@;
        if i > 0 {
            code.append(", ");
        }
        code.append(type_to_c(params[i].0));
        code.append(" v_");
        if trim {
            let t = trimmed(&params[i].1);
            push_seq(code, &t);
        } else {
            push_seq(code, &params[i].1);
        }
        assert(params@.take(i + 1).drop_last() =~= params@.take(i as int));
        assert(params@.take(i + 1).last() == params@[i as int]);
        assert(code@ =~= old(code)@ + param_list(params@.take(i + 1), trim));
        i = i + 1;
    }
    assert(params@.take(params@.len() as int) =~= params@);
}

fn push_fn_head(code: &mut String, ret_type: Type, name: &String, params: &Vec<(Type, String)>, trim: bool)
    ensures
        final(code)@ == old(code)@ + fn_head(ret_type, name@, params@, trim),
{
    let ghost c0 = code@;
    code.append(type_to_c(ret_type));
    code.append(" f_");
    push_seq(code, name);
    code.append("(");
    if params.len() == 0 {
        code.append("void");
    } else {
        push_params(code, params, trim);
    }
    code.append(")");
    assert(code@ =~= c0 + fn_head(ret_type, name@, params@, trim));
}

fn push_fn_body(
    code: &mut String,
    name: &String,
    params: &Vec<(Type, String)>,
    body: &Vec<Statement>,
    global_types: &TypeTable,
)
    ensures
        final(code)@ == old(code)@ + fn_body(name@, params@, body@, global_types@),
{
    let mut local_vars = NameSet::new();
    let mut j: usize = 0;
    while j < params.len()
        invariant
            j <= params@.len(),
            local_vars@ == param_names(params@.take(j as int)),
        decreases params@.len() - j,
    {
        local_vars.insert(params[j].1.clone());
        assert(params@.take(j + 1).drop_last() =~= params@.take(j as int));
        j = j + 1;
    }
    assert(params@.take(params@.len() as int) =~= params@);
    local_vars.insert(name.clone());
    let four = crate::text::string_of("    ");
    assert(indent(0) =~= Seq::<char>::empty());
    assert(indent(1) == indent(0) + "    "@);
    assert(indent(1) =~= "    "@);
    generate_statements(body, code, &four, Ghost(1nat), &mut local_vars, global_types);
    proof {
        reveal(fn_body);
    }
}

#[verifier::rlimit(40)]
#[verifier::spinoff_prover]
fn push_fn_impl(
    code: &mut String,
    ret_type: Type,
    name: &String,
    params: &Vec<(Type, String)>,
    body: &Vec<Statement>,
    global_types: &TypeTable,
)
    ensures
        final(code)@ == old(code)@ + fn_impl(ret_type, name@, params@, body@, global_types@),
{
    let ghost c0 = code@;
    push_fn_head(code, ret_type, name, params, false);
    code.append(" {\n");
    code.append("    ScopeNode* prev_scope = current_scope;\n");
    let ghost c1 = code@;
    assert(c1 =~= c0 + fn_head(ret_type, name@, params@, false) + " {\n"@ + "    ScopeNode* prev_scope = current_scope;\n"@);
    let four = crate::text::string_of("    ");
    let mut i: usize = 0;
    while i < params.len()
        invariant
            i <= params@.len(),
            four@ == "    "@,
            code@ == c1 + param_nodes(params@.take(i as int)),
        decreases params@.len() - i,
    {
        push_scope_node(code, &four, &params[i].1, true);
        assert(params@.take(i + 1).drop_last() =~= params@.take(i as int));
        i = i + 1;
    }
    assert(params@.take(params@.len() as int) =~= params@);
    code.append("    ");
    code.append(type_to_c(ret_type));
    code.append(" v_");
    push_seq(code, name);
    code.append(" = 0;\n");
    push_scope_node(code, &four, name, true);
    let ghost c2 = code@;
    assert(c2 =~= c1 + param_nodes(params@) + "    "@ + c_type(ret_type) + " v_"@ + name@ + " = 0;\n"@ + scope_node(
        "    "@,
        name@,
        true,
    ));
    push_fn_body(code, name, params, body, global_types);
    let ghost c3 = code@;
    code.append("    current_scope = prev_scope;\n");
    code.append("    return v_");
    push_seq(code, name);
    code.append(";\n");
    code.append("}\n\n");
    assert(code@ =~= c0 + fn_impl(ret_type, name@, params@, body@, global_types@));
}

/// The C program for `program`.
pub fn generate_c(program: &Program) -> (r: String)
    ensures
        r@ == gen_program(program@),
{
    let mut code = String::new();
    let mut global_types = TypeTable::new();
    let mut i: usize = 0;
    while i < program.len()
        invariant
            i <= program@.len(),
            global_types@ == types_in_all(program@.take(i as int)),
        decreases program@.len() - i,
    {
        assert(program@.take(i + 1).drop_last() =~= program@.take(i as int));
        collect_types(&program[i], &mut global_types);
        i = i + 1;
    }
    assert(program@.take(program@.len() as int) =~= program@);
    code.append(RUNTIME);
    let ghost c1 = code@;
    let mut i: usize = 0;
    while i < program.len()
        invariant
            i <= program@.len(),
            code@ == c1 + fwd_decls(program@.take(i as int)),
        decreases program@.len() - i,
    {
        assert(program@.take(i + 1).drop_last() =~= program@.take(i as int));
        match &program[i] {
            Statement::FunctionDeclaration { ret_type, name, params, .. } => {
                push_fn_head(&mut code, *ret_type, name, params, true);
                code.append(";\n");
            },
            _ => {},
        }
        i = i + 1;
    }
    assert(program@.take(program@.len() as int) =~= program@);
    code.append("\n");
    let ghost c2 = code@;
    let mut i: usize = 0;
    while i < program.len()
        invariant
            i <= program@.len(),
            code@ == c2 + fn_impls(program@.take(i as int), global_types@),
        decreases program@.len() - i,
    {
        assert(program@.take(i + 1).drop_last() =~= program@.take(i as int));
        match &program[i] {
            Statement::FunctionDeclaration { ret_type, name, params, body } => {
                push_fn_impl(&mut code, *ret_type, name, params, body, &global_types);
            },
            _ => {},
        }
        i = i + 1;
    }
    assert(program@.take(program@.len() as int) =~= program@);
    code.append("int main() {\n");
    let ghost c3 = code@;
    let four = crate::text::string_of("    ");
    assert(indent(0) =~= Seq::<char>::empty());
    assert(indent(1) == indent(0) + "    "@);
    assert(indent(1) =~= "    "@);
    let mut main_locals = NameSet::new();
    generate_statements(program, &mut code, &four, Ghost(1nat), &mut main_locals, &global_types);
    let main_name = crate::text::string_of("main");
    if crate::ast::statements_call(program, &main_name) {
        code.append("    return 0;\n");
    } else {
        code.append("    int32_t ret = f_main();\n");
        code.append("    return (int)ret;\n");
    }
    code.append("}\n");
    assert(code@ =~= gen_program(program@));
    code
}

} // verus!
