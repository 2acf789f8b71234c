//! The static check of functions: a variable that is read is consumed and
//! cannot be read again until it is assigned or declared anew; variables of
//! outer functions cannot be assigned; functions cannot be nested.
use vstd::prelude::*;
use crate::ast::{Type, Expression, UnaryOperator, BinaryOperator, Statement, ArraySize, CatchClause, Program};
use crate::names::NameSet;
use crate::text::{push_seq, string_of};

verus! {

/// The scopes of declared names, innermost last.
pub type DeclModel = Seq<Set<Seq<char>>>;

/// `d` without its innermost scope.
pub open spec fn pop_scope_of(d: DeclModel) -> DeclModel {
    if d.len() == 0 {
        d
    } else {
        d.drop_last()
    }
}

/// Whether `name` is declared in one of the scopes.
pub open spec fn is_declared_in(name: Seq<char>, d: DeclModel) -> bool {
    exists|i: int| 0 <= i < d.len() && #[trigger] d[i].contains(name)
}

/// `d` with `name` declared in its innermost scope.
pub open spec fn declare_in(d: DeclModel, name: Seq<char>) -> DeclModel {
    if d.len() == 0 {
        d
    } else {
        d.update(d.len() - 1, d.last().insert(name))
    }
}

/// A read of `name`: a declared name that was consumed is an error, and is
/// consumed by the read; other names belong to outer functions and are not.
pub open spec fn an_read(name: Seq<char>, d: DeclModel, c: Set<Seq<char>>) -> Result<Set<Seq<char>>, Seq<char>> {
    if is_declared_in(name, d) {
        if c.contains(name) {
            Err("Variable '"@ + name + "' is used after being consumed."@)
        } else {
            Ok(c.insert(name))
        }
    } else {
        Ok(c)
    }
}

/// The consumed names after the expression `e`, or the error it holds.
pub open spec fn an_expr(e: Expression, d: DeclModel, c: Set<Seq<char>>) -> Result<Set<Seq<char>>, Seq<char>>
    decreases e, 0int,
{
    match e {
        Expression::HexLiteral(_, _) => Ok(c),
        Expression::Variable(n) => an_read(n@, d, c),
        Expression::ArrayElement(n, idx) => match an_expr(*idx, d, c) {
            Err(m) => Err(m),
            Ok(c1) => if is_declared_in(n@, d) && c1.contains(n@) {
                Err("Cannot access array '"@ + n@ + "' because it might be fully consumed."@)
            } else {
                Ok(c1)
            },
        },
        Expression::BinaryOp(op, l, r) => if op == BinaryOperator::Assign {
            match an_expr(*r, d, c) {
                Err(m) => Err(m),
                Ok(c1) => match *l {
                    Expression::Variable(n) => if !is_declared_in(n@, d) {
                        Err("Cannot assign to dynamically scoped variable '"@ + n@ + "' (Read-Only)"@)
                    } else {
                        Ok(c1.remove(n@))
                    },
                    Expression::ArrayElement(n, idx) => match an_expr(*idx, d, c1) {
                        Err(m) => Err(m),
                        Ok(c2) => if !is_declared_in(n@, d) {
                            Err("Cannot assign to dynamically scoped array '"@ + n@ + "' (Read-Only)"@)
                        } else {
                            Ok(c2)
                        },
                    },
                    _ => Ok(c1),
                },
            }
        } else {
            match an_expr(*l, d, c) {
                Err(m) => Err(m),
                Ok(c1) => an_expr(*r, d, c1),
            }
        },
        Expression::UnaryOp(op, inner) => if op == UnaryOperator::Exists && (*inner) is Variable {
            Ok(c)
        } else {
            an_expr(*inner, d, c)
        },
        Expression::FunctionCall(_, args) => an_exprs(args@, 0, d, c),
    }
}

/// The expressions `es[i..]` in order.
pub open spec fn an_exprs(es: Seq<Expression>, i: int, d: DeclModel, c: Set<Seq<char>>) -> Result<Set<Seq<char>>, Seq<char>>
    decreases es, es.len() - i,
{
    if i < 0 || i >= es.len() {
        Ok(c)
    } else {
        match an_expr(es[i], d, c) {
            Err(m) => Err(m),
            Ok(c1) => an_exprs(es, i + 1, d, c1),
        }
    }
}

/// The scopes and consumed names after the statement `s`, or its error.
pub open spec fn an_stmt(s: Statement, d: DeclModel, c: Set<Seq<char>>) -> Result<(DeclModel, Set<Seq<char>>), Seq<char>>
    decreases s, 0int,
{
    match s {
        Statement::VariableDeclaration { name, initializer, .. } => {
            let r = match initializer {
                Some(e) => an_expr(e, d, c),
                None => Ok(c),
            };
            match r {
                Err(m) => Err(m),
                Ok(c1) => Ok((declare_in(d, name@), c1.remove(name@))),
            }
        },
        Statement::ArrayDeclaration { name, initializer, size, .. } => {
            let r = match size {
                ArraySize::Variable(v) => an_read(v@, d, c),
                ArraySize::Literal(_) => Ok(c),
            };
            match r {
                Err(m) => Err(m),
                Ok(c1) => {
                    let r2 = match initializer {
                        Some(v) => an_exprs(v@, 0, d, c1),
                        None => Ok(c1),
                    };
                    match r2 {
                        Err(m) => Err(m),
                        Ok(c2) => Ok((declare_in(d, name@), c2.remove(name@))),
                    }
                },
            }
        },
        Statement::Expression(e) => match an_expr(e, d, c) {
            Err(m) => Err(m),
            Ok(c1) => Ok((d, c1)),
        },
        Statement::Loop(body) => match an_stmts(body@, 0, d.push(Set::empty()), c) {
            Err(m) => Err(m),
            Ok((d1, c1)) => Ok((pop_scope_of(d1), c1)),
        },
        Statement::TryCatch { try_body, catch_clauses } => match an_stmts(try_body@, 0, d.push(Set::empty()), c) {
            Err(m) => Err(m),
            Ok((d1, c1)) => an_catches(catch_clauses@, 0, pop_scope_of(d1), c, c1),
        },
        Statement::Throw { condition, .. } => match an_expr(condition, d, c) {
            Err(m) => Err(m),
            Ok(c1) => Ok((d, c1)),
        },
        Statement::FunctionDeclaration { name, .. } => Err(
            "Syntax Error: Function declaration '"@ + name@ + "' is prohibited inside a function."@,
        ),
    }
}

/// The statements `stmts[i..]` in order.
pub open spec fn an_stmts(stmts: Seq<Statement>, i: int, d: DeclModel, c: Set<Seq<char>>) -> Result<(DeclModel, Set<Seq<char>>), Seq<char>>
    decreases stmts, stmts.len() - i,
{
    if i < 0 || i >= stmts.len() {
        Ok((d, c))
    } else {
        match an_stmt(stmts[i], d, c) {
            Err(m) => Err(m),
            Ok((d1, c1)) => an_stmts(stmts, i + 1, d1, c1),
        }
    }
}

/// The catch clauses `cs[i..]`, each from the names consumed before the
/// `try` (`c`); what any branch consumes is consumed after it (`acc`).
pub open spec fn an_catches(
    cs: Seq<CatchClause>,
    i: int,
    d: DeclModel,
    c: Set<Seq<char>>,
    acc: Set<Seq<char>>,
) -> Result<(DeclModel, Set<Seq<char>>), Seq<char>>
    decreases cs, cs.len() - i,
{
    if i < 0 || i >= cs.len() {
        Ok((d, acc))
    } else {
        match an_stmts(cs[i].body@, 0, d.push(Set::empty()), c) {
            Err(m) => Err(m),
            Ok((d2, c2)) => an_catches(cs, i + 1, pop_scope_of(d2), c, acc.union(c2)),
        }
    }
}

/// The check of one function: its parameters and its result variable are
/// declared, nothing is consumed yet.
pub open spec fn an_function(name: Seq<char>, params: Seq<(Type, String)>, body: Seq<Statement>) -> Result<(), Seq<char>> {
    match an_stmts(body, 0, seq![param_name_set(params).insert(name)], Set::empty()) {
        Err(m) => Err(m),
        Ok(_) => Ok(()),
    }
}

pub open spec fn param_name_set(ps: Seq<(Type, String)>) -> Set<Seq<char>>
    decreases ps.len(),
{
    if ps.len() == 0 {
        Set::empty()
    } else {
        param_name_set(ps.drop_last()).insert(ps.last().1@)
    }
}

/// The check of a program: each function declared at its top level, in
/// order; the first error found.
pub open spec fn an_program(p: Seq<Statement>) -> Result<(), Seq<char>>
    decreases p.len(),
{
    if p.len() == 0 {
        Ok(())
    } else {
        match an_program(p.drop_last()) {
            Err(m) => Err(m),
            Ok(_) => match p.last() {
                Statement::FunctionDeclaration { name, params, body, .. } => an_function(name@, params@, body@),
                _ => Ok(()),
            },
        }
    }
}

pub open spec fn decl_view(d: Seq<NameSet>) -> DeclModel {
    d.map_values(|s: NameSet| s@)
}

pub open spec fn str_result(r: Result<(), String>) -> Result<(), Seq<char>> {
    match r {
        Ok(u) => Ok(u),
        Err(s) => Err(s@),
    }
}

fn message(a: &str, name: &String, b: &str) -> (r: String)
    ensures
        r@ == a@ + name@ + b@,
{
    let mut r = string_of(a);
    push_seq(&mut r, name);
    r.append(b);
    r
}

fn is_declared(name: &String, declared: &Vec<NameSet>) -> (r: bool)
    ensures
        r == is_declared_in(name@, decl_view(declared@)),
{
    let mut i: usize = declared.len();
    while i > 0
        invariant
            i <= declared@.len(),
            forall|j: int| i <= j < declared@.len() ==> !declared@[j]@.contains(name@),
        decreases i,
    {
        if declared[i - 1].contains(name) {
            assert(decl_view(declared@)[i - 1].contains(name@));
            return true;
        }
        i = i - 1;
    }
    assert(!is_declared_in(name@, decl_view(declared@)));
    false
}

fn analyze_variable_read(name: &String, declared: &Vec<NameSet>, consumed: &mut NameSet) -> (r: Result<(), String>)
    ensures
        match an_read(name@, decl_view(declared@), old(consumed)@) {
            Ok(c) => r is Ok && final(consumed)@ == c,
            Err(m) => r matches Err(s) && s@ == m,
        },
{
    if is_declared(name, declared) {
        if consumed.contains(name) {
            return Err(message("Variable '", name, "' is used after being consumed."));
        }
        consumed.insert(name.clone());
    }
    Ok(())
}

#[verifier::loop_isolation(false)]
fn analyze_expression(expr: &Expression, declared: &Vec<NameSet>, consumed: &mut NameSet) -> (r: Result<(), String>)
    ensures
        match an_expr(*expr, decl_view(declared@), old(consumed)@) {
            Ok(c) => r is Ok && final(consumed)@ == c,
            Err(m) => r matches Err(s) && s@ == m,
        },
    decreases expr,
{
    match expr {
        Expression::HexLiteral(_, _) => Ok(()),
        Expression::Variable(name) => analyze_variable_read(name, declared, consumed),
        Expression::ArrayElement(name, idx) => {
            match analyze_expression(idx, declared, consumed) {
                Err(m) => {
                    return Err(m);
                },
                Ok(()) => {},
            }
            if is_declared(name, declared) && consumed.contains(name) {
                return Err(message("Cannot access array '", name, "' because it might be fully consumed."));
            }
            Ok(())
        },
        Expression::BinaryOp(op, left, right) => {
            if *op == BinaryOperator::Assign {
                match analyze_expression(right, declared, consumed) {
                    Err(m) => {
                        return Err(m);
                    },
                    Ok(()) => {},
                }
                match &**left {
                    Expression::Variable(name) => {
                        if !is_declared(name, declared) {
                            return Err(
                                message("Cannot assign to dynamically scoped variable '", name, "' (Read-Only)"),
                            );
                        }
                        consumed.remove(name);
                        Ok(())
                    },
                    Expression::ArrayElement(name, idx) => {
                        match analyze_expression(idx, declared, consumed) {
                            Err(m) => {
                                return Err(m);
                            },
                            Ok(()) => {},
                        }
                        if !is_declared(name, declared) {
                            return Err(
                                message("Cannot assign to dynamically scoped array '", name, "' (Read-Only)"),
                            );
                        }
                        Ok(())
                    },
                    _ => Ok(()),
                }
            } else {
                match analyze_expression(left, declared, consumed) {
                    Err(m) => {
                        return Err(m);
                    },
                    Ok(()) => {},
                }
                analyze_expression(right, declared, consumed)
            }
        },
        Expression::UnaryOp(op, inner) => {
            if *op == UnaryOperator::Exists && matches!(**inner, Expression::Variable(_)) {
                Ok(())
            } else {
                analyze_expression(inner, declared, consumed)
            }
        },
        Expression::FunctionCall(_, args) => {
            let mut i: usize = 0;
            while i < args.len()
                invariant
                    i <= args@.len(),
                    an_exprs(args@, 0, decl_view(declared@), old(consumed)@) == an_exprs(
                        args@,
                        i as int,
                        decl_view(declared@),
                        consumed@,
                    ),
                decreases args@.len() - i,
            {
                match analyze_expression(&args[i], declared, consumed) {
                    Err(m) => {
                        return Err(m);
                    },
                    Ok(()) => {},
                }
                i = i + 1;
            }
            Ok(())
        },
    }
}

fn declare_name(declared: &mut Vec<NameSet>, name: &String)
    ensures
        decl_view(final(declared)@) == declare_in(decl_view(old(declared)@), name@),
{
    let n = declared.len();
    if n > 0 {
        declared[n - 1].insert(name.clone());
        assert(decl_view(declared@) =~= declare_in(decl_view(old(declared)@), name@));
    }
}

fn push_scope(declared: &mut Vec<NameSet>)
    ensures
        decl_view(final(declared)@) == decl_view(old(declared)@).push(Set::empty()),
{
    declared.push(NameSet::new());
    assert(decl_view(declared@) =~= decl_view(old(declared)@).push(Set::empty()));
}

fn pop_scope(declared: &mut Vec<NameSet>)
    ensures
        decl_view(final(declared)@) == pop_scope_of(decl_view(old(declared)@)),
{
    if declared.len() > 0 {
        let _ = declared.pop();
        assert(decl_view(declared@) =~= decl_view(old(declared)@).drop_last());
    }
}

#[verifier::loop_isolation(false)]
fn analyze_statements(stmts: &Vec<Statement>, declared: &mut Vec<NameSet>, consumed: &mut NameSet) -> (r: Result<
    (),
    String,
>)
    ensures
        match an_stmts(stmts@, 0, decl_view(old(declared)@), old(consumed)@) {
            Ok((d, c)) => r is Ok && decl_view(final(declared)@) == d && final(consumed)@ == c,
            Err(m) => r matches Err(s) && s@ == m,
        },
    decreases stmts,
{
    let mut i: usize = 0;
    while i < stmts.len()
        invariant
            i <= stmts@.len(),
            an_stmts(stmts@, 0, decl_view(old(declared)@), old(consumed)@) == an_stmts(
                stmts@,
                i as int,
                decl_view(declared@),
                consumed@,
            ),
        decreases stmts@.len() - i,
    {
        match analyze_statement(&stmts[i], declared, consumed) {
            Err(m) => {
                return Err(m);
            },
            Ok(()) => {},
        }
        i = i + 1;
    }
    Ok(())
}

#[verifier::loop_isolation(false)]
fn analyze_statement(stmt: &Statement, declared: &mut Vec<NameSet>, consumed: &mut NameSet) -> (r: Result<(), String>)
    ensures
        match an_stmt(*stmt, decl_view(old(declared)@), old(consumed)@) {
            Ok((d, c)) => r is Ok && decl_view(final(declared)@) == d && final(consumed)@ == c,
            Err(m) => r matches Err(s) && s@ == m,
        },
    decreases stmt,
{
    match stmt {
        Statement::VariableDeclaration { name, initializer, .. } => {
            match initializer {
                Some(e) => match analyze_expression(e, declared, consumed) {
                    Err(m) => {
                        return Err(m);
                    },
                    Ok(()) => {},
                },
                None => {},
            }
            declare_name(declared, name);
            consumed.remove(name);
            Ok(())
        },
        Statement::ArrayDeclaration { name, initializer, size, .. } => {
            match size {
                ArraySize::Variable(v) => match analyze_variable_read(v, declared, consumed) {
                    Err(m) => {
                        return Err(m);
                    },
                    Ok(()) => {},
                },
                ArraySize::Literal(_) => {},
            }
            match initializer {
                Some(list) => {
                    let ghost c1 = consumed@;
                    let mut i: usize = 0;
                    while i < list.len()
                        invariant
                            i <= list@.len(),
                            an_exprs(list@, 0, decl_view(declared@), c1) == an_exprs(
                                list@,
                                i as int,
                                decl_view(declared@),
                                consumed@,
                            ),
                        decreases list@.len() - i,
                    {
                        match analyze_expression(&list[i], declared, consumed) {
                            Err(m) => {
                                return Err(m);
                            },
                            Ok(()) => {},
                        }
                        i = i + 1;
                    }
                },
                None => {},
            }
            declare_name(declared, name);
            consumed.remove(name);
            Ok(())
        },
        Statement::Expression(e) => analyze_expression(e, declared, consumed),
        Statement::Loop(body) => {
            push_scope(declared);
            match analyze_statements(body, declared, consumed) {
                Err(m) => {
                    return Err(m);
                },
                Ok(()) => {},
            }
            pop_scope(declared);
            Ok(())
        },
        Statement::TryCatch { try_body, catch_clauses } => {
            let mut try_consumed = consumed.copy();
            push_scope(declared);
            match analyze_statements(try_body, declared, &mut try_consumed) {
                Err(m) => {
                    return Err(m);
                },
                Ok(()) => {},
            }
            pop_scope(declared);
            let mut i: usize = 0;
            while i < catch_clauses.len()
                invariant
                    i <= catch_clauses@.len(),
                    an_stmt(*stmt, decl_view(old(declared)@), old(consumed)@) == an_catches(
                        catch_clauses@,
                        i as int,
                        decl_view(declared@),
                        consumed@,
                        try_consumed@,
                    ),
                decreases catch_clauses@.len() - i,
            {
                let mut catch_consumed = consumed.copy();
                push_scope(declared);
                match analyze_statements(&catch_clauses[i].body, declared, &mut catch_consumed) {
                    Err(m) => {
                        return Err(m);
                    },
                    Ok(()) => {},
                }
                pop_scope(declared);
                try_consumed.extend(&catch_consumed);
                i = i + 1;
            }
            *consumed = try_consumed;
            Ok(())
        },
        Statement::Throw { condition, .. } => analyze_expression(condition, declared, consumed),
        Statement::FunctionDeclaration { name, .. } => Err(
            message("Syntax Error: Function declaration '", name, "' is prohibited inside a function."),
        ),
    }
}

fn analyze_function(func_name: &String, params: &Vec<(Type, String)>, body: &Vec<Statement>) -> (r: Result<(), String>)
    ensures
        str_result(r) == an_function(func_name@, params@, body@),
{
    let mut first = NameSet::new();
    let mut j: usize = 0;
    while j < params.len()
        invariant
            j <= params@.len(),
            first@ == param_name_set(params@.take(j as int)),
        decreases params@.len() - j,
    {
        first.insert(params[j].1.clone());
        assert(params@.take(j + 1).drop_last() =~= params@.take(j as int));
        j = j + 1;
    }
    assert(params@.take(params@.len() as int) =~= params@);
    first.insert(func_name.clone());
    let mut declared: Vec<NameSet> = Vec::new();
    declared.push(first);
    let mut consumed = NameSet::new();
    assert(decl_view(declared@) =~= seq![param_name_set(params@).insert(func_name@)]);
    match analyze_statements(body, &mut declared, &mut consumed) {
        Err(m) => Err(m),
        Ok(()) => Ok(()),
    }
}

/// Checks each function that the program declares at its top level, in
/// order, and gives the first error found.
pub fn analyze(program: &Program) -> (r: Result<(), String>)
    ensures
        str_result(r) == an_program(program@),
{
    let mut i: usize = 0;
    while i < program.len()
        invariant
            i <= program@.len(),
            an_program(program@.take(i as int)) == Ok::<(), Seq<char>>(()),
        decreases program@.len() - i,
    {
        assert(program@.take(i + 1).drop_last() =~= program@.take(i as int));
        match &program[i] {
            Statement::FunctionDeclaration { name, params, body, .. } => {
                match analyze_function(name, params, body) {
                    Err(m) => {
                        proof {
                            lemma_program_error(program@, i as int + 1);
                        }
                        return Err(m);
                    },
                    Ok(()) => {},
                }
            },
            _ => {},
        }
        i = i + 1;
    }
    assert(program@.take(program@.len() as int) =~= program@);
    Ok(())
}

/// An error in a prefix of a program is the program's error.
proof fn lemma_program_error(p: Seq<Statement>, k: int)
    requires
        0 <= k <= p.len(),
        an_program(p.take(k)) is Err,
    ensures
        an_program(p) == an_program(p.take(k)),
    decreases p.len() - k,
{
    if k < p.len() {
        assert(p.take(k + 1).drop_last() =~= p.take(k));
        lemma_program_error(p, k + 1);
    } else {
        assert(p.take(k) =~= p);
    }
}

} // verus!
