//! The syntax tree of a program, and its mathematical model: the same tree
//! with every `String` taken as its characters and every `Vec` as a `Seq`.
use vstd::prelude::*;
use crate::text::same_text;

verus! {

#[derive(Debug, Clone, Copy, PartialEq, Eq, Structural)]
pub enum Type {
    I8,
    U8,
    I16,
    U16,
    I32,
    U32,
    I64,
    U64,
}

#[derive(Debug, PartialEq)]
pub enum Expression {
    Variable(String),
    ArrayElement(String, Box<Expression>),
    /// (value, is_negative)
    HexLiteral(u64, bool),
    FunctionCall(String, Vec<Expression>),
    UnaryOp(UnaryOperator, Box<Expression>),
    BinaryOp(BinaryOperator, Box<Expression>, Box<Expression>),
}

#[derive(Debug, Clone, Copy, PartialEq, Eq, Structural)]
pub enum UnaryOperator {
    /// `~`
    BitwiseNot,
    /// `?`
    Exists,
}

#[derive(Debug, Clone, Copy, PartialEq, Eq, Structural)]
pub enum BinaryOperator {
    /// `<<`
    ShiftLeft,
    /// `>>`
    ShiftRight,
    /// `&`
    BitwiseAnd,
    /// `|`
    BitwiseOr,
    /// `+`
    Add,
    /// `-`
    Sub,
    /// `<`
    LessThan,
    /// `>`
    GreaterThan,
    /// `=` as a comparison
    Equal,
    /// `=` as an assignment
    Assign,
}

#[derive(Debug, PartialEq)]
pub enum Statement {
    VariableDeclaration { ty: Type, name: String, initializer: Option<Expression> },
    ArrayDeclaration {
        ty: Type,
        size: ArraySize,
        name: String,
        initializer: Option<Vec<Expression>>,
    },
    FunctionDeclaration {
        ret_type: Type,
        name: String,
        params: Vec<(Type, String)>,
        body: Vec<Statement>,
    },
    Expression(Expression),
    Loop(Vec<Statement>),
    TryCatch { try_body: Vec<Statement>, catch_clauses: Vec<CatchClause> },
    Throw { exception_code: u64, condition: Expression },
}

#[derive(Debug, Clone, PartialEq)]
pub enum ArraySize {
    Variable(String),
    Literal(u64),
}

#[derive(Debug, PartialEq)]
pub struct CatchClause {
    pub exception_code: u64,
    pub body: Vec<Statement>,
}

pub type Program = Vec<Statement>;

// ---------------------------------------------------------------------------
// The model of the tree.
pub enum ExprModel {
    Variable(Seq<char>),
    ArrayElement(Seq<char>, Box<ExprModel>),
    HexLiteral(u64, bool),
    FunctionCall(Seq<char>, Seq<ExprModel>),
    UnaryOp(UnaryOperator, Box<ExprModel>),
    BinaryOp(BinaryOperator, Box<ExprModel>, Box<ExprModel>),
}

pub enum SizeModel {
    Variable(Seq<char>),
    Literal(u64),
}

pub enum StmtModel {
    VariableDeclaration { ty: Type, name: Seq<char>, initializer: Option<ExprModel> },
    ArrayDeclaration {
        ty: Type,
        size: SizeModel,
        name: Seq<char>,
        initializer: Option<Seq<ExprModel>>,
    },
    FunctionDeclaration {
        ret_type: Type,
        name: Seq<char>,
        params: Seq<(Type, Seq<char>)>,
        body: Seq<StmtModel>,
    },
    Expression(ExprModel),
    Loop(Seq<StmtModel>),
    TryCatch { try_body: Seq<StmtModel>, catch_clauses: Seq<(u64, Seq<StmtModel>)> },
    Throw { exception_code: u64, condition: ExprModel },
}

pub open spec fn expr_model(e: Expression) -> ExprModel
    decreases e,
{
    match e {
        Expression::Variable(n) => ExprModel::Variable(n@),
        Expression::ArrayElement(n, i) => ExprModel::ArrayElement(n@, Box::new(expr_model(*i))),
        Expression::HexLiteral(v, neg) => ExprModel::HexLiteral(v, neg),
        Expression::FunctionCall(n, args) => ExprModel::FunctionCall(n@, exprs_model(args@)),
        Expression::UnaryOp(op, a) => ExprModel::UnaryOp(op, Box::new(expr_model(*a))),
        Expression::BinaryOp(op, a, b) => ExprModel::BinaryOp(
            op,
            Box::new(expr_model(*a)),
            Box::new(expr_model(*b)),
        ),
    }
}

pub open spec fn exprs_model(s: Seq<Expression>) -> Seq<ExprModel>
    decreases s,
{
    if s.len() == 0 {
        Seq::empty()
    } else {
        exprs_model(s.drop_last()).push(expr_model(s.last()))
    }
}

pub open spec fn params_model(s: Seq<(Type, String)>) -> Seq<(Type, Seq<char>)> {
    s.map_values(|p: (Type, String)| (p.0, p.1@))
}

pub open spec fn size_model(s: ArraySize) -> SizeModel {
    match s {
        ArraySize::Variable(n) => SizeModel::Variable(n@),
        ArraySize::Literal(v) => SizeModel::Literal(v),
    }
}

pub open spec fn stmt_model(s: Statement) -> StmtModel
    decreases s,
{
    match s {
        Statement::VariableDeclaration { ty, name, initializer } => StmtModel::VariableDeclaration {
            ty,
            name: name@,
            initializer: match initializer {
                Some(e) => Some(expr_model(e)),
                None => None,
            },
        },
        Statement::ArrayDeclaration { ty, size, name, initializer } => StmtModel::ArrayDeclaration {
            ty,
            size: size_model(size),
            name: name@,
            initializer: match initializer {
                Some(v) => Some(exprs_model(v@)),
                None => None,
            },
        },
        Statement::FunctionDeclaration { ret_type, name, params, body } =>
            StmtModel::FunctionDeclaration {
                ret_type,
                name: name@,
                params: params_model(params@),
                body: stmts_model(body@),
            },
        Statement::Expression(e) => StmtModel::Expression(expr_model(e)),
        Statement::Loop(body) => StmtModel::Loop(stmts_model(body@)),
        Statement::TryCatch { try_body, catch_clauses } => StmtModel::TryCatch {
            try_body: stmts_model(try_body@),
            catch_clauses: catches_model(catch_clauses@),
        },
        Statement::Throw { exception_code, condition } => StmtModel::Throw {
            exception_code,
            condition: expr_model(condition),
        },
    }
}

pub open spec fn stmts_model(s: Seq<Statement>) -> Seq<StmtModel>
    decreases s,
{
    if s.len() == 0 {
        Seq::empty()
    } else {
        stmts_model(s.drop_last()).push(stmt_model(s.last()))
    }
}

pub open spec fn catches_model(s: Seq<CatchClause>) -> Seq<(u64, Seq<StmtModel>)>
    decreases s,
{
    if s.len() == 0 {
        Seq::empty()
    } else {
        catches_model(s.drop_last()).push((s.last().exception_code, stmts_model(s.last().body@)))
    }
}

impl View for Expression {
    type V = ExprModel;

    open spec fn view(&self) -> ExprModel {
        expr_model(*self)
    }
}

impl View for Statement {
    type V = StmtModel;

    open spec fn view(&self) -> StmtModel {
        stmt_model(*self)
    }
}


/// The model of a sequence with one more expression at its end.
pub proof fn lemma_exprs_push(s: Seq<Expression>, e: Expression)
    ensures
        exprs_model(s.push(e)) == exprs_model(s).push(expr_model(e)),
{
    assert(s.push(e).drop_last() =~= s);
}

/// The model of a sequence with one more statement at its end.
pub proof fn lemma_stmts_push(s: Seq<Statement>, x: Statement)
    ensures
        stmts_model(s.push(x)) == stmts_model(s).push(stmt_model(x)),
{
    assert(s.push(x).drop_last() =~= s);
}

/// The model of a sequence with one more `catch` clause at its end.
pub proof fn lemma_catches_push(s: Seq<CatchClause>, c: CatchClause)
    ensures
        catches_model(s.push(c)) == catches_model(s).push((c.exception_code, stmts_model(c.body@))),
{
    assert(s.push(c).drop_last() =~= s);
}

// ---------------------------------------------------------------------------
// Calls written in a program.

/// Whether `e` calls the function `name` somewhere in it.
pub open spec fn expr_calls(e: Expression, name: Seq<char>) -> bool
    decreases e,
{
    match e {
        Expression::ArrayElement(_, i) => expr_calls(*i, name),
        Expression::FunctionCall(n, args) => n@ == name || exprs_call(args@, name),
        Expression::UnaryOp(_, a) => expr_calls(*a, name),
        Expression::BinaryOp(_, a, b) => expr_calls(*a, name) || expr_calls(*b, name),
        _ => false,
    }
}

pub open spec fn exprs_call(s: Seq<Expression>, name: Seq<char>) -> bool
    decreases s,
{
    if s.len() == 0 {
        false
    } else {
        exprs_call(s.drop_last(), name) || expr_calls(s.last(), name)
    }
}

/// Whether the statement `s` calls the function `name` in its own
/// expressions or in its nested blocks; the body of a function that it
/// declares does not count.
pub open spec fn stmt_calls(s: Statement, name: Seq<char>) -> bool
    decreases s,
{
    match s {
        Statement::VariableDeclaration { initializer, .. } => match initializer {
            Some(e) => expr_calls(e, name),
            None => false,
        },
        Statement::ArrayDeclaration { initializer, .. } => match initializer {
            Some(v) => exprs_call(v@, name),
            None => false,
        },
        Statement::FunctionDeclaration { .. } => false,
        Statement::Expression(e) => expr_calls(e, name),
        Statement::Loop(body) => stmts_call(body@, name),
        Statement::TryCatch { try_body, catch_clauses } => stmts_call(try_body@, name) || catches_call(
            catch_clauses@,
            name,
        ),
        Statement::Throw { condition, .. } => expr_calls(condition, name),
    }
}

pub open spec fn stmts_call(s: Seq<Statement>, name: Seq<char>) -> bool
    decreases s,
{
    if s.len() == 0 {
        false
    } else {
        stmts_call(s.drop_last(), name) || stmt_calls(s.last(), name)
    }
}

pub open spec fn catches_call(s: Seq<CatchClause>, name: Seq<char>) -> bool
    decreases s,
{
    if s.len() == 0 {
        false
    } else {
        catches_call(s.drop_last(), name) || stmts_call(s.last().body@, name)
    }
}

/// Whether `e` calls the function `name` somewhere in it.
#[verifier::loop_isolation(false)]
pub fn expression_calls(e: &Expression, name: &String) -> (r: bool)
    ensures
        r == expr_calls(*e, name@),
    decreases e,
{
    match e {
        Expression::ArrayElement(_, i) => expression_calls(i, name),
        Expression::FunctionCall(n, args) => {
            let mut found = same_text(n, name);
            let ghost own = found;
            let mut i: usize = 0;
            while i < args.len()
                invariant
                    i <= args@.len(),
                    own == (n@ == name@),
                    found == (own || exprs_call(args@.take(i as int), name@)),
                decreases args@.len() - i,
            {
                assert(args@.take(i + 1).drop_last() =~= args@.take(i as int));
                let c = expression_calls(&args[i], name);
                found = found || c;
                i = i + 1;
            }
            assert(args@.take(args@.len() as int) =~= args@);
            found
        },
        Expression::UnaryOp(_, a) => expression_calls(a, name),
        Expression::BinaryOp(_, a, b) => {
            let x = expression_calls(a, name);
            let y = expression_calls(b, name);
            x || y
        },
        _ => false,
    }
}

fn expressions_call(v: &Vec<Expression>, name: &String) -> (r: bool)
    ensures
        r == exprs_call(v@, name@),
{
    let mut found = false;
    let mut i: usize = 0;
    while i < v.len()
        invariant
            i <= v@.len(),
            found == exprs_call(v@.take(i as int), name@),
        decreases v@.len() - i,
    {
        assert(v@.take(i + 1).drop_last() =~= v@.take(i as int));
        let c = expression_calls(&v[i], name);
        found = found || c;
        i = i + 1;
    }
    assert(v@.take(v@.len() as int) =~= v@);
    found
}

/// Whether the statement `s` calls the function `name` in its own
/// expressions or in its nested blocks (not in a function it declares).
#[verifier::loop_isolation(false)]
pub fn statement_calls(s: &Statement, name: &String) -> (r: bool)
    ensures
        r == stmt_calls(*s, name@),
    decreases s,
{
    match s {
        Statement::VariableDeclaration { initializer, .. } => match initializer {
            Some(e) => expression_calls(e, name),
            None => false,
        },
        Statement::ArrayDeclaration { initializer, .. } => match initializer {
            Some(v) => expressions_call(v, name),
            None => false,
        },
        Statement::FunctionDeclaration { .. } => false,
        Statement::Expression(e) => expression_calls(e, name),
        Statement::Loop(body) => statements_call(body, name),
        Statement::TryCatch { try_body, catch_clauses } => {
            let mut found = statements_call(try_body, name);
            let ghost own = found;
            let mut i: usize = 0;
            while i < catch_clauses.len()
                invariant
                    i <= catch_clauses@.len(),
                    own == stmts_call(try_body@, name@),
                    found == (own || catches_call(catch_clauses@.take(i as int), name@)),
                decreases catch_clauses@.len() - i,
            {
                assert(catch_clauses@.take(i + 1).drop_last() =~= catch_clauses@.take(i as int));
                let c = statements_call(&catch_clauses[i].body, name);
                found = found || c;
                i = i + 1;
            }
            assert(catch_clauses@.take(catch_clauses@.len() as int) =~= catch_clauses@);
            found
        },
        Statement::Throw { condition, .. } => expression_calls(condition, name),
    }
}

/// Whether the statements `stmts` call the function `name` (not counting
/// the bodies of the functions they declare).
pub fn statements_call(stmts: &Vec<Statement>, name: &String) -> (r: bool)
    ensures
        r == stmts_call(stmts@, name@),
    decreases stmts,
{
    let mut found = false;
    let mut i: usize = 0;
    while i < stmts.len()
        invariant
            i <= stmts@.len(),
            found == stmts_call(stmts@.take(i as int), name@),
        decreases stmts@.len() - i,
    {
        assert(stmts@.take(i + 1).drop_last() =~= stmts@.take(i as int));
        let c = statement_calls(&stmts[i], name);
        found = found || c;
        i = i + 1;
    }
    assert(stmts@.take(stmts@.len() as int) =~= stmts@);
    found
}

} // verus!
