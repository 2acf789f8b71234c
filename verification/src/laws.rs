//! What holds of the language for every program and every state: the rules
//! of consumption, of assignment and of arrays, of exceptions, of the
//! frames of calls, of implicit conversions, and of the shape of statements.
//! Each is a proof over the spec functions that the executable functions'
//! contracts speak of.
use vstd::prelude::*;
use crate::ast::{Type, Expression, UnaryOperator, BinaryOperator, Statement, CatchClause, ExprModel, StmtModel};
use crate::lexer::{
    TokenModel, LexErr, lex_all, skip_ws, tentative, comment_end, after_blank, next_token, word_end, keyword_token,
    single_token,
};
use crate::text::is_lower;
use crate::compiler::codegen::{gen_block, gen_stmt, type_lookup, types_in};
use crate::compiler::analyzer::{DeclModel, an_read, an_expr, is_declared_in, an_stmt, an_stmts, an_catches, pop_scope_of};
use crate::parser::{
    p_expr, p_additive, p_additive_rest, p_or, p_or_rest, p_and, p_and_rest, p_shift, p_shift_rest, p_unary,
    p_primary, p_items, p_list, p_list_rest, p_statement, rem, moved, bin,
};
use crate::interpreter::{
    Value, Stored, VarModel, ScopeModel, FrameModel, IState, EvalErr, lookup, var_at, set_var,
    scope_find_from, scope_find, frame_find, frames_find, eval_expr, eval_assign, eval_element,
    eval_stmt, eval_block, observe, observe_stored, element_label, declare, catch_find,
    scope_count, push_scope, truncate_scopes, with_frames, eval_args, eval_inits, eval_call,
    eval_loop, eval_var, call_frame, call_return, add_warnings, warnings_for,
};

verus! {

// ---------------------------------------------------------------------------
// Where a name is found depends on the names alone.

/// Two scopes bind the same names at the same places.
pub open spec fn same_scope_names(a: ScopeModel, b: ScopeModel) -> bool {
    &&& a.len() == b.len()
    &&& forall|j: int| 0 <= j < a.len() ==> #[trigger] a[j].0 == b[j].0
}

/// Two frames hold scopes with the same names.
pub open spec fn same_frame_names(a: FrameModel, b: FrameModel) -> bool {
    &&& a.len() == b.len()
    &&& forall|j: int| 0 <= j < a.len() ==> same_scope_names(#[trigger] a[j], b[j])
}

/// Two stacks of frames hold the same names.
pub open spec fn same_names(a: Seq<FrameModel>, b: Seq<FrameModel>) -> bool {
    &&& a.len() == b.len()
    &&& forall|j: int| 0 <= j < a.len() ==> same_frame_names(#[trigger] a[j], b[j])
}

proof fn lemma_scope_find_names(a: ScopeModel, b: ScopeModel, name: Seq<char>, i: int)
    requires
        same_scope_names(a, b),
    ensures
        scope_find_from(a, name, i) == scope_find_from(b, name, i),
    decreases a.len() - i,
{
    if 0 <= i < a.len() {
        assert(a[i].0 == b[i].0);
        lemma_scope_find_names(a, b, name, i + 1);
    }
}

proof fn lemma_frame_find_names(a: FrameModel, b: FrameModel, name: Seq<char>, n: int)
    requires
        same_frame_names(a, b),
    ensures
        frame_find(a, name, n) == frame_find(b, name, n),
    decreases n,
{
    if 0 < n <= a.len() {
        assert(same_scope_names(a[n - 1], b[n - 1]));
        lemma_scope_find_names(a[n - 1], b[n - 1], name, 0);
        lemma_frame_find_names(a, b, name, n - 1);
    }
}

proof fn lemma_frames_find_names(a: Seq<FrameModel>, b: Seq<FrameModel>, name: Seq<char>, n: int)
    requires
        same_names(a, b),
    ensures
        frames_find(a, name, n) == frames_find(b, name, n),
    decreases n,
{
    if 0 < n <= a.len() {
        assert(same_frame_names(a[n - 1], b[n - 1]));
        lemma_frame_find_names(a[n - 1], b[n - 1], name, a[n - 1].len() as int);
        lemma_frames_find_names(a, b, name, n - 1);
    }
}

/// Setting what a bound variable holds changes no name.
proof fn lemma_set_var_names(st: IState, f: int, s: int, k: int, v: VarModel)
    requires
        0 <= f < st.frames.len(),
        0 <= s < st.frames[f].len(),
        0 <= k < st.frames[f][s].len(),
    ensures
        same_names(st.frames, set_var(st, f, s, k, v).frames),
        set_var(st, f, s, k, v).frames[f][s][k] == (st.frames[f][s][k].0, v),
        forall|g: int| 0 <= g < st.frames.len() && g != f ==> set_var(st, f, s, k, v).frames[g] == st.frames[g],
{
    let st2 = set_var(st, f, s, k, v);
    assert forall|g: int| 0 <= g < st.frames.len() implies same_frame_names(#[trigger] st.frames[g], st2.frames[g]) by {
        if g == f {
            assert forall|j: int| 0 <= j < st.frames[f].len() implies same_scope_names(
                #[trigger] st.frames[f][j],
                st2.frames[f][j],
            ) by {}
        }
    }
}

// ---------------------------------------------------------------------------
// Consumption.

/// Reading a live variable of the current frame gives what it holds and
/// consumes it: it is then known as consumed, and a second read of it fails.
pub proof fn law_read_consumes(st: IState, x: String, f: int, s: int, k: int, fuel: nat, fuel2: nat)
    requires
        lookup(st, x@) == Ok::<(int, int, int), EvalErr>((f, s, k)),
        f == st.frames.len() - 1,
        fuel > 0,
        fuel2 > 0,
    ensures
        eval_expr(st, Expression::Variable(x), fuel).1 == Ok::<Stored, EvalErr>(observe_stored(var_at(st, f, s, k).val)),
        lookup(eval_expr(st, Expression::Variable(x), fuel).0, x@) == Err::<(int, int, int), EvalErr>(
            EvalErr::ConsumedVariable(x@),
        ),
        eval_expr(eval_expr(st, Expression::Variable(x), fuel).0, Expression::Variable(x), fuel2).1
            == Err::<Stored, EvalErr>(EvalErr::ConsumedVariable(x@)),
{
    let v = var_at(st, f, s, k);
    let nv = VarModel { val: v.val, is_alive: false, ty: v.ty };
    let st1 = set_var(st, f, s, k, nv);
    lemma_frames_find_some(st.frames, x@, st.frames.len() as int);
    lemma_set_var_names(st, f, s, k, nv);
    lemma_frames_find_names(st.frames, st1.frames, x@, st.frames.len() as int);
    assert(eval_expr(st, Expression::Variable(x), fuel).0 == st1);
}

/// Reading a variable of a caller's frame gives what it holds and changes
/// nothing: such a variable is read-only and is not consumed.
pub proof fn law_outer_read_keeps(st: IState, x: String, f: int, s: int, k: int, fuel: nat)
    requires
        lookup(st, x@) == Ok::<(int, int, int), EvalErr>((f, s, k)),
        f < st.frames.len() - 1,
        fuel > 0,
    ensures
        eval_expr(st, Expression::Variable(x), fuel) == (st, Ok::<Stored, EvalErr>(observe_stored(var_at(st, f, s, k).val))),
{
}

/// `$x?` is 1 when `$x` names a live variable and 0 otherwise, and it
/// consumes nothing.
pub proof fn law_exists_keeps(st: IState, x: String, fuel: nat)
    requires
        fuel > 0,
    ensures
        eval_expr(st, Expression::UnaryOp(UnaryOperator::Exists, Box::new(Expression::Variable(x))), fuel)
            == (st, Ok::<Stored, EvalErr>(Stored::Scalar(Value::I64(if lookup(st, x@) is Ok { 1 } else { 0 })))),
{
}

// ---------------------------------------------------------------------------
// Assignment.

/// An assignment to a variable of the current frame, `(s, k)` being its
/// innermost binding there, stores the right side's value, converted to the
/// variable's type, and the variable is live again, whether or not it was
/// consumed. Nothing else changes but what evaluating the right side
/// changed, and the warnings for the conversion.
pub proof fn law_assignment_revives(st: IState, x: String, rhs: Expression, fuel: nat, s: int, k: int)
    requires
        fuel > 1,
        st.frames.len() > 0,
        frame_find(st.frames.last(), x@, st.frames.last().len() as int) == Some((s, k)),
        eval_expr(st, rhs, (fuel - 1) as nat).1 is Ok,
    ensures
        ({
            let (st1, r) = eval_expr(st, rhs, (fuel - 1) as nat);
            let rv = r->Ok_0;
            let last = st1.frames.len() - 1;
            let old = var_at(st1, last, s, k);
            let nv = VarModel { val: Stored::Scalar(Value::from_u64(rv.num().as_u64(), old.ty)), is_alive: true, ty: old.ty };
            let (st2, r2) = eval_assign(st, Expression::Variable(x), rhs, fuel);
            &&& r2 == Ok::<Stored, EvalErr>(rv)
            &&& last == st.frames.len() - 1
            &&& lookup(st2, x@) == Ok::<(int, int, int), EvalErr>((last, s, k))
            &&& var_at(st2, last, s, k) == nv
            &&& st2 == set_var(add_warnings(st1, warnings_for(rhs, rv, old.ty)), last, s, k, nv)
        }),
{
    lemma_after_expr_same_place(st, rhs, (fuel - 1) as nat, x@);
    let (st1, r) = eval_expr(st, rhs, (fuel - 1) as nat);
    let rv = r->Ok_0;
    let last = st1.frames.len() - 1;
    let old = var_at(st1, last, s, k);
    let nv = VarModel { val: Stored::Scalar(Value::from_u64(rv.num().as_u64(), old.ty)), is_alive: true, ty: old.ty };
    let st1w = crate::interpreter::add_warnings(st1, crate::interpreter::warnings_for(rhs, rv, old.ty));
    lemma_frame_find_some(st1.frames.last(), x@, st1.frames.last().len() as int);
    lemma_set_var_names(st1w, last, s, k, nv);
    let st2 = set_var(st1w, last, s, k, nv);
    lemma_frames_find_names(st1w.frames, st2.frames, x@, st2.frames.len() as int);
}

/// Evaluating an expression leaves every name where it was: what
/// `frame_find` finds in the current frame, and what `frames_find` finds
/// among the callers' frames, it finds there afterwards; and a binding of
/// a caller's frame keeps its variable.
proof fn lemma_after_expr_same_place(st: IState, e: Expression, fuel: nat, name: Seq<char>)
    requires
        st.frames.len() > 0,
    ensures
        ({
            let st1 = eval_expr(st, e, fuel).0;
            let l = st.frames.len() - 1;
            &&& st1.frames.len() == st.frames.len()
            &&& frame_find(st1.frames.last(), name, st1.frames.last().len() as int)
                == frame_find(st.frames.last(), name, st.frames.last().len() as int)
            &&& frames_find(st1.frames, name, l) == frames_find(st.frames, name, l)
            &&& forall|f: int| 0 <= f < l ==> #[trigger] st1.frames[f] == st.frames[f]
        }),
{
    lemma_expr_keeps(st, e, fuel);
    let st1 = eval_expr(st, e, fuel).0;
    let l = st.frames.len() - 1;
    assert(same_frame_names(st.frames[l], st1.frames[l]));
    lemma_frame_find_names(st.frames[l], st1.frames[l], name, st.frames[l].len() as int);
    lemma_frames_find_names(st.frames, st1.frames, name, l);
}

/// Where `frame_find` finds a name, the place is within the frame.
proof fn lemma_frame_find_some(fr: FrameModel, name: Seq<char>, n: int)
    requires
        frame_find(fr, name, n) is Some,
    ensures
        ({
            let (s, k) = frame_find(fr, name, n)->Some_0;
            &&& 0 <= s < fr.len()
            &&& 0 <= k < fr[s].len()
            &&& fr[s][k].0 == name
        }),
    decreases n,
{
    if 0 < n <= fr.len() {
        match scope_find(fr[n - 1], name) {
            Some(k) => lemma_scope_find_some(fr[n - 1], name, 0),
            None => lemma_frame_find_some(fr, name, n - 1),
        }
    }
}

/// Where `frames_find` finds a name, the place is within the frames.
proof fn lemma_frames_find_some(frs: Seq<FrameModel>, name: Seq<char>, n: int)
    requires
        frames_find(frs, name, n) is Some,
    ensures
        ({
            let (f, s, k) = frames_find(frs, name, n)->Some_0;
            &&& 0 <= f < frs.len()
            &&& 0 <= s < frs[f].len()
            &&& 0 <= k < frs[f][s].len()
            &&& frs[f][s][k].0 == name
        }),
    decreases n,
{
    if 0 < n <= frs.len() {
        match frame_find(frs[n - 1], name, frs[n - 1].len() as int) {
            Some(_) => lemma_frame_find_some(frs[n - 1], name, frs[n - 1].len() as int),
            None => lemma_frames_find_some(frs, name, n - 1),
        }
    }
}

/// A place that `frames_find` finds among `frs[0..n]` is in one of them.
proof fn lemma_frames_find_below(frs: Seq<FrameModel>, name: Seq<char>, n: int)
    requires
        frames_find(frs, name, n) is Some,
    ensures
        frames_find(frs, name, n)->Some_0.0 < n,
    decreases n,
{
    if 0 < n <= frs.len() {
        if frame_find(frs[n - 1], name, frs[n - 1].len() as int) is None {
            lemma_frames_find_below(frs, name, n - 1);
        }
    }
}

proof fn lemma_scope_find_some(sc: ScopeModel, name: Seq<char>, i: int)
    requires
        scope_find_from(sc, name, i) is Some,
    ensures
        0 <= scope_find_from(sc, name, i)->Some_0 < sc.len(),
        sc[scope_find_from(sc, name, i)->Some_0].0 == name,
    decreases sc.len() - i,
{
    if 0 <= i < sc.len() && sc[i].0 != name {
        lemma_scope_find_some(sc, name, i + 1);
    }
}


// ---------------------------------------------------------------------------
// Frames: what an expression or a statement may change.

/// The frames below the current one are as they were, and there are as many.
pub open spec fn callers_same(a: IState, b: IState) -> bool {
    &&& b.frames.len() == a.frames.len()
    &&& forall|i: int| 0 <= i < a.frames.len() - 1 ==> #[trigger] b.frames[i] == a.frames[i]
}

/// What an expression may change: the values of the current frame's
/// variables, not their names, and nothing of the callers' frames.
pub open spec fn expr_keeps(a: IState, b: IState) -> bool {
    &&& callers_same(a, b)
    &&& same_names(a.frames, b.frames)
}

/// What a statement may change: besides the values of the current frame's
/// variables, the names of its innermost scope; nothing of the callers'
/// frames, and the current frame keeps its number of scopes.
pub open spec fn stmt_keeps(a: IState, b: IState) -> bool {
    &&& callers_same(a, b)
    &&& a.frames.len() > 0 ==> {
        &&& b.frames.last().len() == a.frames.last().len()
        &&& forall|j: int|
            0 <= j < a.frames.last().len() - 1 ==> same_scope_names(#[trigger] a.frames.last()[j], b.frames.last()[j])
    }
}

proof fn lemma_same_frames(a: IState, b: IState)
    requires
        a.frames == b.frames,
    ensures
        expr_keeps(a, b),
        stmt_keeps(a, b),
{
    assert forall|g: int| 0 <= g < a.frames.len() implies same_frame_names(#[trigger] a.frames[g], b.frames[g]) by {
        assert forall|j: int| 0 <= j < a.frames[g].len() implies same_scope_names(#[trigger] a.frames[g][j], b.frames[g][j]) by {}
    }
    if a.frames.len() > 0 {
        assert forall|j: int| 0 <= j < a.frames.last().len() - 1 implies same_scope_names(
            #[trigger] a.frames.last()[j],
            b.frames.last()[j],
        ) by {}
    }
}

proof fn lemma_expr_trans(a: IState, b: IState, c: IState)
    requires
        expr_keeps(a, b),
        expr_keeps(b, c),
    ensures
        expr_keeps(a, c),
{
    assert forall|g: int| 0 <= g < a.frames.len() implies same_frame_names(#[trigger] a.frames[g], c.frames[g]) by {
        assert(same_frame_names(a.frames[g], b.frames[g]));
        assert(same_frame_names(b.frames[g], c.frames[g]));
        assert forall|j: int| 0 <= j < a.frames[g].len() implies same_scope_names(#[trigger] a.frames[g][j], c.frames[g][j]) by {
            assert(same_scope_names(a.frames[g][j], b.frames[g][j]));
            assert(same_scope_names(b.frames[g][j], c.frames[g][j]));
        }
    }
}

proof fn lemma_stmt_trans(a: IState, b: IState, c: IState)
    requires
        stmt_keeps(a, b),
        stmt_keeps(b, c),
    ensures
        stmt_keeps(a, c),
{
    if a.frames.len() > 0 {
        assert forall|j: int| 0 <= j < a.frames.last().len() - 1 implies same_scope_names(
            #[trigger] a.frames.last()[j],
            c.frames.last()[j],
        ) by {
            assert(same_scope_names(a.frames.last()[j], b.frames.last()[j]));
            assert(same_scope_names(b.frames.last()[j], c.frames.last()[j]));
        }
    }
}

proof fn lemma_expr_stmt(a: IState, b: IState)
    requires
        expr_keeps(a, b),
    ensures
        stmt_keeps(a, b),
{
    if a.frames.len() > 0 {
        let l = a.frames.len() - 1;
        assert(same_frame_names(a.frames[l], b.frames[l]));
        assert forall|j: int| 0 <= j < a.frames.last().len() - 1 implies same_scope_names(
            #[trigger] a.frames.last()[j],
            b.frames.last()[j],
        ) by {
            assert(same_scope_names(a.frames[l][j], b.frames[l][j]));
        }
    }
}

/// Setting a variable of the current frame keeps what an expression keeps.
proof fn lemma_set_var_keeps(st: IState, f: int, s: int, k: int, v: VarModel)
    requires
        f == st.frames.len() - 1,
        0 <= f,
        0 <= s < st.frames[f].len(),
        0 <= k < st.frames[f][s].len(),
    ensures
        expr_keeps(st, set_var(st, f, s, k, v)),
{
    lemma_set_var_names(st, f, s, k, v);
}

proof fn lemma_set_element_keeps(st: IState, f: int, s: int, k: int, i: int, x: Option<Value>)
    requires
        f == st.frames.len() - 1,
        0 <= f,
        0 <= s < st.frames[f].len(),
        0 <= k < st.frames[f][s].len(),
    ensures
        expr_keeps(st, crate::interpreter::set_element(st, f, s, k, i, x)),
{
    let v = var_at(st, f, s, k);
    match v.val {
        Stored::Array(ty, elems) => {
            lemma_set_var_keeps(st, f, s, k, VarModel { val: Stored::Array(ty, elems.update(i, x)), is_alive: v.is_alive, ty: v.ty });
        },
        Stored::Scalar(_) => { lemma_same_frames(st, st); },
    }
}

/// A declaration changes only the innermost scope of the current frame.
proof fn lemma_declare_keeps(st: IState, name: Seq<char>, v: VarModel)
    ensures
        stmt_keeps(st, declare(st, name, v)),
{
    let st2 = declare(st, name, v);
    if st.frames.len() == 0 || st.frames.last().len() == 0 {
        lemma_same_frames(st, st2);
    } else if frame_find(st.frames.last(), name, st.frames.last().len() as int) is Some {
        let fr = st.frames.last();
        lemma_frame_find_some(fr, name, fr.len() as int);
        let (s, k) = frame_find(fr, name, fr.len() as int)->Some_0;
        lemma_set_var_keeps(st, st.frames.len() - 1, s, k, v);
        lemma_expr_stmt(st, st2);
    } else {
        let l = st.frames.len() - 1;
        assert(st2.frames[l].len() == st.frames[l].len());
        assert forall|j: int| 0 <= j < st.frames.last().len() - 1 implies same_scope_names(
            #[trigger] st.frames.last()[j],
            st2.frames.last()[j],
        ) by {
            assert(st2.frames.last()[j] == st.frames.last()[j]);
        }
    }
}

/// Statements run in a scope of their own, which is then left, change no
/// name of the current frame.
proof fn lemma_scoped_keeps(st: IState, st1: IState)
    requires
        stmt_keeps(push_scope(st), st1),
    ensures
        expr_keeps(st, truncate_scopes(st1, scope_count(st))),
{
    let pushed = push_scope(st);
    let st2 = truncate_scopes(st1, scope_count(st));
    if st.frames.len() == 0 {
        assert(st2.frames =~= st.frames);
        lemma_same_frames(st, st2);
    } else {
        let l = st.frames.len() - 1;
        let n = st.frames.last().len() as int;
        assert(pushed.frames.last().len() == n + 1);
        assert(st1.frames.last().len() == n + 1);
        assert(st2.frames[l] == st1.frames[l].subrange(0, n));
        assert forall|g: int| 0 <= g < st.frames.len() implies same_frame_names(#[trigger] st.frames[g], st2.frames[g]) by {
            if g < l {
                assert(st2.frames[g] == st1.frames[g]);
                assert(st1.frames[g] == pushed.frames[g]);
                assert(pushed.frames[g] == st.frames[g]);
                assert forall|j: int| 0 <= j < st.frames[g].len() implies same_scope_names(
                    #[trigger] st.frames[g][j],
                    st2.frames[g][j],
                ) by {}
            } else {
                assert forall|j: int| 0 <= j < st.frames[g].len() implies same_scope_names(
                    #[trigger] st.frames[g][j],
                    st2.frames[g][j],
                ) by {
                    assert(pushed.frames.last()[j] == st.frames.last()[j]);
                    assert(same_scope_names(pushed.frames.last()[j], st1.frames.last()[j]));
                }
            }
        }
        assert forall|i: int| 0 <= i < st.frames.len() - 1 implies #[trigger] st2.frames[i] == st.frames[i] by {
            assert(st1.frames[i] == pushed.frames[i]);
        }
    }
}


proof fn lemma_var_keeps(st: IState, name: Seq<char>)
    ensures
        expr_keeps(st, eval_var(st, name).0),
{
    match lookup(st, name) {
        Err(_) => lemma_same_frames(st, st),
        Ok((f, s, k)) => {
            lemma_frames_find_some(st.frames, name, st.frames.len() as int);
            if f == st.frames.len() - 1 {
                let v = var_at(st, f, s, k);
                lemma_set_var_keeps(st, f, s, k, VarModel { val: v.val, is_alive: false, ty: v.ty });
            } else {
                lemma_same_frames(st, st);
            }
        },
    }
}

proof fn lemma_element_keeps(st: IState, name: Seq<char>, index: u64)
    ensures
        expr_keeps(st, eval_element(st, name, index).0),
{
    lemma_same_frames(st, st);
    match lookup(st, name) {
        Err(_) => {},
        Ok((f, s, k)) => {
            lemma_frames_find_some(st.frames, name, st.frames.len() as int);
            if f == st.frames.len() - 1 {
                lemma_set_element_keeps(st, f, s, k, index as int, None);
            }
        },
    }
}

proof fn lemma_expr_keeps(st: IState, e: Expression, fuel: nat)
    ensures
        expr_keeps(st, eval_expr(st, e, fuel).0),
    decreases fuel, 0int,
{
    lemma_same_frames(st, st);
    if fuel > 0 {
        let f1 = (fuel - 1) as nat;
        match e {
            Expression::HexLiteral(_, _) => {},
            Expression::Variable(name) => lemma_var_keeps(st, name@),
            Expression::ArrayElement(name, idx) => {
                lemma_expr_keeps(st, *idx, f1);
                let (st1, r) = eval_expr(st, *idx, f1);
                if let Ok(iv) = r {
                    lemma_element_keeps(st1, name@, iv.num().as_u64());
                    lemma_expr_trans(st, st1, eval_element(st1, name@, iv.num().as_u64()).0);
                }
            },
            Expression::UnaryOp(op, inner) => {
                lemma_expr_keeps(st, *inner, f1);
            },
            Expression::BinaryOp(op, l, r) => {
                if op == BinaryOperator::Assign {
                    lemma_assign_keeps(st, *l, *r, f1);
                } else {
                    lemma_expr_keeps(st, *l, f1);
                    let (st1, rl) = eval_expr(st, *l, f1);
                    lemma_expr_keeps(st1, *r, f1);
                    lemma_expr_trans(st, st1, eval_expr(st1, *r, f1).0);
                }
            },
            Expression::FunctionCall(name, args) => {
                if name@ == "_putc"@ {
                    if args.len() > 0 {
                        lemma_expr_keeps(st, args@[0], f1);
                        let (st1, r) = eval_expr(st, args@[0], f1);
                        let st2 = IState {
                            frames: st1.frames,
                            functions: st1.functions,
                            input: st1.input,
                            input_pos: st1.input_pos,
                            output: st1.output.push(r->Ok_0.num().as_u64() as u8),
                            warnings: st1.warnings,
                        };
                        lemma_same_frames(st1, st2);
                        lemma_expr_trans(st, st1, st2);
                    }
                } else if name@ == "_getc"@ {
                } else {
                    match crate::interpreter::fn_find(st.functions, name@) {
                        None => {},
                        Some(i) => lemma_call_keeps(st, st.functions[i], args@, f1),
                    }
                }
            },
        }
    }
}

proof fn lemma_args_keeps(st: IState, args: Seq<Expression>, i: int, acc: Seq<Stored>, fuel: nat)
    ensures
        expr_keeps(st, eval_args(st, args, i, acc, fuel).0),
    decreases fuel, args.len() - i,
{
    lemma_same_frames(st, st);
    if 0 <= i < args.len() {
        lemma_expr_keeps(st, args[i], fuel);
        let (st1, r) = eval_expr(st, args[i], fuel);
        if let Ok(v) = r {
            lemma_args_keeps(st1, args, i + 1, acc.push(v), fuel);
            lemma_expr_trans(st, st1, eval_args(st1, args, i + 1, acc.push(v), fuel).0);
        }
    }
}

proof fn lemma_inits_keeps(st: IState, exprs: Seq<Expression>, i: int, ty: Type, acc: Seq<Option<Value>>, fuel: nat)
    ensures
        expr_keeps(st, eval_inits(st, exprs, i, ty, acc, fuel).0),
    decreases fuel, exprs.len() - i,
{
    lemma_same_frames(st, st);
    if 0 <= i < exprs.len() {
        lemma_expr_keeps(st, exprs[i], fuel);
        let (st1, r) = eval_expr(st, exprs[i], fuel);
        if let Ok(v) = r {
            let st2 = add_warnings(st1, warnings_for(exprs[i], v, ty));
            let acc2 = acc.push(Some(Value::from_u64(v.num().as_u64(), ty)));
            lemma_same_frames(st1, st2);
            lemma_inits_keeps(st2, exprs, i + 1, ty, acc2, fuel);
            lemma_expr_trans(st, st1, st2);
            lemma_expr_trans(st, st2, eval_inits(st2, exprs, i + 1, ty, acc2, fuel).0);
        }
    }
}

proof fn lemma_assign_keeps(st: IState, lhs: Expression, rhs: Expression, fuel: nat)
    ensures
        expr_keeps(st, eval_assign(st, lhs, rhs, fuel).0),
    decreases fuel, 0int,
{
    lemma_same_frames(st, st);
    if fuel > 0 {
        let f1 = (fuel - 1) as nat;
        lemma_expr_keeps(st, rhs, f1);
        let (st1, r) = eval_expr(st, rhs, f1);
        lemma_same_frames(st1, st1);
        if let Ok(rv) = r {
            match lhs {
                Expression::Variable(name) => {
                    if st1.frames.len() > 0 {
                        let last = st1.frames.len() - 1;
                        match frame_find(st1.frames[last], name@, st1.frames[last].len() as int) {
                            Some((s, k)) => {
                                lemma_frame_find_some(st1.frames[last], name@, st1.frames[last].len() as int);
                                let old = var_at(st1, last, s, k);
                                let st1w = add_warnings(st1, warnings_for(rhs, rv, old.ty));
                                let nv = VarModel {
                                    val: Stored::Scalar(Value::from_u64(rv.num().as_u64(), old.ty)),
                                    is_alive: true,
                                    ty: old.ty,
                                };
                                lemma_same_frames(st1, st1w);
                                lemma_set_var_keeps(st1w, last, s, k, nv);
                                lemma_expr_trans(st, st1, st1w);
                                lemma_expr_trans(st, st1w, set_var(st1w, last, s, k, nv));
                            },
                            None => {},
                        }
                    }
                },
                Expression::ArrayElement(name, idx) => {
                    lemma_expr_keeps(st1, *idx, f1);
                    let (st2, ri) = eval_expr(st1, *idx, f1);
                    lemma_expr_trans(st, st1, st2);
                    if let Ok(iv) = ri {
                        let index = iv.num().as_u64();
                        if st2.frames.len() > 0 {
                            let last = st2.frames.len() - 1;
                            match frame_find(st2.frames[last], name@, st2.frames[last].len() as int) {
                                Some((s, k)) => {
                                    lemma_frame_find_some(st2.frames[last], name@, st2.frames[last].len() as int);
                                    if let Stored::Array(ty, elems) = var_at(st2, last, s, k).val {
                                        let st2w = add_warnings(st2, warnings_for(rhs, rv, ty));
                                        let x = Some(Value::from_u64(rv.num().as_u64(), ty));
                                        lemma_same_frames(st2, st2w);
                                        lemma_set_element_keeps(st2w, last, s, k, index as int, x);
                                        lemma_expr_trans(st, st2, st2w);
                                        lemma_expr_trans(
                                            st,
                                            st2w,
                                            crate::interpreter::set_element(st2w, last, s, k, index as int, x),
                                        );
                                    }
                                },
                                None => {},
                            }
                        }
                    }
                },
                _ => {},
            }
        }
    }
}

proof fn lemma_call_keeps(st: IState, f: Statement, args: Seq<Expression>, fuel: nat)
    ensures
        expr_keeps(st, eval_call(st, f, args, fuel).0),
        fuel > 0 && f is FunctionDeclaration && eval_args(st, args, 0, Seq::empty(), (fuel - 1) as nat).1 is Ok
            ==> eval_call(st, f, args, fuel).0.frames == eval_args(st, args, 0, Seq::empty(), (fuel - 1) as nat).0.frames,
    decreases fuel, 0int,
{
    lemma_same_frames(st, st);
    if fuel > 0 {
        let f1 = (fuel - 1) as nat;
        if let Statement::FunctionDeclaration { ret_type, name, params, body } = f {
            lemma_args_keeps(st, args, 0, Seq::empty(), f1);
            let (st1, r) = eval_args(st, args, 0, Seq::empty(), f1);
            if let Ok(vals) = r {
                if args.len() >= params.len() {
                    let cf = call_frame(st1, ret_type, name@, params@, args, vals);
                    lemma_block_keeps(cf, body@, 0, f1);
                    let (st4, rb) = eval_block(cf, body@, 0, f1);
                    assert(cf.frames.len() == st1.frames.len() + 1);
                    assert(st4.frames.len() == cf.frames.len());
                    let popped = with_frames(st4, st4.frames.drop_last());
                    assert forall|i: int| 0 <= i < st1.frames.len() implies #[trigger] popped.frames[i] == st1.frames[i] by {
                        assert(st4.frames[i] == cf.frames[i]);
                        assert(cf.frames[i] == st1.frames[i]);
                    }
                    assert(popped.frames =~= st1.frames);
                    assert(call_return(st4, rb, name@).0 == popped);
                    lemma_same_frames(st1, popped);
                    lemma_expr_trans(st, st1, popped);
                }
            }
        }
    }
}

proof fn lemma_block_keeps(st: IState, stmts: Seq<Statement>, i: int, fuel: nat)
    ensures
        stmt_keeps(st, eval_block(st, stmts, i, fuel).0),
    decreases fuel, stmts.len() - i,
{
    lemma_same_frames(st, st);
    if 0 <= i < stmts.len() {
        lemma_stmt_keeps(st, stmts[i], fuel);
        let (st1, r) = eval_stmt(st, stmts[i], fuel);
        if r is Ok {
            lemma_block_keeps(st1, stmts, i + 1, fuel);
            lemma_stmt_trans(st, st1, eval_block(st1, stmts, i + 1, fuel).0);
        }
    }
}

proof fn lemma_loop_keeps(st: IState, body: Seq<Statement>, fuel: nat)
    ensures
        expr_keeps(st, eval_loop(st, body, fuel).0),
    decreases fuel, 0int,
{
    lemma_same_frames(st, st);
    if fuel > 0 {
        let f1 = (fuel - 1) as nat;
        let n = scope_count(st);
        lemma_block_keeps(push_scope(st), body, 0, f1);
        let (st1, r) = eval_block(push_scope(st), body, 0, f1);
        lemma_scoped_keeps(st, st1);
        let st2 = truncate_scopes(st1, n);
        if r is Ok {
            lemma_loop_keeps(st2, body, f1);
            lemma_expr_trans(st, st2, eval_loop(st2, body, f1).0);
        }
    }
}

proof fn lemma_stmt_keeps(st: IState, s: Statement, fuel: nat)
    ensures
        stmt_keeps(st, eval_stmt(st, s, fuel).0),
        s is Loop || s is TryCatch ==> expr_keeps(st, eval_stmt(st, s, fuel).0),
    decreases fuel, 0int,
{
    lemma_same_frames(st, st);
    if fuel > 0 {
        let f1 = (fuel - 1) as nat;
        match s {
            Statement::VariableDeclaration { ty, name, initializer } => match initializer {
                Some(e) => {
                    lemma_expr_keeps(st, e, f1);
                    let (st1, r) = eval_expr(st, e, f1);
                    lemma_expr_stmt(st, st1);
                    if let Ok(v) = r {
                        let aw = add_warnings(st1, warnings_for(e, v, ty));
                        let nv = VarModel { val: Stored::Scalar(Value::from_u64(v.num().as_u64(), ty)), is_alive: true, ty };
                        lemma_same_frames(st1, aw);
                        lemma_declare_keeps(aw, name@, nv);
                        lemma_stmt_trans(st, st1, aw);
                        lemma_stmt_trans(st, aw, declare(aw, name@, nv));
                    }
                },
                None => {
                    lemma_declare_keeps(st, name@, VarModel { val: Stored::Scalar(Value::default_val(ty)), is_alive: true, ty });
                },
            },
            Statement::ArrayDeclaration { ty, size, name, initializer } => {
                let (st1, rs) = match size {
                    crate::ast::ArraySize::Literal(v) => (st, Ok(Stored::Scalar(Value::U64(v)))),
                    crate::ast::ArraySize::Variable(n) => eval_var(st, n@),
                };
                match size {
                    crate::ast::ArraySize::Literal(v) => {},
                    crate::ast::ArraySize::Variable(n) => lemma_var_keeps(st, n@),
                }
                lemma_expr_stmt(st, st1);
                if let Ok(sv) = rs {
                    let (st2, re) = match initializer {
                        Some(exprs) => eval_inits(st1, exprs@, 0, ty, Seq::empty(), f1),
                        None => (st1, Ok(Seq::new(sv.num().as_u64() as nat, |i: int| Some(Value::default_val(ty))))),
                    };
                    match initializer {
                        Some(exprs) => lemma_inits_keeps(st1, exprs@, 0, ty, Seq::empty(), f1),
                        None => {},
                    }
                    lemma_same_frames(st1, st1);
                    lemma_expr_stmt(st1, st2);
                    lemma_stmt_trans(st, st1, st2);
                    if let Ok(elems) = re {
                        let nv = VarModel { val: Stored::Array(ty, elems), is_alive: true, ty };
                        lemma_declare_keeps(st2, name@, nv);
                        lemma_stmt_trans(st, st2, declare(st2, name@, nv));
                    }
                }
            },
            Statement::FunctionDeclaration { .. } => {
                lemma_same_frames(st, eval_stmt(st, s, fuel).0);
            },
            Statement::Expression(e) => {
                lemma_expr_keeps(st, e, f1);
                lemma_expr_stmt(st, eval_expr(st, e, f1).0);
            },
            Statement::Loop(body) => {
                lemma_loop_keeps(st, body@, f1);
                lemma_expr_stmt(st, eval_loop(st, body@, f1).0);
            },
            Statement::TryCatch { try_body, catch_clauses } => {
                let n = scope_count(st);
                lemma_block_keeps(push_scope(st), try_body@, 0, f1);
                let (st1, r) = eval_block(push_scope(st), try_body@, 0, f1);
                lemma_scoped_keeps(st, st1);
                let st2 = truncate_scopes(st1, n);
                if let Err(EvalErr::Exception(code)) = r {
                    if let Some(c) = catch_find(catch_clauses@, code, 0) {
                        let m = scope_count(st2);
                        lemma_block_keeps(push_scope(st2), catch_clauses@[c].body@, 0, f1);
                        let (st3, rc) = eval_block(push_scope(st2), catch_clauses@[c].body@, 0, f1);
                        lemma_scoped_keeps(st2, st3);
                        lemma_expr_trans(st, st2, truncate_scopes(st3, m));
                    }
                }
                lemma_expr_stmt(st, eval_stmt(st, s, fuel).0);
            },
            Statement::Throw { exception_code, condition } => {
                lemma_expr_keeps(st, condition, f1);
                lemma_expr_stmt(st, eval_expr(st, condition, f1).0);
            },
        }
    }
}


/// No statement changes a frame below the current one: a function can read
/// the variables of its callers, and never changes them. The current frame
/// keeps its number of scopes.
pub proof fn law_callers_untouched(st: IState, s: Statement, fuel: nat)
    ensures
        callers_same(st, eval_stmt(st, s, fuel).0),
        st.frames.len() > 0 ==> eval_stmt(st, s, fuel).0.frames.last().len() == st.frames.last().len(),
{
    lemma_stmt_keeps(st, s, fuel);
}

/// An expression changes no name of any frame and no frame of a caller:
/// it only reads, consumes and assigns variables of the current frame.
pub proof fn law_expression_keeps_names(st: IState, e: Expression, fuel: nat)
    ensures
        callers_same(st, eval_expr(st, e, fuel).0),
        same_names(st.frames, eval_expr(st, e, fuel).0.frames),
{
    lemma_expr_keeps(st, e, fuel);
}

/// After a call, the frames are those that the evaluation of its arguments
/// left: the callee's frame, with all it declared, is gone.
pub proof fn law_call_leaves_no_frame(st: IState, f: Statement, args: Seq<Expression>, fuel: nat)
    requires
        fuel > 0,
        f is FunctionDeclaration,
        eval_args(st, args, 0, Seq::empty(), (fuel - 1) as nat).1 is Ok,
    ensures
        eval_call(st, f, args, fuel).0.frames == eval_args(st, args, 0, Seq::empty(), (fuel - 1) as nat).0.frames,
{
    lemma_call_keeps(st, f, args, fuel);
}

/// What the body of a loop or of a `try` or `catch` declares vanishes when
/// the statement ends: the current frame has the same names as before.
pub proof fn law_block_names_vanish(st: IState, s: Statement, fuel: nat)
    requires
        s is Loop || s is TryCatch,
    ensures
        callers_same(st, eval_stmt(st, s, fuel).0),
        same_names(st.frames, eval_stmt(st, s, fuel).0.frames),
{
    lemma_stmt_keeps(st, s, fuel);
}

/// Self-assignment: `$x = $x + 1` on a live variable of the current frame
/// does not leave it consumed; it holds the sum, in its own type.
pub proof fn law_self_assignment(st: IState, x: String, f: int, s: int, k: int, fuel: nat)
    requires
        lookup(st, x@) == Ok::<(int, int, int), EvalErr>((f, s, k)),
        f == st.frames.len() - 1,
        fuel > 3,
    ensures
        ({
            let e = Expression::BinaryOp(
                BinaryOperator::Assign,
                Box::new(Expression::Variable(x)),
                Box::new(Expression::BinaryOp(
                    BinaryOperator::Add,
                    Box::new(Expression::Variable(x)),
                    Box::new(Expression::HexLiteral(1, false)),
                )),
            );
            let (st2, r) = eval_expr(st, e, fuel);
            let v = var_at(st, f, s, k);
            &&& r is Ok
            &&& lookup(st2, x@) == Ok::<(int, int, int), EvalErr>((f, s, k))
            &&& var_at(st2, f, s, k) == VarModel {
                val: Stored::Scalar(Value::from_u64(observe_stored(v.val).num().as_u64().wrapping_add(1), v.ty)),
                is_alive: true,
                ty: v.ty,
            }
        }),
{
    let rhs = Expression::BinaryOp(
        BinaryOperator::Add,
        Box::new(Expression::Variable(x)),
        Box::new(Expression::HexLiteral(1, false)),
    );
    let f1 = (fuel - 1) as nat;
    let f2 = (fuel - 2) as nat;
    let f3 = (fuel - 3) as nat;
    let v = var_at(st, f, s, k);
    lemma_frames_find_some(st.frames, x@, st.frames.len() as int);
    // Reading `$x` on the right consumes it, and leaves the names as they were.
    let nv = VarModel { val: v.val, is_alive: false, ty: v.ty };
    let st1 = set_var(st, f, s, k, nv);
    lemma_set_var_names(st, f, s, k, nv);
    assert(eval_expr(st, Expression::Variable(x), f3) == (st1, Ok::<Stored, EvalErr>(observe_stored(v.val))));
    let sum = observe_stored(v.val).num().as_u64().wrapping_add(1);
    let rv = Stored::Scalar(Value::I64(sum as i64));
    assert(eval_expr(st1, Expression::HexLiteral(1, false), f3) == (st1, Ok::<Stored, EvalErr>(Stored::Scalar(Value::I64(1)))));
    assert(Value::I64(1).as_u64() == 1);
    assert(crate::interpreter::binary_result(BinaryOperator::Add, observe_stored(v.val).num(), Value::I64(1)) == sum);
    assert(eval_expr(st, rhs, f2) == (st1, Ok::<Stored, EvalErr>(rv)));
    // `$x` is still found in the current frame, at the same place.
    let n = st.frames.len() as int;
    if frame_find(st.frames[n - 1], x@, st.frames[n - 1].len() as int) is None {
        lemma_frames_find_below(st.frames, x@, n - 1);
    }
    assert(frame_find(st.frames[f], x@, st.frames[f].len() as int) == Some((s, k)));
    assert(same_frame_names(st.frames[f], st1.frames[f]));
    lemma_frame_find_names(st.frames[f], st1.frames[f], x@, st.frames[f].len() as int);
    law_assignment_revives(st, x, rhs, f1, s, k);
    assert((sum as i64) as u64 == sum) by (bit_vector);
}

/// An assignment to a variable that only a caller's frame holds is refused:
/// that variable is read-only. The right side is evaluated first; no frame
/// of a caller changes, so no binding of the variable does.
pub proof fn law_outer_assignment_refused(st: IState, x: String, rhs: Expression, fuel: nat)
    requires
        fuel > 1,
        st.frames.len() > 0,
        frame_find(st.frames.last(), x@, st.frames.last().len() as int) is None,
        frames_find(st.frames, x@, st.frames.len() - 1) is Some,
        eval_expr(st, rhs, (fuel - 1) as nat).1 is Ok,
    ensures
        eval_assign(st, Expression::Variable(x), rhs, fuel) == (
            eval_expr(st, rhs, (fuel - 1) as nat).0,
            Err::<Stored, EvalErr>(EvalErr::UndefinedVariable(x@ + " is read-only"@)),
        ),
        callers_same(st, eval_assign(st, Expression::Variable(x), rhs, fuel).0),
{
    lemma_after_expr_same_place(st, rhs, (fuel - 1) as nat, x@);
    lemma_expr_keeps(st, rhs, (fuel - 1) as nat);
}

// ---------------------------------------------------------------------------
// Arrays.

/// Reading an element of a live array of the current frame gives it and
/// consumes that element alone: the array stays live, every other element
/// is as it was, and a second read of the element fails.
pub proof fn law_element_read_consumes(st: IState, x: String, f: int, s: int, k: int, ty: Type, elems: Seq<Option<Value>>, index: u64)
    requires
        lookup(st, x@) == Ok::<(int, int, int), EvalErr>((f, s, k)),
        f == st.frames.len() - 1,
        var_at(st, f, s, k).val == Stored::Array(ty, elems),
        index < elems.len(),
        elems[index as int] is Some,
    ensures
        ({
            let (st2, r) = eval_element(st, x@, index);
            &&& r == Ok::<Stored, EvalErr>(observe(elems[index as int]->Some_0))
            &&& lookup(st2, x@) == Ok::<(int, int, int), EvalErr>((f, s, k))
            &&& var_at(st2, f, s, k).val == Stored::Array(ty, elems.update(index as int, None))
            &&& forall|j: int| 0 <= j < elems.len() && j != index ==> #[trigger] elems.update(index as int, None)[j] == elems[j]
            &&& eval_element(st2, x@, index).1 == Err::<Stored, EvalErr>(EvalErr::ConsumedVariable(element_label(x@, index)))
        }),
{
    lemma_frames_find_some(st.frames, x@, st.frames.len() as int);
    let v = var_at(st, f, s, k);
    let nv = VarModel { val: Stored::Array(ty, elems.update(index as int, None)), is_alive: v.is_alive, ty: v.ty };
    lemma_set_var_names(st, f, s, k, nv);
    let st2 = set_var(st, f, s, k, nv);
    lemma_frames_find_names(st.frames, st2.frames, x@, st.frames.len() as int);
}

/// Reading an element of an array of a caller's frame changes nothing.
pub proof fn law_outer_element_read_keeps(st: IState, x: String, f: int, s: int, k: int, ty: Type, elems: Seq<Option<Value>>, index: u64)
    requires
        lookup(st, x@) == Ok::<(int, int, int), EvalErr>((f, s, k)),
        f < st.frames.len() - 1,
        var_at(st, f, s, k).val == Stored::Array(ty, elems),
        index < elems.len(),
        elems[index as int] is Some,
    ensures
        eval_element(st, x@, index) == (st, Ok::<Stored, EvalErr>(observe(elems[index as int]->Some_0))),
{
}

/// An element that was consumed cannot be assigned again.
pub proof fn law_consumed_element_not_assignable(st: IState, x: String, idx: Expression, rhs: Expression, fuel: nat)
    requires
        fuel > 1,
        eval_expr(st, rhs, (fuel - 1) as nat).1 is Ok,
        ({
            let st1 = eval_expr(st, rhs, (fuel - 1) as nat).0;
            let (st2, ri) = eval_expr(st1, idx, (fuel - 1) as nat);
            &&& ri is Ok
            &&& st2.frames.len() > 0
            &&& frame_find(st2.frames.last(), x@, st2.frames.last().len() as int) matches Some((s, k))
                && var_at(st2, st2.frames.len() - 1, s, k).val matches Stored::Array(ty, elems)
                && ri->Ok_0.num().as_u64() < elems.len()
                && elems[ri->Ok_0.num().as_u64() as int] is None
        }),
    ensures
        ({
            let st1 = eval_expr(st, rhs, (fuel - 1) as nat).0;
            let (st2, ri) = eval_expr(st1, idx, (fuel - 1) as nat);
            eval_assign(st, Expression::ArrayElement(x, Box::new(idx)), rhs, fuel)
                == (st2, Err::<Stored, EvalErr>(EvalErr::ConsumedVariable(element_label(x@, ri->Ok_0.num().as_u64()))))
        }),
{
}

// ---------------------------------------------------------------------------
// Declarations and exceptions.

/// A variable declared without an initial value holds 0, in its type.
pub proof fn law_default_zero(st: IState, ty: Type, x: String, fuel: nat)
    requires
        fuel > 0,
    ensures
        eval_stmt(st, Statement::VariableDeclaration { ty, name: x, initializer: None }, fuel) == (
            declare(st, x@, VarModel { val: Stored::Scalar(Value::from_u64(0, ty)), is_alive: true, ty }),
            Ok::<(), EvalErr>(()),
        ),
        Value::from_u64(0, ty).as_u64() == 0,
        Value::from_u64(0, ty).as_i64() == 0,
        Value::from_u64(0, ty).get_type() == ty,
{
}

/// `throw c @ e` raises the exception `c` when `e` is not 0, and does
/// nothing more than evaluate `e` when it is.
pub proof fn law_throw(st: IState, code: u64, cond: Expression, fuel: nat)
    requires
        fuel > 0,
        eval_expr(st, cond, (fuel - 1) as nat).1 is Ok,
    ensures
        ({
            let (st1, r) = eval_expr(st, cond, (fuel - 1) as nat);
            eval_stmt(st, Statement::Throw { exception_code: code, condition: cond }, fuel) == if r->Ok_0.num().as_u64() != 0 {
                (st1, Err::<(), EvalErr>(EvalErr::Exception(code)))
            } else {
                (st1, Ok::<(), EvalErr>(()))
            }
        }),
{
}

/// An exception raised in a `try` body is caught by the first `catch`
/// clause of its code, whose body then runs in a scope of its own; one that
/// no clause names goes on up, and so does any other error.
pub proof fn law_catch(st: IState, try_body: Vec<Statement>, clauses: Vec<CatchClause>, fuel: nat)
    requires
        fuel > 0,
    ensures
        ({
            let f1 = (fuel - 1) as nat;
            let (st1, r) = eval_block(push_scope(st), try_body@, 0, f1);
            let st2 = truncate_scopes(st1, scope_count(st));
            let res = eval_stmt(st, Statement::TryCatch { try_body, catch_clauses: clauses }, fuel);
            &&& r is Ok ==> res == (st2, Ok::<(), EvalErr>(()))
            &&& (r matches Err(EvalErr::Exception(code)) ==> match catch_find(clauses@, code, 0) {
                None => res == (st2, Err::<(), EvalErr>(EvalErr::Exception(code))),
                Some(c) => {
                    &&& clauses@[c].exception_code == code
                    &&& forall|j: int| 0 <= j < c ==> clauses@[j].exception_code != code
                    &&& res.1 == eval_block(push_scope(st2), clauses@[c].body@, 0, f1).1
                },
            })
            &&& (r is Err && !(r->Err_0 is Exception)) ==> res == (st2, r)
        }),
{
    let f1 = (fuel - 1) as nat;
    let (st1, r) = eval_block(push_scope(st), try_body@, 0, f1);
    if let Err(EvalErr::Exception(code)) = r {
        if let Some(c) = catch_find(clauses@, code, 0) {
            lemma_catch_find(clauses@, code, 0);
        }
    }
}

proof fn lemma_catch_find(clauses: Seq<CatchClause>, code: u64, i: int)
    requires
        0 <= i,
        catch_find(clauses, code, i) is Some,
    ensures
        ({
            let c = catch_find(clauses, code, i)->Some_0;
            &&& i <= c < clauses.len()
            &&& clauses[c].exception_code == code
            &&& forall|j: int| i <= j < c ==> clauses[j].exception_code != code
        }),
    decreases clauses.len() - i,
{
    if i < clauses.len() && clauses[i].exception_code != code {
        lemma_catch_find(clauses, code, i + 1);
    }
}


// ---------------------------------------------------------------------------
// Implicit conversions.

/// The integer that a value stands for: the bits of a signed type read as
/// two's complement, those of an unsigned type as they are.
pub open spec fn int_value(v: Value) -> int {
    if Value::is_signed(v.get_type()) {
        v.as_i64() as int
    } else {
        v.as_u64() as int
    }
}

/// A conversion that draws no warning keeps the value: the destination has
/// the same signedness and at least as many bits.
pub proof fn law_safe_conversion_keeps_value(v: Value, dest: Type)
    requires
        !(v is Array),
        crate::interpreter::conversion_warnings(v.get_type(), dest).len() == 0,
    ensures
        int_value(Value::from_u64(v.as_u64(), dest)) == int_value(v),
{
    match v {
        Value::I8(x) => {
            assert(((x as u64) as i8) as i64 == x as i64) by (bit_vector);
            assert(((x as u64) as i16) as i64 == x as i64) by (bit_vector);
            assert(((x as u64) as i32) as i64 == x as i64) by (bit_vector);
            assert((x as u64) as i64 == x as i64) by (bit_vector);
        },
        Value::I16(x) => {
            assert(((x as u64) as i16) as i64 == x as i64) by (bit_vector);
            assert(((x as u64) as i32) as i64 == x as i64) by (bit_vector);
            assert((x as u64) as i64 == x as i64) by (bit_vector);
        },
        Value::I32(x) => {
            assert(((x as u64) as i32) as i64 == x as i64) by (bit_vector);
            assert((x as u64) as i64 == x as i64) by (bit_vector);
        },
        Value::I64(x) => {
            assert((x as u64) as i64 == x) by (bit_vector);
        },
        _ => {},
    }
}

/// A conversion between the signed and the unsigned type of one width keeps
/// the bits: converting back gives the value again.
pub proof fn law_sign_conversion_round_trip(v: Value, dest: Type)
    requires
        !(v is Array),
        Value::bit_width(dest) == Value::bit_width(v.get_type()),
    ensures
        Value::from_u64(Value::from_u64(v.as_u64(), dest).as_u64(), v.get_type()) == v,
{
    match v {
        Value::I8(x) => {
            assert((((x as u64) as u8) as u64) as i8 == x) by (bit_vector);
            assert((((x as u64) as i8) as u64) as i8 == x) by (bit_vector);
        },
        Value::U8(x) => {
            assert((((x as u64) as i8) as u64) as u8 == x) by (bit_vector);
        },
        Value::I16(x) => {
            assert((((x as u64) as u16) as u64) as i16 == x) by (bit_vector);
            assert((((x as u64) as i16) as u64) as i16 == x) by (bit_vector);
        },
        Value::U16(x) => {
            assert((((x as u64) as i16) as u64) as u16 == x) by (bit_vector);
        },
        Value::I32(x) => {
            assert((((x as u64) as u32) as u64) as i32 == x) by (bit_vector);
            assert((((x as u64) as i32) as u64) as i32 == x) by (bit_vector);
        },
        Value::U32(x) => {
            assert((((x as u64) as i32) as u64) as u32 == x) by (bit_vector);
        },
        Value::I64(x) => {
            assert((x as u64) as i64 == x) by (bit_vector);
        },
        Value::U64(x) => {
            assert((x as i64) as u64 == x) by (bit_vector);
        },
        _ => {},
    }
}

/// Storing bits in an unsigned type keeps as many low bits as the type has.
pub proof fn law_unsigned_conversion_truncates(x: u64)
    ensures
        Value::from_u64(x, Type::U8).as_u64() == x % 0x100,
        Value::from_u64(x, Type::U16).as_u64() == x % 0x1_0000,
        Value::from_u64(x, Type::U32).as_u64() == x % 0x1_0000_0000,
        Value::from_u64(x, Type::U64).as_u64() == x,
{
    assert((x as u8) as u64 == x % 0x100) by (bit_vector);
    assert((x as u16) as u64 == x % 0x1_0000) by (bit_vector);
    assert((x as u32) as u64 == x % 0x1_0000_0000) by (bit_vector);
}


// ---------------------------------------------------------------------------
// The shape of what the parser gives.

/// An expression without assignment anywhere in it.
pub open spec fn no_assign(e: ExprModel) -> bool
    decreases e,
{
    match e {
        ExprModel::Variable(_) => true,
        ExprModel::HexLiteral(_, _) => true,
        ExprModel::ArrayElement(_, i) => no_assign(*i),
        ExprModel::UnaryOp(_, a) => no_assign(*a),
        ExprModel::BinaryOp(op, a, b) => op != BinaryOperator::Assign && no_assign(*a) && no_assign(*b),
        ExprModel::FunctionCall(_, args) => forall|j: int| 0 <= j < args.len() ==> no_assign(#[trigger] args[j]),
    }
}

pub open spec fn all_no_assign(s: Seq<ExprModel>) -> bool {
    forall|j: int| 0 <= j < s.len() ==> no_assign(#[trigger] s[j])
}


proof fn lemma_p_expr(t: Seq<TokenModel>, p: int)
    ensures
        p_expr(t, p) matches Ok((e, _)) ==> no_assign(e),
    decreases rem(t, p), 9nat,
{
    lemma_p_additive(t, p);
    if let Ok((lhs, q)) = p_additive(t, p) {
        if moved(t, p, q) {
            lemma_p_additive(t, q + 1);
        }
    }
}

proof fn lemma_p_additive(t: Seq<TokenModel>, p: int)
    ensures
        p_additive(t, p) matches Ok((e, _)) ==> no_assign(e),
    decreases rem(t, p), 8nat,
{
    lemma_p_or(t, p);
    if let Ok((lhs, q)) = p_or(t, p) {
        if moved(t, p, q) {
            lemma_p_additive_rest(t, lhs, q);
        }
    }
}

proof fn lemma_p_additive_rest(t: Seq<TokenModel>, lhs: ExprModel, p: int)
    requires
        no_assign(lhs),
    ensures
        p_additive_rest(t, lhs, p) matches Ok((e, _)) ==> no_assign(e),
    decreases rem(t, p), 0nat,
{
    if let Some(op) = crate::parser::add_at(t, p) {
        lemma_p_or(t, p + 1);
        if let Ok((rhs, q)) = p_or(t, p + 1) {
            if moved(t, p, q) {
                lemma_p_additive_rest(t, bin(op, lhs, rhs), q);
            }
        }
    }
}

proof fn lemma_p_or(t: Seq<TokenModel>, p: int)
    ensures
        p_or(t, p) matches Ok((e, _)) ==> no_assign(e),
    decreases rem(t, p), 7nat,
{
    lemma_p_and(t, p);
    if let Ok((lhs, q)) = p_and(t, p) {
        if moved(t, p, q) {
            lemma_p_or_rest(t, lhs, q);
        }
    }
}

proof fn lemma_p_or_rest(t: Seq<TokenModel>, lhs: ExprModel, p: int)
    requires
        no_assign(lhs),
    ensures
        p_or_rest(t, lhs, p) matches Ok((e, _)) ==> no_assign(e),
    decreases rem(t, p), 0nat,
{
    if crate::parser::is_at(t, p, crate::lexer::TokenKind::BitwiseOr) {
        lemma_p_and(t, p + 1);
        if let Ok((rhs, q)) = p_and(t, p + 1) {
            if moved(t, p, q) {
                lemma_p_or_rest(t, bin(BinaryOperator::BitwiseOr, lhs, rhs), q);
            }
        }
    }
}

proof fn lemma_p_and(t: Seq<TokenModel>, p: int)
    ensures
        p_and(t, p) matches Ok((e, _)) ==> no_assign(e),
    decreases rem(t, p), 6nat,
{
    lemma_p_shift(t, p);
    if let Ok((lhs, q)) = p_shift(t, p) {
        if moved(t, p, q) {
            lemma_p_and_rest(t, lhs, q);
        }
    }
}

proof fn lemma_p_and_rest(t: Seq<TokenModel>, lhs: ExprModel, p: int)
    requires
        no_assign(lhs),
    ensures
        p_and_rest(t, lhs, p) matches Ok((e, _)) ==> no_assign(e),
    decreases rem(t, p), 0nat,
{
    if crate::parser::is_at(t, p, crate::lexer::TokenKind::BitwiseAnd) {
        lemma_p_shift(t, p + 1);
        if let Ok((rhs, q)) = p_shift(t, p + 1) {
            if moved(t, p, q) {
                lemma_p_and_rest(t, bin(BinaryOperator::BitwiseAnd, lhs, rhs), q);
            }
        }
    }
}

proof fn lemma_p_shift(t: Seq<TokenModel>, p: int)
    ensures
        p_shift(t, p) matches Ok((e, _)) ==> no_assign(e),
    decreases rem(t, p), 5nat,
{
    lemma_p_unary(t, p);
    if let Ok((lhs, q)) = p_unary(t, p) {
        if moved(t, p, q) {
            lemma_p_shift_rest(t, lhs, q);
        }
    }
}

proof fn lemma_p_shift_rest(t: Seq<TokenModel>, lhs: ExprModel, p: int)
    requires
        no_assign(lhs),
    ensures
        p_shift_rest(t, lhs, p) matches Ok((e, _)) ==> no_assign(e),
    decreases rem(t, p), 0nat,
{
    if let Some(op) = crate::parser::shift_at(t, p) {
        lemma_p_unary(t, p + 1);
        if let Ok((rhs, q)) = p_unary(t, p + 1) {
            if moved(t, p, q) {
                lemma_p_shift_rest(t, bin(op, lhs, rhs), q);
            }
        }
    }
}

proof fn lemma_p_unary(t: Seq<TokenModel>, p: int)
    ensures
        p_unary(t, p) matches Ok((e, _)) ==> no_assign(e),
    decreases rem(t, p), 4nat,
{
    lemma_p_primary(t, p);
}

proof fn lemma_p_primary(t: Seq<TokenModel>, p: int)
    ensures
        p_primary(t, p) matches Ok((e, _)) ==> no_assign(e),
    decreases rem(t, p), 3nat,
{
    if 0 <= p < t.len() {
        lemma_p_expr(t, p + 1);
        lemma_p_expr(t, p + 2);
        if crate::parser::is_at(t, p + 1, crate::lexer::TokenKind::LParen) {
            lemma_p_list(t, p + 2, crate::lexer::TokenKind::RParen);
        }
    }
}

proof fn lemma_p_list(t: Seq<TokenModel>, p: int, close: crate::lexer::TokenKind)
    ensures
        p_list(t, p, close) matches Ok((es, _)) ==> all_no_assign(es),
    decreases rem(t, p), 11nat,
{
    lemma_p_items(t, p, close);
}

proof fn lemma_p_items(t: Seq<TokenModel>, p: int, close: crate::lexer::TokenKind)
    ensures
        p_items(t, p, close) matches Ok((es, _)) ==> all_no_assign(es),
    decreases rem(t, p), 10nat,
{
    if !crate::parser::is_at(t, p, close) {
        lemma_p_expr(t, p);
        if let Ok((e, q)) = p_expr(t, p) {
            if moved(t, p, q) {
                lemma_p_list_rest(t, seq![e], q);
            }
        }
    }
}

proof fn lemma_p_list_rest(t: Seq<TokenModel>, acc: Seq<ExprModel>, p: int)
    requires
        all_no_assign(acc),
    ensures
        p_list_rest(t, acc, p) matches Ok((es, _)) ==> all_no_assign(es),
    decreases rem(t, p), 0nat,
{
    if crate::parser::is_at(t, p, crate::lexer::TokenKind::Comma) {
        lemma_p_expr(t, p + 1);
        if let Ok((e, q)) = p_expr(t, p + 1) {
            if moved(t, p, q) {
                assert(all_no_assign(acc.push(e)));
                lemma_p_list_rest(t, acc.push(e), q);
            }
        }
    }
}

/// An expression never holds an assignment: in `$a = $b = 3.` only the
/// leftmost `=` assigns, and every other `=` compares.
pub proof fn law_expression_has_no_assignment(t: Seq<TokenModel>, p: int)
    ensures
        p_expr(t, p) matches Ok((e, _)) ==> no_assign(e),
{
    lemma_p_expr(t, p);
}

/// A statement that is an expression is an assignment: to a variable or to
/// an element of an array, of an expression without assignment. A
/// calculation on its own is refused.
pub proof fn law_expression_statement_assigns(t: Seq<TokenModel>, p: int)
    ensures
        p_statement(t, p) matches Ok((StmtModel::Expression(e), _)) ==> (
            e matches ExprModel::BinaryOp(op, lhs, rhs)
                && op == BinaryOperator::Assign
                && (*lhs is Variable || *lhs is ArrayElement)
                && no_assign(*rhs)
        ),
{
    lemma_p_primary(t, p);
    if let Ok((lhs, q)) = crate::parser::p_primary(t, p) {
        lemma_p_expr(t, q + 1);
    }
}


// ---------------------------------------------------------------------------
// The analyzer.

/// The analyzer consumes what a function reads of its own variables: a
/// second read of one, with no assignment or declaration between, is
/// reported, while a variable of an outer function can be read again and
/// again.
pub proof fn law_analyzer_second_read(name: Seq<char>, d: DeclModel, c: Set<Seq<char>>)
    requires
        an_read(name, d, c) is Ok,
    ensures
        is_declared_in(name, d) ==> an_read(name, d, an_read(name, d, c)->Ok_0)
            == Err::<Set<Seq<char>>, Seq<char>>("Variable '"@ + name + "' is used after being consumed."@),
        !is_declared_in(name, d) ==> an_read(name, d, an_read(name, d, c)->Ok_0) == Ok::<Set<Seq<char>>, Seq<char>>(c),
{
}

/// For the analyzer, an assignment to a variable of the function makes it
/// readable again, and one to a variable of an outer function is refused.
pub proof fn law_analyzer_assignment(x: String, rhs: Expression, d: DeclModel, c: Set<Seq<char>>)
    requires
        an_expr(rhs, d, c) is Ok,
    ensures
        ({
            let r = an_expr(
                Expression::BinaryOp(BinaryOperator::Assign, Box::new(Expression::Variable(x)), Box::new(rhs)),
                d,
                c,
            );
            &&& is_declared_in(x@, d) ==> r == Ok::<Set<Seq<char>>, Seq<char>>(an_expr(rhs, d, c)->Ok_0.remove(x@))
            &&& !is_declared_in(x@, d) ==> r == Err::<Set<Seq<char>>, Seq<char>>(
                "Cannot assign to dynamically scoped variable '"@ + x@ + "' (Read-Only)"@,
            )
        }),
{
}


// ---------------------------------------------------------------------------
// More on consumption: operators and calls.

/// `$x~` gives the inverted bits of `$x` and, like any read, consumes a
/// variable of the current frame.
pub proof fn law_not_consumes(st: IState, x: String, f: int, s: int, k: int, fuel: nat)
    requires
        lookup(st, x@) == Ok::<(int, int, int), EvalErr>((f, s, k)),
        f == st.frames.len() - 1,
        fuel > 1,
    ensures
        ({
            let e = Expression::UnaryOp(UnaryOperator::BitwiseNot, Box::new(Expression::Variable(x)));
            let (st2, r) = eval_expr(st, e, fuel);
            &&& r == Ok::<Stored, EvalErr>(Stored::Scalar(Value::I64((!observe_stored(var_at(st, f, s, k).val).num().as_u64()) as i64)))
            &&& lookup(st2, x@) == Err::<(int, int, int), EvalErr>(EvalErr::ConsumedVariable(x@))
        }),
{
    law_read_consumes(st, x, f, s, k, (fuel - 1) as nat, 1);
}

/// A variable of the current frame passed as the argument of a call is
/// consumed in the caller: after the call it is known as consumed.
pub proof fn law_argument_consumed(st: IState, func: Statement, x: String, f: int, s: int, k: int, fuel: nat)
    requires
        lookup(st, x@) == Ok::<(int, int, int), EvalErr>((f, s, k)),
        f == st.frames.len() - 1,
        func is FunctionDeclaration,
        fuel > 1,
    ensures
        lookup(eval_call(st, func, seq![Expression::Variable(x)], fuel).0, x@) == Err::<(int, int, int), EvalErr>(
            EvalErr::ConsumedVariable(x@),
        ),
{
    let f1 = (fuel - 1) as nat;
    let args = seq![Expression::Variable(x)];
    law_read_consumes(st, x, f, s, k, f1, 1);
    let (st1, r) = eval_expr(st, args[0], f1);
    assert(eval_args(st1, args, 1, seq![r->Ok_0], f1) == (st1, Ok::<Seq<Stored>, EvalErr>(seq![r->Ok_0])));
    assert(eval_args(st, args, 0, Seq::empty(), f1) == (st1, Ok::<Seq<Stored>, EvalErr>(seq![r->Ok_0])));
    lemma_call_keeps(st, func, args, fuel);
    let st2 = eval_call(st, func, args, fuel).0;
    assert(st2.frames == st1.frames);
}

/// A call returns what its result variable, named as the function, holds
/// when the body ends: the value it was last assigned, or 0 of the return
/// type.
pub proof fn law_call_returns_result(st: IState, func: Statement, args: Seq<Expression>, fuel: nat)
    requires
        fuel > 0,
        func is FunctionDeclaration,
        eval_args(st, args, 0, Seq::empty(), (fuel - 1) as nat).1 is Ok,
        args.len() >= func->params.len(),
    ensures
        ({
            let f1 = (fuel - 1) as nat;
            let (st1, r) = eval_args(st, args, 0, Seq::empty(), f1);
            let cf = call_frame(st1, func->ret_type, func->FunctionDeclaration_name@, func->params@, args, r->Ok_0);
            let (st4, rb) = eval_block(cf, func->body@, 0, f1);
            let fr = st4.frames.last();
            &&& st4.frames.len() == st1.frames.len() + 1
            &&& fr.len() == 1
            &&& rb is Ok ==> eval_call(st, func, args, fuel).1 == match scope_find(fr[0], func->FunctionDeclaration_name@) {
                Some(j) => Ok::<Stored, EvalErr>(observe_stored(fr[0][j].1.val)),
                None => Err::<Stored, EvalErr>(EvalErr::MainNotFound),
            }
            &&& rb is Err ==> eval_call(st, func, args, fuel).1 == Err::<Stored, EvalErr>(rb->Err_0)
        }),
{
    let f1 = (fuel - 1) as nat;
    let (st1, r) = eval_args(st, args, 0, Seq::empty(), f1);
    let cf = call_frame(st1, func->ret_type, func->FunctionDeclaration_name@, func->params@, args, r->Ok_0);
    lemma_block_keeps(cf, func->body@, 0, f1);
}

// ---------------------------------------------------------------------------
// Statements end with a period.

/// Every statement that parses ends with `.`.
pub proof fn law_statement_ends_with_period(t: Seq<TokenModel>, p: int)
    ensures
        p_statement(t, p) matches Ok((_, q)) ==> 1 <= q <= t.len() && t[q - 1].kind == crate::lexer::TokenKind::Dot,
{
}


// ---------------------------------------------------------------------------
// Declarations define.

proof fn lemma_scope_find_none(sc: ScopeModel, name: Seq<char>, i: int)
    requires
        0 <= i,
        scope_find_from(sc, name, i) is None,
    ensures
        forall|j: int| i <= j < sc.len() ==> #[trigger] sc[j].0 != name,
    decreases sc.len() - i,
{
    if i < sc.len() {
        lemma_scope_find_none(sc, name, i + 1);
    }
}

proof fn lemma_scope_find_at(sc: ScopeModel, name: Seq<char>, i: int, r: int)
    requires
        0 <= i <= r < sc.len(),
        sc[r].0 == name,
        forall|j: int| i <= j < r ==> #[trigger] sc[j].0 != name,
    ensures
        scope_find_from(sc, name, i) == Some(r),
    decreases r - i,
{
    if i < r {
        lemma_scope_find_at(sc, name, i + 1, r);
    }
}

proof fn lemma_scope_find_first(sc: ScopeModel, name: Seq<char>, i: int)
    requires
        0 <= i,
        scope_find_from(sc, name, i) is Some,
    ensures
        forall|j: int| i <= j < scope_find_from(sc, name, i)->Some_0 ==> #[trigger] sc[j].0 != name,
    decreases sc.len() - i,
{
    if i < sc.len() && sc[i].0 != name {
        lemma_scope_find_first(sc, name, i + 1);
    }
}

/// After `name` is bound to `v` in a scope, the scope finds it there.
proof fn lemma_scope_insert_finds(sc: ScopeModel, name: Seq<char>, v: VarModel)
    ensures
        ({
            let sc2 = crate::interpreter::scope_insert(sc, name, v);
            &&& scope_find(sc2, name) is Some
            &&& sc2[scope_find(sc2, name)->Some_0] == (name, v)
        }),
{
    let sc2 = crate::interpreter::scope_insert(sc, name, v);
    match scope_find(sc, name) {
        Some(r) => {
            lemma_scope_find_some(sc, name, 0);
            lemma_scope_find_first(sc, name, 0);
            lemma_scope_find_at(sc2, name, 0, r);
        },
        None => {
            lemma_scope_find_none(sc, name, 0);
            lemma_scope_find_at(sc2, name, 0, sc.len() as int);
        },
    }
}

/// After a declaration, the name denotes the new variable.
proof fn lemma_declare_finds(st: IState, name: Seq<char>, v: VarModel)
    requires
        st.frames.len() > 0,
        st.frames.last().len() > 0,
        v.is_alive,
    ensures
        ({
            let st2 = declare(st, name, v);
            let f = st2.frames.len() - 1;
            &&& lookup(st2, name) matches Ok((f2, s, k)) && f2 == f && var_at(st2, f, s, k) == v
        }),
{
    let fr = st.frames.last();
    let m = fr.len() - 1;
    let l = st.frames.len() - 1;
    let st2 = declare(st, name, v);
    if frame_find(fr, name, fr.len() as int) is Some {
        lemma_frame_find_some(fr, name, fr.len() as int);
        let (s, k) = frame_find(fr, name, fr.len() as int)->Some_0;
        lemma_set_var_names(st, l, s, k, v);
        lemma_frames_find_names(st.frames, st2.frames, name, st.frames.len() as int);
        assert(frames_find(st.frames, name, st.frames.len() as int) == Some((l, s, k)));
    } else {
        lemma_scope_insert_finds(fr.last(), name, v);
        assert(st2.frames[l][m] == crate::interpreter::scope_insert(fr.last(), name, v));
        assert(frame_find(st2.frames[l], name, st2.frames[l].len() as int) == Some(
            (m, scope_find(st2.frames[l][m], name)->Some_0),
        ));
    }
}

/// `var ty $x = e.` and `var ty $x.` define `$x` anew in the current frame,
/// live, whether or not a variable of that name was consumed: reading it
/// then gives the initial value in its type, or 0.
pub proof fn law_declaration_defines(st: IState, ty: Type, x: String, init: Option<Expression>, fuel: nat)
    requires
        fuel > 0,
        st.frames.len() > 0,
        st.frames.last().len() > 0,
        init is Some ==> eval_expr(st, init->Some_0, (fuel - 1) as nat).1 is Ok,
    ensures
        ({
            let (st2, r) = eval_stmt(st, Statement::VariableDeclaration { ty, name: x, initializer: init }, fuel);
            let value = match init {
                Some(e) => Value::from_u64(eval_expr(st, e, (fuel - 1) as nat).1->Ok_0.num().as_u64(), ty),
                None => Value::from_u64(0, ty),
            };
            &&& r is Ok
            &&& lookup(st2, x@) matches Ok((f, s, k)) && f == st2.frames.len() - 1 && var_at(st2, f, s, k)
                == VarModel { val: Stored::Scalar(value), is_alive: true, ty }
        }),
{
    match init {
        Some(e) => {
            let f1 = (fuel - 1) as nat;
            lemma_expr_keeps(st, e, f1);
            let (st1, r) = eval_expr(st, e, f1);
            let l = st.frames.len() - 1;
            assert(same_frame_names(st.frames[l], st1.frames[l]));
            let aw = add_warnings(st1, warnings_for(e, r->Ok_0, ty));
            let v = VarModel { val: Stored::Scalar(Value::from_u64(r->Ok_0.num().as_u64(), ty)), is_alive: true, ty };
            lemma_declare_finds(aw, x@, v);
        },
        None => {
            lemma_declare_finds(st, x@, VarModel { val: Stored::Scalar(Value::default_val(ty)), is_alive: true, ty });
        },
    }
}

/// A `var` on a name that the current frame already binds defines that
/// binding anew where it stands, in whatever scope of the frame it is: no
/// name is added or removed anywhere, so a variable restored in a loop's
/// body outlives the loop.
pub proof fn law_redefinition_in_place(st: IState, ty: Type, x: String, init: Option<Expression>, fuel: nat, s: int, k: int)
    requires
        fuel > 0,
        st.frames.len() > 0,
        frame_find(st.frames.last(), x@, st.frames.last().len() as int) == Some((s, k)),
        init is Some ==> eval_expr(st, init->Some_0, (fuel - 1) as nat).1 is Ok,
    ensures
        ({
            let (st2, r) = eval_stmt(st, Statement::VariableDeclaration { ty, name: x, initializer: init }, fuel);
            let value = match init {
                Some(e) => Value::from_u64(eval_expr(st, e, (fuel - 1) as nat).1->Ok_0.num().as_u64(), ty),
                None => Value::from_u64(0, ty),
            };
            let l = st.frames.len() - 1;
            &&& r is Ok
            &&& expr_keeps(st, st2)
            &&& lookup(st2, x@) == Ok::<(int, int, int), EvalErr>((l, s, k))
            &&& var_at(st2, l, s, k) == VarModel { val: Stored::Scalar(value), is_alive: true, ty }
        }),
{
    let l = st.frames.len() - 1;
    let st1 = match init {
        Some(e) => eval_expr(st, e, (fuel - 1) as nat).0,
        None => st,
    };
    match init {
        Some(e) => {
            lemma_after_expr_same_place(st, e, (fuel - 1) as nat, x@);
            lemma_expr_keeps(st, e, (fuel - 1) as nat);
        },
        None => {
            lemma_same_frames(st, st);
        },
    }
    let rv = match init {
        Some(e) => eval_expr(st, e, (fuel - 1) as nat).1->Ok_0,
        None => Stored::Scalar(Value::I64(0)),
    };
    let aw = match init {
        Some(e) => add_warnings(st1, warnings_for(e, rv, ty)),
        None => st1,
    };
    let value = match init {
        Some(e) => Value::from_u64(rv.num().as_u64(), ty),
        None => Value::from_u64(0, ty),
    };
    let v = VarModel { val: Stored::Scalar(value), is_alive: true, ty };
    lemma_same_frames(st1, aw);
    lemma_expr_trans(st, st1, aw);
    lemma_frame_find_some(aw.frames.last(), x@, aw.frames.last().len() as int);
    lemma_set_var_keeps(aw, l, s, k, v);
    lemma_set_var_names(aw, l, s, k, v);
    let st2 = set_var(aw, l, s, k, v);
    assert(declare(aw, x@, v) == st2);
    lemma_expr_trans(st, aw, st2);
    lemma_frames_find_names(aw.frames, st2.frames, x@, aw.frames.len() as int);
    assert(frames_find(aw.frames, x@, aw.frames.len() as int) == Some((l, s, k)));
}

/// Reading a whole array gives its type and its elements, those consumed
/// as `None`: the elements of an array are numbers, read as they are.
pub proof fn law_array_read_gives_elements(st: IState, x: String, f: int, s: int, k: int, ty: Type, elems: Seq<Option<Value>>, fuel: nat)
    requires
        lookup(st, x@) == Ok::<(int, int, int), EvalErr>((f, s, k)),
        var_at(st, f, s, k).val == Stored::Array(ty, elems),
        forall|i: int| 0 <= i < elems.len() ==> !(#[trigger] elems[i] matches Some(Value::Array(_, _))),
        fuel > 0,
    ensures
        eval_expr(st, Expression::Variable(x), fuel).1 == Ok::<Stored, EvalErr>(Stored::Array(ty, elems)),
{
    assert(elems.map_values(|o: Option<Value>| crate::interpreter::element_copy(o)) =~= elems);
}

/// When the top level of a program calls `#main` itself, a run does not
/// call it again: it ends after the top level, with exit code 0.
pub proof fn law_main_runs_once(st: IState, prog: Seq<Statement>, fuel: nat)
    requires
        crate::ast::stmts_call(prog, "main"@),
        crate::interpreter::run_top(st, prog, 0, fuel).1 is Ok,
    ensures
        crate::interpreter::run(st, prog, fuel) == (crate::interpreter::run_top(st, prog, 0, fuel).0, Ok::<i32, EvalErr>(0)),
{
}


// ---------------------------------------------------------------------------
// The budget of steps.

/// A result other than running out of the budget.
pub open spec fn finished<T>(r: Result<T, EvalErr>) -> bool {
    !(r matches Err(EvalErr::OutOfFuel))
}

proof fn lemma_expr_fuel(st: IState, e: Expression, f1: nat, f2: nat)
    requires
        f1 <= f2,
        finished(eval_expr(st, e, f1).1),
    ensures
        eval_expr(st, e, f2) == eval_expr(st, e, f1),
    decreases f1, 0int,
{
    let g1 = (f1 - 1) as nat;
    let g2 = (f2 - 1) as nat;
    match e {
        Expression::HexLiteral(_, _) => {},
        Expression::Variable(_) => {},
        Expression::ArrayElement(name, idx) => {
            lemma_expr_fuel(st, *idx, g1, g2);
        },
        Expression::UnaryOp(op, inner) => {
            if !(op == UnaryOperator::Exists && (*inner) is Variable) {
                lemma_expr_fuel(st, *inner, g1, g2);
            }
        },
        Expression::BinaryOp(op, l, r) => {
            if op == BinaryOperator::Assign {
                lemma_assign_fuel(st, *l, *r, g1, g2);
            } else {
                lemma_expr_fuel(st, *l, g1, g2);
                let (st1, rl) = eval_expr(st, *l, g1);
                if rl is Ok {
                    lemma_expr_fuel(st1, *r, g1, g2);
                }
            }
        },
        Expression::FunctionCall(name, args) => {
            if name@ == "_putc"@ {
                if args.len() > 0 {
                    lemma_expr_fuel(st, args@[0], g1, g2);
                }
            } else if name@ == "_getc"@ {
            } else {
                match crate::interpreter::fn_find(st.functions, name@) {
                    None => {},
                    Some(i) => lemma_call_fuel(st, st.functions[i], args@, g1, g2),
                }
            }
        },
    }
}

proof fn lemma_args_fuel(st: IState, args: Seq<Expression>, i: int, acc: Seq<Stored>, f1: nat, f2: nat)
    requires
        f1 <= f2,
        finished(eval_args(st, args, i, acc, f1).1),
    ensures
        eval_args(st, args, i, acc, f2) == eval_args(st, args, i, acc, f1),
    decreases f1, args.len() - i,
{
    if 0 <= i < args.len() {
        lemma_expr_fuel(st, args[i], f1, f2);
        let (st1, r) = eval_expr(st, args[i], f1);
        if let Ok(v) = r {
            lemma_args_fuel(st1, args, i + 1, acc.push(v), f1, f2);
        }
    }
}

proof fn lemma_inits_fuel(st: IState, exprs: Seq<Expression>, i: int, ty: Type, acc: Seq<Option<Value>>, f1: nat, f2: nat)
    requires
        f1 <= f2,
        finished(eval_inits(st, exprs, i, ty, acc, f1).1),
    ensures
        eval_inits(st, exprs, i, ty, acc, f2) == eval_inits(st, exprs, i, ty, acc, f1),
    decreases f1, exprs.len() - i,
{
    if 0 <= i < exprs.len() {
        lemma_expr_fuel(st, exprs[i], f1, f2);
        let (st1, r) = eval_expr(st, exprs[i], f1);
        if let Ok(v) = r {
            lemma_inits_fuel(
                add_warnings(st1, warnings_for(exprs[i], v, ty)),
                exprs,
                i + 1,
                ty,
                acc.push(Some(Value::from_u64(v.num().as_u64(), ty))),
                f1,
                f2,
            );
        }
    }
}

proof fn lemma_assign_fuel(st: IState, lhs: Expression, rhs: Expression, f1: nat, f2: nat)
    requires
        f1 <= f2,
        finished(eval_assign(st, lhs, rhs, f1).1),
    ensures
        eval_assign(st, lhs, rhs, f2) == eval_assign(st, lhs, rhs, f1),
    decreases f1, 0int,
{
    let g1 = (f1 - 1) as nat;
    let g2 = (f2 - 1) as nat;
    lemma_expr_fuel(st, rhs, g1, g2);
    let (st1, r) = eval_expr(st, rhs, g1);
    if r is Ok {
        if let Expression::ArrayElement(name, idx) = lhs {
            lemma_expr_fuel(st1, *idx, g1, g2);
        }
    }
}

proof fn lemma_call_fuel(st: IState, f: Statement, args: Seq<Expression>, f1: nat, f2: nat)
    requires
        f1 <= f2,
        finished(eval_call(st, f, args, f1).1),
    ensures
        eval_call(st, f, args, f2) == eval_call(st, f, args, f1),
    decreases f1, 0int,
{
    let g1 = (f1 - 1) as nat;
    let g2 = (f2 - 1) as nat;
    if let Statement::FunctionDeclaration { ret_type, name, params, body } = f {
        lemma_args_fuel(st, args, 0, Seq::empty(), g1, g2);
        let (st1, r) = eval_args(st, args, 0, Seq::empty(), g1);
        if let Ok(vals) = r {
            if args.len() >= params.len() {
                let cf = call_frame(st1, ret_type, name@, params@, args, vals);
                lemma_block_keeps(cf, body@, 0, g1);
                if finished(eval_block(cf, body@, 0, g1).1) {
                    lemma_block_fuel(cf, body@, 0, g1, g2);
                }
            }
        }
    }
}

proof fn lemma_block_fuel(st: IState, stmts: Seq<Statement>, i: int, f1: nat, f2: nat)
    requires
        f1 <= f2,
        finished(eval_block(st, stmts, i, f1).1),
    ensures
        eval_block(st, stmts, i, f2) == eval_block(st, stmts, i, f1),
    decreases f1, stmts.len() - i,
{
    if 0 <= i < stmts.len() {
        lemma_stmt_fuel(st, stmts[i], f1, f2);
        let (st1, r) = eval_stmt(st, stmts[i], f1);
        if r is Ok {
            lemma_block_fuel(st1, stmts, i + 1, f1, f2);
        }
    }
}

proof fn lemma_loop_fuel(st: IState, body: Seq<Statement>, f1: nat, f2: nat)
    requires
        f1 <= f2,
        finished(eval_loop(st, body, f1).1),
    ensures
        eval_loop(st, body, f2) == eval_loop(st, body, f1),
    decreases f1, 0int,
{
    let g1 = (f1 - 1) as nat;
    let g2 = (f2 - 1) as nat;
    let n = scope_count(st);
    let (st1, r) = eval_block(push_scope(st), body, 0, g1);
    if finished(r) {
        lemma_block_fuel(push_scope(st), body, 0, g1, g2);
        if r is Ok {
            lemma_loop_fuel(truncate_scopes(st1, n), body, g1, g2);
        }
    }
}

proof fn lemma_stmt_fuel(st: IState, s: Statement, f1: nat, f2: nat)
    requires
        f1 <= f2,
        finished(eval_stmt(st, s, f1).1),
    ensures
        eval_stmt(st, s, f2) == eval_stmt(st, s, f1),
    decreases f1, 0int,
{
    let g1 = (f1 - 1) as nat;
    let g2 = (f2 - 1) as nat;
    match s {
        Statement::VariableDeclaration { ty, name, initializer } => match initializer {
            Some(e) => lemma_expr_fuel(st, e, g1, g2),
            None => {},
        },
        Statement::ArrayDeclaration { ty, size, name, initializer } => {
            let (st1, rs) = match size {
                crate::ast::ArraySize::Literal(v) => (st, Ok(Stored::Scalar(Value::U64(v)))),
                crate::ast::ArraySize::Variable(n) => eval_var(st, n@),
            };
            if rs is Ok {
                match initializer {
                    Some(exprs) => lemma_inits_fuel(st1, exprs@, 0, ty, Seq::empty(), g1, g2),
                    None => {},
                }
            }
        },
        Statement::FunctionDeclaration { .. } => {},
        Statement::Expression(e) => lemma_expr_fuel(st, e, g1, g2),
        Statement::Loop(body) => lemma_loop_fuel(st, body@, g1, g2),
        Statement::TryCatch { try_body, catch_clauses } => {
            let n = scope_count(st);
            let (st1, r) = eval_block(push_scope(st), try_body@, 0, g1);
            let st2 = truncate_scopes(st1, n);
            if finished(r) {
                lemma_block_fuel(push_scope(st), try_body@, 0, g1, g2);
                if let Err(EvalErr::Exception(code)) = r {
                    if let Some(c) = catch_find(catch_clauses@, code, 0) {
                        lemma_block_fuel(push_scope(st2), catch_clauses@[c].body@, 0, g1, g2);
                    }
                }
            }
        },
        Statement::Throw { exception_code, condition } => lemma_expr_fuel(st, condition, g1, g2),
    }
}

proof fn lemma_run_top_fuel(st: IState, prog: Seq<Statement>, i: int, f1: nat, f2: nat)
    requires
        f1 <= f2,
        finished(crate::interpreter::run_top(st, prog, i, f1).1),
    ensures
        crate::interpreter::run_top(st, prog, i, f2) == crate::interpreter::run_top(st, prog, i, f1),
    decreases prog.len() - i,
{
    if 0 <= i < prog.len() {
        let (st1, r) = match prog[i] {
            Statement::FunctionDeclaration { .. } => (
                crate::interpreter::with_functions(st, crate::interpreter::fn_insert(st.functions, prog[i])),
                Ok(()),
            ),
            _ => eval_stmt(st, prog[i], f1),
        };
        if !(prog[i] is FunctionDeclaration) {
            lemma_stmt_fuel(st, prog[i], f1, f2);
        }
        if r is Ok {
            lemma_run_top_fuel(st1, prog, i + 1, f1, f2);
        }
    }
}

/// The budget of steps only bounds a run: a run that does not spend its
/// budget ends as it would with any larger one. Only a run that never ends
/// is told apart by its budget.
pub proof fn law_budget_only_bounds(st: IState, prog: Seq<Statement>, f1: nat, f2: nat)
    requires
        f1 <= f2,
        finished(crate::interpreter::run(st, prog, f1).1),
    ensures
        crate::interpreter::run(st, prog, f2) == crate::interpreter::run(st, prog, f1),
{
    lemma_run_top_fuel(st, prog, 0, f1, f2);
    let (st1, r) = crate::interpreter::run_top(st, prog, 0, f1);
    if r is Ok && !crate::ast::stmts_call(prog, "main"@) {
        if let Some(i) = crate::interpreter::fn_find(st1.functions, "main"@) {
            lemma_call_fuel(st1, st1.functions[i], Seq::empty(), f1, f2);
        }
    }
}

/// A `loop` never ends by itself: it ends only with an error, such as an
/// exception that a `try` around it catches.
pub proof fn law_loop_ends_only_in_error(st: IState, body: Seq<Statement>, fuel: nat)
    ensures
        eval_loop(st, body, fuel).1 is Err,
    decreases fuel,
{
    if fuel > 0 {
        let n = scope_count(st);
        let (st1, r) = eval_block(push_scope(st), body, 0, (fuel - 1) as nat);
        if r is Ok {
            law_loop_ends_only_in_error(truncate_scopes(st1, n), body, (fuel - 1) as nat);
        }
    }
}


// ---------------------------------------------------------------------------
// Calls and outer arrays, on every outcome.

/// A call leaves as many frames as it found, whatever its outcome, and the
/// frames of the callers as they were.
pub proof fn law_call_keeps_frame_count(st: IState, f: Statement, args: Seq<Expression>, fuel: nat)
    ensures
        eval_call(st, f, args, fuel).0.frames.len() == st.frames.len(),
        callers_same(st, eval_call(st, f, args, fuel).0),
{
    lemma_call_keeps(st, f, args, fuel);
}

/// An assignment to an element of an array that only a caller's frame
/// holds is refused: that array is read-only. The right side and the index
/// are evaluated first; no frame of a caller changes.
pub proof fn law_outer_element_assignment_refused(st: IState, x: String, idx: Expression, rhs: Expression, fuel: nat)
    requires
        fuel > 1,
        st.frames.len() > 0,
        frame_find(st.frames.last(), x@, st.frames.last().len() as int) is None,
        frames_find(st.frames, x@, st.frames.len() - 1) is Some,
        eval_expr(st, rhs, (fuel - 1) as nat).1 is Ok,
        eval_expr(eval_expr(st, rhs, (fuel - 1) as nat).0, idx, (fuel - 1) as nat).1 is Ok,
    ensures
        ({
            let st1 = eval_expr(st, rhs, (fuel - 1) as nat).0;
            let st2 = eval_expr(st1, idx, (fuel - 1) as nat).0;
            &&& eval_assign(st, Expression::ArrayElement(x, Box::new(idx)), rhs, fuel)
                == (st2, Err::<Stored, EvalErr>(EvalErr::UndefinedVariable(x@ + " is read-only"@)))
            &&& callers_same(st, st2)
        }),
{
    let f1 = (fuel - 1) as nat;
    let st1 = eval_expr(st, rhs, f1).0;
    lemma_after_expr_same_place(st, rhs, f1, x@);
    lemma_after_expr_same_place(st1, idx, f1, x@);
    lemma_expr_keeps(st, rhs, f1);
    lemma_expr_keeps(st1, idx, f1);
    lemma_expr_trans(st, st1, eval_expr(st1, idx, f1).0);
}


// ---------------------------------------------------------------------------
// The lexer: comments and words.

/// A `(` met where a token would start opens a comment when it stands at
/// the start of the text or after white space, or when what follows it does
/// not lex as a group of tokens closed by `)`. A comment gives no token: the
/// lexer goes on after its matching `)`, nested brackets counted; without
/// one, the error is an unterminated comment on the line of the `(`.
pub proof fn law_comment_gives_no_token(cs: Seq<char>, pos: int, line: int, acc: Seq<TokenModel>)
    requires
        0 <= pos < cs.len(),
        ({
            let (p, l) = skip_ws(cs, pos, line);
            let (valid, found, inner, tp, tl) = tentative(cs, p + 1, l, Seq::empty());
            &&& p < cs.len()
            &&& cs[p] == '('
            &&& after_blank(cs, p) || !(valid && found && inner.len() > 0)
        }),
    ensures
        ({
            let (p, l) = skip_ws(cs, pos, line);
            match comment_end(cs, p + 1, l, 1) {
                None => lex_all(cs, pos, line, acc) == Err::<Seq<TokenModel>, LexErr>(LexErr::UnterminatedComment(l)),
                Some((q, ql)) => lex_all(cs, pos, line, acc) == lex_all(cs, q, ql, acc),
            }
        }),
{
}

/// A word of lower-case letters and digits where a token starts is a
/// keyword or a type, which gives its token, or else an invalid identifier
/// on its line.
pub proof fn law_keywords(cs: Seq<char>, pos: int, line: int)
    requires
        ({
            let (p, l) = skip_ws(cs, pos, line);
            0 <= p < cs.len() && is_lower(cs[p])
        }),
    ensures
        ({
            let (p, l) = skip_ws(cs, pos, line);
            let e = word_end(cs, p, false);
            let w = cs.subrange(p, e);
            &&& next_token(cs, pos, line) == match keyword_token(w) {
                Some(t) => (Ok::<Option<TokenModel>, LexErr>(Some(t)), e, l),
                None => (Err::<Option<TokenModel>, LexErr>(LexErr::InvalidIdentifier(w, l)), e, l),
            }
            &&& keyword_token(w) is Some <==> (w == "var"@ || w == "array"@ || w == "func"@ || w == "loop"@
                || w == "try"@ || w == "catch"@ || w == "throw"@ || w == "i8"@ || w == "u8"@ || w == "i16"@
                || w == "u16"@ || w == "i32"@ || w == "u32"@ || w == "i64"@ || w == "u64"@)
        }),
{
    let (p, l) = skip_ws(cs, pos, line);
    assert(single_token(cs[p]) is None);
}


// ---------------------------------------------------------------------------
// The analyzer's scopes.

/// `d1` has the scopes of `d`, all but the innermost unchanged.
pub open spec fn outer_scopes_kept(d: DeclModel, d1: DeclModel) -> bool {
    &&& d1.len() == d.len()
    &&& forall|i: int| 0 <= i < d.len() - 1 ==> #[trigger] d1[i] == d[i]
}

proof fn lemma_an_stmt_scopes(s: Statement, d: DeclModel, c: Set<Seq<char>>)
    ensures
        an_stmt(s, d, c) matches Ok((d1, _)) ==> outer_scopes_kept(d, d1),
    decreases s, 0int,
{
    match s {
        Statement::Loop(body) => {
            lemma_an_stmts_scopes(body@, 0, d.push(Set::empty()), c);
            if let Ok((d1, _)) = an_stmts(body@, 0, d.push(Set::empty()), c) {
                assert(pop_scope_of(d1) =~= d);
            }
        },
        Statement::TryCatch { try_body, catch_clauses } => {
            lemma_an_stmts_scopes(try_body@, 0, d.push(Set::empty()), c);
            if let Ok((d1, c1)) = an_stmts(try_body@, 0, d.push(Set::empty()), c) {
                assert(pop_scope_of(d1) =~= d);
                lemma_an_catches_scopes(catch_clauses@, 0, d, c, c1);
            }
        },
        _ => {},
    }
}

proof fn lemma_an_stmts_scopes(stmts: Seq<Statement>, i: int, d: DeclModel, c: Set<Seq<char>>)
    ensures
        an_stmts(stmts, i, d, c) matches Ok((d1, _)) ==> outer_scopes_kept(d, d1),
    decreases stmts, stmts.len() - i,
{
    if 0 <= i < stmts.len() {
        lemma_an_stmt_scopes(stmts[i], d, c);
        if let Ok((d1, c1)) = an_stmt(stmts[i], d, c) {
            lemma_an_stmts_scopes(stmts, i + 1, d1, c1);
        }
    }
}

/// The `catch` clauses leave the declared scopes as they were.
proof fn lemma_an_catches_scopes(
    cs: Seq<CatchClause>,
    i: int,
    d: DeclModel,
    c: Set<Seq<char>>,
    acc: Set<Seq<char>>,
)
    ensures
        an_catches(cs, i, d, c, acc) matches Ok((d1, _)) ==> d1 == d,
    decreases cs, cs.len() - i,
{
    if 0 <= i < cs.len() {
        lemma_an_stmts_scopes(cs[i].body@, 0, d.push(Set::empty()), c);
        if let Ok((d2, c2)) = an_stmts(cs[i].body@, 0, d.push(Set::empty()), c) {
            assert(pop_scope_of(d2) =~= d);
            lemma_an_catches_scopes(cs, i + 1, d, c, acc.union(c2));
        }
    }
}

/// What the analyzer consumes in the `catch` clauses `cs[i..]`: the union
/// of what each of their bodies consumes, from `c`.
pub open spec fn catches_consumed(cs: Seq<CatchClause>, i: int, d: DeclModel, c: Set<Seq<char>>) -> Set<Seq<char>>
    decreases cs.len() - i,
{
    if 0 <= i < cs.len() {
        match an_stmts(cs[i].body@, 0, d.push(Set::empty()), c) {
            Ok((_, c2)) => c2.union(catches_consumed(cs, i + 1, d, c)),
            Err(_) => Set::empty(),
        }
    } else {
        Set::empty()
    }
}

proof fn lemma_an_catches_union(
    cs: Seq<CatchClause>,
    i: int,
    d: DeclModel,
    c: Set<Seq<char>>,
    acc: Set<Seq<char>>,
)
    ensures
        an_catches(cs, i, d, c, acc) matches Ok((_, c1)) ==> c1 == acc.union(catches_consumed(cs, i, d, c)),
    decreases cs.len() - i,
{
    if 0 <= i < cs.len() {
        lemma_an_stmts_scopes(cs[i].body@, 0, d.push(Set::empty()), c);
        if let Ok((d2, c2)) = an_stmts(cs[i].body@, 0, d.push(Set::empty()), c) {
            assert(pop_scope_of(d2) =~= d);
            lemma_an_catches_union(cs, i + 1, d, c, acc.union(c2));
            assert(acc.union(c2).union(catches_consumed(cs, i + 1, d, c)) =~= acc.union(
                catches_consumed(cs, i, d, c),
            ));
        }
    } else {
        assert(acc.union(Set::empty()) =~= acc);
    }
}

/// The analyzer checks a `try` statement from the names consumed before
/// it: its body in a scope of its own, then each `catch` clause in one of
/// its own. The declared scopes after it are those before it, and the names
/// consumed after it are those that the body or any clause consumes.
pub proof fn law_analyzer_try(try_body: Vec<Statement>, clauses: Vec<CatchClause>, d: DeclModel, c: Set<Seq<char>>)
    ensures
        ({
            let r = an_stmt(Statement::TryCatch { try_body, catch_clauses: clauses }, d, c);
            match an_stmts(try_body@, 0, d.push(Set::empty()), c) {
                Err(m) => r == Err::<(DeclModel, Set<Seq<char>>), Seq<char>>(m),
                Ok((_, c1)) => r matches Ok((d2, c2)) ==> d2 == d && c2 == c1.union(catches_consumed(clauses@, 0, d, c)),
            }
        }),
{
    lemma_an_stmts_scopes(try_body@, 0, d.push(Set::empty()), c);
    if let Ok((d1, c1)) = an_stmts(try_body@, 0, d.push(Set::empty()), c) {
        assert(pop_scope_of(d1) =~= d);
        lemma_an_catches_scopes(clauses@, 0, d, c, c1);
        lemma_an_catches_union(clauses@, 0, d, c, c1);
    }
}


// ---------------------------------------------------------------------------
// The generation of C: locals and types.

/// The names that the statements `stmts` declare themselves (not those
/// declared in their bodies).
pub open spec fn direct_decls(stmts: Seq<Statement>) -> Set<Seq<char>>
    decreases stmts.len(),
{
    if stmts.len() == 0 {
        Set::empty()
    } else {
        direct_decls(stmts.drop_last()).union(match stmts.last() {
            Statement::VariableDeclaration { name, .. } => set![name@],
            Statement::ArrayDeclaration { name, .. } => set![name@],
            _ => Set::empty(),
        })
    }
}

/// The C text of statements only grows the locals by the names that the
/// statements declare themselves: what a loop, a `try` or a `catch` body
/// declares stays local to it.
pub proof fn law_block_locals(stmts: Seq<Statement>, n: nat, locals: Set<Seq<char>>, types: Seq<(Seq<char>, Type)>)
    ensures
        gen_block(stmts, n, locals, types).1 == locals.union(direct_decls(stmts)),
    decreases stmts.len(),
{
    if stmts.len() == 0 {
        assert(locals.union(Set::empty()) =~= locals);
    } else {
        law_block_locals(stmts.drop_last(), n, locals, types);
        let l1 = gen_block(stmts.drop_last(), n, locals, types).1;
        assert(gen_block(stmts, n, locals, types).1 == gen_stmt(stmts.last(), n, l1, types).1);
        match stmts.last() {
            Statement::VariableDeclaration { name, .. } => {
                reveal(crate::compiler::codegen::gen_var_stmt);
                assert(l1.insert(name@) =~= locals.union(direct_decls(stmts)));
                assert(l1.contains(name@) ==> l1 =~= l1.insert(name@));
            },
            Statement::ArrayDeclaration { name, .. } => {
                assert(l1.insert(name@) =~= locals.union(direct_decls(stmts)));
            },
            _ => {
                assert(gen_stmt(stmts.last(), n, l1, types).1 == l1);
                assert(l1 =~= locals.union(direct_decls(stmts)));
            },
        }
    }
}

/// The type that a table gives a name after more entries: that of the
/// last new entry for it, or else what the table gave before.
pub proof fn law_type_lookup_after(a: Seq<(Seq<char>, Type)>, b: Seq<(Seq<char>, Type)>, name: Seq<char>)
    ensures
        type_lookup(a + b, name) == match type_lookup(b, name) {
            Some(t) => Some(t),
            None => type_lookup(a, name),
        },
    decreases b.len(),
{
    if b.len() == 0 {
        assert(a + b =~= a);
    } else {
        assert((a + b).drop_last() =~= a + b.drop_last());
        law_type_lookup_after(a, b.drop_last(), name);
    }
}

/// After `collect_types` on a statement, a name that the statement
/// declares has the type of its last declaration there, and any other name
/// keeps the type the table gave it.
pub proof fn law_collected_types(old_table: Seq<(Seq<char>, Type)>, s: Statement, name: Seq<char>)
    ensures
        type_lookup(old_table + types_in(s), name) == match type_lookup(types_in(s), name) {
            Some(t) => Some(t),
            None => type_lookup(old_table, name),
        },
{
    law_type_lookup_after(old_table, types_in(s), name);
}


// ---------------------------------------------------------------------------
// Reading and assigning at the level of expressions.

/// `$x[k]` with a literal index, on an array of a caller's frame, gives the
/// element and changes nothing: elements of outer arrays are read-only.
pub proof fn law_outer_element_expression_keeps(st: IState, x: String, k: u64, f: int, s: int, ty: Type, elems: Seq<Option<Value>>, j: int, fuel: nat)
    requires
        lookup(st, x@) == Ok::<(int, int, int), EvalErr>((f, s, j)),
        f < st.frames.len() - 1,
        var_at(st, f, s, j).val == Stored::Array(ty, elems),
        k < elems.len(),
        elems[k as int] is Some,
        fuel > 1,
    ensures
        eval_expr(st, Expression::ArrayElement(x, Box::new(Expression::HexLiteral(k, false))), fuel)
            == (st, Ok::<Stored, EvalErr>(observe(elems[k as int]->Some_0))),
{
    let f1 = (fuel - 1) as nat;
    assert(eval_expr(st, Expression::HexLiteral(k, false), f1) == (st, Ok::<Stored, EvalErr>(Stored::Scalar(Value::I64(k as i64)))));
    assert(Value::I64(k as i64).as_u64() == k) by {
        assert(((k as i64) as u64) == k) by (bit_vector);
    }
}

/// An assignment to a name that no frame binds is refused: the error names
/// the variable, or the element with its index.
pub proof fn law_assignment_to_unbound(st: IState, x: String, idx: Expression, rhs: Expression, fuel: nat)
    requires
        fuel > 1,
        st.frames.len() > 0,
        frames_find(st.frames, x@, st.frames.len() as int) is None,
        eval_expr(st, rhs, (fuel - 1) as nat).1 is Ok,
        eval_expr(eval_expr(st, rhs, (fuel - 1) as nat).0, idx, (fuel - 1) as nat).1 is Ok,
    ensures
        ({
            let st1 = eval_expr(st, rhs, (fuel - 1) as nat).0;
            let (st2, ri) = eval_expr(st1, idx, (fuel - 1) as nat);
            &&& eval_assign(st, Expression::Variable(x), rhs, fuel)
                == (st1, Err::<Stored, EvalErr>(EvalErr::UndefinedVariable(x@)))
            &&& eval_assign(st, Expression::ArrayElement(x, Box::new(idx)), rhs, fuel)
                == (st2, Err::<Stored, EvalErr>(EvalErr::UndefinedVariable(element_label(x@, ri->Ok_0.num().as_u64()))))
        }),
{
    let f1 = (fuel - 1) as nat;
    let n = st.frames.len() as int;
    assert(frame_find(st.frames[n - 1], x@, st.frames[n - 1].len() as int) is None);
    assert(frames_find(st.frames, x@, n - 1) is None);
    lemma_after_expr_same_place(st, rhs, f1, x@);
    let st1 = eval_expr(st, rhs, f1).0;
    lemma_after_expr_same_place(st1, idx, f1, x@);
}

/// A call of a statement that is not a function declaration is refused.
pub proof fn law_call_of_non_function(st: IState, f: Statement, args: Seq<Expression>, fuel: nat)
    requires
        fuel > 0,
        !(f is FunctionDeclaration),
    ensures
        eval_call(st, f, args, fuel) == (st, Err::<Stored, EvalErr>(EvalErr::UndefinedVariable("Not a function"@))),
{
}


// ---------------------------------------------------------------------------
// Comparisons.

/// `<`, `>` and `=` give 1 or 0. `<` and `>` compare the numbers that the
/// operands' bits stand for: read as signed when the left operand's type is
/// signed, as unsigned otherwise; `=` compares the bits. On operands of one
/// type they compare the operands' values, and `a < b` is `b > a`.
pub proof fn law_comparisons(a: Value, b: Value)
    ensures
        ({
            let lt = crate::interpreter::binary_result(BinaryOperator::LessThan, a, b);
            let gt = crate::interpreter::binary_result(BinaryOperator::GreaterThan, a, b);
            let eq = crate::interpreter::binary_result(BinaryOperator::Equal, a, b);
            let signed = Value::is_signed(a.get_type());
            &&& lt == 0 || lt == 1
            &&& gt == 0 || gt == 1
            &&& eq == 0 || eq == 1
            &&& !signed ==> (lt == 1 <==> (a.as_u64() as int) < (b.as_u64() as int))
            &&& signed ==> (lt == 1 <==> (a.as_i64() as int) < (b.as_i64() as int))
            &&& !signed ==> (gt == 1 <==> (a.as_u64() as int) > (b.as_u64() as int))
            &&& signed ==> (gt == 1 <==> (a.as_i64() as int) > (b.as_i64() as int))
            &&& eq == 1 <==> a.as_u64() == b.as_u64()
            &&& a.get_type() == b.get_type() ==> {
                &&& lt == 1 <==> int_value(a) < int_value(b)
                &&& gt == 1 <==> int_value(a) > int_value(b)
                &&& lt == crate::interpreter::binary_result(BinaryOperator::GreaterThan, b, a)
            }
        }),
{
}

/// `+` and `-` compute on the operands' 64 bits, modulo 2^64.
pub proof fn law_add_sub(a: Value, b: Value)
    ensures
        crate::interpreter::binary_result(BinaryOperator::Add, a, b) as int == (a.as_u64() as int + b.as_u64() as int)
            % 0x1_0000_0000_0000_0000,
        crate::interpreter::binary_result(BinaryOperator::Sub, a, b) as int == (a.as_u64() as int - b.as_u64() as int)
            % 0x1_0000_0000_0000_0000,
{
}

/// Bit `i` of `x`.
pub open spec fn bit_of(x: u64, i: u64) -> bool {
    (x >> i) & 1u64 == 1u64
}

/// `&` and `|` work bit by bit; `<<` moves the bits up by the shift (taken
/// modulo 64) and brings in zeros; `>>` moves them down and brings in
/// zeros for an unsigned left operand, copies of its sign bit for a signed
/// one.
pub proof fn law_bitwise(a: Value, b: Value)
    ensures
        ({
            let x = a.as_u64();
            let y = b.as_u64();
            let s = ((b.as_u64() as u32) % 64) as u64;
            let and = crate::interpreter::binary_result(BinaryOperator::BitwiseAnd, a, b);
            let or = crate::interpreter::binary_result(BinaryOperator::BitwiseOr, a, b);
            let shl = crate::interpreter::binary_result(BinaryOperator::ShiftLeft, a, b);
            let shr = crate::interpreter::binary_result(BinaryOperator::ShiftRight, a, b);
            &&& forall|i: u64| i < 64 ==> (#[trigger] bit_of(and, i) <==> bit_of(x, i) && bit_of(y, i))
            &&& forall|i: u64| i < 64 ==> (#[trigger] bit_of(or, i) <==> bit_of(x, i) || bit_of(y, i))
            &&& forall|i: u64| i < 64 ==> (#[trigger] bit_of(shl, i) <==> s <= i && bit_of(x, (i - s) as u64))
            &&& !Value::is_signed(a.get_type()) ==> forall|i: u64|
                i < 64 ==> (#[trigger] bit_of(shr, i) <==> i + s < 64 && bit_of(x, (i + s) as u64))
            &&& Value::is_signed(a.get_type()) ==> forall|i: u64|
                i < 64 ==> (#[trigger] bit_of(shr, i) <==> if i + s < 64 {
                    bit_of(x, (i + s) as u64)
                } else {
                    bit_of(x, 63)
                })
        }),
{
    let x = a.as_u64();
    let y = b.as_u64();
    let s = ((b.as_u64() as u32) % 64) as u64;
    let and = x & y;
    let or = x | y;
    let shl = x << s;
    assert(crate::interpreter::binary_result(BinaryOperator::ShiftLeft, a, b) == shl) by {
        assert(((b.as_u64() as u32) % 64) as u64 == s);
    }
    assert forall|i: u64| i < 64 implies (#[trigger] bit_of(and, i) <==> bit_of(x, i) && bit_of(y, i)) by {
        assert(i < 64 ==> (((x & y) >> i) & 1u64 == 1u64 <==> ((x >> i) & 1u64 == 1u64 && (y >> i) & 1u64 == 1u64)))
            by (bit_vector);
    }
    assert forall|i: u64| i < 64 implies (#[trigger] bit_of(or, i) <==> bit_of(x, i) || bit_of(y, i)) by {
        assert(i < 64 ==> (((x | y) >> i) & 1u64 == 1u64 <==> ((x >> i) & 1u64 == 1u64 || (y >> i) & 1u64 == 1u64)))
            by (bit_vector);
    }
    assert forall|i: u64| i < 64 implies (#[trigger] bit_of(shl, i) <==> s <= i && bit_of(x, (i - s) as u64)) by {
        assert(i < 64 && s < 64 ==> ((((x << s) >> i) & 1u64 == 1u64) <==> (s <= i && (x >> ((i - s) as u64)) & 1u64
            == 1u64))) by (bit_vector);
    }
    if Value::is_signed(a.get_type()) {
        let v = a.as_i64();
        assert(v as u64 == x);
        let r = v >> s;
        assert(crate::interpreter::binary_result(BinaryOperator::ShiftRight, a, b) == r as u64);
        assert forall|i: u64| i < 64 implies (#[trigger] bit_of(r as u64, i) <==> if i + s < 64 {
            bit_of(x, (i + s) as u64)
        } else {
            bit_of(x, 63)
        }) by {
            assert(i < 64 && s < 64 && v as u64 == x ==> ((((v >> s) as u64 >> i) & 1u64 == 1u64) <==> if i + s < 64 {
                (x >> ((i + s) as u64)) & 1u64 == 1u64
            } else {
                (x >> 63u64) & 1u64 == 1u64
            })) by (bit_vector);
        }
    } else {
        let r = x >> s;
        assert(crate::interpreter::binary_result(BinaryOperator::ShiftRight, a, b) == r);
        assert forall|i: u64| i < 64 implies (#[trigger] bit_of(r, i) <==> i + s < 64 && bit_of(x, (i + s) as u64)) by {
            assert(i < 64 && s < 64 ==> ((((x >> s) >> i) & 1u64 == 1u64) <==> (i + s < 64 && (x >> ((i + s) as u64))
                & 1u64 == 1u64))) by (bit_vector);
        }
    }
}

// ---------------------------------------------------------------------------
// The analysis of `throw`.

/// The condition of a `throw` is checked as an expression statement is:
/// what it reads is consumed, and a read of a consumed variable in it is
/// reported; the declared scopes do not change.
pub proof fn law_throw_condition_analyzed(code: u64, e: Expression, d: DeclModel, c: Set<Seq<char>>)
    ensures
        an_stmt(Statement::Throw { exception_code: code, condition: e }, d, c) == an_stmt(Statement::Expression(e), d, c),
        an_stmt(Statement::Throw { exception_code: code, condition: e }, d, c) == match an_expr(e, d, c) {
            Ok(c1) => Ok::<(DeclModel, Set<Seq<char>>), Seq<char>>((d, c1)),
            Err(m) => Err(m),
        },
{
}

/// `throw k @ $x.` with `$x` declared in the function consumes `$x`: it is
/// consumed afterwards, and if it was consumed before, the error names it.
pub proof fn law_throw_consumes(code: u64, x: String, d: DeclModel, c: Set<Seq<char>>)
    requires
        is_declared_in(x@, d),
    ensures
        ({
            let r = an_stmt(Statement::Throw { exception_code: code, condition: Expression::Variable(x) }, d, c);
            &&& !c.contains(x@) ==> r == Ok::<(DeclModel, Set<Seq<char>>), Seq<char>>((d, c.insert(x@)))
            &&& c.contains(x@) ==> r == Err::<(DeclModel, Set<Seq<char>>), Seq<char>>(
                "Variable '"@ + x@ + "' is used after being consumed."@,
            )
        }),
{
}

/// An expression statement that reads a variable declared in the function
/// consumes it; reading it when it is consumed is reported.
pub proof fn law_expression_statement_consumes(x: String, d: DeclModel, c: Set<Seq<char>>)
    requires
        is_declared_in(x@, d),
    ensures
        ({
            let r = an_stmt(Statement::Expression(Expression::Variable(x)), d, c);
            &&& !c.contains(x@) ==> r == Ok::<(DeclModel, Set<Seq<char>>), Seq<char>>((d, c.insert(x@)))
            &&& c.contains(x@) ==> r == Err::<(DeclModel, Set<Seq<char>>), Seq<char>>(
                "Variable '"@ + x@ + "' is used after being consumed."@,
            )
        }),
{
}

/// A declaration with an initial value checks the value first (what it
/// reads is consumed), then declares the name in the innermost scope, live.
pub proof fn law_declaration_analyzed(ty: Type, x: String, y: String, d: DeclModel, c: Set<Seq<char>>)
    requires
        is_declared_in(y@, d),
        !c.contains(y@),
        x@ != y@,
        d.len() > 0,
    ensures
        an_stmt(Statement::VariableDeclaration { ty, name: x, initializer: Some(Expression::Variable(y)) }, d, c)
            == Ok::<(DeclModel, Set<Seq<char>>), Seq<char>>((
            d.update(d.len() - 1, d.last().insert(x@)),
            c.insert(y@).remove(x@),
        )),
{
}

// ---------------------------------------------------------------------------
// The C text of `catch` clauses.

/// Whether `w` occurs in `s`.
pub open spec fn contains_text(s: Seq<char>, w: Seq<char>) -> bool {
    exists|k: int| 0 <= k && k + w.len() <= s.len() && #[trigger] s.subrange(k, k + w.len()) == w
}

proof fn lemma_contains_within(a: Seq<char>, b: Seq<char>, c: Seq<char>, w: Seq<char>)
    requires
        contains_text(b, w),
    ensures
        contains_text(a + b + c, w),
{
    let k = choose|k: int| 0 <= k && k + w.len() <= b.len() && #[trigger] b.subrange(k, k + w.len()) == w;
    let s = a + b + c;
    let k2 = a.len() + k;
    assert(s.subrange(k2, k2 + w.len()) =~= b.subrange(k, k + w.len()));
}

proof fn lemma_contains_self(w: Seq<char>)
    ensures
        contains_text(w, w),
{
    let k: int = 0;
    assert(w.subrange(k, k + w.len()) =~= w);
}

/// The branch of the C text that handles the `i`-th clause: it tests that
/// the exception's code equals the clause's code, then runs its body.
pub open spec fn catch_branch(cs: Seq<CatchClause>, i: int, n: nat, locals: Set<Seq<char>>, types: Seq<(Seq<char>, Type)>) -> Seq<char> {
    (if i == 0 { "if (code == 0x"@ } else { "else if (code == 0x"@ }) + crate::text::hex_digits(
        cs[i].exception_code as nat,
    ) + ") {\n"@ + gen_block(cs[i].body@, n + 3, locals, types).0
}

proof fn lemma_head_contains(ii: Seq<char>, first: bool, code: u64, blk: Seq<char>, tail: Seq<char>)
    ensures
        contains_text(
            crate::compiler::codegen::catch_head(ii, first, code) + blk + tail,
            (if first { "if (code == 0x"@ } else { "else if (code == 0x"@ }) + crate::text::hex_digits(code as nat)
                + ") {\n"@ + blk,
        ),
{
    reveal_strlit("    if (code == 0x");
    reveal_strlit("    else if (code == 0x");
    reveal_strlit("if (code == 0x");
    reveal_strlit("else if (code == 0x");
    reveal_strlit("    ");
    let pre = if first { "if (code == 0x"@ } else { "else if (code == 0x"@ };
    let w = pre + crate::text::hex_digits(code as nat) + ") {\n"@ + blk;
    let a = ii + "    "@;
    assert(crate::compiler::codegen::catch_head(ii, first, code) + blk + tail =~= a + w + tail);
    lemma_contains_self(w);
    lemma_contains_within(a, w, tail, w);
}

proof fn lemma_catches_branches(cs: Seq<CatchClause>, n: nat, locals: Set<Seq<char>>, types: Seq<(Seq<char>, Type)>)
    ensures
        forall|i: int|
            0 <= i < cs.len() ==> contains_text(
                crate::compiler::codegen::gen_catches(cs, n, locals, types),
                #[trigger] catch_branch(cs, i, n, locals, types),
            ),
    decreases cs.len(),
{
    if cs.len() > 0 {
        let m = cs.len() - 1;
        let init = cs.drop_last();
        lemma_catches_branches(init, n, locals, types);
        let ii = crate::compiler::codegen::indent(n + 1);
        let code = cs.last().exception_code;
        let blk = gen_block(cs.last().body@, n + 3, locals, types).0;
        let tail = ii + "    }\n"@;
        let whole = crate::compiler::codegen::gen_catches(cs, n, locals, types);
        let before = crate::compiler::codegen::gen_catches(init, n, locals, types);
        let x = crate::compiler::codegen::catch_head(ii, m == 0, code) + blk + tail;
        assert(whole == before + x);
        lemma_head_contains(ii, m == 0, code, blk, tail);
        lemma_contains_within(before, x, Seq::<char>::empty(), catch_branch(cs, m, n, locals, types));
        assert(before + x + Seq::<char>::empty() =~= whole);
        assert forall|i: int| 0 <= i < cs.len() implies contains_text(whole, #[trigger] catch_branch(cs, i, n, locals, types)) by {
            if i < m {
                assert(catch_branch(cs, i, n, locals, types) == catch_branch(init, i, n, locals, types));
                lemma_contains_within(Seq::<char>::empty(), before, x, catch_branch(cs, i, n, locals, types));
                assert(Seq::<char>::empty() + before + x =~= whole);
            }
        }
    }
}

/// The C text of a `try` handles each of its clauses by a branch that
/// tests the exception's code for equality with the clause's code (the
/// first with `if`, the others with `else if`) and then runs that clause's
/// body: so the C program catches what the clauses name.
pub proof fn law_catch_branches(try_body: Vec<Statement>, clauses: Vec<CatchClause>, n: nat, locals: Set<Seq<char>>, types: Seq<(Seq<char>, Type)>)
    ensures
        forall|i: int|
            0 <= i < clauses@.len() ==> contains_text(
                gen_stmt(Statement::TryCatch { try_body, catch_clauses: clauses }, n, locals, types).0,
                #[trigger] catch_branch(clauses@, i, n, locals, types),
            ),
{
    let cs = clauses@;
    lemma_catches_branches(cs, n, locals, types);
    let ind = crate::compiler::codegen::indent(n);
    let ii = crate::compiler::codegen::indent(n + 1);
    let head = crate::compiler::codegen::try_head(ind, ii) + gen_block(try_body@, n + 2, locals, types).0
        + crate::compiler::codegen::try_middle(ii);
    let mid = crate::compiler::codegen::gen_catches(cs, n, locals, types);
    let tail = crate::compiler::codegen::try_tail(ind, ii);
    assert(gen_stmt(Statement::TryCatch { try_body, catch_clauses: clauses }, n, locals, types).0 == head + mid + tail);
    assert forall|i: int| 0 <= i < cs.len() implies contains_text(
        gen_stmt(Statement::TryCatch { try_body, catch_clauses: clauses }, n, locals, types).0,
        #[trigger] catch_branch(cs, i, n, locals, types),
    ) by {
        lemma_contains_within(head, mid, tail, catch_branch(cs, i, n, locals, types));
    }
}

// ---------------------------------------------------------------------------
// `|` over many operands.

/// The operands `es` joined by `|`, grouped to the left.
pub open spec fn or_chain(es: Seq<ExprModel>) -> ExprModel
    decreases es.len(),
{
    if es.len() <= 1 {
        es[0]
    } else {
        bin(BinaryOperator::BitwiseOr, or_chain(es.drop_last()), es.last())
    }
}

/// The operands `starts[i]..ends[i]` (each parsed at the level of `&`),
/// separated by `|` tokens, the last not followed by `|`.
pub open spec fn or_operands(t: Seq<TokenModel>, starts: Seq<int>, es: Seq<ExprModel>, ends: Seq<int>) -> bool {
    &&& es.len() >= 1
    &&& starts.len() == es.len()
    &&& ends.len() == es.len()
    &&& forall|i: int|
        0 <= i < es.len() ==> 0 <= starts[i] < ends[i] <= t.len() && #[trigger] p_and(t, starts[i]) == Ok::<
            (ExprModel, int),
            crate::parser::PErr,
        >((es[i], ends[i]))
    &&& forall|i: int|
        0 <= i < es.len() - 1 ==> #[trigger] crate::parser::is_at(t, ends[i], crate::lexer::TokenKind::BitwiseOr)
            && starts[i + 1] == ends[i] + 1
    &&& !crate::parser::is_at(t, ends[es.len() - 1], crate::lexer::TokenKind::BitwiseOr)
}

proof fn lemma_or_rest_chain(t: Seq<TokenModel>, starts: Seq<int>, es: Seq<ExprModel>, ends: Seq<int>, i: int)
    requires
        or_operands(t, starts, es, ends),
        0 <= i < es.len(),
    ensures
        p_or_rest(t, or_chain(es.take(i + 1)), ends[i]) == Ok::<(ExprModel, int), crate::parser::PErr>(
            (or_chain(es), ends[es.len() - 1]),
        ),
    decreases es.len() - i,
{
    let n = es.len();
    if i == n - 1 {
        assert(es.take(i + 1) =~= es);
    } else {
        assert(crate::parser::is_at(t, ends[i], crate::lexer::TokenKind::BitwiseOr));
        assert(starts[i + 1] == ends[i] + 1);
        assert(p_and(t, starts[i + 1]) == Ok::<(ExprModel, int), crate::parser::PErr>((es[i + 1], ends[i + 1])));
        assert(es.take(i + 2).drop_last() =~= es.take(i + 1));
        assert(es.take(i + 2).last() == es[i + 1]);
        lemma_or_rest_chain(t, starts, es, ends, i + 1);
    }
}

/// `|` groups to the left over any number of operands: a chain
/// `e1 | e2 | ... | en` parses as `(...(e1 | e2) | ...) | en`, and the
/// parse ends after the last operand.
pub proof fn law_or_chain(t: Seq<TokenModel>, starts: Seq<int>, es: Seq<ExprModel>, ends: Seq<int>)
    requires
        or_operands(t, starts, es, ends),
    ensures
        p_or(t, starts[0]) == Ok::<(ExprModel, int), crate::parser::PErr>((or_chain(es), ends[es.len() - 1])),
{
    assert(p_and(t, starts[0]) == Ok::<(ExprModel, int), crate::parser::PErr>((es[0], ends[0])));
    assert(or_chain(es.take(1)) == es[0]);
    lemma_or_rest_chain(t, starts, es, ends, 0);
}

/// Operands `es` joined by the operators `ops`, grouped to the left:
/// `ops[i]` joins what comes before `es[i + 1]` and `es[i + 1]`.
pub open spec fn op_chain(es: Seq<ExprModel>, ops: Seq<BinaryOperator>) -> ExprModel
    decreases es.len(),
{
    if es.len() <= 1 {
        es[0]
    } else {
        bin(ops[es.len() - 2], op_chain(es.drop_last(), ops), es.last())
    }
}

/// The operator that a token stands for between the operands of `+`/`-`.
pub open spec fn additive_token_op(k: crate::lexer::TokenKind) -> Option<BinaryOperator> {
    match k {
        crate::lexer::TokenKind::Plus => Some(BinaryOperator::Add),
        crate::lexer::TokenKind::Minus => Some(BinaryOperator::Sub),
        _ => None,
    }
}

/// The operator that a token stands for between the operands of a shift.
pub open spec fn shift_token_op(k: crate::lexer::TokenKind) -> Option<BinaryOperator> {
    match k {
        crate::lexer::TokenKind::ShiftLeft => Some(BinaryOperator::ShiftLeft),
        crate::lexer::TokenKind::ShiftRight => Some(BinaryOperator::ShiftRight),
        _ => None,
    }
}

/// The operator that a token stands for between the operands of `&`.
pub open spec fn and_token_op(k: crate::lexer::TokenKind) -> Option<BinaryOperator> {
    match k {
        crate::lexer::TokenKind::BitwiseAnd => Some(BinaryOperator::BitwiseAnd),
        _ => None,
    }
}

/// Operands `starts[i]..ends[i]`, each parsed by `p_or`, separated by
/// single operator tokens of `+` (for `Add`) and `-` (for `Sub`), whose operators are `ops`; the last
/// operand is not followed by such a token.
pub open spec fn additive_operands(
    t: Seq<TokenModel>,
    starts: Seq<int>,
    es: Seq<ExprModel>,
    ends: Seq<int>,
    ops: Seq<BinaryOperator>,
) -> bool {
    &&& es.len() >= 1
    &&& starts.len() == es.len()
    &&& ends.len() == es.len()
    &&& ops.len() + 1 == es.len()
    &&& forall|i: int|
        0 <= i < es.len() ==> 0 <= starts[i] < ends[i] <= t.len() && #[trigger] p_or(t, starts[i]) == Ok::<
            (ExprModel, int),
            crate::parser::PErr,
        >((es[i], ends[i]))
    &&& forall|i: int|
        0 <= i < es.len() - 1 ==> 0 <= #[trigger] ends[i] < t.len() && additive_token_op(t[ends[i]].kind) == Some(ops[i])
            && starts[i + 1] == ends[i] + 1
    &&& (ends[es.len() - 1] < t.len() ==> additive_token_op(t[ends[es.len() - 1]].kind) is None)
}

proof fn lemma_additive_rest_chain(t: Seq<TokenModel>, starts: Seq<int>, es: Seq<ExprModel>, ends: Seq<int>, ops: Seq<BinaryOperator>, i: int)
    requires
        additive_operands(t, starts, es, ends, ops),
        0 <= i < es.len(),
    ensures
        p_additive_rest(t, op_chain(es.take(i + 1), ops), ends[i]) == Ok::<(ExprModel, int), crate::parser::PErr>(
            (op_chain(es, ops), ends[es.len() - 1]),
        ),
    decreases es.len() - i,
{
    let n = es.len();
    if i == n - 1 {
        assert(es.take(i + 1) =~= es);
    } else {
        assert(0 <= ends[i] < t.len() && additive_token_op(t[ends[i]].kind) == Some(ops[i]));
        assert(starts[i + 1] == ends[i] + 1);
        assert(p_or(t, starts[i + 1]) == Ok::<(ExprModel, int), crate::parser::PErr>((es[i + 1], ends[i + 1])));
        assert(es.take(i + 2).drop_last() =~= es.take(i + 1));
        assert(es.take(i + 2).last() == es[i + 1]);
        lemma_additive_rest_chain(t, starts, es, ends, ops, i + 1);
    }
}

/// `+` and `-` group to the left over any number of operands: `e1 op1 e2 ... en`
/// parses as `(...(e1 op1 e2) ...) opn en`, `+` as `Add` and `-` as `Sub`, and
/// the parse ends after the last operand.
pub proof fn law_additive_chain(t: Seq<TokenModel>, starts: Seq<int>, es: Seq<ExprModel>, ends: Seq<int>, ops: Seq<BinaryOperator>)
    requires
        additive_operands(t, starts, es, ends, ops),
    ensures
        p_additive(t, starts[0]) == Ok::<(ExprModel, int), crate::parser::PErr>((op_chain(es, ops), ends[es.len() - 1])),
{
    assert(p_or(t, starts[0]) == Ok::<(ExprModel, int), crate::parser::PErr>((es[0], ends[0])));
    assert(op_chain(es.take(1), ops) == es[0]);
    lemma_additive_rest_chain(t, starts, es, ends, ops, 0);
}

/// Operands `starts[i]..ends[i]`, each parsed by `p_unary`, separated by
/// single operator tokens of `<<` (for `ShiftLeft`) and `>>` (for `ShiftRight`), whose operators are `ops`; the last
/// operand is not followed by such a token.
pub open spec fn shift_operands(
    t: Seq<TokenModel>,
    starts: Seq<int>,
    es: Seq<ExprModel>,
    ends: Seq<int>,
    ops: Seq<BinaryOperator>,
) -> bool {
    &&& es.len() >= 1
    &&& starts.len() == es.len()
    &&& ends.len() == es.len()
    &&& ops.len() + 1 == es.len()
    &&& forall|i: int|
        0 <= i < es.len() ==> 0 <= starts[i] < ends[i] <= t.len() && #[trigger] p_unary(t, starts[i]) == Ok::<
            (ExprModel, int),
            crate::parser::PErr,
        >((es[i], ends[i]))
    &&& forall|i: int|
        0 <= i < es.len() - 1 ==> 0 <= #[trigger] ends[i] < t.len() && shift_token_op(t[ends[i]].kind) == Some(ops[i])
            && starts[i + 1] == ends[i] + 1
    &&& (ends[es.len() - 1] < t.len() ==> shift_token_op(t[ends[es.len() - 1]].kind) is None)
}

proof fn lemma_shift_rest_chain(t: Seq<TokenModel>, starts: Seq<int>, es: Seq<ExprModel>, ends: Seq<int>, ops: Seq<BinaryOperator>, i: int)
    requires
        shift_operands(t, starts, es, ends, ops),
        0 <= i < es.len(),
    ensures
        p_shift_rest(t, op_chain(es.take(i + 1), ops), ends[i]) == Ok::<(ExprModel, int), crate::parser::PErr>(
            (op_chain(es, ops), ends[es.len() - 1]),
        ),
    decreases es.len() - i,
{
    let n = es.len();
    if i == n - 1 {
        assert(es.take(i + 1) =~= es);
    } else {
        assert(0 <= ends[i] < t.len() && shift_token_op(t[ends[i]].kind) == Some(ops[i]));
        assert(starts[i + 1] == ends[i] + 1);
        assert(p_unary(t, starts[i + 1]) == Ok::<(ExprModel, int), crate::parser::PErr>((es[i + 1], ends[i + 1])));
        assert(es.take(i + 2).drop_last() =~= es.take(i + 1));
        assert(es.take(i + 2).last() == es[i + 1]);
        lemma_shift_rest_chain(t, starts, es, ends, ops, i + 1);
    }
}

/// `<<` and `>>` group to the left over any number of operands, each token
/// standing for its own shift, and the parse ends after the last operand.
pub proof fn law_shift_chain(t: Seq<TokenModel>, starts: Seq<int>, es: Seq<ExprModel>, ends: Seq<int>, ops: Seq<BinaryOperator>)
    requires
        shift_operands(t, starts, es, ends, ops),
    ensures
        p_shift(t, starts[0]) == Ok::<(ExprModel, int), crate::parser::PErr>((op_chain(es, ops), ends[es.len() - 1])),
{
    assert(p_unary(t, starts[0]) == Ok::<(ExprModel, int), crate::parser::PErr>((es[0], ends[0])));
    assert(op_chain(es.take(1), ops) == es[0]);
    lemma_shift_rest_chain(t, starts, es, ends, ops, 0);
}

/// Operands `starts[i]..ends[i]`, each parsed by `p_shift`, separated by
/// single operator tokens of `&`, whose operators are `ops`; the last
/// operand is not followed by such a token.
pub open spec fn and_operands(
    t: Seq<TokenModel>,
    starts: Seq<int>,
    es: Seq<ExprModel>,
    ends: Seq<int>,
    ops: Seq<BinaryOperator>,
) -> bool {
    &&& es.len() >= 1
    &&& starts.len() == es.len()
    &&& ends.len() == es.len()
    &&& ops.len() + 1 == es.len()
    &&& forall|i: int|
        0 <= i < es.len() ==> 0 <= starts[i] < ends[i] <= t.len() && #[trigger] p_shift(t, starts[i]) == Ok::<
            (ExprModel, int),
            crate::parser::PErr,
        >((es[i], ends[i]))
    &&& forall|i: int|
        0 <= i < es.len() - 1 ==> 0 <= #[trigger] ends[i] < t.len() && and_token_op(t[ends[i]].kind) == Some(ops[i])
            && starts[i + 1] == ends[i] + 1
    &&& (ends[es.len() - 1] < t.len() ==> and_token_op(t[ends[es.len() - 1]].kind) is None)
}

proof fn lemma_and_rest_chain(t: Seq<TokenModel>, starts: Seq<int>, es: Seq<ExprModel>, ends: Seq<int>, ops: Seq<BinaryOperator>, i: int)
    requires
        and_operands(t, starts, es, ends, ops),
        0 <= i < es.len(),
    ensures
        p_and_rest(t, op_chain(es.take(i + 1), ops), ends[i]) == Ok::<(ExprModel, int), crate::parser::PErr>(
            (op_chain(es, ops), ends[es.len() - 1]),
        ),
    decreases es.len() - i,
{
    let n = es.len();
    if i == n - 1 {
        assert(es.take(i + 1) =~= es);
    } else {
        assert(0 <= ends[i] < t.len() && and_token_op(t[ends[i]].kind) == Some(ops[i]));
        assert(starts[i + 1] == ends[i] + 1);
        assert(p_shift(t, starts[i + 1]) == Ok::<(ExprModel, int), crate::parser::PErr>((es[i + 1], ends[i + 1])));
        assert(es.take(i + 2).drop_last() =~= es.take(i + 1));
        assert(es.take(i + 2).last() == es[i + 1]);
        lemma_and_rest_chain(t, starts, es, ends, ops, i + 1);
    }
}

/// `&` groups to the left over any number of operands, and the parse ends
/// after the last operand.
pub proof fn law_and_chain(t: Seq<TokenModel>, starts: Seq<int>, es: Seq<ExprModel>, ends: Seq<int>, ops: Seq<BinaryOperator>)
    requires
        and_operands(t, starts, es, ends, ops),
    ensures
        p_and(t, starts[0]) == Ok::<(ExprModel, int), crate::parser::PErr>((op_chain(es, ops), ends[es.len() - 1])),
{
    assert(p_shift(t, starts[0]) == Ok::<(ExprModel, int), crate::parser::PErr>((es[0], ends[0])));
    assert(op_chain(es.take(1), ops) == es[0]);
    lemma_and_rest_chain(t, starts, es, ends, ops, 0);
}

/// The operator that a token stands for between the two sides of a
/// comparison.
pub open spec fn comparison_token_op(k: crate::lexer::TokenKind) -> Option<BinaryOperator> {
    match k {
        crate::lexer::TokenKind::LessThan => Some(BinaryOperator::LessThan),
        crate::lexer::TokenKind::GreaterThan => Some(BinaryOperator::GreaterThan),
        crate::lexer::TokenKind::Equal => Some(BinaryOperator::Equal),
        _ => None,
    }
}

/// An expression is at most one comparison between two sums: `<`, `>` and
/// `=` each stand for their own operator, and after the right side the
/// parse ends (a second comparison is not taken).
pub proof fn law_comparison_parse(t: Seq<TokenModel>, p: int, l: ExprModel, q: int, r: ExprModel, q2: int)
    requires
        p_additive(t, p) == Ok::<(ExprModel, int), crate::parser::PErr>((l, q)),
        0 <= p < q <= t.len(),
        q < t.len() ==> comparison_token_op(t[q].kind) is Some ==> p_additive(t, q + 1) == Ok::<
            (ExprModel, int),
            crate::parser::PErr,
        >((r, q2)),
    ensures
        q < t.len() && comparison_token_op(t[q].kind) is Some ==> p_expr(t, p) == Ok::<(ExprModel, int), crate::parser::PErr>(
            (bin(comparison_token_op(t[q].kind)->Some_0, l, r), q2),
        ),
        !(q < t.len() && comparison_token_op(t[q].kind) is Some) ==> p_expr(t, p) == Ok::<
            (ExprModel, int),
            crate::parser::PErr,
        >((l, q)),
{
}

// ---------------------------------------------------------------------------
// White space.

/// The code points with the Unicode `White_Space` property: tab, line
/// feed, vertical tab, form feed, carriage return, space, next line,
/// no-break space, ogham space mark, the spaces U+2000 to U+200A, line
/// separator, paragraph separator, narrow no-break space, medium
/// mathematical space and ideographic space.
pub open spec fn unicode_white_space(c: char) -> bool {
    let u = c as u32;
    u == 0x09 || u == 0x0A || u == 0x0B || u == 0x0C || u == 0x0D || u == 0x20 || u == 0x85 || u == 0xA0
        || u == 0x1680 || (0x2000 <= u && u <= 0x200A) || u == 0x2028 || u == 0x2029 || u == 0x202F || u
        == 0x205F || u == 0x3000
}

/// The lexer's white space is exactly the Unicode white space.
pub proof fn law_white_space(c: char)
    ensures
        crate::text::is_white(c) <==> unicode_white_space(c),
{
}

/// Between tokens the lexer skips exactly a run of white space: it stops at
/// the first character that is not white space, or at the end of the text.
pub proof fn law_skip_white_space(cs: Seq<char>, pos: int, line: int)
    requires
        0 <= pos <= cs.len(),
    ensures
        ({
            let q = skip_ws(cs, pos, line).0;
            &&& pos <= q <= cs.len()
            &&& forall|j: int| pos <= j < q ==> unicode_white_space(#[trigger] cs[j])
            &&& q < cs.len() ==> !unicode_white_space(cs[q])
        }),
    decreases cs.len() - pos,
{
    if pos < cs.len() && crate::text::is_white(cs[pos]) {
        law_skip_white_space(cs, pos + 1, crate::lexer::line_after(cs, pos, line));
        law_white_space(cs[pos]);
    } else if pos < cs.len() {
        law_white_space(cs[pos]);
    }
}

// ---------------------------------------------------------------------------
// Operator characters and operators in C.

/// The token of a character that is a token by itself.
pub open spec fn char_token(c: char) -> Option<crate::lexer::TokenKind> {
    match c {
        '~' => Some(crate::lexer::TokenKind::BitwiseNot),
        '?' => Some(crate::lexer::TokenKind::Exists),
        '&' => Some(crate::lexer::TokenKind::BitwiseAnd),
        '|' => Some(crate::lexer::TokenKind::BitwiseOr),
        '+' => Some(crate::lexer::TokenKind::Plus),
        '=' => Some(crate::lexer::TokenKind::Equal),
        '@' => Some(crate::lexer::TokenKind::At),
        '.' => Some(crate::lexer::TokenKind::Dot),
        ',' => Some(crate::lexer::TokenKind::Comma),
        '*' => Some(crate::lexer::TokenKind::Asterisk),
        '{' => Some(crate::lexer::TokenKind::LBrace),
        '}' => Some(crate::lexer::TokenKind::RBrace),
        '[' => Some(crate::lexer::TokenKind::LBracket),
        ']' => Some(crate::lexer::TokenKind::RBracket),
        ')' => Some(crate::lexer::TokenKind::RParen),
        _ => None,
    }
}

/// Where a token starts, each operator or bracket character gives its own
/// token; `<<` and `>>` are shifts, a lone `<` or `>` a comparison, and a
/// `-` not followed by a hexadecimal digit is `Minus`.
pub proof fn law_operator_tokens(cs: Seq<char>, p: int, line: int)
    requires
        0 <= p < cs.len(),
        !crate::text::is_white(cs[p]),
    ensures
        char_token(cs[p]) is Some ==> next_token(cs, p, line) == (
            Ok::<Option<TokenModel>, LexErr>(Some(crate::lexer::simple(char_token(cs[p])->Some_0))),
            p + 1,
            line,
        ),
        cs[p] == '<' ==> next_token(cs, p, line) == if p + 1 < cs.len() && cs[p + 1] == '<' {
            (Ok::<Option<TokenModel>, LexErr>(Some(crate::lexer::simple(crate::lexer::TokenKind::ShiftLeft))), p + 2, line)
        } else {
            (Ok::<Option<TokenModel>, LexErr>(Some(crate::lexer::simple(crate::lexer::TokenKind::LessThan))), p + 1, line)
        },
        cs[p] == '>' ==> next_token(cs, p, line) == if p + 1 < cs.len() && cs[p + 1] == '>' {
            (Ok::<Option<TokenModel>, LexErr>(Some(crate::lexer::simple(crate::lexer::TokenKind::ShiftRight))), p + 2, line)
        } else {
            (Ok::<Option<TokenModel>, LexErr>(Some(crate::lexer::simple(crate::lexer::TokenKind::GreaterThan))), p + 1, line)
        },
        cs[p] == '-' && !(p + 1 < cs.len() && crate::lexer::is_hex_char(cs[p + 1])) ==> next_token(cs, p, line) == (
            Ok::<Option<TokenModel>, LexErr>(Some(crate::lexer::simple(crate::lexer::TokenKind::Minus))),
            p + 1,
            line,
        ),
{
}

/// The C operator of each binary operator, between spaces.
pub open spec fn c_operator_chars(op: BinaryOperator) -> Seq<char> {
    match op {
        BinaryOperator::Add => seq![' ', '+', ' '],
        BinaryOperator::Sub => seq![' ', '-', ' '],
        BinaryOperator::BitwiseAnd => seq![' ', '&', ' '],
        BinaryOperator::BitwiseOr => seq![' ', '|', ' '],
        BinaryOperator::ShiftLeft => seq![' ', '<', '<', ' '],
        BinaryOperator::ShiftRight => seq![' ', '>', '>', ' '],
        BinaryOperator::LessThan => seq![' ', '<', ' '],
        BinaryOperator::GreaterThan => seq![' ', '>', ' '],
        BinaryOperator::Equal => seq![' ', '=', '=', ' '],
        BinaryOperator::Assign => seq![' ', '=', ' '],
    }
}

/// A binary operation other than an assignment becomes, in C, its two
/// operands' C texts joined by the C operator of the same meaning, in
/// brackets.
pub proof fn law_c_binary_operators(
    op: BinaryOperator,
    l: Expression,
    r: Expression,
    locals: Set<Seq<char>>,
    types: Seq<(Seq<char>, Type)>,
)
    requires
        op != BinaryOperator::Assign,
    ensures
        crate::compiler::codegen::gen_expr(Expression::BinaryOp(op, Box::new(l), Box::new(r)), locals, types) == seq![
            '(',
        ] + crate::compiler::codegen::gen_expr(l, locals, types) + c_operator_chars(op)
            + crate::compiler::codegen::gen_expr(r, locals, types) + seq![')'],
{
    reveal_strlit(" + ");
    reveal_strlit(" - ");
    reveal_strlit(" & ");
    reveal_strlit(" | ");
    reveal_strlit(" << ");
    reveal_strlit(" >> ");
    reveal_strlit(" < ");
    reveal_strlit(" > ");
    reveal_strlit(" == ");
    reveal_strlit("(");
    reveal_strlit(")");
    assert(crate::compiler::codegen::c_operator(op) =~= c_operator_chars(op));
    assert("("@ =~= seq!['(']);
    assert(")"@ =~= seq![')']);
}
} // verus!
