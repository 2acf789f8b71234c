//! The interpreter: values, the state of a run, the meaning of each
//! statement and expression (as spec functions), and the executable
//! interpreter that is proved to compute that meaning.
//!
//! Every step of evaluation is given a budget (`fuel`): each nested
//! evaluation and each turn of a `loop` spends one unit, and a run whose
//! budget is spent stops with `EvalError::OutOfFuel`. The public entry
//! points give the largest budget a `u64` holds.
//!
//! Input for `#_getc` is taken from a buffer given when the interpreter is
//! made, and what `#_putc` writes is collected in an output buffer, as are
//! the warnings on implicit conversions.
use vstd::prelude::*;
use crate::ast::{Type, Expression, UnaryOperator, BinaryOperator, Statement, ArraySize, CatchClause, Program, stmts_call, statements_call};
use crate::text::{dec_digits, push_dec, push_char, string_of, text_is, same_text};

verus! {

#[derive(Debug)]
pub enum Value {
    I8(i8),
    U8(u8),
    I16(i16),
    U16(u16),
    I32(i32),
    U32(u32),
    I64(i64),
    U64(u64),
    /// Elements that were read (consumed) are `None`.
    Array(Type, Vec<Option<Value>>),
}

impl Value {
    #[verifier::allow_in_spec]
    pub fn as_u64(&self) -> u64
        returns
            (match *self {
                Value::I8(v) => v as u64,
                Value::U8(v) => v as u64,
                Value::I16(v) => v as u64,
                Value::U16(v) => v as u64,
                Value::I32(v) => v as u64,
                Value::U32(v) => v as u64,
                Value::I64(v) => v as u64,
                Value::U64(v) => v,
                Value::Array(_, _) => 0u64,
            }),
    {
        match self {
            Value::I8(v) => *v as u64,
            Value::U8(v) => *v as u64,
            Value::I16(v) => *v as u64,
            Value::U16(v) => *v as u64,
            Value::I32(v) => *v as u64,
            Value::U32(v) => *v as u64,
            Value::I64(v) => *v as u64,
            Value::U64(v) => *v,
            Value::Array(_, _) => 0,
        }
    }

    #[verifier::allow_in_spec]
    pub fn as_i64(&self) -> i64
        returns
            (match *self {
                Value::I8(v) => v as i64,
                Value::U8(v) => v as i64,
                Value::I16(v) => v as i64,
                Value::U16(v) => v as i64,
                Value::I32(v) => v as i64,
                Value::U32(v) => v as i64,
                Value::I64(v) => v,
                Value::U64(v) => v as i64,
                Value::Array(_, _) => 0i64,
            }),
    {
        match self {
            Value::I8(v) => *v as i64,
            Value::U8(v) => *v as i64,
            Value::I16(v) => *v as i64,
            Value::U16(v) => *v as i64,
            Value::I32(v) => *v as i64,
            Value::U32(v) => *v as i64,
            Value::I64(v) => *v,
            Value::U64(v) => *v as i64,
            Value::Array(_, _) => 0,
        }
    }

    /// The value of type `ty` that `val` becomes: its low bits, read as that
    /// type.
    #[verifier::allow_in_spec]
    pub fn from_u64(val: u64, ty: Type) -> Self
        returns
            (match ty {
                Type::I8 => Value::I8(val as i8),
                Type::U8 => Value::U8(val as u8),
                Type::I16 => Value::I16(val as i16),
                Type::U16 => Value::U16(val as u16),
                Type::I32 => Value::I32(val as i32),
                Type::U32 => Value::U32(val as u32),
                Type::I64 => Value::I64(val as i64),
                Type::U64 => Value::U64(val),
            }),
    {
        match ty {
            Type::I8 => Value::I8(val as i8),
            Type::U8 => Value::U8(val as u8),
            Type::I16 => Value::I16(val as i16),
            Type::U16 => Value::U16(val as u16),
            Type::I32 => Value::I32(val as i32),
            Type::U32 => Value::U32(val as u32),
            Type::I64 => Value::I64(val as i64),
            Type::U64 => Value::U64(val),
        }
    }

    #[verifier::allow_in_spec]
    pub fn is_signed(ty: Type) -> bool
        returns
            (match ty {
                Type::I8 | Type::I16 | Type::I32 | Type::I64 => true,
                _ => false,
            }),
    {
        match ty {
            Type::I8 | Type::I16 | Type::I32 | Type::I64 => true,
            _ => false,
        }
    }

    #[verifier::allow_in_spec]
    pub fn bit_width(ty: Type) -> u8
        returns
            (match ty {
                Type::I8 | Type::U8 => 8u8,
                Type::I16 | Type::U16 => 16u8,
                Type::I32 | Type::U32 => 32u8,
                Type::I64 | Type::U64 => 64u8,
            }),
    {
        match ty {
            Type::I8 | Type::U8 => 8,
            Type::I16 | Type::U16 => 16,
            Type::I32 | Type::U32 => 32,
            Type::I64 | Type::U64 => 64,
        }
    }

    #[verifier::allow_in_spec]
    pub fn get_type(&self) -> Type
        returns
            (match *self {
                Value::I8(_) => Type::I8,
                Value::U8(_) => Type::U8,
                Value::I16(_) => Type::I16,
                Value::U16(_) => Type::U16,
                Value::I32(_) => Type::I32,
                Value::U32(_) => Type::U32,
                Value::I64(_) => Type::I64,
                Value::U64(_) => Type::U64,
                Value::Array(ty, _) => ty,
            }),
    {
        match self {
            Value::I8(_) => Type::I8,
            Value::U8(_) => Type::U8,
            Value::I16(_) => Type::I16,
            Value::U16(_) => Type::U16,
            Value::I32(_) => Type::I32,
            Value::U32(_) => Type::U32,
            Value::I64(_) => Type::I64,
            Value::U64(_) => Type::U64,
            Value::Array(ty, _) => *ty,
        }
    }

    #[verifier::allow_in_spec]
    pub fn default_val(ty: Type) -> Self
        returns
            Value::from_u64(0, ty),
    {
        Self::from_u64(0, ty)
    }
}

/// A copy of a number. An array's element is always a number; were it an
/// array, its copy would be the zero of its element type.
pub open spec fn number_copy(v: Value) -> Value {
    match v {
        Value::Array(ty, _) => Value::from_u64(0, ty),
        _ => v,
    }
}

pub open spec fn element_copy(o: Option<Value>) -> Option<Value> {
    match o {
        Some(x) => Some(number_copy(x)),
        None => None,
    }
}

/// What reading what a variable holds gives: a number as it is; an array
/// as its type and its elements, the consumed ones (`None`) included.
pub open spec fn observe_stored(v: Stored) -> Stored {
    match v {
        Stored::Array(ty, elems) => Stored::Array(ty, elems.map_values(|o: Option<Value>| element_copy(o))),
        _ => v,
    }
}

/// What reading a value gives.
pub open spec fn observe(v: Value) -> Stored {
    observe_stored(stored(v))
}

impl Stored {
    /// The number that a value stands for in arithmetic, in a condition and
    /// when it is stored in a variable: an array stands for the zero of its
    /// element type (`as_u64` and `as_i64` give 0 for an array).
    pub open spec fn num(self) -> Value {
        match self {
            Stored::Scalar(v) => v,
            Stored::Array(ty, _) => Value::from_u64(0, ty),
        }
    }
}

/// What a value stands for as a number is what its own methods give.
pub proof fn lemma_num(v: Value)
    ensures
        stored(v).num().as_u64() == v.as_u64(),
        stored(v).num().as_i64() == v.as_i64(),
        stored(v).num().get_type() == v.get_type(),
{
}

fn copy_number(v: &Value) -> (r: Value)
    ensures
        r == number_copy(*v),
{
    match v {
        Value::I8(x) => Value::I8(*x),
        Value::U8(x) => Value::U8(*x),
        Value::I16(x) => Value::I16(*x),
        Value::U16(x) => Value::U16(*x),
        Value::I32(x) => Value::I32(*x),
        Value::U32(x) => Value::U32(*x),
        Value::I64(x) => Value::I64(*x),
        Value::U64(x) => Value::U64(*x),
        Value::Array(ty, _) => Value::from_u64(0, *ty),
    }
}

/// A copy of a value, for a read: an array is copied element by element.
fn read_value(v: &Value) -> (r: Value)
    ensures
        stored(r) == observe(*v),
{
    match v {
        Value::Array(ty, elems) => {
            let mut w: Vec<Option<Value>> = Vec::new();
            let mut i: usize = 0;
            while i < elems.len()
                invariant
                    i <= elems@.len(),
                    w@ =~= elems@.take(i as int).map_values(|o: Option<Value>| element_copy(o)),
                decreases elems@.len() - i,
            {
                let e = match &elems[i] {
                    Some(x) => Some(copy_number(x)),
                    None => None,
                };
                w.push(e);
                i = i + 1;
                assert(elems@.take(i as int).map_values(|o: Option<Value>| element_copy(o)) =~= elems@.take(
                    i - 1,
                ).map_values(|o: Option<Value>| element_copy(o)).push(element_copy(elems@[i - 1])));
            }
            assert(elems@.take(elems@.len() as int) =~= elems@);
            Value::Array(*ty, w)
        },
        _ => copy_number(v),
    }
}

// ---------------------------------------------------------------------------
// Warnings on implicit conversions.

#[derive(Debug, Clone, Copy, PartialEq, Eq, Structural)]
pub enum ConversionWarning {
    /// A signed value becomes unsigned or the reverse.
    SignMismatch(Type, Type),
    /// A value becomes a narrower type.
    Narrowing(Type, Type),
}

/// The warnings due when a value of type `src` is stored in type `dest`.
pub open spec fn conversion_warnings(src: Type, dest: Type) -> Seq<ConversionWarning> {
    if src == dest {
        seq![]
    } else {
        (if Value::is_signed(src) != Value::is_signed(dest) {
            seq![ConversionWarning::SignMismatch(src, dest)]
        } else {
            seq![]
        }) + (if Value::bit_width(src) > Value::bit_width(dest) {
            seq![ConversionWarning::Narrowing(src, dest)]
        } else {
            seq![]
        })
    }
}

/// The warnings to report when a value of type `src_ty` is stored in type
/// `dest_ty`: a sign mismatch, then a narrowing.
pub fn check_implicit_conversion_warning(src_ty: Type, dest_ty: Type) -> (r: Vec<ConversionWarning>)
    ensures
        r@ == conversion_warnings(src_ty, dest_ty),
{
    let mut r: Vec<ConversionWarning> = Vec::new();
    if src_ty == dest_ty {
        return r;
    }
    if Value::is_signed(src_ty) != Value::is_signed(dest_ty) {
        r.push(ConversionWarning::SignMismatch(src_ty, dest_ty));
    }
    if Value::bit_width(src_ty) > Value::bit_width(dest_ty) {
        r.push(ConversionWarning::Narrowing(src_ty, dest_ty));
    }
    assert(r@ =~= conversion_warnings(src_ty, dest_ty));
    r
}

// ---------------------------------------------------------------------------
// The state of a run.

#[derive(Debug)]
pub struct VariableState {
    pub val: Value,
    pub is_alive: bool,
    pub ty: Type,
}

/// One scope: its variables, each name at most once.
pub type Scope = Vec<(String, VariableState)>;

#[derive(Debug)]
pub struct Frame {
    pub scopes: Vec<Scope>,
}

#[derive(Debug)]
pub enum EvalError {
    UndefinedVariable(String),
    ConsumedVariable(String),
    TypeMismatch,
    Exception(u64),
    NotImplemented(String),
    MainNotFound,
    /// The budget of evaluation steps was spent.
    OutOfFuel,
}

pub struct Interpreter<'p> {
    pub frames: Vec<Frame>,
    /// The declared functions, each name at most once.
    pub functions: Vec<&'p Statement>,
    /// What `#_getc` reads, and how much of it was read.
    pub input: Vec<u8>,
    pub input_pos: usize,
    /// What `#_putc` wrote.
    pub output: Vec<u8>,
    /// The warnings on implicit conversions, in order.
    pub warnings: Vec<ConversionWarning>,
}

/// What a variable holds, in the model: a value or the elements of an array.
pub enum Stored {
    Scalar(Value),
    Array(Type, Seq<Option<Value>>),
}

pub struct VarModel {
    pub val: Stored,
    pub is_alive: bool,
    pub ty: Type,
}

pub type ScopeModel = Seq<(Seq<char>, VarModel)>;

pub type FrameModel = Seq<ScopeModel>;

/// The model of an interpreter's state.
pub struct IState {
    pub frames: Seq<FrameModel>,
    pub functions: Seq<Statement>,
    pub input: Seq<u8>,
    pub input_pos: int,
    pub output: Seq<u8>,
    pub warnings: Seq<ConversionWarning>,
}

pub enum EvalErr {
    UndefinedVariable(Seq<char>),
    ConsumedVariable(Seq<char>),
    TypeMismatch,
    Exception(u64),
    NotImplemented(Seq<char>),
    MainNotFound,
    OutOfFuel,
}

pub open spec fn stored(v: Value) -> Stored {
    match v {
        Value::Array(ty, elems) => Stored::Array(ty, elems@),
        _ => Stored::Scalar(v),
    }
}

pub open spec fn var_model(s: VariableState) -> VarModel {
    VarModel { val: stored(s.val), is_alive: s.is_alive, ty: s.ty }
}

pub open spec fn binding_model(b: (String, VariableState)) -> (Seq<char>, VarModel) {
    (b.0@, var_model(b.1))
}

pub open spec fn scope_model(s: Seq<(String, VariableState)>) -> ScopeModel {
    s.map_values(|b: (String, VariableState)| binding_model(b))
}

pub open spec fn frame_model(f: Frame) -> FrameModel {
    f.scopes@.map_values(|s: Scope| scope_model(s@))
}

pub open spec fn err_model(e: EvalError) -> EvalErr {
    match e {
        EvalError::UndefinedVariable(s) => EvalErr::UndefinedVariable(s@),
        EvalError::ConsumedVariable(s) => EvalErr::ConsumedVariable(s@),
        EvalError::TypeMismatch => EvalErr::TypeMismatch,
        EvalError::Exception(c) => EvalErr::Exception(c),
        EvalError::NotImplemented(s) => EvalErr::NotImplemented(s@),
        EvalError::MainNotFound => EvalErr::MainNotFound,
        EvalError::OutOfFuel => EvalErr::OutOfFuel,
    }
}

pub open spec fn res_model<T>(r: Result<T, EvalError>) -> Result<T, EvalErr> {
    match r {
        Ok(v) => Ok(v),
        Err(e) => Err(err_model(e)),
    }
}

/// The model of what an evaluation gives: a number, or an array by its type
/// and elements; or the error.
pub open spec fn val_model(r: Result<Value, EvalError>) -> Result<Stored, EvalErr> {
    match r {
        Ok(v) => Ok(stored(v)),
        Err(e) => Err(err_model(e)),
    }
}

pub open spec fn stored_all(vs: Seq<Value>) -> Seq<Stored> {
    vs.map_values(|v: Value| stored(v))
}

impl<'p> View for Interpreter<'p> {
    type V = IState;

    open spec fn view(&self) -> IState {
        IState {
            frames: self.frames@.map_values(|f: Frame| frame_model(f)),
            functions: self.functions@.map_values(|s: &'p Statement| *s),
            input: self.input@,
            input_pos: self.input_pos as int,
            output: self.output@,
            warnings: self.warnings@,
        }
    }
}

// ---------------------------------------------------------------------------
// The meaning of a program, over the model.

pub open spec fn scope_find_from(sc: ScopeModel, name: Seq<char>, i: int) -> Option<int>
    decreases sc.len() - i,
{
    if 0 <= i < sc.len() {
        if sc[i].0 == name {
            Some(i)
        } else {
            scope_find_from(sc, name, i + 1)
        }
    } else {
        None
    }
}

/// Where `name` stands in a scope.
pub open spec fn scope_find(sc: ScopeModel, name: Seq<char>) -> Option<int> {
    scope_find_from(sc, name, 0)
}

/// A scope with `name` bound to `v`: in place where it was bound, else added.
pub open spec fn scope_insert(sc: ScopeModel, name: Seq<char>, v: VarModel) -> ScopeModel {
    match scope_find(sc, name) {
        Some(i) => sc.update(i, (name, v)),
        None => sc.push((name, v)),
    }
}

/// Where `name` stands in the scopes `fr[0..n]`, the innermost first.
pub open spec fn frame_find(fr: FrameModel, name: Seq<char>, n: int) -> Option<(int, int)>
    decreases n,
{
    if n <= 0 || n > fr.len() {
        None
    } else {
        match scope_find(fr[n - 1], name) {
            Some(k) => Some((n - 1, k)),
            None => frame_find(fr, name, n - 1),
        }
    }
}

/// Where `name` stands in the frames `frs[0..n]`, the latest first.
pub open spec fn frames_find(frs: Seq<FrameModel>, name: Seq<char>, n: int) -> Option<(int, int, int)>
    decreases n,
{
    if n <= 0 || n > frs.len() {
        None
    } else {
        match frame_find(frs[n - 1], name, frs[n - 1].len() as int) {
            Some((s, k)) => Some((n - 1, s, k)),
            None => frames_find(frs, name, n - 1),
        }
    }
}

/// The variable that `name` denotes: the nearest binding, in the current
/// frame first and then in the callers' frames; it must not be consumed.
pub open spec fn lookup(st: IState, name: Seq<char>) -> Result<(int, int, int), EvalErr> {
    match frames_find(st.frames, name, st.frames.len() as int) {
        None => Err(EvalErr::UndefinedVariable(name)),
        Some((f, s, k)) => if st.frames[f][s][k].1.is_alive {
            Ok((f, s, k))
        } else {
            Err(EvalErr::ConsumedVariable(name))
        },
    }
}

pub open spec fn var_at(st: IState, f: int, s: int, k: int) -> VarModel {
    st.frames[f][s][k].1
}

pub open spec fn with_frames(st: IState, frames: Seq<FrameModel>) -> IState {
    IState {
        frames,
        functions: st.functions,
        input: st.input,
        input_pos: st.input_pos,
        output: st.output,
        warnings: st.warnings,
    }
}

pub open spec fn set_var(st: IState, f: int, s: int, k: int, v: VarModel) -> IState {
    with_frames(
        st,
        st.frames.update(
            f,
            st.frames[f].update(s, st.frames[f][s].update(k, (st.frames[f][s][k].0, v))),
        ),
    )
}

pub open spec fn add_warnings(st: IState, w: Seq<ConversionWarning>) -> IState {
    IState {
        frames: st.frames,
        functions: st.functions,
        input: st.input,
        input_pos: st.input_pos,
        output: st.output,
        warnings: st.warnings + w,
    }
}

/// Reading a variable: a variable of the current frame is consumed by the
/// read; one of a caller's frame is read only.
pub open spec fn eval_var(st: IState, name: Seq<char>) -> (IState, Result<Stored, EvalErr>) {
    match lookup(st, name) {
        Err(e) => (st, Err(e)),
        Ok((f, s, k)) => {
            let v = var_at(st, f, s, k);
            if f == st.frames.len() - 1 {
                (
                    set_var(st, f, s, k, VarModel { val: v.val, is_alive: false, ty: v.ty }),
                    Ok(observe_stored(v.val)),
                )
            } else {
                (st, Ok(observe_stored(v.val)))
            }
        },
    }
}

/// `name?`: 1 when `name` denotes a live variable, else 0; nothing is consumed.
pub open spec fn exists_value(st: IState, name: Seq<char>) -> Value {
    Value::I64(if lookup(st, name) is Ok { 1 } else { 0 })
}

/// `name[index]` as the messages write it.
pub open spec fn element_label(name: Seq<char>, index: u64) -> Seq<char> {
    name + seq!['['] + dec_digits(index as nat) + seq![']']
}

pub open spec fn set_element(st: IState, f: int, s: int, k: int, i: int, x: Option<Value>) -> IState {
    let v = var_at(st, f, s, k);
    match v.val {
        Stored::Array(ty, elems) => set_var(
            st,
            f,
            s,
            k,
            VarModel { val: Stored::Array(ty, elems.update(i, x)), is_alive: v.is_alive, ty: v.ty },
        ),
        Stored::Scalar(_) => st,
    }
}

/// Reading `name[index]`: an element of an array of the current frame is
/// consumed by the read; one of a caller's frame is read only.
pub open spec fn eval_element(st: IState, name: Seq<char>, index: u64) -> (IState, Result<Stored, EvalErr>) {
    match lookup(st, name) {
        Err(e) => (st, Err(e)),
        Ok((f, s, k)) => match var_at(st, f, s, k).val {
            Stored::Array(ty, elems) => if index < elems.len() {
                match elems[index as int] {
                    Some(x) => if f == st.frames.len() - 1 {
                        (set_element(st, f, s, k, index as int, None), Ok(observe(x)))
                    } else {
                        (st, Ok(observe(x)))
                    },
                    None => (st, Err(EvalErr::ConsumedVariable(element_label(name, index)))),
                }
            } else {
                (st, Err(EvalErr::UndefinedVariable(element_label(name, index))))
            },
            Stored::Scalar(_) => (st, Err(EvalErr::TypeMismatch)),
        },
    }
}

/// The result of a binary operator other than assignment, as bits.
pub open spec fn binary_result(op: BinaryOperator, a: Value, b: Value) -> u64 {
    match op {
        BinaryOperator::Add => a.as_u64().wrapping_add(b.as_u64()),
        BinaryOperator::Sub => a.as_u64().wrapping_sub(b.as_u64()),
        BinaryOperator::BitwiseAnd => a.as_u64() & b.as_u64(),
        BinaryOperator::BitwiseOr => a.as_u64() | b.as_u64(),
        BinaryOperator::ShiftLeft => a.as_u64().wrapping_shl(b.as_u64() as u32),
        BinaryOperator::ShiftRight => if Value::is_signed(a.get_type()) {
            a.as_i64().wrapping_shr(b.as_u64() as u32) as u64
        } else {
            a.as_u64().wrapping_shr(b.as_u64() as u32)
        },
        BinaryOperator::Equal => if a.as_u64() == b.as_u64() { 1 } else { 0 },
        BinaryOperator::LessThan => if Value::is_signed(a.get_type()) {
            if a.as_i64() < b.as_i64() { 1 } else { 0 }
        } else {
            if a.as_u64() < b.as_u64() { 1 } else { 0 }
        },
        BinaryOperator::GreaterThan => if Value::is_signed(a.get_type()) {
            if a.as_i64() > b.as_i64() { 1 } else { 0 }
        } else {
            if a.as_u64() > b.as_u64() { 1 } else { 0 }
        },
        BinaryOperator::Assign => 0,
    }
}

/// The value of a hexadecimal literal, as an `i64`.
pub open spec fn literal_value(val: u64, neg: bool) -> Value {
    Value::I64(if neg { 0u64.wrapping_sub(val) as i64 } else { val as i64 })
}

/// The warnings due when the value of `e` is stored in type `ty`: none for
/// a literal.
pub open spec fn warnings_for(e: Expression, v: Stored, ty: Type) -> Seq<ConversionWarning> {
    if e is HexLiteral {
        seq![]
    } else {
        conversion_warnings(v.num().get_type(), ty)
    }
}

pub open spec fn scope_count(st: IState) -> int {
    if st.frames.len() == 0 {
        0
    } else {
        st.frames.last().len() as int
    }
}

pub open spec fn push_scope(st: IState) -> IState {
    if st.frames.len() == 0 {
        st
    } else {
        with_frames(
            st,
            st.frames.update(st.frames.len() - 1, st.frames.last().push(Seq::empty())),
        )
    }
}

/// Leaves the scopes of the current frame above the first `n`.
pub open spec fn truncate_scopes(st: IState, n: int) -> IState {
    if st.frames.len() == 0 || n < 0 || n > st.frames.last().len() {
        st
    } else {
        with_frames(
            st,
            st.frames.update(st.frames.len() - 1, st.frames.last().subrange(0, n)),
        )
    }
}

/// Binds `name` in the current frame: a name that the frame already binds
/// is defined anew where it stands (the nearest binding), any other name is
/// added to the innermost scope.
pub open spec fn declare(st: IState, name: Seq<char>, v: VarModel) -> IState {
    if st.frames.len() == 0 || st.frames.last().len() == 0 {
        st
    } else {
        let fr = st.frames.last();
        match frame_find(fr, name, fr.len() as int) {
            Some((s, k)) => set_var(st, st.frames.len() - 1, s, k, v),
            None => with_frames(
                st,
                st.frames.update(
                    st.frames.len() - 1,
                    fr.update(fr.len() - 1, scope_insert(fr.last(), name, v)),
                ),
            ),
        }
    }
}

pub open spec fn fn_name(s: Statement) -> Seq<char> {
    match s {
        Statement::FunctionDeclaration { name, .. } => name@,
        _ => Seq::empty(),
    }
}

pub open spec fn fn_find_from(fns: Seq<Statement>, name: Seq<char>, i: int) -> Option<int>
    decreases fns.len() - i,
{
    if 0 <= i < fns.len() {
        if fn_name(fns[i]) == name {
            Some(i)
        } else {
            fn_find_from(fns, name, i + 1)
        }
    } else {
        None
    }
}

/// The function declared under `name`.
pub open spec fn fn_find(fns: Seq<Statement>, name: Seq<char>) -> Option<int> {
    fn_find_from(fns, name, 0)
}

/// The table with the declaration `s` in place of any other of its name.
pub open spec fn fn_insert(fns: Seq<Statement>, s: Statement) -> Seq<Statement> {
    match fn_find(fns, fn_name(s)) {
        Some(i) => fns.update(i, s),
        None => fns.push(s),
    }
}

pub open spec fn with_functions(st: IState, fns: Seq<Statement>) -> IState {
    IState {
        frames: st.frames,
        functions: fns,
        input: st.input,
        input_pos: st.input_pos,
        output: st.output,
        warnings: st.warnings,
    }
}

/// The first catch clause for `code`.
pub open spec fn catch_find(clauses: Seq<CatchClause>, code: u64, i: int) -> Option<int>
    decreases clauses.len() - i,
{
    if 0 <= i < clauses.len() {
        if clauses[i].exception_code == code {
            Some(i)
        } else {
            catch_find(clauses, code, i + 1)
        }
    } else {
        None
    }
}

/// The scope of a called function's frame: its parameters `0..n`.
pub open spec fn param_scope(params: Seq<(Type, String)>, vals: Seq<Stored>, n: int) -> ScopeModel
    decreases n,
{
    if n <= 0 {
        Seq::empty()
    } else {
        scope_insert(
            param_scope(params, vals, n - 1),
            params[n - 1].1@,
            VarModel {
                val: Stored::Scalar(Value::from_u64(vals[n - 1].num().as_u64(), params[n - 1].0)),
                is_alive: true,
                ty: params[n - 1].0,
            },
        )
    }
}

/// The warnings due for the parameters `0..n` of a call.
pub open spec fn param_warnings(
    params: Seq<(Type, String)>,
    args: Seq<Expression>,
    vals: Seq<Stored>,
    n: int,
) -> Seq<ConversionWarning>
    decreases n,
{
    if n <= 0 {
        Seq::empty()
    } else {
        param_warnings(params, args, vals, n - 1) + warnings_for(args[n - 1], vals[n - 1], params[n - 1].0)
    }
}

pub open spec fn eval_expr(st: IState, e: Expression, fuel: nat) -> (IState, Result<Stored, EvalErr>)
    decreases fuel, 0int,
{
    if fuel == 0 {
        (st, Err(EvalErr::OutOfFuel))
    } else {
        match e {
            Expression::HexLiteral(val, neg) => (st, Ok(Stored::Scalar(literal_value(val, neg)))),
            Expression::Variable(name) => eval_var(st, name@),
            Expression::ArrayElement(name, idx) => {
                let (st1, r) = eval_expr(st, *idx, (fuel - 1) as nat);
                match r {
                    Err(x) => (st1, Err(x)),
                    Ok(iv) => eval_element(st1, name@, iv.num().as_u64()),
                }
            },
            Expression::UnaryOp(op, inner) => {
                if op == UnaryOperator::Exists && (*inner) is Variable {
                    (st, Ok(Stored::Scalar(exists_value(st, (*inner)->Variable_0@))))
                } else {
                    let (st1, r) = eval_expr(st, *inner, (fuel - 1) as nat);
                    match r {
                        Err(x) => (st1, Err(x)),
                        Ok(v) => (
                            st1,
                            Ok(
                                Stored::Scalar(
                                    match op {
                                        UnaryOperator::BitwiseNot => Value::I64((!v.num().as_u64()) as i64),
                                        UnaryOperator::Exists => Value::I64(0),
                                    },
                                ),
                            ),
                        ),
                    }
                }
            },
            Expression::BinaryOp(op, l, r) => {
                if op == BinaryOperator::Assign {
                    eval_assign(st, *l, *r, (fuel - 1) as nat)
                } else {
                    let (st1, rl) = eval_expr(st, *l, (fuel - 1) as nat);
                    match rl {
                        Err(x) => (st1, Err(x)),
                        Ok(a) => {
                            let (st2, rr) = eval_expr(st1, *r, (fuel - 1) as nat);
                            match rr {
                                Err(x) => (st2, Err(x)),
                                Ok(b) => (st2, Ok(Stored::Scalar(Value::I64(binary_result(op, a.num(), b.num()) as i64)))),
                            }
                        },
                    }
                }
            },
            Expression::FunctionCall(name, args) => {
                if name@ == "_putc"@ {
                    if args.len() == 0 {
                        (st, Err(EvalErr::NotImplemented(name@)))
                    } else {
                        let (st1, r) = eval_expr(st, args@[0], (fuel - 1) as nat);
                        match r {
                            Err(x) => (st1, Err(x)),
                            Ok(v) => (
                                IState {
                                    frames: st1.frames,
                                    functions: st1.functions,
                                    input: st1.input,
                                    input_pos: st1.input_pos,
                                    output: st1.output.push(v.num().as_u64() as u8),
                                    warnings: st1.warnings,
                                },
                                Ok(Stored::Scalar(Value::I32(0))),
                            ),
                        }
                    }
                } else if name@ == "_getc"@ {
                    if 0 <= st.input_pos < st.input.len() {
                        (
                            IState {
                                frames: st.frames,
                                functions: st.functions,
                                input: st.input,
                                input_pos: st.input_pos + 1,
                                output: st.output,
                                warnings: st.warnings,
                            },
                            Ok(Stored::Scalar(Value::U8(st.input[st.input_pos]))),
                        )
                    } else {
                        (st, Err(EvalErr::Exception(0xFFFF0001)))
                    }
                } else {
                    match fn_find(st.functions, name@) {
                        None => (st, Err(EvalErr::UndefinedVariable(name@))),
                        Some(i) => eval_call(st, st.functions[i], args@, (fuel - 1) as nat),
                    }
                }
            },
        }
    }
}

/// Evaluates `args[i..]` in order, after the values `acc` of those before.
pub open spec fn eval_args(st: IState, args: Seq<Expression>, i: int, acc: Seq<Stored>, fuel: nat) -> (
    IState,
    Result<Seq<Stored>, EvalErr>,
)
    decreases fuel, args.len() - i,
{
    if i < 0 || i >= args.len() {
        (st, Ok(acc))
    } else {
        let (st1, r) = eval_expr(st, args[i], fuel);
        match r {
            Err(x) => (st1, Err(x)),
            Ok(v) => eval_args(st1, args, i + 1, acc.push(v), fuel),
        }
    }
}

/// Evaluates the elements `exprs[i..]` of an array's initializer.
pub open spec fn eval_inits(
    st: IState,
    exprs: Seq<Expression>,
    i: int,
    ty: Type,
    acc: Seq<Option<Value>>,
    fuel: nat,
) -> (IState, Result<Seq<Option<Value>>, EvalErr>)
    decreases fuel, exprs.len() - i,
{
    if i < 0 || i >= exprs.len() {
        (st, Ok(acc))
    } else {
        let (st1, r) = eval_expr(st, exprs[i], fuel);
        match r {
            Err(x) => (st1, Err(x)),
            Ok(v) => eval_inits(
                add_warnings(st1, warnings_for(exprs[i], v, ty)),
                exprs,
                i + 1,
                ty,
                acc.push(Some(Value::from_u64(v.num().as_u64(), ty))),
                fuel,
            ),
        }
    }
}

/// An assignment `lhs = rhs`: the right side first; only a variable of
/// the current frame can be assigned, and an assigned variable lives again.
pub open spec fn eval_assign(st: IState, lhs: Expression, rhs: Expression, fuel: nat) -> (
    IState,
    Result<Stored, EvalErr>,
)
    decreases fuel, 0int,
{
    if fuel == 0 {
        (st, Err(EvalErr::OutOfFuel))
    } else {
        let (st1, r) = eval_expr(st, rhs, (fuel - 1) as nat);
        match r {
            Err(x) => (st1, Err(x)),
            Ok(rv) => match lhs {
                Expression::Variable(name) => {
                    if st1.frames.len() == 0 {
                        (st1, Err(EvalErr::TypeMismatch))
                    } else {
                        let last = st1.frames.len() - 1;
                        match frame_find(st1.frames[last], name@, st1.frames[last].len() as int) {
                            Some((s, k)) => {
                                let old = var_at(st1, last, s, k);
                                (
                                    set_var(
                                        add_warnings(st1, warnings_for(rhs, rv, old.ty)),
                                        last,
                                        s,
                                        k,
                                        VarModel {
                                            val: Stored::Scalar(Value::from_u64(rv.num().as_u64(), old.ty)),
                                            is_alive: true,
                                            ty: old.ty,
                                        },
                                    ),
                                    Ok(rv),
                                )
                            },
                            None => if frames_find(st1.frames, name@, last) is Some {
                                (st1, Err(EvalErr::UndefinedVariable(name@ + " is read-only"@)))
                            } else {
                                (st1, Err(EvalErr::UndefinedVariable(name@)))
                            },
                        }
                    }
                },
                Expression::ArrayElement(name, idx) => {
                    let (st2, ri) = eval_expr(st1, *idx, (fuel - 1) as nat);
                    match ri {
                        Err(x) => (st2, Err(x)),
                        Ok(iv) => {
                            let index = iv.num().as_u64();
                            if st2.frames.len() == 0 {
                                (st2, Err(EvalErr::TypeMismatch))
                            } else {
                                let last = st2.frames.len() - 1;
                                match frame_find(st2.frames[last], name@, st2.frames[last].len() as int) {
                                    Some((s, k)) => match var_at(st2, last, s, k).val {
                                        Stored::Array(ty, elems) => if index < elems.len() {
                                            if elems[index as int] is Some {
                                                (
                                                    set_element(
                                                        add_warnings(st2, warnings_for(rhs, rv, ty)),
                                                        last,
                                                        s,
                                                        k,
                                                        index as int,
                                                        Some(Value::from_u64(rv.num().as_u64(), ty)),
                                                    ),
                                                    Ok(rv),
                                                )
                                            } else {
                                                (st2, Err(EvalErr::ConsumedVariable(element_label(name@, index))))
                                            }
                                        } else {
                                            (st2, Err(EvalErr::UndefinedVariable(element_label(name@, index))))
                                        },
                                        Stored::Scalar(_) => (st2, Ok(rv)),
                                    },
                                    None => if frames_find(st2.frames, name@, last) is Some {
                                        (st2, Err(EvalErr::UndefinedVariable(name@ + " is read-only"@)))
                                    } else {
                                        (st2, Err(EvalErr::UndefinedVariable(element_label(name@, index))))
                                    },
                                }
                            }
                        },
                    }
                },
                _ => (st1, Err(EvalErr::TypeMismatch)),
            },
        }
    }
}

/// A call of the declared function `f`: the arguments in order, then the
/// body in a new frame that holds the parameters and the result variable
/// (named as the function), whose value the call returns.
pub open spec fn eval_call(st: IState, f: Statement, args: Seq<Expression>, fuel: nat) -> (
    IState,
    Result<Stored, EvalErr>,
)
    decreases fuel, 0int,
{
    if fuel == 0 {
        (st, Err(EvalErr::OutOfFuel))
    } else {
        match f {
            Statement::FunctionDeclaration { ret_type, name, params, body } => {
                let (st1, r) = eval_args(st, args, 0, Seq::empty(), (fuel - 1) as nat);
                match r {
                    Err(x) => (st1, Err(x)),
                    Ok(vals) => if args.len() < params.len() {
                        (st1, Err(EvalErr::NotImplemented(name@)))
                    } else {
                        let (st4, rb) = eval_block(
                            call_frame(st1, ret_type, name@, params@, args, vals),
                            body@,
                            0,
                            (fuel - 1) as nat,
                        );
                        call_return(st4, rb, name@)
                    },
                }
            },
            _ => (st, Err(EvalErr::UndefinedVariable("Not a function"@))),
        }
    }
}

/// The state in which a called function's body runs: the warnings for its
/// arguments, and a new frame that holds its parameters and its result
/// variable.
pub open spec fn call_frame(
    st: IState,
    ret_type: Type,
    name: Seq<char>,
    params: Seq<(Type, String)>,
    args: Seq<Expression>,
    vals: Seq<Stored>,
) -> IState {
    let scope0 = scope_insert(
        param_scope(params, vals, params.len() as int),
        name,
        VarModel { val: Stored::Scalar(Value::default_val(ret_type)), is_alive: true, ty: ret_type },
    );
    let st2 = add_warnings(st, param_warnings(params, args, vals, params.len() as int));
    with_frames(st2, st2.frames.push(seq![scope0]))
}

/// The end of a call: its frame is left, and the value of its result
/// variable is returned.
pub open spec fn call_return(st: IState, rb: Result<(), EvalErr>, name: Seq<char>) -> (IState, Result<Stored, EvalErr>) {
    if st.frames.len() == 0 {
        (st, Err(EvalErr::MainNotFound))
    } else {
        let popped = with_frames(st, st.frames.drop_last());
        match rb {
            Err(x) => (popped, Err(x)),
            Ok(u) => {
                let fr = st.frames.last();
                if fr.len() == 0 {
                    (popped, Err(EvalErr::MainNotFound))
                } else {
                    match scope_find(fr[0], name) {
                        Some(k) => (popped, Ok(observe_stored(fr[0][k].1.val))),
                        None => (popped, Err(EvalErr::MainNotFound)),
                    }
                }
            },
        }
    }
}

/// Runs `stmts[i..]` in order, stopping at the first error.
pub open spec fn eval_block(st: IState, stmts: Seq<Statement>, i: int, fuel: nat) -> (
    IState,
    Result<(), EvalErr>,
)
    decreases fuel, stmts.len() - i,
{
    if i < 0 || i >= stmts.len() {
        (st, Ok(()))
    } else {
        let (st1, r) = eval_stmt(st, stmts[i], fuel);
        match r {
            Err(x) => (st1, Err(x)),
            Ok(u) => eval_block(st1, stmts, i + 1, fuel),
        }
    }
}

/// Runs `body` again and again, each time in a new scope, until an error.
pub open spec fn eval_loop(st: IState, body: Seq<Statement>, fuel: nat) -> (IState, Result<(), EvalErr>)
    decreases fuel, 0int,
{
    if fuel == 0 {
        (st, Err(EvalErr::OutOfFuel))
    } else {
        let n = scope_count(st);
        let (st1, r) = eval_block(push_scope(st), body, 0, (fuel - 1) as nat);
        let st2 = truncate_scopes(st1, n);
        match r {
            Err(x) => (st2, Err(x)),
            Ok(u) => eval_loop(st2, body, (fuel - 1) as nat),
        }
    }
}

pub open spec fn eval_stmt(st: IState, s: Statement, fuel: nat) -> (IState, Result<(), EvalErr>)
    decreases fuel, 0int,
{
    if fuel == 0 {
        (st, Err(EvalErr::OutOfFuel))
    } else {
        match s {
            Statement::VariableDeclaration { ty, name, initializer } => match initializer {
                Some(e) => {
                    let (st1, r) = eval_expr(st, e, (fuel - 1) as nat);
                    match r {
                        Err(x) => (st1, Err(x)),
                        Ok(v) => (
                            declare(
                                add_warnings(st1, warnings_for(e, v, ty)),
                                name@,
                                VarModel {
                                    val: Stored::Scalar(Value::from_u64(v.num().as_u64(), ty)),
                                    is_alive: true,
                                    ty,
                                },
                            ),
                            Ok(()),
                        ),
                    }
                },
                None => (
                    declare(
                        st,
                        name@,
                        VarModel { val: Stored::Scalar(Value::default_val(ty)), is_alive: true, ty },
                    ),
                    Ok(()),
                ),
            },
            Statement::ArrayDeclaration { ty, size, name, initializer } => {
                let (st1, rs) = match size {
                    ArraySize::Literal(v) => (st, Ok(Stored::Scalar(Value::U64(v)))),
                    ArraySize::Variable(n) => eval_var(st, n@),
                };
                match rs {
                    Err(x) => (st1, Err(x)),
                    Ok(sv) => {
                        let (st2, re) = match initializer {
                            Some(exprs) => eval_inits(st1, exprs@, 0, ty, Seq::empty(), (fuel - 1) as nat),
                            None => (
                                st1,
                                Ok(Seq::new(sv.num().as_u64() as nat, |i: int| Some(Value::default_val(ty)))),
                            ),
                        };
                        match re {
                            Err(x) => (st2, Err(x)),
                            Ok(elems) => (
                                declare(
                                    st2,
                                    name@,
                                    VarModel { val: Stored::Array(ty, elems), is_alive: true, ty },
                                ),
                                Ok(()),
                            ),
                        }
                    },
                }
            },
            Statement::FunctionDeclaration { .. } => (
                with_functions(st, fn_insert(st.functions, s)),
                Ok(()),
            ),
            Statement::Expression(e) => {
                let (st1, r) = eval_expr(st, e, (fuel - 1) as nat);
                match r {
                    Err(x) => (st1, Err(x)),
                    Ok(v) => (st1, Ok(())),
                }
            },
            Statement::Loop(body) => eval_loop(st, body@, (fuel - 1) as nat),
            Statement::TryCatch { try_body, catch_clauses } => {
                let n = scope_count(st);
                let (st1, r) = eval_block(push_scope(st), try_body@, 0, (fuel - 1) as nat);
                let st2 = truncate_scopes(st1, n);
                match r {
                    Err(EvalErr::Exception(code)) => match catch_find(catch_clauses@, code, 0) {
                        None => (st2, Err(EvalErr::Exception(code))),
                        Some(c) => {
                            let m = scope_count(st2);
                            let (st3, rc) = eval_block(
                                push_scope(st2),
                                catch_clauses@[c].body@,
                                0,
                                (fuel - 1) as nat,
                            );
                            (truncate_scopes(st3, m), rc)
                        },
                    },
                    Err(x) => (st2, Err(x)),
                    Ok(u) => (st2, Ok(())),
                }
            },
            Statement::Throw { exception_code, condition } => {
                let (st1, r) = eval_expr(st, condition, (fuel - 1) as nat);
                match r {
                    Err(x) => (st1, Err(x)),
                    Ok(v) => if v.num().as_u64() != 0 {
                        (st1, Err(EvalErr::Exception(exception_code)))
                    } else {
                        (st1, Ok(()))
                    },
                }
            },
        }
    }
}

/// The top level of a program, `prog[i..]`: declarations are recorded and
/// other statements run.
pub open spec fn run_top(st: IState, prog: Seq<Statement>, i: int, fuel: nat) -> (IState, Result<(), EvalErr>)
    decreases prog.len() - i,
{
    if i < 0 || i >= prog.len() {
        (st, Ok(()))
    } else {
        let (st1, r) = match prog[i] {
            Statement::FunctionDeclaration { .. } => (
                with_functions(st, fn_insert(st.functions, prog[i])),
                Ok(()),
            ),
            _ => eval_stmt(st, prog[i], fuel),
        };
        match r {
            Err(x) => (st1, Err(x)),
            Ok(u) => run_top(st1, prog, i + 1, fuel),
        }
    }
}

/// A whole run: the top level, then `#main` if it is declared and the top
/// level does not call it itself; the exit code is the low 32 bits of what
/// that call of `#main` returns, else 0.
pub open spec fn run(st: IState, prog: Seq<Statement>, fuel: nat) -> (IState, Result<i32, EvalErr>) {
    let (st1, r) = run_top(st, prog, 0, fuel);
    match r {
        Err(x) => (st1, Err(x)),
        Ok(u) => if stmts_call(prog, "main"@) {
            (st1, Ok(0))
        } else {
            match fn_find(st1.functions, "main"@) {
            None => (st1, Ok(0)),
            Some(i) => {
                let (st2, rm) = eval_call(st1, st1.functions[i], Seq::empty(), fuel);
                match rm {
                    Err(x) => (st2, Err(x)),
                    Ok(v) => (st2, Ok(v.num().as_u64() as i32)),
                }
            },
            }
        },
    }
}

// ---------------------------------------------------------------------------
// The executable interpreter.

pub open spec fn initial_state(input: Seq<u8>) -> IState {
    IState {
        frames: seq![seq![Seq::empty()]],
        functions: Seq::empty(),
        input,
        input_pos: 0,
        output: Seq::empty(),
        warnings: Seq::empty(),
    }
}

pub open spec fn opt_index(o: Option<usize>) -> Option<int> {
    match o {
        Some(i) => Some(i as int),
        None => None,
    }
}

pub open spec fn opt_index2(o: Option<(usize, usize)>) -> Option<(int, int)> {
    match o {
        Some((a, b)) => Some((a as int, b as int)),
        None => None,
    }
}

pub open spec fn opt_index3(o: Option<(usize, usize, usize)>) -> Option<(int, int, int)> {
    match o {
        Some((a, b, c)) => Some((a as int, b as int, c as int)),
        None => None,
    }
}

fn scope_index(scope: &Scope, name: &String) -> (r: Option<usize>)
    ensures
        opt_index(r) == scope_find(scope_model(scope@), name@),
        r matches Some(i) ==> i < scope@.len(),
{
    let ghost sc = scope_model(scope@);
    let mut i: usize = 0;
    while i < scope.len()
        invariant
            i <= scope@.len(),
            sc == scope_model(scope@),
            scope_find(sc, name@) == scope_find_from(sc, name@, i as int),
        decreases scope@.len() - i,
    {
        if same_text(&scope[i].0, name) {
            return Some(i);
        }
        i = i + 1;
    }
    None
}

fn frame_index(frame: &Frame, name: &String) -> (r: Option<(usize, usize)>)
    ensures
        opt_index2(r) == frame_find(frame_model(*frame), name@, frame.scopes@.len() as int),
        r matches Some((s, k)) ==> s < frame.scopes@.len() && k < frame.scopes@[s as int]@.len(),
{
    let ghost fr = frame_model(*frame);
    let mut n: usize = frame.scopes.len();
    while n > 0
        invariant
            n <= frame.scopes@.len(),
            fr == frame_model(*frame),
            frame_find(fr, name@, frame.scopes@.len() as int) == frame_find(fr, name@, n as int),
        decreases n,
    {
        match scope_index(&frame.scopes[n - 1], name) {
            Some(k) => {
                return Some((n - 1, k));
            },
            None => {},
        }
        n = n - 1;
    }
    None
}

fn scope_put(scope: &mut Scope, name: String, vs: VariableState)
    ensures
        scope_model(final(scope)@) == scope_insert(scope_model(old(scope)@), name@, var_model(vs)),
{
    let ghost nm = name@;
    let ghost vm = var_model(vs);
    match scope_index(scope, &name) {
        Some(i) => {
            scope[i] = (name, vs);
        },
        None => {
            scope.push((name, vs));
        },
    }
    assert(scope_model(scope@) =~= scope_insert(scope_model(old(scope)@), nm, vm));
}

fn element_label_string(name: &String, index: u64) -> (r: String)
    ensures
        r@ == element_label(name@, index),
{
    let mut r = name.clone();
    push_char(&mut r, '[');
    push_dec(&mut r, index);
    push_char(&mut r, ']');
    r
}

fn warnings_of(e: &Expression, v: &Value, ty: Type) -> (r: Vec<ConversionWarning>)
    ensures
        r@ == warnings_for(*e, stored(*v), ty),
{
    match e {
        Expression::HexLiteral(_, _) => Vec::new(),
        _ => check_implicit_conversion_warning(v.get_type(), ty),
    }
}

fn binary_value(op: BinaryOperator, a: &Value, b: &Value) -> (r: u64)
    ensures
        r == binary_result(op, stored(*a).num(), stored(*b).num()),
{
    proof {
        lemma_num(*a);
        lemma_num(*b);
    }
    match op {
        BinaryOperator::Add => a.as_u64().wrapping_add(b.as_u64()),
        BinaryOperator::Sub => a.as_u64().wrapping_sub(b.as_u64()),
        BinaryOperator::BitwiseAnd => a.as_u64() & b.as_u64(),
        BinaryOperator::BitwiseOr => a.as_u64() | b.as_u64(),
        BinaryOperator::ShiftLeft => a.as_u64().wrapping_shl(b.as_u64() as u32),
        BinaryOperator::ShiftRight => if Value::is_signed(a.get_type()) {
            a.as_i64().wrapping_shr(b.as_u64() as u32) as u64
        } else {
            a.as_u64().wrapping_shr(b.as_u64() as u32)
        },
        BinaryOperator::Equal => if a.as_u64() == b.as_u64() {
            1
        } else {
            0
        },
        BinaryOperator::LessThan => if Value::is_signed(a.get_type()) {
            if a.as_i64() < b.as_i64() {
                1
            } else {
                0
            }
        } else {
            if a.as_u64() < b.as_u64() {
                1
            } else {
                0
            }
        },
        BinaryOperator::GreaterThan => if Value::is_signed(a.get_type()) {
            if a.as_i64() > b.as_i64() {
                1
            } else {
                0
            }
        } else {
            if a.as_u64() > b.as_u64() {
                1
            } else {
                0
            }
        },
        BinaryOperator::Assign => 0,
    }
}

fn catch_index(clauses: &Vec<CatchClause>, code: u64) -> (r: Option<usize>)
    ensures
        opt_index(r) == catch_find(clauses@, code, 0),
        r matches Some(i) ==> i < clauses@.len(),
{
    let mut i: usize = 0;
    while i < clauses.len()
        invariant
            i <= clauses@.len(),
            catch_find(clauses@, code, 0) == catch_find(clauses@, code, i as int),
        decreases clauses@.len() - i,
    {
        if clauses[i].exception_code == code {
            return Some(i);
        }
        i = i + 1;
    }
    None
}

impl<'p> Interpreter<'p> {
    /// An interpreter with no input.
    pub fn new() -> (r: Self)
        ensures
            r@ == initial_state(Seq::empty()),
    {
        Self::with_input(Vec::new())
    }

    /// An interpreter whose `#_getc` reads `input`.
    pub fn with_input(input: Vec<u8>) -> (r: Self)
        ensures
            r@ == initial_state(input@),
    {
        let scope: Scope = Vec::new();
        let mut scopes: Vec<Scope> = Vec::new();
        scopes.push(scope);
        let mut frames: Vec<Frame> = Vec::new();
        frames.push(Frame { scopes });
        let r = Interpreter {
            frames,
            functions: Vec::new(),
            input,
            input_pos: 0,
            output: Vec::new(),
            warnings: Vec::new(),
        };
        assert(scope_model(r.frames@[0].scopes@[0]@) =~= Seq::<(Seq<char>, VarModel)>::empty());
        assert(frame_model(r.frames@[0]) =~= seq![Seq::<(Seq<char>, VarModel)>::empty()]);
        assert(r@.frames =~= seq![seq![Seq::<(Seq<char>, VarModel)>::empty()]]);
        assert(r@.functions =~= Seq::<Statement>::empty());
        r
    }

    /// What `#_putc` wrote.
    pub fn output(&self) -> (r: &Vec<u8>)
        ensures
            r@ == self@.output,
    {
        &self.output
    }

    /// The warnings on implicit conversions, in order.
    pub fn warnings(&self) -> (r: &Vec<ConversionWarning>)
        ensures
            r@ == self@.warnings,
    {
        &self.warnings
    }

    fn find_binding(&self, name: &String, n: usize) -> (r: Option<(usize, usize, usize)>)
        requires
            n <= self.frames@.len(),
        ensures
            opt_index3(r) == frames_find(self@.frames, name@, n as int),
            r matches Some((f, s, k)) ==> f < self.frames@.len() && s < self.frames@[f as int].scopes@.len()
                && k < self.frames@[f as int].scopes@[s as int]@.len(),
    {
        let ghost frs = self@.frames;
        let mut m: usize = n;
        while m > 0
            invariant
                m <= n <= self.frames@.len(),
                frs == self@.frames,
                frames_find(frs, name@, n as int) == frames_find(frs, name@, m as int),
            decreases m,
        {
            match frame_index(&self.frames[m - 1], name) {
                Some((s, k)) => {
                    return Some((m - 1, s, k));
                },
                None => {},
            }
            m = m - 1;
        }
        None
    }

    fn consume_at(&mut self, f: usize, s: usize, k: usize)
        requires
            f < old(self).frames@.len(),
            s < old(self).frames@[f as int].scopes@.len(),
            k < old(self).frames@[f as int].scopes@[s as int]@.len(),
        ensures
            final(self)@ == set_var(
                old(self)@,
                f as int,
                s as int,
                k as int,
                VarModel {
                    val: var_at(old(self)@, f as int, s as int, k as int).val,
                    is_alive: false,
                    ty: var_at(old(self)@, f as int, s as int, k as int).ty,
                },
            ),
    {
        self.frames[f].scopes[s][k].1.is_alive = false;
        proof {
            let v = var_at(old(self)@, f as int, s as int, k as int);
            let target = set_var(
                old(self)@,
                f as int,
                s as int,
                k as int,
                VarModel { val: v.val, is_alive: false, ty: v.ty },
            );
            assert(self@.frames[f as int][s as int] =~= target.frames[f as int][s as int]);
            assert(self@.frames[f as int] =~= target.frames[f as int]);
            assert(self@.frames =~= target.frames);
        }
    }

    fn set_scalar_at(&mut self, f: usize, s: usize, k: usize, val: Value)
        requires
            f < old(self).frames@.len(),
            s < old(self).frames@[f as int].scopes@.len(),
            k < old(self).frames@[f as int].scopes@[s as int]@.len(),
            !(val is Array),
        ensures
            final(self)@ == set_var(
                old(self)@,
                f as int,
                s as int,
                k as int,
                VarModel {
                    val: Stored::Scalar(val),
                    is_alive: true,
                    ty: var_at(old(self)@, f as int, s as int, k as int).ty,
                },
            ),
    {
        self.frames[f].scopes[s][k].1.val = val;
        self.frames[f].scopes[s][k].1.is_alive = true;
        proof {
            let v = var_at(old(self)@, f as int, s as int, k as int);
            let target = set_var(
                old(self)@,
                f as int,
                s as int,
                k as int,
                VarModel { val: Stored::Scalar(val), is_alive: true, ty: v.ty },
            );
            assert(self@.frames[f as int][s as int] =~= target.frames[f as int][s as int]);
            assert(self@.frames[f as int] =~= target.frames[f as int]);
            assert(self@.frames =~= target.frames);
        }
    }

    fn set_element_at(&mut self, f: usize, s: usize, k: usize, i: usize, x: Option<Value>)
        requires
            f < old(self).frames@.len(),
            s < old(self).frames@[f as int].scopes@.len(),
            k < old(self).frames@[f as int].scopes@[s as int]@.len(),
            var_at(old(self)@, f as int, s as int, k as int).val matches Stored::Array(_, elems)
                && i < elems.len(),
        ensures
            final(self)@ == set_element(old(self)@, f as int, s as int, k as int, i as int, x),
    {
        let ghost x0 = x;
        match &mut self.frames[f].scopes[s][k].1.val {
            Value::Array(_, elems) => {
                elems.set(i, x);
            },
            _ => {},
        }
        proof {
            let target = set_element(old(self)@, f as int, s as int, k as int, i as int, x0);
            assert(self@.frames[f as int][s as int] =~= target.frames[f as int][s as int]);
            assert(self@.frames[f as int] =~= target.frames[f as int]);
            assert(self@.frames =~= target.frames);
        }
    }

    fn scope_count(&self) -> (r: usize)
        ensures
            r as int == scope_count(self@),
    {
        let nf = self.frames.len();
        if nf == 0 {
            0
        } else {
            self.frames[nf - 1].scopes.len()
        }
    }

    fn push_scope(&mut self)
        ensures
            final(self)@ == push_scope(old(self)@),
    {
        let nf = self.frames.len();
        if nf > 0 {
            self.frames[nf - 1].scopes.push(Vec::new());
            proof {
                let target = push_scope(old(self)@);
                assert(scope_model(self.frames@[nf - 1].scopes@.last()@) =~= Seq::<(Seq<char>, VarModel)>::empty());
                assert(self@.frames[nf - 1] =~= target.frames[nf - 1]);
                assert(self@.frames =~= target.frames);
            }
        }
    }

    fn truncate_scopes(&mut self, n: usize)
        ensures
            final(self)@ == truncate_scopes(old(self)@, n as int),
    {
        let nf = self.frames.len();
        if nf > 0 {
            self.frames[nf - 1].scopes.truncate(n);
            proof {
                let target = truncate_scopes(old(self)@, n as int);
                assert(self@.frames[nf - 1] =~= target.frames[nf - 1]);
                assert(self@.frames =~= target.frames);
            }
        }
    }

    fn declare_var(&mut self, name: String, vs: VariableState)
        ensures
            final(self)@ == declare(old(self)@, name@, var_model(vs)),
    {
        let ghost nm = name@;
        let ghost vm = var_model(vs);
        let nf = self.frames.len();
        if nf == 0 {
            return;
        }
        let ns = self.frames[nf - 1].scopes.len();
        if ns == 0 {
            return;
        }
        assert(self@.frames[nf - 1] == frame_model(self.frames@[nf - 1]));
        match frame_index(&self.frames[nf - 1], &name) {
            Some((s, k)) => {
                self.set_binding_at(nf - 1, s, k, vs);
            },
            None => {
                scope_put(&mut self.frames[nf - 1].scopes[ns - 1], name, vs);
                proof {
                    let target = declare(old(self)@, nm, vm);
                    assert(self@.frames[nf - 1][ns - 1] =~= target.frames[nf - 1][ns - 1]);
                    assert(self@.frames[nf - 1] =~= target.frames[nf - 1]);
                    assert(self@.frames =~= target.frames);
                }
            },
        }
    }

    fn set_binding_at(&mut self, f: usize, s: usize, k: usize, vs: VariableState)
        requires
            f < old(self).frames@.len(),
            s < old(self).frames@[f as int].scopes@.len(),
            k < old(self).frames@[f as int].scopes@[s as int]@.len(),
        ensures
            final(self)@ == set_var(old(self)@, f as int, s as int, k as int, var_model(vs)),
    {
        let ghost vm = var_model(vs);
        self.frames[f].scopes[s][k].1 = vs;
        proof {
            let target = set_var(old(self)@, f as int, s as int, k as int, vm);
            assert(self@.frames[f as int][s as int] =~= target.frames[f as int][s as int]);
            assert(self@.frames[f as int] =~= target.frames[f as int]);
            assert(self@.frames =~= target.frames);
        }
    }

    fn add_warnings(&mut self, w: Vec<ConversionWarning>)
        ensures
            final(self)@ == add_warnings(old(self)@, w@),
            final(self).frames == old(self).frames,
    {
        let mut w = w;
        self.warnings.append(&mut w);
    }

    fn find_function(&self, name: &String) -> (r: Option<usize>)
        ensures
            opt_index(r) == fn_find(self@.functions, name@),
            r matches Some(i) ==> i < self.functions@.len(),
    {
        let ghost fns = self@.functions;
        let mut i: usize = 0;
        while i < self.functions.len()
            invariant
                i <= self.functions@.len(),
                fns == self@.functions,
                fn_find(fns, name@) == fn_find_from(fns, name@, i as int),
            decreases self.functions@.len() - i,
        {
            assert(fns[i as int] == *self.functions@[i as int]);
            let found = match self.functions[i] {
                Statement::FunctionDeclaration { name: n, .. } => same_text(n, name),
                _ => {
                    let e = name.as_str().is_empty();
                    assert(e ==> name@ =~= Seq::<char>::empty());
                    e
                },
            };
            if found {
                return Some(i);
            }
            i = i + 1;
        }
        None
    }

    fn insert_function(&mut self, s: &'p Statement)
        requires
            s is FunctionDeclaration,
        ensures
            final(self)@ == with_functions(old(self)@, fn_insert(old(self)@.functions, *s)),
    {
        match s {
            Statement::FunctionDeclaration { name, .. } => {
                match self.find_function(name) {
                    Some(i) => {
                        self.functions.set(i, s);
                    },
                    None => {
                        self.functions.push(s);
                    },
                }
                proof {
                    let target = with_functions(old(self)@, fn_insert(old(self)@.functions, *s));
                    assert(self@.functions =~= target.functions);
                    assert(self@.frames =~= target.frames);
                }
            },
            _ => {},
        }
    }

    fn read_variable(&mut self, name: &String) -> (r: Result<Value, EvalError>)
        ensures
            final(self)@ == eval_var(old(self)@, name@).0,
            val_model(r) == eval_var(old(self)@, name@).1,
    {
        match self.lookup_variable(name) {
            Err(e) => Err(e),
            Ok((f, s, k)) => {
                let v = read_value(&self.frames[f].scopes[s][k].1.val);
                if f == self.frames.len() - 1 {
                    self.consume_at(f, s, k);
                }
                Ok(v)
            },
        }
    }

    fn read_element(&mut self, name: &String, index: u64) -> (r: Result<Value, EvalError>)
        ensures
            final(self)@ == eval_element(old(self)@, name@, index).0,
            val_model(r) == eval_element(old(self)@, name@, index).1,
    {
        match self.lookup_variable(name) {
            Err(e) => Err(e),
            Ok((f, s, k)) => {
                let is_local = f == self.frames.len() - 1;
                let (outcome, consume): (Result<Value, EvalError>, bool) = match &self.frames[f].scopes[s][k].1.val {
                    Value::Array(_, elems) => {
                        if index < elems.len() as u64 {
                            match &elems[index as usize] {
                                Some(x) => (Ok(read_value(x)), is_local),
                                None => (Err(EvalError::ConsumedVariable(element_label_string(name, index))), false),
                            }
                        } else {
                            (Err(EvalError::UndefinedVariable(element_label_string(name, index))), false)
                        }
                    },
                    _ => (Err(EvalError::TypeMismatch), false),
                };
                if consume {
                    self.set_element_at(f, s, k, index as usize, None);
                }
                outcome
            },
        }
    }

    /// Evaluates an expression with a budget of `fuel` nested steps. A whole
    /// array read gives a copy of it, its consumed elements as `None`.
    pub fn eval_expression(&mut self, expr: &Expression, fuel: u64) -> (r: Result<Value, EvalError>)
        ensures
            final(self)@ == eval_expr(old(self)@, *expr, fuel as nat).0,
            val_model(r) == eval_expr(old(self)@, *expr, fuel as nat).1,
        decreases fuel, 0nat,
    {
        if fuel == 0 {
            return Err(EvalError::OutOfFuel);
        }
        match expr {
            Expression::HexLiteral(val, neg) => {
                Ok(Value::I64(if *neg { 0u64.wrapping_sub(*val) as i64 } else { *val as i64 }))
            },
            Expression::Variable(name) => self.read_variable(name),
            Expression::ArrayElement(name, idx) => {
                match self.eval_expression(idx, fuel - 1) {
                    Err(e) => Err(e),
                    Ok(iv) => self.read_element(name, iv.as_u64()),
                }
            },
            Expression::UnaryOp(op, inner) => {
                if *op == UnaryOperator::Exists {
                    match &**inner {
                        Expression::Variable(name) => {
                            let alive = self.lookup_variable(name).is_ok();
                            return Ok(Value::I64(if alive { 1 } else { 0 }));
                        },
                        _ => {},
                    }
                }
                match self.eval_expression(inner, fuel - 1) {
                    Err(e) => Err(e),
                    Ok(v) => Ok(
                        match op {
                            UnaryOperator::BitwiseNot => Value::I64((!v.as_u64()) as i64),
                            UnaryOperator::Exists => Value::I64(0),
                        },
                    ),
                }
            },
            Expression::BinaryOp(op, l, r) => {
                if *op == BinaryOperator::Assign {
                    return self.eval_assignment(l, r, fuel - 1);
                }
                match self.eval_expression(l, fuel - 1) {
                    Err(e) => Err(e),
                    Ok(a) => match self.eval_expression(r, fuel - 1) {
                        Err(e) => Err(e),
                        Ok(b) => Ok(Value::I64(binary_value(*op, &a, &b) as i64)),
                    },
                }
            },
            Expression::FunctionCall(name, args) => {
                if text_is(name, "_putc") {
                    if args.len() == 0 {
                        return Err(EvalError::NotImplemented(name.clone()));
                    }
                    match self.eval_expression(&args[0], fuel - 1) {
                        Err(e) => Err(e),
                        Ok(v) => {
                            self.output.push(v.as_u64() as u8);
                            Ok(Value::I32(0))
                        },
                    }
                } else if text_is(name, "_getc") {
                    if self.input_pos < self.input.len() {
                        let b = self.input[self.input_pos];
                        self.input_pos = self.input_pos + 1;
                        Ok(Value::U8(b))
                    } else {
                        Err(EvalError::Exception(0xFFFF0001))
                    }
                } else {
                    match self.find_function(name) {
                        None => Err(EvalError::UndefinedVariable(name.clone())),
                        Some(i) => {
                            let f: &'p Statement = self.functions[i];
                            self.eval_function_call(f, args, fuel - 1)
                        },
                    }
                }
            },
        }
    }

    /// Evaluates the assignment `lhs = rhs` with a budget of `fuel` nested
    /// steps.
    pub fn eval_assignment(&mut self, lhs: &Expression, rhs: &Expression, fuel: u64) -> (r: Result<Value, EvalError>)
        ensures
            final(self)@ == eval_assign(old(self)@, *lhs, *rhs, fuel as nat).0,
            val_model(r) == eval_assign(old(self)@, *lhs, *rhs, fuel as nat).1,
        decreases fuel, 0nat,
    {
        if fuel == 0 {
            return Err(EvalError::OutOfFuel);
        }
        let rv = match self.eval_expression(rhs, fuel - 1) {
            Err(e) => {
                return Err(e);
            },
            Ok(v) => v,
        };
        match lhs {
            Expression::Variable(name) => {
                let nf = self.frames.len();
                if nf == 0 {
                    return Err(EvalError::TypeMismatch);
                }
                match frame_index(&self.frames[nf - 1], name) {
                    Some((s, k)) => {
                        let ty = self.frames[nf - 1].scopes[s][k].1.ty;
                        self.add_warnings(warnings_of(rhs, &rv, ty));
                        self.set_scalar_at(nf - 1, s, k, Value::from_u64(rv.as_u64(), ty));
                        Ok(rv)
                    },
                    None => {
                        if self.find_binding(name, nf - 1).is_some() {
                            let mut msg = name.clone();
                            msg.append(" is read-only");
                            Err(EvalError::UndefinedVariable(msg))
                        } else {
                            Err(EvalError::UndefinedVariable(name.clone()))
                        }
                    },
                }
            },
            Expression::ArrayElement(name, idx) => {
                let index = match self.eval_expression(idx, fuel - 1) {
                    Err(e) => {
                        return Err(e);
                    },
                    Ok(iv) => iv.as_u64(),
                };
                let nf = self.frames.len();
                if nf == 0 {
                    return Err(EvalError::TypeMismatch);
                }
                match frame_index(&self.frames[nf - 1], name) {
                    Some((s, k)) => {
                        let (state, ety): (u8, Type) = match &self.frames[nf - 1].scopes[s][k].1.val {
                            Value::Array(ety, elems) => {
                                if index < elems.len() as u64 {
                                    if elems[index as usize].is_some() {
                                        (0, *ety)
                                    } else {
                                        (1, *ety)
                                    }
                                } else {
                                    (2, *ety)
                                }
                            },
                            _ => (3, Type::I8),
                        };
                        if state == 0 {
                            self.add_warnings(warnings_of(rhs, &rv, ety));
                            self.set_element_at(
                                nf - 1,
                                s,
                                k,
                                index as usize,
                                Some(Value::from_u64(rv.as_u64(), ety)),
                            );
                            Ok(rv)
                        } else if state == 1 {
                            Err(EvalError::ConsumedVariable(element_label_string(name, index)))
                        } else if state == 2 {
                            Err(EvalError::UndefinedVariable(element_label_string(name, index)))
                        } else {
                            Ok(rv)
                        }
                    },
                    None => {
                        if self.find_binding(name, nf - 1).is_some() {
                            let mut msg = name.clone();
                            msg.append(" is read-only");
                            Err(EvalError::UndefinedVariable(msg))
                        } else {
                            Err(EvalError::UndefinedVariable(element_label_string(name, index)))
                        }
                    },
                }
            },
            _ => Err(EvalError::TypeMismatch),
        }
    }

    /// Calls the declared function `f` on `args` with a budget of `fuel`
    /// nested steps; the result is what the result variable holds at the
    /// end, a number or an array.
    #[verifier::loop_isolation(false)]
    pub fn eval_function_call(&mut self, f: &'p Statement, args: &Vec<Expression>, fuel: u64) -> (r: Result<Value, EvalError>)
        ensures
            final(self)@ == eval_call(old(self)@, *f, args@, fuel as nat).0,
            val_model(r) == eval_call(old(self)@, *f, args@, fuel as nat).1,
        decreases fuel, 0nat,
    {
        if fuel == 0 {
            return Err(EvalError::OutOfFuel);
        }
        match f {
            Statement::FunctionDeclaration { ret_type, name, params, body } => {
                let ghost st0 = self@;
                assert(eval_call(st0, *f, args@, fuel as nat) == {
                    let (st1, r) = eval_args(st0, args@, 0, Seq::empty(), (fuel - 1) as nat);
                    match r {
                        Err(x) => (st1, Err(x)),
                        Ok(vals) => if args@.len() < params@.len() {
                            (st1, Err(EvalErr::NotImplemented(name@)))
                        } else {
                            let (st4, rb) = eval_block(
                                call_frame(st1, *ret_type, name@, params@, args@, vals),
                                body@,
                                0,
                                (fuel - 1) as nat,
                            );
                            call_return(st4, rb, name@)
                        },
                    }
                });
                let mut vals: Vec<Value> = Vec::new();
                assert(stored_all(vals@) =~= Seq::<Stored>::empty());
                let mut i: usize = 0;
                while i < args.len()
                    invariant
                        i <= args@.len(),
                        vals@.len() == i,
                        fuel > 0,
                        st0 == old(self)@,
                        eval_args(st0, args@, 0, Seq::empty(), (fuel - 1) as nat) == eval_args(
                            self@,
                            args@,
                            i as int,
                            stored_all(vals@),
                            (fuel - 1) as nat,
                        ),
                    decreases args@.len() - i,
                {
                    let ghost pre = self@;
                    assert(eval_args(pre, args@, i as int, stored_all(vals@), (fuel - 1) as nat) == {
                        let (st1, r) = eval_expr(pre, args@[i as int], (fuel - 1) as nat);
                        match r {
                            Err(x) => (st1, Err(x)),
                            Ok(v) => eval_args(st1, args@, i + 1, stored_all(vals@).push(v), (fuel - 1) as nat),
                        }
                    });
                    match self.eval_expression(&args[i], fuel - 1) {
                        Err(e) => {
                            return Err(e);
                        },
                        Ok(v) => {
                            let ghost before = vals@;
                            vals.push(v);
                            assert(stored_all(vals@) =~= stored_all(before).push(stored(v)));
                        },
                    }
                    i = i + 1;
                }
                let ghost st1 = self@;
                assert(eval_args(st0, args@, 0, Seq::empty(), (fuel - 1) as nat) == (st1, Ok::<Seq<Stored>, EvalErr>(stored_all(vals@))));
                if args.len() < params.len() {
                    return Err(EvalError::NotImplemented(name.clone()));
                }
                let mut scope: Scope = Vec::new();
                let mut w: Vec<ConversionWarning> = Vec::new();
                let mut j: usize = 0;
                while j < params.len()
                    invariant
                        j <= params@.len(),
                        params@.len() <= args@.len(),
                        vals@.len() == args@.len(),
                        scope_model(scope@) == param_scope(params@, stored_all(vals@), j as int),
                        w@ == param_warnings(params@, args@, stored_all(vals@), j as int),
                    decreases params@.len() - j,
                {
                    let pty = params[j].0;
                    proof {
                        lemma_num(vals@[j as int]);
                    }
                    let mut wj = warnings_of(&args[j], &vals[j], pty);
                    w.append(&mut wj);
                    scope_put(
                        &mut scope,
                        params[j].1.clone(),
                        VariableState { val: Value::from_u64(vals[j].as_u64(), pty), is_alive: true, ty: pty },
                    );
                    j = j + 1;
                }
                scope_put(
                    &mut scope,
                    name.clone(),
                    VariableState { val: Value::default_val(*ret_type), is_alive: true, ty: *ret_type },
                );
                self.add_warnings(w);
                let mut scopes: Vec<Scope> = Vec::new();
                scopes.push(scope);
                let ghost st2 = self@;
                self.frames.push(Frame { scopes });
                proof {
                    assert(frame_model(self.frames@.last()) =~= seq![scope_model(self.frames@.last().scopes@[0]@)]);
                    assert(self@.frames =~= st2.frames.push(frame_model(self.frames@.last())));
                }
                assert(self@ == call_frame(st1, *ret_type, name@, params@, args@, stored_all(vals@)));
                let rb = self.eval_block(body, fuel - 1);
                let ghost st4 = self@;
                match self.frames.pop() {
                    None => Err(EvalError::MainNotFound),
                    Some(frame) => {
                        proof {
                            assert(self@.frames =~= st4.frames.drop_last());
                            assert(frame_model(frame) == st4.frames.last());
                            assert(self@ == with_frames(st4, st4.frames.drop_last()));
                        }
                        match rb {
                            Err(e) => Err(e),
                            Ok(()) => {
                                if frame.scopes.len() == 0 {
                                    Err(EvalError::MainNotFound)
                                } else {
                                    match scope_index(&frame.scopes[0], name) {
                                        Some(k) => Ok(read_value(&frame.scopes[0][k].1.val)),
                                        None => Err(EvalError::MainNotFound),
                                    }
                                }
                            },
                        }
                    },
                }
            },
            _ => Err(EvalError::UndefinedVariable(string_of("Not a function"))),
        }
    }

    fn eval_block(&mut self, stmts: &'p Vec<Statement>, fuel: u64) -> (r: Result<(), EvalError>)
        ensures
            final(self)@ == eval_block(old(self)@, stmts@, 0, fuel as nat).0,
            res_model(r) == eval_block(old(self)@, stmts@, 0, fuel as nat).1,
        decreases fuel, 1nat,
    {
        let ghost st0 = self@;
        let mut i: usize = 0;
        while i < stmts.len()
            invariant
                i <= stmts@.len(),
                st0 == old(self)@,
                eval_block(st0, stmts@, 0, fuel as nat) == eval_block(self@, stmts@, i as int, fuel as nat),
            decreases stmts@.len() - i,
        {
            let ghost pre = self@;
            assert(eval_block(pre, stmts@, i as int, fuel as nat) == {
                let (st1, r) = eval_stmt(pre, stmts@[i as int], fuel as nat);
                match r {
                    Err(x) => (st1, Err(x)),
                    Ok(u) => eval_block(st1, stmts@, i + 1, fuel as nat),
                }
            });
            match self.eval_statement_fuel(&stmts[i], fuel) {
                Err(e) => {
                    return Err(e);
                },
                Ok(()) => {},
            }
            i = i + 1;
        }
        Ok(())
    }

    fn eval_statement_fuel(&mut self, stmt: &'p Statement, fuel: u64) -> (r: Result<(), EvalError>)
        ensures
            final(self)@ == eval_stmt(old(self)@, *stmt, fuel as nat).0,
            res_model(r) == eval_stmt(old(self)@, *stmt, fuel as nat).1,
        decreases fuel, 0nat,
    {
        if fuel == 0 {
            return Err(EvalError::OutOfFuel);
        }
        match stmt {
            Statement::VariableDeclaration { ty, name, initializer } => match initializer {
                Some(e) => match self.eval_expression(e, fuel - 1) {
                    Err(x) => Err(x),
                    Ok(v) => {
                        self.add_warnings(warnings_of(e, &v, *ty));
                        self.declare_var(
                            name.clone(),
                            VariableState { val: Value::from_u64(v.as_u64(), *ty), is_alive: true, ty: *ty },
                        );
                        Ok(())
                    },
                },
                None => {
                    self.declare_var(
                        name.clone(),
                        VariableState { val: Value::default_val(*ty), is_alive: true, ty: *ty },
                    );
                    Ok(())
                },
            },
            Statement::ArrayDeclaration { ty, size, name, initializer } => {
                let sv = match size {
                    ArraySize::Literal(v) => Value::U64(*v),
                    ArraySize::Variable(n) => match self.read_variable(n) {
                        Err(x) => {
                            return Err(x);
                        },
                        Ok(v) => v,
                    },
                };
                let mut elems: Vec<Option<Value>> = Vec::new();
                match initializer {
                    Some(exprs) => {
                        let ghost st1 = self@;
                        let mut i: usize = 0;
                        while i < exprs.len()
                            invariant
                                i <= exprs@.len(),
                                fuel > 0,
                                eval_stmt(old(self)@, *stmt, fuel as nat) == {
                                    let (st2, re) = eval_inits(st1, exprs@, 0, *ty, Seq::empty(), (fuel - 1) as nat);
                                    match re {
                                        Err(x) => (st2, Err(x)),
                                        Ok(el) => (
                                            declare(st2, name@, VarModel { val: Stored::Array(*ty, el), is_alive: true, ty: *ty }),
                                            Ok(()),
                                        ),
                                    }
                                },
                                eval_inits(st1, exprs@, 0, *ty, Seq::empty(), (fuel - 1) as nat) == eval_inits(
                                    self@,
                                    exprs@,
                                    i as int,
                                    *ty,
                                    elems@,
                                    (fuel - 1) as nat,
                                ),
                            decreases exprs@.len() - i,
                        {
                            let ghost pre = self@;
                            assert(eval_inits(pre, exprs@, i as int, *ty, elems@, (fuel - 1) as nat) == {
                                let (st2, r) = eval_expr(pre, exprs@[i as int], (fuel - 1) as nat);
                                match r {
                                    Err(x) => (st2, Err(x)),
                                    Ok(v) => eval_inits(
                                        add_warnings(st2, warnings_for(exprs@[i as int], v, *ty)),
                                        exprs@,
                                        i + 1,
                                        *ty,
                                        elems@.push(Some(Value::from_u64(v.num().as_u64(), *ty))),
                                        (fuel - 1) as nat,
                                    ),
                                }
                            });
                            match self.eval_expression(&exprs[i], fuel - 1) {
                                Err(x) => {
                                    return Err(x);
                                },
                                Ok(v) => {
                                    self.add_warnings(warnings_of(&exprs[i], &v, *ty));
                                    elems.push(Some(Value::from_u64(v.as_u64(), *ty)));
                                },
                            }
                            i = i + 1;
                        }
                    },
                    None => {
                        let n = sv.as_u64();
                        let mut k: u64 = 0;
                        while k < n
                            invariant
                                k <= n,
                                elems@ =~= Seq::new(k as nat, |i: int| Some(Value::default_val(*ty))),
                            decreases n - k,
                        {
                            elems.push(Some(Value::default_val(*ty)));
                            k = k + 1;
                        }
                    },
                }
                self.declare_var(
                    name.clone(),
                    VariableState { val: Value::Array(*ty, elems), is_alive: true, ty: *ty },
                );
                Ok(())
            },
            Statement::FunctionDeclaration { .. } => {
                self.insert_function(stmt);
                Ok(())
            },
            Statement::Expression(e) => match self.eval_expression(e, fuel - 1) {
                Err(x) => Err(x),
                Ok(_) => Ok(()),
            },
            Statement::Loop(body) => {
                let mut f: u64 = fuel - 1;
                loop
                    invariant
                        f <= fuel - 1,
                        eval_loop(self@, body@, f as nat) == eval_stmt(old(self)@, *stmt, fuel as nat),
                    decreases f,
                {
                    if f == 0 {
                        return Err(EvalError::OutOfFuel);
                    }
                    let n = self.scope_count();
                    self.push_scope();
                    let r = self.eval_block(body, f - 1);
                    self.truncate_scopes(n);
                    match r {
                        Err(x) => {
                            return Err(x);
                        },
                        Ok(()) => {},
                    }
                    f = f - 1;
                }
            },
            Statement::TryCatch { try_body, catch_clauses } => {
                let n = self.scope_count();
                self.push_scope();
                let r = self.eval_block(try_body, fuel - 1);
                self.truncate_scopes(n);
                match r {
                    Err(EvalError::Exception(code)) => match catch_index(catch_clauses, code) {
                        None => Err(EvalError::Exception(code)),
                        Some(c) => {
                            let m = self.scope_count();
                            self.push_scope();
                            let rc = self.eval_block(&catch_clauses[c].body, fuel - 1);
                            self.truncate_scopes(m);
                            rc
                        },
                    },
                    Err(x) => Err(x),
                    Ok(()) => Ok(()),
                }
            },
            Statement::Throw { exception_code, condition } => match self.eval_expression(condition, fuel - 1) {
                Err(x) => Err(x),
                Ok(v) => if v.as_u64() != 0 {
                    Err(EvalError::Exception(*exception_code))
                } else {
                    Ok(())
                },
            },
        }
    }

    /// Runs one statement with the largest budget.
    pub fn eval_statement(&mut self, stmt: &'p Statement) -> (r: Result<(), EvalError>)
        ensures
            final(self)@ == eval_stmt(old(self)@, *stmt, u64::MAX as nat).0,
            res_model(r) == eval_stmt(old(self)@, *stmt, u64::MAX as nat).1,
    {
        self.eval_statement_fuel(stmt, u64::MAX)
    }

    /// Runs a program with a budget of `fuel` steps: its top level, then
    /// `#main` if it declares one and its top level does not call it; the
    /// exit code is the low 32 bits of what that call of `#main` returns.
    pub fn run_program_with_fuel(&mut self, program: &'p Program, fuel: u64) -> (r: Result<i32, EvalError>)
        ensures
            final(self)@ == run(old(self)@, program@, fuel as nat).0,
            res_model(r) == run(old(self)@, program@, fuel as nat).1,
    {
        let ghost st0 = self@;
        let mut i: usize = 0;
        while i < program.len()
            invariant
                i <= program@.len(),
                st0 == old(self)@,
                run_top(st0, program@, 0, fuel as nat) == run_top(self@, program@, i as int, fuel as nat),
            decreases program@.len() - i,
        {
            let stmt: &'p Statement = &program[i];
            let ghost pre = self@;
            assert(run_top(pre, program@, i as int, fuel as nat) == {
                let (st1, r) = match program@[i as int] {
                    Statement::FunctionDeclaration { .. } => (
                        with_functions(pre, fn_insert(pre.functions, program@[i as int])),
                        Ok(()),
                    ),
                    _ => eval_stmt(pre, program@[i as int], fuel as nat),
                };
                match r {
                    Err(x) => (st1, Err(x)),
                    Ok(u) => run_top(st1, program@, i + 1, fuel as nat),
                }
            });
            match stmt {
                Statement::FunctionDeclaration { .. } => {
                    self.insert_function(stmt);
                },
                _ => match self.eval_statement_fuel(stmt, fuel) {
                    Err(x) => {
                        return Err(x);
                    },
                    Ok(()) => {},
                },
            }
            i = i + 1;
        }
        let main_name = string_of("main");
        if statements_call(program, &main_name) {
            return Ok(0);
        }
        match self.find_function(&main_name) {
            None => Ok(0),
            Some(k) => {
                let f: &'p Statement = self.functions[k];
                let no_args: Vec<Expression> = Vec::new();
                assert(no_args@ =~= Seq::<Expression>::empty());
                match self.eval_function_call(f, &no_args, fuel) {
                    Err(x) => Err(x),
                    Ok(v) => Ok(v.as_u64() as i32),
                }
            },
        }
    }

    /// Runs a program with the largest budget.
    pub fn run_program(&mut self, program: &'p Program) -> (r: Result<i32, EvalError>)
        ensures
            final(self)@ == run(old(self)@, program@, u64::MAX as nat).0,
            res_model(r) == run(old(self)@, program@, u64::MAX as nat).1,
    {
        self.run_program_with_fuel(program, u64::MAX)
    }

    /// Where the variable `name` is: the nearest binding, in the current frame
    /// first, then in the callers' frames; it must be live.
    pub fn lookup_variable(&self, name: &String) -> (r: Result<(usize, usize, usize), EvalError>)
        ensures
            match r {
                Ok((f, s, k)) => lookup(self@, name@) == Ok::<(int, int, int), EvalErr>((f as int, s as int, k as int))
                    && f < self.frames@.len() && s < self.frames@[f as int].scopes@.len()
                    && k < self.frames@[f as int].scopes@[s as int]@.len(),
                Err(e) => lookup(self@, name@) == Err::<(int, int, int), EvalErr>(err_model(e)),
            },
    {
        match self.find_binding(name, self.frames.len()) {
            None => Err(EvalError::UndefinedVariable(name.clone())),
            Some((f, s, k)) => {
                if self.frames[f].scopes[s][k].1.is_alive {
                    Ok((f, s, k))
                } else {
                    Err(EvalError::ConsumedVariable(name.clone()))
                }
            },
        }
    }
}

} // verus!
