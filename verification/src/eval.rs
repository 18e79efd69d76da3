//! The evaluator: environments, pattern binding, and the evaluation of
//! expressions.

use vstd::prelude::*;

use crate::ast::{
    SpanV, BinaryOperator, CaseBranch, CaseBranchV, Expression, ExpressionV, Pattern, PatternField,
    PatternFieldV, PatternV, Spanned, SpannedV, StructField, StructFieldV, UnaryOperator,
    branches_view, lemma_branches_view, lemma_pattern_fields_view, lemma_struct_fields_view,
    pattern_fields_view, pattern_view, struct_fields_view,
};
use crate::data::{
    File, Function, Mapping, Value, ValueV, lookup, put_all_entries, put_entry, value_encoding, vequal,
    law_lookup_put_same, law_lookup_put_other, lemma_vequal_str, lemma_vorder_antisym, lemma_vorder_refl,
};
use crate::effects::{Journal, Request, RequestV, Response, ResponseV, recorded, answered_at, answers};
use crate::fs_entry::fs_encoding;
use crate::runtime::{Runtime, store_path_of};
use crate::sha256_hash::{Sha256Hash, sha256};

verus! {

/// The model of a mapping: its entries in key order.
pub type EntriesV = Seq<(ValueV, ValueV)>;

// ------------------------------------------------------------------
// Why evaluation stops
// ------------------------------------------------------------------

/// Why evaluation stopped without a value.
#[derive(Debug)]
pub enum Stop {
    /// The program is in error; the message says why.
    Error(String),
    /// The journal does not hold the outcome of the next effect yet.
    Needs(Request),
}

pub enum StopV {
    Error(Seq<char>),
    Needs(RequestV),
}

impl View for Stop {
    type V = StopV;

    open spec fn view(&self) -> StopV {
        match self {
            Stop::Error(m) => StopV::Error(m@),
            Stop::Needs(r) => StopV::Needs(r@),
        }
    }
}

pub open spec fn outcome_view(r: &Result<Value, Stop>) -> Result<ValueV, StopV> {
    match r {
        Ok(v) => Ok(v@),
        Err(s) => Err(s@),
    }
}

pub open spec fn fail(msg: Seq<char>) -> Result<ValueV, StopV> {
    Err(StopV::Error(msg))
}

/// What evaluating a program came to.
#[derive(Debug)]
pub enum Evaluation {
    /// The value of the program, or the message of its error.
    Done(Result<Value, String>),
    /// The journal does not hold the outcome of the next effect yet.
    Needs(Request),
}

pub enum EvaluationV {
    Done(Result<ValueV, Seq<char>>),
    Needs(RequestV),
}

impl View for Evaluation {
    type V = EvaluationV;

    open spec fn view(&self) -> EvaluationV {
        match self {
            Evaluation::Done(Ok(v)) => EvaluationV::Done(Ok(v@)),
            Evaluation::Done(Err(m)) => EvaluationV::Done(Err(m@)),
            Evaluation::Needs(r) => EvaluationV::Needs(r@),
        }
    }
}

// ------------------------------------------------------------------
// Messages
// ------------------------------------------------------------------

pub open spec fn msg_unresolved(name: Seq<char>) -> Seq<char> {
    "Unresolved identifier: "@ + name
}

pub open spec fn msg_key_not_found(name: Seq<char>) -> Seq<char> {
    "Structural match failed: key '"@ + name + "' not found"@
}

pub open spec fn msg_nested_not_map(name: Seq<char>) -> Seq<char> {
    "Expected a map for nested structural binding on '"@ + name + "'"@
}

pub open spec fn msg_field_not_found(name: Seq<char>) -> Seq<char> {
    "Field '"@ + name + "' not found"@
}

pub open spec fn msg_io_error(e: Seq<char>) -> Seq<char> {
    "IO error: "@ + e + "."@
}

pub open spec fn binary_operator_name(op: BinaryOperator) -> Seq<char> {
    match op {
        BinaryOperator::Add => "Add"@,
        BinaryOperator::Subtract => "Subtract"@,
        BinaryOperator::Multiply => "Multiply"@,
        BinaryOperator::Divide => "Divide"@,
        BinaryOperator::Modulo => "Modulo"@,
        BinaryOperator::GreaterThan => "GreaterThan"@,
        BinaryOperator::GreaterThanOrEqual => "GreaterThanOrEqual"@,
        BinaryOperator::Equal => "Equal"@,
        BinaryOperator::LessThan => "LessThan"@,
        BinaryOperator::LessThanOrEqual => "LessThanOrEqual"@,
        BinaryOperator::And => "And"@,
        BinaryOperator::Or => "Or"@,
        BinaryOperator::PutAll => "PutAll"@,
        BinaryOperator::PassAsArgument => "PassAsArgument"@,
    }
}

pub open spec fn unary_operator_name(op: UnaryOperator) -> Seq<char> {
    match op {
        UnaryOperator::Negate => "Negate"@,
        UnaryOperator::Not => "Not"@,
    }
}

pub open spec fn msg_binary(op: BinaryOperator) -> Seq<char> {
    "Unsupported binary operation "@ + binary_operator_name(op) + " for the given types"@
}

pub open spec fn msg_unary(op: UnaryOperator) -> Seq<char> {
    "Unsupported unary operation "@ + unary_operator_name(op) + " for the given type"@
}

// ------------------------------------------------------------------
// Environments in the model
// ------------------------------------------------------------------

/// The frames after binding `name` to `v` in the innermost frame.
pub open spec fn bind_frames(frames: Seq<EntriesV>, name: Seq<char>, v: ValueV) -> Seq<EntriesV> {
    if frames.len() == 0 {
        frames
    } else {
        frames.update(frames.len() - 1, put_entry(frames.last(), ValueV::Str(name), v))
    }
}

/// The value of `key` in the innermost frame that holds it.
pub open spec fn resolve_in_frames(frames: Seq<EntriesV>, key: ValueV) -> Option<ValueV>
    decreases frames.len(),
{
    if frames.len() == 0 {
        None
    } else {
        match lookup(frames.last(), key) {
            Some(v) => Some(v),
            None => resolve_in_frames(frames.drop_last(), key),
        }
    }
}

/// The value of a name: from the innermost frame that binds it, else from the
/// custom definitions, else from the built-ins.
pub open spec fn resolve_name(frames: Seq<EntriesV>, custom: EntriesV, builtins: EntriesV, name: Seq<char>) -> Option<ValueV> {
    let key = ValueV::Str(name);
    match resolve_in_frames(frames, key) {
        Some(v) => Some(v),
        None => match lookup(custom, key) {
            Some(v) => Some(v),
            None => lookup(builtins, key),
        },
    }
}

/// Only the innermost frame differs.
pub open spec fn same_below_top(a: Seq<EntriesV>, b: Seq<EntriesV>) -> bool {
    a.len() == b.len() && a.drop_last() == b.drop_last()
}

// ------------------------------------------------------------------
// Pattern binding in the model
// ------------------------------------------------------------------

/// Binds a field of a structural pattern against a mapping.
pub open spec fn bind_field(frames: Seq<EntriesV>, f: PatternFieldV, map: EntriesV) -> Result<Seq<EntriesV>, Seq<char>>
    decreases f,
{
    match f {
        PatternFieldV::Identifier(name) => match lookup(map, ValueV::Str(name)) {
            Some(v) => Ok(bind_frames(frames, name, v)),
            None => Err(msg_key_not_found(name)),
        },
        PatternFieldV::Structured(_) => Err(
            "Anonymous nested structural patterns without a key are not supported"@,
        ),
        PatternFieldV::BoundStructural { identifier, structure } => match lookup(map, ValueV::Str(identifier)) {
            None => Err(msg_key_not_found(identifier)),
            Some(v) => {
                let bound = bind_frames(frames, identifier, v);
                match v {
                    ValueV::Mapping(inner) => bind_fields(bound, structure, inner),
                    _ => Err(msg_nested_not_map(identifier)),
                }
            },
        },
    }
}

/// Binds the fields of a structural pattern in order, stopping at the first error.
pub open spec fn bind_fields(frames: Seq<EntriesV>, fs: Seq<SpannedV<PatternFieldV>>, map: EntriesV) -> Result<Seq<EntriesV>, Seq<char>>
    decreases fs,
{
    if fs.len() == 0 {
        Ok(frames)
    } else {
        match bind_field(frames, fs[0].node, map) {
            Ok(next) => bind_fields(next, fs.drop_first(), map),
            Err(e) => Err(e),
        }
    }
}

/// The frames after binding a field of a structural pattern against a
/// mapping, whether or not it succeeds: what was bound before the failing
/// step stays bound.
pub open spec fn bind_field_after(frames: Seq<EntriesV>, f: PatternFieldV, map: EntriesV) -> Seq<EntriesV>
    decreases f,
{
    match f {
        PatternFieldV::Identifier(name) => match lookup(map, ValueV::Str(name)) {
            Some(v) => bind_frames(frames, name, v),
            None => frames,
        },
        PatternFieldV::Structured(_) => frames,
        PatternFieldV::BoundStructural { identifier, structure } => match lookup(map, ValueV::Str(identifier)) {
            None => frames,
            Some(v) => {
                let bound = bind_frames(frames, identifier, v);
                match v {
                    ValueV::Mapping(inner) => bind_fields_after(bound, structure, inner),
                    _ => bound,
                }
            },
        },
    }
}

/// The frames after binding the fields of a structural pattern in order,
/// up to and including the first that fails.
pub open spec fn bind_fields_after(frames: Seq<EntriesV>, fs: Seq<SpannedV<PatternFieldV>>, map: EntriesV) -> Seq<EntriesV>
    decreases fs,
{
    if fs.len() == 0 {
        frames
    } else {
        match bind_field(frames, fs[0].node, map) {
            Ok(next) => bind_fields_after(next, fs.drop_first(), map),
            Err(_) => bind_field_after(frames, fs[0].node, map),
        }
    }
}

/// The frames after binding an argument to a pattern, whether or not it
/// succeeds.
pub open spec fn bind_pattern_after(frames: Seq<EntriesV>, p: PatternV, arg: ValueV) -> Seq<EntriesV> {
    match p {
        PatternV::Identifier(name) => bind_frames(frames, name, arg),
        PatternV::Structured(fields) => match arg {
            ValueV::Mapping(m) => bind_fields_after(frames, fields, m),
            _ => frames,
        },
        PatternV::BoundStructural { identifier, structure } => {
            let bound = bind_frames(frames, identifier, arg);
            match arg {
                ValueV::Mapping(m) => bind_fields_after(bound, structure, m),
                _ => bound,
            }
        },
    }
}

/// Binds an argument to a pattern.
pub open spec fn bind_pattern_spec(frames: Seq<EntriesV>, p: PatternV, arg: ValueV) -> Result<Seq<EntriesV>, Seq<char>> {
    match p {
        PatternV::Identifier(name) => Ok(bind_frames(frames, name, arg)),
        PatternV::Structured(fields) => match arg {
            ValueV::Mapping(m) => bind_fields(frames, fields, m),
            _ => Err("Argument must be a map for structural binding"@),
        },
        PatternV::BoundStructural { identifier, structure } => {
            let bound = bind_frames(frames, identifier, arg);
            match arg {
                ValueV::Mapping(m) => bind_fields(bound, structure, m),
                _ => Err("Argument must be a map for structural binding"@),
            }
        },
    }
}

// ------------------------------------------------------------------
// Calls of built-in functions in the model
// ------------------------------------------------------------------

/// The outcome of calling a built-in function, and the position of the next
/// effect.
pub open spec fn call_spec(
    f: Function,
    arg: ValueV,
    store_dir: Seq<char>,
    journal: Seq<(RequestV, ResponseV)>,
    cursor: nat,
) -> (Result<ValueV, StopV>, nat) {
    match f {
        Function::LoadFile => match arg {
            ValueV::File(path, _) => {
                let req = RequestV::ReadFile(path);
                match recorded(journal, cursor, req) {
                    Some(ResponseV::Text(Ok(s))) => (Ok(ValueV::Str(s)), cursor + 1),
                    Some(ResponseV::Text(Err(e))) => (fail(msg_io_error(e)), cursor + 1),
                    _ => (Err(StopV::Needs(req)), cursor),
                }
            },
            _ => (fail("Wrong value passed - expected File."@), cursor),
        },
        Function::WriteFile => match arg {
            ValueV::Str(s) => {
                let path = store_path_of(store_dir, sha256(value_encoding(arg)));
                let req = RequestV::WriteFile(path, s);
                match recorded(journal, cursor, req) {
                    Some(ResponseV::Written(Ok(t))) => (Ok(ValueV::File(path, sha256(fs_encoding(t)))), cursor + 1),
                    Some(ResponseV::Written(Err(e))) => (fail(msg_io_error(e)), cursor + 1),
                    _ => (Err(StopV::Needs(req)), cursor),
                }
            },
            _ => (fail("Wrong value passed - expected String."@), cursor),
        },
    }
}

// ------------------------------------------------------------------
// Evaluation in the model
// ------------------------------------------------------------------

/// What stays the same during an evaluation.
pub struct Context {
    pub custom: EntriesV,
    pub builtins: EntriesV,
    pub arg: ValueV,
    pub store_dir: Seq<char>,
    pub journal: Seq<(RequestV, ResponseV)>,
}

/// The key of a value-only structure field: the identifier, or the field
/// that the expression reads.
pub open spec fn inferred_key(e: ExpressionV) -> Result<Seq<char>, Seq<char>> {
    match e {
        ExpressionV::Identifier(name) => Ok(name),
        ExpressionV::FieldGet { field, .. } => Ok(field),
        _ => Err("Cannot infer key from expression in value-only structure field"@),
    }
}

pub open spec fn binary_spec(op: BinaryOperator, l: ValueV, r: ValueV) -> Result<ValueV, StopV> {
    match op {
        BinaryOperator::PutAll => match (l, r) {
            (ValueV::Mapping(a), ValueV::Mapping(b)) => Ok(ValueV::Mapping(put_all_entries(a, b))),
            _ => fail(msg_binary(op)),
        },
        BinaryOperator::Add => match (l, r) {
            (ValueV::Integer(a), ValueV::Integer(b)) => Ok(ValueV::Integer(a.wrapping_add(b))),
            _ => fail(msg_binary(op)),
        },
        BinaryOperator::Equal => Ok(ValueV::Boolean(vequal(l, r))),
        _ => fail(msg_binary(op)),
    }
}

pub open spec fn unary_spec(op: UnaryOperator, v: ValueV) -> Result<ValueV, StopV> {
    match op {
        UnaryOperator::Not => match v {
            ValueV::Boolean(b) => Ok(ValueV::Boolean(!b)),
            _ => fail(msg_unary(op)),
        },
        UnaryOperator::Negate => match v {
            ValueV::Integer(i) => Ok(ValueV::Integer(0i64.wrapping_sub(i))),
            _ => fail(msg_unary(op)),
        },
    }
}

pub open spec fn inspect_spec(path: Seq<char>, journal: Seq<(RequestV, ResponseV)>, cursor: nat) -> (Result<ValueV, StopV>, nat) {
    let req = RequestV::Inspect(path);
    match recorded(journal, cursor, req) {
        Some(ResponseV::Inspected(t)) => (Ok(ValueV::File(path, sha256(fs_encoding(t)))), cursor + 1),
        _ => (Err(StopV::Needs(req)), cursor),
    }
}

pub open spec fn call_value_spec(
    fv: ValueV,
    av: ValueV,
    store_dir: Seq<char>,
    journal: Seq<(RequestV, ResponseV)>,
    cursor: nat,
) -> (Result<ValueV, StopV>, nat) {
    match fv {
        ValueV::Str(l) => match av {
            ValueV::Str(r) => (Ok(ValueV::Str(l + r)), cursor),
            _ => (fail("Calling a string mean concatinating it, expected the argument to be string"@), cursor),
        },
        ValueV::Function(f) => {
            let (r, c) = call_spec(f, av, store_dir, journal, cursor);
            match r {
                Ok(v) => (Ok(v), c),
                Err(StopV::Needs(q)) => (Err(StopV::Needs(q)), c),
                Err(StopV::Error(_)) => (fail("Function execution error"@), c),
            }
        },
        _ => (fail("Attempted to call a non-function"@), cursor),
    }
}

/// The outcome of evaluating an expression, and the position of the next effect.
pub open spec fn eval_spec(e: SpannedV<ExpressionV>, frames: Seq<EntriesV>, ctx: Context, cursor: nat) -> (Result<ValueV, StopV>, nat)
    decreases e,
{
    match e.node {
        ExpressionV::Boolean(b) => (Ok(ValueV::Boolean(b)), cursor),
        ExpressionV::Integer(i) => (Ok(ValueV::Integer(i)), cursor),
        ExpressionV::Float(f) => (Ok(ValueV::Float(f)), cursor),
        ExpressionV::Str(s) => (Ok(ValueV::Str(s)), cursor),
        ExpressionV::Path(p) => inspect_spec(p, ctx.journal, cursor),
        ExpressionV::Identifier(name) => match resolve_name(frames, ctx.custom, ctx.builtins, name) {
            Some(v) => (Ok(v), cursor),
            None => (fail(msg_unresolved(name)), cursor),
        },
        ExpressionV::Structure(fields) => eval_fields_spec(fields, 0, Seq::empty(), frames, ctx, cursor),
        ExpressionV::Function { pattern, body } => match bind_pattern_spec(frames.push(Seq::empty()), pattern.node, ctx.arg) {
            Err(m) => (fail(m), cursor),
            Ok(bound) => eval_spec(*body, bound, ctx, cursor),
        },
        ExpressionV::If { condition, then_branch, else_branch } => {
            let (c, c1) = eval_spec(*condition, frames, ctx, cursor);
            match c {
                Ok(ValueV::Boolean(true)) => eval_spec(*then_branch, frames, ctx, c1),
                Ok(ValueV::Boolean(false)) => eval_spec(*else_branch, frames, ctx, c1),
                Ok(_) => (fail("If condition must evaluate to a boolean"@), c1),
                Err(s) => (Err(s), c1),
            }
        },
        ExpressionV::Cases { target, branches, default } => {
            let (t, c1) = eval_spec(*target, frames, ctx, cursor);
            match t {
                Err(s) => (Err(s), c1),
                Ok(tv) => {
                    let (r, c2) = eval_cases_spec(branches, tv, frames, ctx, c1);
                    match r {
                        Some(out) => (out, c2),
                        None => match default {
                            Some(d) => eval_spec(*d, frames, ctx, c2),
                            None => (fail("No case branch matched and no default provided"@), c2),
                        },
                    }
                },
            }
        },
        ExpressionV::BinaryOp { op, lhs, rhs } => {
            let (l, c1) = eval_spec(*lhs, frames, ctx, cursor);
            match l {
                Err(s) => (Err(s), c1),
                Ok(lv) => {
                    let (r, c2) = eval_spec(*rhs, frames, ctx, c1);
                    match r {
                        Err(s) => (Err(s), c2),
                        Ok(rv) => (binary_spec(op, lv, rv), c2),
                    }
                },
            }
        },
        ExpressionV::UnaryOp { op, expr } => {
            let (v, c1) = eval_spec(*expr, frames, ctx, cursor);
            match v {
                Err(s) => (Err(s), c1),
                Ok(v) => (unary_spec(op, v), c1),
            }
        },
        ExpressionV::FieldGet { target, field } => {
            let (t, c1) = eval_spec(*target, frames, ctx, cursor);
            match t {
                Err(s) => (Err(s), c1),
                Ok(ValueV::Mapping(m)) => match lookup(m, ValueV::Str(field)) {
                    Some(v) => (Ok(v), c1),
                    None => (fail(msg_field_not_found(field)), c1),
                },
                Ok(_) => (fail("FieldGet is only supported on Maps"@), c1),
            }
        },
        ExpressionV::IndexGet { target, index } => {
            let (t, c1) = eval_spec(*target, frames, ctx, cursor);
            match t {
                Err(s) => (Err(s), c1),
                Ok(tv) => {
                    let (i, c2) = eval_spec(*index, frames, ctx, c1);
                    match i {
                        Err(s) => (Err(s), c2),
                        Ok(iv) => match tv {
                            ValueV::Mapping(m) => match lookup(m, iv) {
                                Some(v) => (Ok(v), c2),
                                None => (fail("Index not found"@), c2),
                            },
                            _ => (fail("IndexGet is only supported on Maps"@), c2),
                        },
                    }
                },
            }
        },
        ExpressionV::Call { func, arg } => {
            let (f, c1) = eval_spec(*func, frames, ctx, cursor);
            match f {
                Err(s) => (Err(s), c1),
                Ok(fv) => {
                    let (a, c2) = eval_spec(*arg, frames, ctx, c1);
                    match a {
                        Err(s) => (Err(s), c2),
                        Ok(av) => call_value_spec(fv, av, ctx.store_dir, ctx.journal, c2),
                    }
                },
            }
        },
        ExpressionV::Include(_) => (fail("Include is not directly evaluable in this context"@), cursor),
    }
}

/// Evaluates the fields of a structure from position `index` on, adding them
/// to `acc`.
pub open spec fn eval_fields_spec(
    fields: Seq<SpannedV<StructFieldV>>,
    index: int,
    acc: EntriesV,
    frames: Seq<EntriesV>,
    ctx: Context,
    cursor: nat,
) -> (Result<ValueV, StopV>, nat)
    decreases fields,
{
    if fields.len() == 0 {
        (Ok(ValueV::Mapping(acc)), cursor)
    } else {
        let rest = fields.drop_first();
        match fields[0].node {
            StructFieldV::Identifier(x) => {
                let (r, c1) = eval_spec(x, frames, ctx, cursor);
                match r {
                    Err(s) => (Err(s), c1),
                    Ok(v) => eval_fields_spec(rest, index + 1, put_entry(acc, ValueV::Integer(index as i64), v), frames, ctx, c1),
                }
            },
            StructFieldV::KeyValue(k, x) => {
                let (kr, c1) = eval_spec(k, frames, ctx, cursor);
                match kr {
                    Err(s) => (Err(s), c1),
                    Ok(kv) => {
                        let (r, c2) = eval_spec(x, frames, ctx, c1);
                        match r {
                            Err(s) => (Err(s), c2),
                            Ok(v) => eval_fields_spec(rest, index + 1, put_entry(acc, kv, v), frames, ctx, c2),
                        }
                    },
                }
            },
            StructFieldV::ValueOnly(x) => match inferred_key(x.node) {
                Err(m) => (fail(m), cursor),
                Ok(name) => {
                    let (r, c1) = eval_spec(x, frames, ctx, cursor);
                    match r {
                        Err(s) => (Err(s), c1),
                        Ok(v) => eval_fields_spec(rest, index + 1, put_entry(acc, ValueV::Str(name), v), frames, ctx, c1),
                    }
                },
            },
        }
    }
}

/// Tries the branches of a `cases` expression in order: the outcome of the
/// first whose pattern binds and whose guard holds, or `None` if none does.
pub open spec fn eval_cases_spec(
    branches: Seq<SpannedV<CaseBranchV>>,
    target: ValueV,
    frames: Seq<EntriesV>,
    ctx: Context,
    cursor: nat,
) -> (Option<Result<ValueV, StopV>>, nat)
    decreases branches,
{
    if branches.len() == 0 {
        (None, cursor)
    } else {
        let b = branches[0].node;
        let rest = branches.drop_first();
        match bind_pattern_spec(frames.push(Seq::empty()), b.pattern.node, target) {
            Err(_) => eval_cases_spec(rest, target, frames, ctx, cursor),
            Ok(bound) => match b.guard {
                None => {
                    let (r, c1) = eval_spec(*b.body, bound, ctx, cursor);
                    (Some(r), c1)
                },
                Some(g) => {
                    let (gr, c1) = eval_spec(*g, bound, ctx, cursor);
                    match gr {
                        Err(s) => (Some(Err(s)), c1),
                        Ok(gv) => if gv == ValueV::Boolean(true) {
                            let (r, c2) = eval_spec(*b.body, bound, ctx, c1);
                            (Some(r), c2)
                        } else {
                            eval_cases_spec(rest, target, frames, ctx, c1)
                        },
                    }
                },
            },
        }
    }
}


// ------------------------------------------------------------------
// Environments
// ------------------------------------------------------------------

/// The environment manages the stack of variable bindings.
pub struct Environment<'a> {
    builtins: &'a Mapping,
    custom: &'a Mapping,
    frames: Vec<Mapping>,
}

pub open spec fn frames_view(frames: Seq<Mapping>) -> Seq<EntriesV> {
    frames.map_values(|m: Mapping| m@)
}

impl<'a> Environment<'a> {
    /// The bindings of each frame, outermost first.
    pub closed spec fn spec_frames(&self) -> Seq<EntriesV> {
        frames_view(self.frames@)
    }

    pub closed spec fn spec_custom(&self) -> EntriesV {
        self.custom@
    }

    pub closed spec fn spec_builtins(&self) -> EntriesV {
        self.builtins@
    }

    /// The custom definitions and built-ins of two environments agree.
    pub open spec fn same_definitions(&self, other: &Environment) -> bool {
        self.spec_custom() == other.spec_custom() && self.spec_builtins() == other.spec_builtins()
    }

    /// An environment with one empty frame.
    pub fn new(builtins: &'a Mapping, custom: &'a Mapping) -> (r: Self)
        ensures
            r.spec_frames() == seq![Seq::<(ValueV, ValueV)>::empty()],
            r.spec_custom() == custom@,
            r.spec_builtins() == builtins@,
    {
        let frames = vec![Mapping::new()];
        let r = Self { builtins, custom, frames };
        assert(r.spec_frames() =~= seq![Seq::<(ValueV, ValueV)>::empty()]);
        r
    }

    /// Adds an empty innermost frame.
    pub fn push_frame(&mut self)
        ensures
            final(self).spec_frames() == old(self).spec_frames().push(Seq::empty()),
            final(self).same_definitions(old(self)),
    {
        self.frames.push(Mapping::new());
        assert(self.spec_frames() =~= old(self).spec_frames().push(Seq::empty()));
    }

    /// Removes the innermost frame, if there is one.
    pub fn pop_frame(&mut self)
        ensures
            final(self).spec_frames() == if old(self).spec_frames().len() > 0 {
                old(self).spec_frames().drop_last()
            } else {
                old(self).spec_frames()
            },
            final(self).same_definitions(old(self)),
    {
        self.frames.pop();
        assert(self.spec_frames() =~= if old(self).spec_frames().len() > 0 {
            old(self).spec_frames().drop_last()
        } else {
            old(self).spec_frames()
        });
    }

    /// Binds `name` to `value` in the innermost frame, if there is one.
    pub fn bind(&mut self, name: String, value: Value)
        ensures
            final(self).spec_frames() == bind_frames(old(self).spec_frames(), name@, value@),
            final(self).same_definitions(old(self)),
    {
        if let Some(frame) = self.frames.pop() {
            let key = Value::String(name);
            self.frames.push(frame.put(key, value));
        }
        assert(self.spec_frames() =~= bind_frames(old(self).spec_frames(), name@, value@));
    }

    /// The value of `name`: from the innermost frame that binds it, else from
    /// the custom definitions, else from the built-ins.
    pub fn resolve(&self, name: &str) -> (r: Option<Value>)
        ensures
            match resolve_name(self.spec_frames(), self.spec_custom(), self.spec_builtins(), name@) {
                Some(v) => r is Some && r.unwrap()@ == v,
                None => r is None,
            },
    {
        let key = Value::String(name.to_owned());
        let ghost frames = self.spec_frames();
        let mut i: usize = self.frames.len();
        assert(frames.take(i as int) =~= frames);
        while i > 0
            invariant
                i <= self.frames@.len(),
                frames == self.spec_frames(),
                key@ == ValueV::Str(name@),
                resolve_in_frames(frames, key@) == resolve_in_frames(frames.take(i as int), key@),
            decreases i,
        {
            if let Some(val) = self.frames[i - 1].get(&key) {
                return Some(val.clone());
            }
            assert(frames.take(i as int).drop_last() =~= frames.take(i - 1));
            i = i - 1;
        }
        if let Some(val) = self.custom.get(&key) {
            return Some(val.clone());
        }
        if let Some(val) = self.builtins.get(&key) {
            return Some(val.clone());
        }
        None
    }
}

// ------------------------------------------------------------------
// Laws of environments
// ------------------------------------------------------------------

/// Law: after binding `name` to `v` where there is a frame, the name
/// resolves to `v`.
pub proof fn law_resolve_after_bind(frames: Seq<EntriesV>, custom: EntriesV, builtins: EntriesV, name: Seq<char>, v: ValueV)
    requires
        frames.len() > 0,
    ensures
        resolve_name(bind_frames(frames, name, v), custom, builtins, name) == Some(v),
{
    let f = bind_frames(frames, name, v);
    law_lookup_put_same(frames.last(), ValueV::Str(name), v);
    assert(f.last() == put_entry(frames.last(), ValueV::Str(name), v));
}

/// Law: binding one name leaves what every other name resolves to.
pub proof fn law_resolve_other_after_bind(
    frames: Seq<EntriesV>,
    custom: EntriesV,
    builtins: EntriesV,
    name: Seq<char>,
    v: ValueV,
    other: Seq<char>,
)
    requires
        name != other,
    ensures
        resolve_name(bind_frames(frames, name, v), custom, builtins, other) == resolve_name(
            frames,
            custom,
            builtins,
            other,
        ),
{
    if frames.len() > 0 {
        let f = bind_frames(frames, name, v);
        assert(!vequal(ValueV::Str(name), ValueV::Str(other))) by {
            lemma_vequal_str(name, other);
        }
        law_lookup_put_other(frames.last(), ValueV::Str(name), v, ValueV::Str(other));
        assert(f.drop_last() =~= frames.drop_last());
    }
}

/// Law: a frame pushed and then popped leaves the frames as they were, with
/// whatever was bound in it gone.
pub proof fn law_pop_undoes_push(frames: Seq<EntriesV>, name: Seq<char>, v: ValueV)
    ensures
        frames.push(Seq::empty()).drop_last() == frames,
        bind_frames(frames.push(Seq::empty()), name, v).drop_last() == frames,
{
    assert(frames.push(Seq::empty()).drop_last() =~= frames);
    assert(bind_frames(frames.push(Seq::empty()), name, v).drop_last() =~= frames);
}

/// The frames after binding each name to its value, in order.
pub open spec fn bind_all(frames: Seq<EntriesV>, bindings: Seq<(Seq<char>, ValueV)>) -> Seq<EntriesV>
    decreases bindings.len(),
{
    if bindings.len() == 0 {
        frames
    } else {
        bind_frames(bind_all(frames, bindings.drop_last()), bindings.last().0, bindings.last().1)
    }
}

/// Law: removing a frame undoes pushing it and any number of bindings made
/// after: every name resolves as before.
pub proof fn law_pop_undoes_bindings(
    frames: Seq<EntriesV>,
    custom: EntriesV,
    builtins: EntriesV,
    bindings: Seq<(Seq<char>, ValueV)>,
    name: Seq<char>,
)
    ensures
        bind_all(frames.push(Seq::empty()), bindings).len() == frames.len() + 1,
        bind_all(frames.push(Seq::empty()), bindings).drop_last() == frames,
        resolve_name(bind_all(frames.push(Seq::empty()), bindings).drop_last(), custom, builtins, name)
            == resolve_name(frames, custom, builtins, name),
    decreases bindings.len(),
{
    if bindings.len() == 0 {
        assert(frames.push(Seq::empty()).drop_last() =~= frames);
    } else {
        law_pop_undoes_bindings(frames, custom, builtins, bindings.drop_last(), name);
        let before = bind_all(frames.push(Seq::empty()), bindings.drop_last());
        lemma_bind_frames_below_top(before, bindings.last().0, bindings.last().1);
    }
}

/// Law: a key resolves in the frames to its value in the innermost frame
/// that holds it, and to nothing when no frame holds it.
pub proof fn law_resolve_in_frames(frames: Seq<EntriesV>, key: ValueV, i: int)
    ensures
        0 <= i < frames.len() && lookup(frames[i], key) is Some && (forall|j: int|
            i < j < frames.len() ==> lookup(#[trigger] frames[j], key) is None) ==> resolve_in_frames(frames, key)
            == lookup(frames[i], key),
        (forall|j: int| 0 <= j < frames.len() ==> lookup(#[trigger] frames[j], key) is None) ==> resolve_in_frames(
            frames,
            key,
        ) is None,
    decreases frames.len(),
{
    if frames.len() > 0 {
        let last = frames.len() - 1;
        law_resolve_in_frames(frames.drop_last(), key, i);
        if 0 <= i < frames.len() && lookup(frames[i], key) is Some && (forall|j: int|
            i < j < frames.len() ==> lookup(#[trigger] frames[j], key) is None) {
            if i < last {
                assert(lookup(frames[last], key) is None);
                assert forall|j: int| i < j < frames.drop_last().len() implies lookup(
                    #[trigger] frames.drop_last()[j],
                    key,
                ) is None by {
                    assert(frames.drop_last()[j] == frames[j]);
                }
                assert(frames.drop_last()[i] == frames[i]);
            }
        }
        if forall|j: int| 0 <= j < frames.len() ==> lookup(#[trigger] frames[j], key) is None {
            assert(lookup(frames[last], key) is None);
            assert forall|j: int| 0 <= j < frames.drop_last().len() implies lookup(
                #[trigger] frames.drop_last()[j],
                key,
            ) is None by {
                assert(frames.drop_last()[j] == frames[j]);
            }
        }
    }
}

/// Binding other names leaves what the innermost frame holds for `name`.
proof fn lemma_bind_all_other(frames: Seq<EntriesV>, bindings: Seq<(Seq<char>, ValueV)>, name: Seq<char>)
    requires
        frames.len() > 0,
        forall|i: int| 0 <= i < bindings.len() ==> (#[trigger] bindings[i]).0 != name,
    ensures
        bind_all(frames, bindings).len() == frames.len(),
        bind_all(frames, bindings).drop_last() == frames.drop_last(),
        lookup(bind_all(frames, bindings).last(), ValueV::Str(name)) == lookup(frames.last(), ValueV::Str(name)),
    decreases bindings.len(),
{
    if bindings.len() > 0 {
        let rest = bindings.drop_last();
        assert forall|i: int| 0 <= i < rest.len() implies (#[trigger] rest[i]).0 != name by {
            assert(rest[i] == bindings[i]);
        }
        lemma_bind_all_other(frames, rest, name);
        let before = bind_all(frames, rest);
        let (n, v) = bindings.last();
        assert(n != name);
        lemma_vequal_str(n, name);
        law_lookup_put_other(before.last(), ValueV::Str(n), v, ValueV::Str(name));
        assert(bind_all(frames, bindings).drop_last() =~= before.drop_last());
    }
}

/// Law: a name bound in an outer frame stays visible inside a frame pushed
/// after it, whatever other names are bound there.
pub proof fn law_outer_binding_visible(
    frames: Seq<EntriesV>,
    custom: EntriesV,
    builtins: EntriesV,
    name: Seq<char>,
    v: ValueV,
    bindings: Seq<(Seq<char>, ValueV)>,
)
    requires
        frames.len() > 0,
        forall|i: int| 0 <= i < bindings.len() ==> (#[trigger] bindings[i]).0 != name,
    ensures
        resolve_name(bind_all(bind_frames(frames, name, v).push(Seq::empty()), bindings), custom, builtins, name)
            == Some(v),
{
    let outer = bind_frames(frames, name, v);
    let inner = outer.push(Seq::empty());
    lemma_bind_all_other(inner, bindings, name);
    let all = bind_all(inner, bindings);
    assert(inner.drop_last() =~= outer);
    law_lookup_put_same(frames.last(), ValueV::Str(name), v);
    assert(outer.last() == put_entry(frames.last(), ValueV::Str(name), v));
    assert(resolve_in_frames(outer, ValueV::Str(name)) == Some(v));
    assert(lookup(all.last(), ValueV::Str(name)) is None);
    assert(resolve_in_frames(all, ValueV::Str(name)) == resolve_in_frames(all.drop_last(), ValueV::Str(name)));
}

/// Law: `==` answers whether two values are equal: it is symmetric, every
/// value equals itself, and two integers, floats, texts or booleans are equal
/// exactly when they are the same.
pub proof fn law_equal_operator(l: ValueV, r: ValueV)
    ensures
        binary_spec(BinaryOperator::Equal, l, r) == Ok::<ValueV, StopV>(ValueV::Boolean(vequal(l, r))),
        binary_spec(BinaryOperator::Equal, l, r) == binary_spec(BinaryOperator::Equal, r, l),
        binary_spec(BinaryOperator::Equal, l, l) == Ok::<ValueV, StopV>(ValueV::Boolean(true)),
        (l, r) matches (ValueV::Integer(x), ValueV::Integer(y)) ==> binary_spec(BinaryOperator::Equal, l, r)
            == Ok::<ValueV, StopV>(ValueV::Boolean(x == y)),
        (l, r) matches (ValueV::Float(x), ValueV::Float(y)) ==> binary_spec(BinaryOperator::Equal, l, r)
            == Ok::<ValueV, StopV>(ValueV::Boolean(x == y)),
        (l, r) matches (ValueV::Str(x), ValueV::Str(y)) ==> binary_spec(BinaryOperator::Equal, l, r)
            == Ok::<ValueV, StopV>(ValueV::Boolean(x == y)),
        (l, r) matches (ValueV::Boolean(x), ValueV::Boolean(y)) ==> binary_spec(BinaryOperator::Equal, l, r)
            == Ok::<ValueV, StopV>(ValueV::Boolean(x == y)),
{
    lemma_vorder_antisym(l, r);
    lemma_vorder_refl(l);
    match (l, r) {
        (ValueV::Str(x), ValueV::Str(y)) => lemma_vequal_str(x, y),
        _ => {},
    }
}

/// Law: evaluating `a == b` for two integer literals gives whether they are
/// the same number.
pub proof fn law_equal_integers(
    a: i64,
    b: i64,
    lspan: SpanV,
    rspan: SpanV,
    span: SpanV,
    frames: Seq<EntriesV>,
    ctx: Context,
    cursor: nat,
)
    ensures
        eval_spec(
            SpannedV {
                node: ExpressionV::BinaryOp {
                    op: BinaryOperator::Equal,
                    lhs: Box::new(SpannedV { node: ExpressionV::Integer(a), span: lspan }),
                    rhs: Box::new(SpannedV { node: ExpressionV::Integer(b), span: rspan }),
                },
                span,
            },
            frames,
            ctx,
            cursor,
        ) == (Ok::<ValueV, StopV>(ValueV::Boolean(a == b)), cursor),
{
    law_equal_operator(ValueV::Integer(a), ValueV::Integer(b));
    let lhs = SpannedV { node: ExpressionV::Integer(a), span: lspan };
    let rhs = SpannedV { node: ExpressionV::Integer(b), span: rspan };
    assert(eval_spec(lhs, frames, ctx, cursor) == (Ok::<ValueV, StopV>(ValueV::Integer(a)), cursor));
    assert(eval_spec(rhs, frames, ctx, cursor) == (Ok::<ValueV, StopV>(ValueV::Integer(b)), cursor));
}

/// Law: a function whose pattern is a name, and whose body is that name,
/// gives the program's argument.
pub proof fn law_identity_function(
    name: Seq<char>,
    pspan: SpanV,
    bspan: SpanV,
    span: SpanV,
    frames: Seq<EntriesV>,
    ctx: Context,
    cursor: nat,
)
    ensures
        eval_spec(
            SpannedV {
                node: ExpressionV::Function {
                    pattern: SpannedV { node: PatternV::Identifier(name), span: pspan },
                    body: Box::new(SpannedV { node: ExpressionV::Identifier(name), span: bspan }),
                },
                span,
            },
            frames,
            ctx,
            cursor,
        ) == (Ok::<ValueV, StopV>(ctx.arg), cursor),
{
    let inner = frames.push(Seq::empty());
    law_resolve_after_bind(inner, ctx.custom, ctx.builtins, name, ctx.arg);
    let body = SpannedV { node: ExpressionV::Identifier(name), span: bspan };
    assert(eval_spec(body, bind_frames(inner, name, ctx.arg), ctx, cursor) == (Ok::<ValueV, StopV>(ctx.arg), cursor));
}

/// Law: a function with the pattern `{name}` gives the value that the
/// argument, a mapping, holds under `name`.
pub proof fn law_field_pattern(
    name: Seq<char>,
    fspan: SpanV,
    pspan: SpanV,
    bspan: SpanV,
    span: SpanV,
    frames: Seq<EntriesV>,
    ctx: Context,
    cursor: nat,
    m: EntriesV,
    v: ValueV,
)
    requires
        ctx.arg == ValueV::Mapping(m),
        lookup(m, ValueV::Str(name)) == Some(v),
    ensures
        eval_spec(
            SpannedV {
                node: ExpressionV::Function {
                    pattern: SpannedV {
                        node: PatternV::Structured(seq![SpannedV { node: PatternFieldV::Identifier(name), span: fspan }]),
                        span: pspan,
                    },
                    body: Box::new(SpannedV { node: ExpressionV::Identifier(name), span: bspan }),
                },
                span,
            },
            frames,
            ctx,
            cursor,
        ) == (Ok::<ValueV, StopV>(v), cursor),
{
    let fs = seq![SpannedV { node: PatternFieldV::Identifier(name), span: fspan }];
    let inner = frames.push(Seq::empty());
    let bound = bind_frames(inner, name, v);
    assert(fs.drop_first() =~= Seq::<SpannedV<PatternFieldV>>::empty());
    assert(bind_field(inner, fs[0].node, m) == Ok::<Seq<EntriesV>, Seq<char>>(bound));
    assert(bind_fields(bound, fs.drop_first(), m) == Ok::<Seq<EntriesV>, Seq<char>>(bound));
    assert(bind_fields(inner, fs, m) == Ok::<Seq<EntriesV>, Seq<char>>(bound));
    law_resolve_after_bind(inner, ctx.custom, ctx.builtins, name, v);
    let body = SpannedV { node: ExpressionV::Identifier(name), span: bspan };
    assert(eval_spec(body, bound, ctx, cursor) == (Ok::<ValueV, StopV>(v), cursor));
}

/// Law: the file written for a text sits at the store path of the text's
/// hash, whatever the journal holds: the same text always goes to the same
/// path, however it was computed.
pub proof fn law_written_path(s: Seq<char>, store_dir: Seq<char>, journal: Seq<(RequestV, ResponseV)>, cursor: nat)
    ensures
        ({
            let path = store_path_of(store_dir, sha256(value_encoding(ValueV::Str(s))));
            match call_spec(Function::WriteFile, ValueV::Str(s), store_dir, journal, cursor).0 {
                Ok(ValueV::File(p, _)) => p == path,
                Err(StopV::Needs(RequestV::WriteFile(p, c))) => p == path && c == s,
                Err(StopV::Error(_)) => true,
                _ => false,
            }
        }),
{
}

// ------------------------------------------------------------------
// Recording more outcomes does not change a finished evaluation
// ------------------------------------------------------------------

/// `longer` holds the outcomes of `journal` first.
pub open spec fn journal_extends(journal: Seq<(RequestV, ResponseV)>, longer: Seq<(RequestV, ResponseV)>) -> bool {
    journal.len() <= longer.len() && longer.subrange(0, journal.len() as int) == journal
}

/// The same context with a longer journal.
pub open spec fn context_extends(ctx: Context, longer: Context) -> bool {
    &&& longer.custom == ctx.custom
    &&& longer.builtins == ctx.builtins
    &&& longer.arg == ctx.arg
    &&& longer.store_dir == ctx.store_dir
    &&& journal_extends(ctx.journal, longer.journal)
}

/// The outcome does not ask for an effect.
pub open spec fn finished(r: Result<ValueV, StopV>) -> bool {
    !(r matches Err(StopV::Needs(_)))
}

proof fn lemma_recorded_extends(journal: Seq<(RequestV, ResponseV)>, longer: Seq<(RequestV, ResponseV)>, cursor: nat, q: RequestV)
    requires
        journal_extends(journal, longer),
        recorded(journal, cursor, q) is Some,
    ensures
        recorded(longer, cursor, q) == recorded(journal, cursor, q),
{
    assert(longer[cursor as int] == longer.subrange(0, journal.len() as int)[cursor as int]);
}

proof fn lemma_call_value_extends(
    fv: ValueV,
    av: ValueV,
    store_dir: Seq<char>,
    journal: Seq<(RequestV, ResponseV)>,
    longer: Seq<(RequestV, ResponseV)>,
    cursor: nat,
)
    requires
        journal_extends(journal, longer),
        finished(call_value_spec(fv, av, store_dir, journal, cursor).0),
    ensures
        call_value_spec(fv, av, store_dir, longer, cursor) == call_value_spec(fv, av, store_dir, journal, cursor),
{
    match fv {
        ValueV::Function(Function::LoadFile) => match av {
            ValueV::File(path, _) => lemma_recorded_extends(journal, longer, cursor, RequestV::ReadFile(path)),
            _ => {},
        },
        ValueV::Function(Function::WriteFile) => match av {
            ValueV::Str(t) => lemma_recorded_extends(
                journal,
                longer,
                cursor,
                RequestV::WriteFile(store_path_of(store_dir, sha256(value_encoding(av))), t),
            ),
            _ => {},
        },
        _ => {},
    }
}

proof fn lemma_eval_extends(e: SpannedV<ExpressionV>, frames: Seq<EntriesV>, ctx: Context, longer: Context, cursor: nat)
    requires
        context_extends(ctx, longer),
        finished(eval_spec(e, frames, ctx, cursor).0),
    ensures
        eval_spec(e, frames, longer, cursor) == eval_spec(e, frames, ctx, cursor),
    decreases e,
{
    match e.node {
        ExpressionV::Path(p) => {
            lemma_recorded_extends(ctx.journal, longer.journal, cursor, RequestV::Inspect(p));
        },
        ExpressionV::Structure(fields) => {
            lemma_fields_extends(fields, 0, Seq::empty(), frames, ctx, longer, cursor);
        },
        ExpressionV::Function { pattern, body } => {
            match bind_pattern_spec(frames.push(Seq::empty()), pattern.node, ctx.arg) {
                Err(_) => {},
                Ok(bound) => lemma_eval_extends(*body, bound, ctx, longer, cursor),
            }
        },
        ExpressionV::If { condition, then_branch, else_branch } => {
            let (c, c1) = eval_spec(*condition, frames, ctx, cursor);
            if finished(c) {
                lemma_eval_extends(*condition, frames, ctx, longer, cursor);
                match c {
                    Ok(ValueV::Boolean(true)) => lemma_eval_extends(*then_branch, frames, ctx, longer, c1),
                    Ok(ValueV::Boolean(false)) => lemma_eval_extends(*else_branch, frames, ctx, longer, c1),
                    _ => {},
                }
            }
        },
        ExpressionV::Cases { target, branches, default } => {
            let (t, c1) = eval_spec(*target, frames, ctx, cursor);
            if finished(t) {
                lemma_eval_extends(*target, frames, ctx, longer, cursor);
                match t {
                    Ok(tv) => {
                        let (r, c2) = eval_cases_spec(branches, tv, frames, ctx, c1);
                        lemma_cases_extends(branches, tv, frames, ctx, longer, c1);
                        match r {
                            None => match default {
                                Some(d) => lemma_eval_extends(*d, frames, ctx, longer, c2),
                                None => {},
                            },
                            Some(_) => {},
                        }
                    },
                    Err(_) => {},
                }
            }
        },
        ExpressionV::BinaryOp { op, lhs, rhs } => {
            let (l, c1) = eval_spec(*lhs, frames, ctx, cursor);
            if finished(l) {
                lemma_eval_extends(*lhs, frames, ctx, longer, cursor);
                if l is Ok {
                    lemma_eval_extends(*rhs, frames, ctx, longer, c1);
                }
            }
        },
        ExpressionV::UnaryOp { op, expr } => {
            lemma_eval_extends(*expr, frames, ctx, longer, cursor);
        },
        ExpressionV::FieldGet { target, field } => {
            lemma_eval_extends(*target, frames, ctx, longer, cursor);
        },
        ExpressionV::IndexGet { target, index } => {
            let (t, c1) = eval_spec(*target, frames, ctx, cursor);
            if finished(t) {
                lemma_eval_extends(*target, frames, ctx, longer, cursor);
                if t is Ok {
                    lemma_eval_extends(*index, frames, ctx, longer, c1);
                }
            }
        },
        ExpressionV::Call { func, arg } => {
            let (f, c1) = eval_spec(*func, frames, ctx, cursor);
            if finished(f) {
                lemma_eval_extends(*func, frames, ctx, longer, cursor);
                match f {
                    Ok(fv) => {
                        let (a, c2) = eval_spec(*arg, frames, ctx, c1);
                        if finished(a) {
                            lemma_eval_extends(*arg, frames, ctx, longer, c1);
                            match a {
                                Ok(av) => lemma_call_value_extends(fv, av, ctx.store_dir, ctx.journal, longer.journal, c2),
                                Err(_) => {},
                            }
                        }
                    },
                    Err(_) => {},
                }
            }
        },
        _ => {},
    }
}

proof fn lemma_fields_extends(
    fields: Seq<SpannedV<StructFieldV>>,
    index: int,
    acc: EntriesV,
    frames: Seq<EntriesV>,
    ctx: Context,
    longer: Context,
    cursor: nat,
)
    requires
        context_extends(ctx, longer),
        finished(eval_fields_spec(fields, index, acc, frames, ctx, cursor).0),
    ensures
        eval_fields_spec(fields, index, acc, frames, longer, cursor) == eval_fields_spec(fields, index, acc, frames, ctx, cursor),
    decreases fields,
{
    if fields.len() > 0 {
        let rest = fields.drop_first();
        match fields[0].node {
            StructFieldV::Identifier(x) => {
                let (r, c1) = eval_spec(x, frames, ctx, cursor);
                if finished(r) {
                    lemma_eval_extends(x, frames, ctx, longer, cursor);
                    match r {
                        Ok(v) => lemma_fields_extends(rest, index + 1, put_entry(acc, ValueV::Integer(index as i64), v), frames, ctx, longer, c1),
                        Err(_) => {},
                    }
                }
            },
            StructFieldV::KeyValue(k, x) => {
                let (kr, c1) = eval_spec(k, frames, ctx, cursor);
                if finished(kr) {
                    lemma_eval_extends(k, frames, ctx, longer, cursor);
                    match kr {
                        Ok(kv) => {
                            let (r, c2) = eval_spec(x, frames, ctx, c1);
                            if finished(r) {
                                lemma_eval_extends(x, frames, ctx, longer, c1);
                                match r {
                                    Ok(v) => lemma_fields_extends(rest, index + 1, put_entry(acc, kv, v), frames, ctx, longer, c2),
                                    Err(_) => {},
                                }
                            }
                        },
                        Err(_) => {},
                    }
                }
            },
            StructFieldV::ValueOnly(x) => match inferred_key(x.node) {
                Err(_) => {},
                Ok(name) => {
                    let (r, c1) = eval_spec(x, frames, ctx, cursor);
                    if finished(r) {
                        lemma_eval_extends(x, frames, ctx, longer, cursor);
                        match r {
                            Ok(v) => lemma_fields_extends(rest, index + 1, put_entry(acc, ValueV::Str(name), v), frames, ctx, longer, c1),
                            Err(_) => {},
                        }
                    }
                },
            },
        }
    }
}

/// Whether the outcome of trying the branches does not ask for an effect.
pub open spec fn cases_finished(r: Option<Result<ValueV, StopV>>) -> bool {
    match r {
        Some(x) => finished(x),
        None => true,
    }
}

proof fn lemma_cases_extends(
    branches: Seq<SpannedV<CaseBranchV>>,
    target: ValueV,
    frames: Seq<EntriesV>,
    ctx: Context,
    longer: Context,
    cursor: nat,
)
    requires
        context_extends(ctx, longer),
        cases_finished(eval_cases_spec(branches, target, frames, ctx, cursor).0),
    ensures
        eval_cases_spec(branches, target, frames, longer, cursor) == eval_cases_spec(branches, target, frames, ctx, cursor),
    decreases branches,
{
    if branches.len() > 0 {
        let b = branches[0].node;
        let rest = branches.drop_first();
        match bind_pattern_spec(frames.push(Seq::empty()), b.pattern.node, target) {
            Err(_) => lemma_cases_extends(rest, target, frames, ctx, longer, cursor),
            Ok(bound) => match b.guard {
                None => lemma_eval_extends(*b.body, bound, ctx, longer, cursor),
                Some(g) => {
                    let (gr, c1) = eval_spec(*g, bound, ctx, cursor);
                    if finished(gr) {
                        lemma_eval_extends(*g, bound, ctx, longer, cursor);
                        match gr {
                            Ok(gv) => if gv == ValueV::Boolean(true) {
                                lemma_eval_extends(*b.body, bound, ctx, longer, c1);
                            } else {
                                lemma_cases_extends(rest, target, frames, ctx, longer, c1);
                            },
                            Err(_) => {},
                        }
                    }
                },
            },
        }
    }
}

// ------------------------------------------------------------------
// Where an evaluation stops in the journal
// ------------------------------------------------------------------

/// Where an evaluation ends in the journal: no earlier than it started,
/// within the journal, and, if it stopped for an effect, where the journal
/// does not answer it.
pub open spec fn run_facts(r: Result<ValueV, StopV>, c: nat, journal: Seq<(RequestV, ResponseV)>, cursor: nat) -> bool {
    &&& cursor <= c
    &&& cursor <= journal.len() ==> c <= journal.len()
    &&& (r matches Err(StopV::Needs(q)) ==> !answered_at(journal, c, q))
}

proof fn lemma_call_value_run(fv: ValueV, av: ValueV, store_dir: Seq<char>, journal: Seq<(RequestV, ResponseV)>, cursor: nat)
    ensures
        run_facts(call_value_spec(fv, av, store_dir, journal, cursor).0, call_value_spec(fv, av, store_dir, journal, cursor).1, journal, cursor),
{
}

proof fn lemma_eval_run(e: SpannedV<ExpressionV>, frames: Seq<EntriesV>, ctx: Context, cursor: nat)
    ensures
        run_facts(eval_spec(e, frames, ctx, cursor).0, eval_spec(e, frames, ctx, cursor).1, ctx.journal, cursor),
    decreases e,
{
    match e.node {
        ExpressionV::Structure(fields) => {
            lemma_fields_run(fields, 0, Seq::empty(), frames, ctx, cursor);
        },
        ExpressionV::Function { pattern, body } => {
            match bind_pattern_spec(frames.push(Seq::empty()), pattern.node, ctx.arg) {
                Err(_) => {},
                Ok(bound) => lemma_eval_run(*body, bound, ctx, cursor),
            }
        },
        ExpressionV::If { condition, then_branch, else_branch } => {
            let (c, c1) = eval_spec(*condition, frames, ctx, cursor);
            lemma_eval_run(*condition, frames, ctx, cursor);
            lemma_eval_run(*then_branch, frames, ctx, c1);
            lemma_eval_run(*else_branch, frames, ctx, c1);
        },
        ExpressionV::Cases { target, branches, default } => {
            let (t, c1) = eval_spec(*target, frames, ctx, cursor);
            lemma_eval_run(*target, frames, ctx, cursor);
            match t {
                Ok(tv) => {
                    let (r, c2) = eval_cases_spec(branches, tv, frames, ctx, c1);
                    lemma_cases_run(branches, tv, frames, ctx, c1);
                    match default {
                        Some(d) => lemma_eval_run(*d, frames, ctx, c2),
                        None => {},
                    }
                },
                Err(_) => {},
            }
        },
        ExpressionV::BinaryOp { op, lhs, rhs } => {
            let (l, c1) = eval_spec(*lhs, frames, ctx, cursor);
            lemma_eval_run(*lhs, frames, ctx, cursor);
            lemma_eval_run(*rhs, frames, ctx, c1);
        },
        ExpressionV::UnaryOp { op, expr } => {
            lemma_eval_run(*expr, frames, ctx, cursor);
        },
        ExpressionV::FieldGet { target, field } => {
            lemma_eval_run(*target, frames, ctx, cursor);
        },
        ExpressionV::IndexGet { target, index } => {
            let (t, c1) = eval_spec(*target, frames, ctx, cursor);
            lemma_eval_run(*target, frames, ctx, cursor);
            lemma_eval_run(*index, frames, ctx, c1);
        },
        ExpressionV::Call { func, arg } => {
            let (f, c1) = eval_spec(*func, frames, ctx, cursor);
            lemma_eval_run(*func, frames, ctx, cursor);
            let (a, c2) = eval_spec(*arg, frames, ctx, c1);
            lemma_eval_run(*arg, frames, ctx, c1);
            match (f, a) {
                (Ok(fv), Ok(av)) => lemma_call_value_run(fv, av, ctx.store_dir, ctx.journal, c2),
                _ => {},
            }
        },
        _ => {},
    }
}

proof fn lemma_fields_run(
    fields: Seq<SpannedV<StructFieldV>>,
    index: int,
    acc: EntriesV,
    frames: Seq<EntriesV>,
    ctx: Context,
    cursor: nat,
)
    ensures
        run_facts(
            eval_fields_spec(fields, index, acc, frames, ctx, cursor).0,
            eval_fields_spec(fields, index, acc, frames, ctx, cursor).1,
            ctx.journal,
            cursor,
        ),
    decreases fields,
{
    if fields.len() > 0 {
        let rest = fields.drop_first();
        match fields[0].node {
            StructFieldV::Identifier(x) => {
                let (r, c1) = eval_spec(x, frames, ctx, cursor);
                lemma_eval_run(x, frames, ctx, cursor);
                match r {
                    Ok(v) => lemma_fields_run(rest, index + 1, put_entry(acc, ValueV::Integer(index as i64), v), frames, ctx, c1),
                    Err(_) => {},
                }
            },
            StructFieldV::KeyValue(k, x) => {
                let (kr, c1) = eval_spec(k, frames, ctx, cursor);
                lemma_eval_run(k, frames, ctx, cursor);
                match kr {
                    Ok(kv) => {
                        let (r, c2) = eval_spec(x, frames, ctx, c1);
                        lemma_eval_run(x, frames, ctx, c1);
                        match r {
                            Ok(v) => lemma_fields_run(rest, index + 1, put_entry(acc, kv, v), frames, ctx, c2),
                            Err(_) => {},
                        }
                    },
                    Err(_) => {},
                }
            },
            StructFieldV::ValueOnly(x) => match inferred_key(x.node) {
                Err(_) => {},
                Ok(name) => {
                    let (r, c1) = eval_spec(x, frames, ctx, cursor);
                    lemma_eval_run(x, frames, ctx, cursor);
                    match r {
                        Ok(v) => lemma_fields_run(rest, index + 1, put_entry(acc, ValueV::Str(name), v), frames, ctx, c1),
                        Err(_) => {},
                    }
                },
            },
        }
    }
}

/// What the run facts say of trying the branches of a `cases` expression.
pub open spec fn cases_run_facts(r: Option<Result<ValueV, StopV>>, c: nat, journal: Seq<(RequestV, ResponseV)>, cursor: nat) -> bool {
    match r {
        Some(x) => run_facts(x, c, journal, cursor),
        None => run_facts(Ok(ValueV::Boolean(false)), c, journal, cursor),
    }
}

proof fn lemma_cases_run(
    branches: Seq<SpannedV<CaseBranchV>>,
    target: ValueV,
    frames: Seq<EntriesV>,
    ctx: Context,
    cursor: nat,
)
    ensures
        cases_run_facts(
            eval_cases_spec(branches, target, frames, ctx, cursor).0,
            eval_cases_spec(branches, target, frames, ctx, cursor).1,
            ctx.journal,
            cursor,
        ),
    decreases branches,
{
    if branches.len() > 0 {
        let b = branches[0].node;
        let rest = branches.drop_first();
        match bind_pattern_spec(frames.push(Seq::empty()), b.pattern.node, target) {
            Err(_) => lemma_cases_run(rest, target, frames, ctx, cursor),
            Ok(bound) => match b.guard {
                None => lemma_eval_run(*b.body, bound, ctx, cursor),
                Some(g) => {
                    let (gr, c1) = eval_spec(*g, bound, ctx, cursor);
                    lemma_eval_run(*g, bound, ctx, cursor);
                    lemma_eval_run(*b.body, bound, ctx, c1);
                    lemma_cases_run(rest, target, frames, ctx, c1);
                },
            },
        }
    }
}

/// The same context with another journal.
pub open spec fn with_journal(ctx: Context, journal: Seq<(RequestV, ResponseV)>) -> Context {
    Context { journal, ..ctx }
}

proof fn lemma_recorded_prefix(journal: Seq<(RequestV, ResponseV)>, m: nat, cursor: nat, q: RequestV)
    requires
        m <= journal.len(),
        cursor < m,
    ensures
        recorded(journal.take(m as int), cursor, q) == recorded(journal, cursor, q),
{
}

proof fn lemma_call_value_prefix(
    fv: ValueV,
    av: ValueV,
    store_dir: Seq<char>,
    journal: Seq<(RequestV, ResponseV)>,
    cursor: nat,
    m: nat,
)
    requires
        m <= journal.len(),
        call_value_spec(fv, av, store_dir, journal, cursor).1 <= m,
    ensures
        call_value_spec(fv, av, store_dir, journal.take(m as int), cursor) == call_value_spec(fv, av, store_dir, journal, cursor),
{
    let short = journal.take(m as int);
    match fv {
        ValueV::Function(Function::LoadFile) => match av {
            ValueV::File(path, _) => {
                if cursor < m {
                    lemma_recorded_prefix(journal, m, cursor, RequestV::ReadFile(path));
                }
            },
            _ => {},
        },
        ValueV::Function(Function::WriteFile) => match av {
            ValueV::Str(t) => {
                if cursor < m {
                    lemma_recorded_prefix(
                        journal,
                        m,
                        cursor,
                        RequestV::WriteFile(store_path_of(store_dir, sha256(value_encoding(av))), t),
                    );
                }
            },
            _ => {},
        },
        _ => {},
    }
}

proof fn lemma_eval_prefix(e: SpannedV<ExpressionV>, frames: Seq<EntriesV>, ctx: Context, cursor: nat, m: nat)
    requires
        m <= ctx.journal.len(),
        eval_spec(e, frames, ctx, cursor).1 <= m,
    ensures
        eval_spec(e, frames, with_journal(ctx, ctx.journal.take(m as int)), cursor) == eval_spec(e, frames, ctx, cursor),
    decreases e,
{
    let short = with_journal(ctx, ctx.journal.take(m as int));
    match e.node {
        ExpressionV::Path(p) => {
            if cursor < m {
                lemma_recorded_prefix(ctx.journal, m, cursor, RequestV::Inspect(p));
            }
        },
        ExpressionV::Structure(fields) => {
            lemma_fields_prefix(fields, 0, Seq::empty(), frames, ctx, cursor, m);
        },
        ExpressionV::Function { pattern, body } => {
            match bind_pattern_spec(frames.push(Seq::empty()), pattern.node, ctx.arg) {
                Err(_) => {},
                Ok(bound) => lemma_eval_prefix(*body, bound, ctx, cursor, m),
            }
        },
        ExpressionV::If { condition, then_branch, else_branch } => {
            let (c, c1) = eval_spec(*condition, frames, ctx, cursor);
            lemma_eval_run(*then_branch, frames, ctx, c1);
            lemma_eval_run(*else_branch, frames, ctx, c1);
            lemma_eval_prefix(*condition, frames, ctx, cursor, m);
            match c {
                Ok(ValueV::Boolean(true)) => lemma_eval_prefix(*then_branch, frames, ctx, c1, m),
                Ok(ValueV::Boolean(false)) => lemma_eval_prefix(*else_branch, frames, ctx, c1, m),
                _ => {},
            }
        },
        ExpressionV::Cases { target, branches, default } => {
            let (t, c1) = eval_spec(*target, frames, ctx, cursor);
            match t {
                Ok(tv) => {
                    let (r, c2) = eval_cases_spec(branches, tv, frames, ctx, c1);
                    lemma_cases_run(branches, tv, frames, ctx, c1);
                    match default {
                        Some(d) => lemma_eval_run(*d, frames, ctx, c2),
                        None => {},
                    }
                    lemma_eval_prefix(*target, frames, ctx, cursor, m);
                    lemma_cases_prefix(branches, tv, frames, ctx, c1, m);
                    match r {
                        None => match default {
                            Some(d) => lemma_eval_prefix(*d, frames, ctx, c2, m),
                            None => {},
                        },
                        Some(_) => {},
                    }
                },
                Err(_) => {
                    lemma_eval_prefix(*target, frames, ctx, cursor, m);
                },
            }
        },
        ExpressionV::BinaryOp { op, lhs, rhs } => {
            let (l, c1) = eval_spec(*lhs, frames, ctx, cursor);
            lemma_eval_run(*rhs, frames, ctx, c1);
            lemma_eval_prefix(*lhs, frames, ctx, cursor, m);
            if l is Ok {
                lemma_eval_prefix(*rhs, frames, ctx, c1, m);
            }
        },
        ExpressionV::UnaryOp { op, expr } => {
            lemma_eval_prefix(*expr, frames, ctx, cursor, m);
        },
        ExpressionV::FieldGet { target, field } => {
            lemma_eval_prefix(*target, frames, ctx, cursor, m);
        },
        ExpressionV::IndexGet { target, index } => {
            let (t, c1) = eval_spec(*target, frames, ctx, cursor);
            lemma_eval_run(*index, frames, ctx, c1);
            lemma_eval_prefix(*target, frames, ctx, cursor, m);
            if t is Ok {
                lemma_eval_prefix(*index, frames, ctx, c1, m);
            }
        },
        ExpressionV::Call { func, arg } => {
            let (f, c1) = eval_spec(*func, frames, ctx, cursor);
            let (a, c2) = eval_spec(*arg, frames, ctx, c1);
            lemma_eval_run(*arg, frames, ctx, c1);
            lemma_eval_prefix(*func, frames, ctx, cursor, m);
            match f {
                Ok(fv) => {
                    match a {
                        Ok(av) => {
                            lemma_call_value_run(fv, av, ctx.store_dir, ctx.journal, c2);
                            lemma_call_value_prefix(fv, av, ctx.store_dir, ctx.journal, c2, m);
                        },
                        Err(_) => {},
                    }
                    lemma_eval_prefix(*arg, frames, ctx, c1, m);
                },
                Err(_) => {},
            }
        },
        _ => {},
    }
}

proof fn lemma_fields_prefix(
    fields: Seq<SpannedV<StructFieldV>>,
    index: int,
    acc: EntriesV,
    frames: Seq<EntriesV>,
    ctx: Context,
    cursor: nat,
    m: nat,
)
    requires
        m <= ctx.journal.len(),
        eval_fields_spec(fields, index, acc, frames, ctx, cursor).1 <= m,
    ensures
        eval_fields_spec(fields, index, acc, frames, with_journal(ctx, ctx.journal.take(m as int)), cursor)
            == eval_fields_spec(fields, index, acc, frames, ctx, cursor),
    decreases fields,
{
    if fields.len() > 0 {
        let rest = fields.drop_first();
        match fields[0].node {
            StructFieldV::Identifier(x) => {
                let (r, c1) = eval_spec(x, frames, ctx, cursor);
                match r {
                    Ok(v) => {
                        let acc2 = put_entry(acc, ValueV::Integer(index as i64), v);
                        lemma_fields_run(rest, index + 1, acc2, frames, ctx, c1);
                        lemma_eval_prefix(x, frames, ctx, cursor, m);
                        lemma_fields_prefix(rest, index + 1, acc2, frames, ctx, c1, m);
                    },
                    Err(_) => lemma_eval_prefix(x, frames, ctx, cursor, m),
                }
            },
            StructFieldV::KeyValue(k, x) => {
                let (kr, c1) = eval_spec(k, frames, ctx, cursor);
                match kr {
                    Ok(kv) => {
                        let (r, c2) = eval_spec(x, frames, ctx, c1);
                        match r {
                            Ok(v) => {
                                let acc2 = put_entry(acc, kv, v);
                                lemma_fields_run(rest, index + 1, acc2, frames, ctx, c2);
                                lemma_eval_run(x, frames, ctx, c1);
                                lemma_eval_prefix(k, frames, ctx, cursor, m);
                                lemma_eval_prefix(x, frames, ctx, c1, m);
                                lemma_fields_prefix(rest, index + 1, acc2, frames, ctx, c2, m);
                            },
                            Err(_) => {
                                lemma_eval_run(x, frames, ctx, c1);
                                lemma_eval_prefix(k, frames, ctx, cursor, m);
                                lemma_eval_prefix(x, frames, ctx, c1, m);
                            },
                        }
                    },
                    Err(_) => lemma_eval_prefix(k, frames, ctx, cursor, m),
                }
            },
            StructFieldV::ValueOnly(x) => match inferred_key(x.node) {
                Err(_) => {},
                Ok(name) => {
                    let (r, c1) = eval_spec(x, frames, ctx, cursor);
                    match r {
                        Ok(v) => {
                            let acc2 = put_entry(acc, ValueV::Str(name), v);
                            lemma_fields_run(rest, index + 1, acc2, frames, ctx, c1);
                            lemma_eval_prefix(x, frames, ctx, cursor, m);
                            lemma_fields_prefix(rest, index + 1, acc2, frames, ctx, c1, m);
                        },
                        Err(_) => lemma_eval_prefix(x, frames, ctx, cursor, m),
                    }
                },
            },
        }
    }
}

proof fn lemma_cases_prefix(
    branches: Seq<SpannedV<CaseBranchV>>,
    target: ValueV,
    frames: Seq<EntriesV>,
    ctx: Context,
    cursor: nat,
    m: nat,
)
    requires
        m <= ctx.journal.len(),
        eval_cases_spec(branches, target, frames, ctx, cursor).1 <= m,
    ensures
        eval_cases_spec(branches, target, frames, with_journal(ctx, ctx.journal.take(m as int)), cursor)
            == eval_cases_spec(branches, target, frames, ctx, cursor),
    decreases branches,
{
    if branches.len() > 0 {
        let b = branches[0].node;
        let rest = branches.drop_first();
        match bind_pattern_spec(frames.push(Seq::empty()), b.pattern.node, target) {
            Err(_) => lemma_cases_prefix(rest, target, frames, ctx, cursor, m),
            Ok(bound) => match b.guard {
                None => lemma_eval_prefix(*b.body, bound, ctx, cursor, m),
                Some(g) => {
                    let (gr, c1) = eval_spec(*g, bound, ctx, cursor);
                    lemma_eval_run(*b.body, bound, ctx, c1);
                    lemma_cases_run(rest, target, frames, ctx, c1);
                    lemma_eval_prefix(*g, bound, ctx, cursor, m);
                    match gr {
                        Ok(gv) => if gv == ValueV::Boolean(true) {
                            lemma_eval_prefix(*b.body, bound, ctx, c1, m);
                        } else {
                            lemma_cases_prefix(rest, target, frames, ctx, c1, m);
                        },
                        Err(_) => {},
                    }
                },
            },
        }
    }
}

/// Every outcome in the journal is of the kind its effect has, and is for
/// the effect that evaluating with the outcomes before it asked for.
pub open spec fn journal_consistent(
    expr: SpannedV<ExpressionV>,
    custom: EntriesV,
    arg: ValueV,
    store_dir: Seq<char>,
    journal: Seq<(RequestV, ResponseV)>,
) -> bool {
    forall|k: int|
        #![trigger journal[k]]
        0 <= k < journal.len() ==> program_spec(expr, custom, arg, store_dir, journal.take(k)) == EvaluationV::Needs(
            journal[k].0,
        ) && answers(journal[k].0, journal[k].1)
}

/// With a consistent journal, evaluating with its first `k` outcomes uses
/// them all.
proof fn lemma_consistent_uses_all(
    expr: SpannedV<ExpressionV>,
    custom: EntriesV,
    arg: ValueV,
    store_dir: Seq<char>,
    journal: Seq<(RequestV, ResponseV)>,
    k: nat,
)
    requires
        journal_consistent(expr, custom, arg, store_dir, journal),
        k <= journal.len(),
    ensures
        program_run(expr, custom, arg, store_dir, journal.take(k as int)).1 == k,
    decreases k,
{
    let jk = journal.take(k as int);
    let ctx = Context { custom, builtins: builtins_spec(), arg, store_dir, journal: jk };
    lemma_eval_run(expr, seq![Seq::empty()], ctx, 0);
    if k > 0 {
        let (q, resp) = journal[k - 1];
        lemma_consistent_uses_all(expr, custom, arg, store_dir, journal, (k - 1) as nat);
        let c = program_run(expr, custom, arg, store_dir, jk).1;
        if c < k {
            lemma_eval_prefix(expr, seq![Seq::empty()], ctx, 0, (k - 1) as nat);
            assert(jk.take(k - 1) =~= journal.take(k - 1));
            assert(with_journal(ctx, jk.take(k - 1)) == Context { custom, builtins: builtins_spec(), arg, store_dir, journal: journal.take(k - 1) });
            assert(program_spec(expr, custom, arg, store_dir, journal.take(k - 1)) == EvaluationV::Needs(q));
            assert(answers(q, resp));
            assert(jk[k - 1] == (q, resp));
            assert(answered_at(jk, (k - 1) as nat, q));
        }
    }
}

/// Law: with a journal in which every outcome answers the effect that the
/// evaluation before it asked for, evaluating uses every outcome; and
/// recording, for the effect it asks for next, an outcome of that effect's
/// kind keeps the journal so.  A caller that records what each evaluation
/// asks for makes progress with each evaluation.
pub proof fn law_journal_progress(
    expr: SpannedV<ExpressionV>,
    custom: EntriesV,
    arg: ValueV,
    store_dir: Seq<char>,
    journal: Seq<(RequestV, ResponseV)>,
    response: ResponseV,
)
    requires
        journal_consistent(expr, custom, arg, store_dir, journal),
    ensures
        program_run(expr, custom, arg, store_dir, journal).1 == journal.len(),
        ({
            let e = program_spec(expr, custom, arg, store_dir, journal);
            e is Needs && answers(e->Needs_0, response) ==> journal_consistent(
                expr,
                custom,
                arg,
                store_dir,
                journal.push((e->Needs_0, response)),
            )
        }),
{
    lemma_consistent_uses_all(expr, custom, arg, store_dir, journal, journal.len());
    assert(journal.take(journal.len() as int) =~= journal);
    let e = program_spec(expr, custom, arg, store_dir, journal);
    if e is Needs && answers(e->Needs_0, response) {
        let longer = journal.push((e->Needs_0, response));
        assert forall|k: int| 0 <= k < longer.len() implies program_spec(expr, custom, arg, store_dir, longer.take(k))
            == EvaluationV::Needs(#[trigger] longer[k].0) && answers(longer[k].0, longer[k].1) by {
            if k < journal.len() {
                assert(longer.take(k) =~= journal.take(k));
                assert(longer[k] == journal[k]);
            } else {
                assert(longer.take(k) =~= journal);
            }
        }
    }
}

/// Law: recording the outcomes of more effects does not change what an
/// evaluation that asked for no further effect came to.
pub proof fn law_journal_extension(
    expr: SpannedV<ExpressionV>,
    custom: EntriesV,
    arg: ValueV,
    store_dir: Seq<char>,
    journal: Seq<(RequestV, ResponseV)>,
    longer: Seq<(RequestV, ResponseV)>,
)
    requires
        journal_extends(journal, longer),
        program_spec(expr, custom, arg, store_dir, journal) is Done,
    ensures
        program_spec(expr, custom, arg, store_dir, longer) == program_spec(expr, custom, arg, store_dir, journal),
{
    let ctx = Context { custom, builtins: builtins_spec(), arg, store_dir, journal };
    let ctx2 = Context { custom, builtins: builtins_spec(), arg, store_dir, journal: longer };
    lemma_eval_extends(expr, seq![Seq::empty()], ctx, ctx2, 0);
}

// ------------------------------------------------------------------
// Pattern binding
// ------------------------------------------------------------------

/// The outcome of binding matches the model: on success the frames are the
/// model's, on failure the message is; either way only the innermost frame
/// changed.
pub open spec fn bound_as(r: Result<(), String>, old_frames: Seq<EntriesV>, new_frames: Seq<EntriesV>, expected: Result<Seq<EntriesV>, Seq<char>>) -> bool {
    &&& match expected {
        Ok(f) => r is Ok && new_frames == f,
        Err(m) => r is Err && r->Err_0@ == m,
    }
    &&& same_below_top(old_frames, new_frames)
}

proof fn lemma_bind_frames_below_top(frames: Seq<EntriesV>, name: Seq<char>, v: ValueV)
    ensures
        same_below_top(frames, bind_frames(frames, name, v)),
{
    assert(bind_frames(frames, name, v).drop_last() =~= frames.drop_last());
}

fn message(prefix: &str, name: &str, suffix: &str) -> (r: String)
    ensures
        r@ == prefix@ + name@ + suffix@,
{
    let mut r = prefix.to_owned();
    r.append(name);
    r.append(suffix);
    r
}

/// Recursively binds a mapping against a field of a structural pattern.
pub fn bind_pattern_field(env: &mut Environment, field: &PatternField, map: &Mapping) -> (r: Result<(), String>)
    ensures
        bound_as(r, old(env).spec_frames(), final(env).spec_frames(), bind_field(old(env).spec_frames(), field@, map@)),
        final(env).spec_frames() == bind_field_after(old(env).spec_frames(), field@, map@),
        final(env).same_definitions(old(env)),
    decreases field,
{
    let ghost frames0 = env.spec_frames();
    match field {
        PatternField::Identifier(name) => {
            let key = Value::String(name.clone());
            match map.get(&key) {
                Some(val) => {
                    proof { lemma_bind_frames_below_top(frames0, name@, val@); }
                    env.bind(name.clone(), val.clone());
                    Ok(())
                },
                None => {
                    assert(frames0.drop_last() =~= env.spec_frames().drop_last());
                    Err(message("Structural match failed: key '", name.as_str(), "' not found"))
                },
            }
        },
        PatternField::Structured(_) => {
            assert(frames0.drop_last() =~= env.spec_frames().drop_last());
            Err("Anonymous nested structural patterns without a key are not supported".to_owned())
        },
        PatternField::BoundStructural { identifier, structure } => {
            let key = Value::String(identifier.clone());
            match map.get(&key) {
                None => {
                    assert(frames0.drop_last() =~= env.spec_frames().drop_last());
                    Err(message("Structural match failed: key '", identifier.as_str(), "' not found"))
                },
                Some(val) => {
                    proof { lemma_bind_frames_below_top(frames0, identifier@, val@); }
                    env.bind(identifier.clone(), val.clone());
                    if let Value::Mapping(inner_map) = val {
                        bind_pattern_fields(env, structure, inner_map)
                    } else {
                        Err(message("Expected a map for nested structural binding on '", identifier.as_str(), "'"))
                    }
                },
            }
        },
    }
}

/// Binds the fields of a structural pattern in order, stopping at the first error.
fn bind_pattern_fields(env: &mut Environment, fields: &Vec<Spanned<PatternField>>, map: &Mapping) -> (r: Result<(), String>)
    ensures
        bound_as(r, old(env).spec_frames(), final(env).spec_frames(), bind_fields(old(env).spec_frames(), pattern_fields_view(fields@), map@)),
        final(env).spec_frames() == bind_fields_after(old(env).spec_frames(), pattern_fields_view(fields@), map@),
        final(env).same_definitions(old(env)),
    decreases fields,
{
    let ghost all = pattern_fields_view(fields@);
    let ghost frames0 = env.spec_frames();
    proof {
        lemma_pattern_fields_view(fields@);
        assert(all.skip(0) =~= all);
        assert(frames0.drop_last() =~= env.spec_frames().drop_last());
    }
    let mut i: usize = 0;
    while i < fields.len()
        invariant
            i <= fields@.len(),
            all == pattern_fields_view(fields@),
            all.len() == fields@.len(),
            forall|j: int| 0 <= j < fields@.len() ==> #[trigger] all[j] == fields@[j]@,
            bind_fields(frames0, all, map@) == bind_fields(env.spec_frames(), all.skip(i as int), map@),
            bind_fields_after(frames0, all, map@) == bind_fields_after(env.spec_frames(), all.skip(i as int), map@),
            same_below_top(frames0, env.spec_frames()),
            frames0 == old(env).spec_frames(),
            env.same_definitions(old(env)),
        decreases fields.len() - i,
    {
        assert(all.skip(i as int)[0] == fields@[i as int]@);
        assert(all.skip(i as int).drop_first() =~= all.skip(i + 1));
        let ghost before = env.spec_frames();
        let ghost rest = all.skip(i as int);
        assert(bind_fields(before, rest, map@) == match bind_field(before, rest[0].node, map@) {
            Ok(next) => bind_fields(next, rest.drop_first(), map@),
            Err(e) => Err(e),
        });
        assert(bind_fields_after(before, rest, map@) == match bind_field(before, rest[0].node, map@) {
            Ok(next) => bind_fields_after(next, rest.drop_first(), map@),
            Err(_) => bind_field_after(before, rest[0].node, map@),
        });
        match bind_pattern_field(env, &fields[i].node, map) {
            Ok(()) => {},
            Err(e) => {
                return Err(e);
            },
        }
        i = i + 1;
    }
    assert(all.skip(i as int) =~= Seq::<SpannedV<PatternFieldV>>::empty());
    Ok(())
}

/// Binds an argument to a pattern within the environment.
pub fn bind_pattern(env: &mut Environment, pattern: &Pattern, arg: &Value) -> (r: Result<(), String>)
    ensures
        bound_as(r, old(env).spec_frames(), final(env).spec_frames(), bind_pattern_spec(old(env).spec_frames(), pattern_view(pattern), arg@)),
        final(env).spec_frames() == bind_pattern_after(old(env).spec_frames(), pattern_view(pattern), arg@),
        final(env).same_definitions(old(env)),
{
    let ghost frames0 = env.spec_frames();
    match pattern {
        Pattern::Identifier(name) => {
            proof { lemma_bind_frames_below_top(frames0, name@, arg@); }
            env.bind(name.clone(), arg.clone());
            Ok(())
        },
        Pattern::Structured(fields) => {
            if let Value::Mapping(map) = arg {
                bind_pattern_fields(env, fields, map)
            } else {
                assert(frames0.drop_last() =~= env.spec_frames().drop_last());
                Err("Argument must be a map for structural binding".to_owned())
            }
        },
        Pattern::BoundStructural { identifier, structure } => {
            proof { lemma_bind_frames_below_top(frames0, identifier@, arg@); }
            env.bind(identifier.clone(), arg.clone());
            if let Value::Mapping(map) = arg {
                bind_pattern_fields(env, structure, map)
            } else {
                Err("Argument must be a map for structural binding".to_owned())
            }
        },
    }
}


// ------------------------------------------------------------------
// Calls of built-in functions
// ------------------------------------------------------------------

impl Function {
    /// Calls the built-in function on `arg`.  The effect it needs is looked up
    /// in the journal at position `cursor`, which moves past it when found.
    pub fn call(&self, arg: &Value, runtime: &Runtime, journal: &Journal, cursor: &mut usize) -> (r: Result<Value, Stop>)
        requires
            *old(cursor) <= journal@.len(),
        ensures
            (outcome_view(&r), *final(cursor) as nat) == call_spec(*self, arg@, runtime.spec_store_dir(), journal@, *old(cursor) as nat),
            *final(cursor) <= journal@.len(),
    {
        match self {
            Function::LoadFile => {
                let file = match arg {
                    Value::File(file) => file,
                    _ => return Err(Stop::Error("Wrong value passed - expected File.".to_owned())),
                };
                let req = Request::ReadFile(file.path().clone());
                match journal.recorded(*cursor, &req) {
                    Some(Response::Text(Ok(s))) => {
                        *cursor = *cursor + 1;
                        Ok(Value::String(s.clone()))
                    },
                    Some(Response::Text(Err(e))) => {
                        *cursor = *cursor + 1;
                        Err(Stop::Error(message("IO error: ", e.as_str(), ".")))
                    },
                    _ => Err(Stop::Needs(req)),
                }
            },
            Function::WriteFile => {
                let string = match arg {
                    Value::String(s) => s,
                    _ => return Err(Stop::Error("Wrong value passed - expected String.".to_owned())),
                };
                let path = runtime.store_path(arg.hash());
                let req = Request::WriteFile { path: path.clone(), contents: string.clone() };
                match journal.recorded(*cursor, &req) {
                    Some(Response::Written(Ok(tree))) => {
                        *cursor = *cursor + 1;
                        Ok(Value::File(File::new(path, tree)))
                    },
                    Some(Response::Written(Err(e))) => {
                        *cursor = *cursor + 1;
                        Err(Stop::Error(message("IO error: ", e.as_str(), ".")))
                    },
                    _ => Err(Stop::Needs(req)),
                }
            },
        }
    }
}


// ------------------------------------------------------------------
// Evaluation
// ------------------------------------------------------------------

/// The fixed part of an evaluation, as the model sees it.
pub open spec fn context_of(env: &Environment, arg: &Value, runtime: &Runtime, journal: &Journal) -> Context {
    Context {
        custom: env.spec_custom(),
        builtins: env.spec_builtins(),
        arg: arg@,
        store_dir: runtime.spec_store_dir(),
        journal: journal@,
    }
}

fn concat(prefix: &str, name: &str) -> (r: String)
    ensures
        r@ == prefix@ + name@,
{
    let mut r = prefix.to_owned();
    r.append(name);
    r
}

fn error(msg: &str) -> (r: Result<Value, Stop>)
    ensures
        outcome_view(&r) == fail(msg@),
{
    Err(Stop::Error(msg.to_owned()))
}

/// Extracts the implicit key string from an expression (e.g., last identifier in a get chain).
pub fn extract_inferred_key(expr: &Spanned<Expression>) -> (r: Result<String, String>)
    ensures
        match inferred_key(expr@.node) {
            Ok(k) => r is Ok && r->Ok_0@ == k,
            Err(m) => r is Err && r->Err_0@ == m,
        },
{
    match &expr.node {
        Expression::Identifier(name) => Ok(name.clone()),
        Expression::FieldGet { field, .. } => Ok(field.clone()),
        _ => Err("Cannot infer key from expression in value-only structure field".to_owned()),
    }
}

fn binary_name(op: BinaryOperator) -> (r: &'static str)
    ensures
        r@ == binary_operator_name(op),
{
    match op {
        BinaryOperator::Add => "Add",
        BinaryOperator::Subtract => "Subtract",
        BinaryOperator::Multiply => "Multiply",
        BinaryOperator::Divide => "Divide",
        BinaryOperator::Modulo => "Modulo",
        BinaryOperator::GreaterThan => "GreaterThan",
        BinaryOperator::GreaterThanOrEqual => "GreaterThanOrEqual",
        BinaryOperator::Equal => "Equal",
        BinaryOperator::LessThan => "LessThan",
        BinaryOperator::LessThanOrEqual => "LessThanOrEqual",
        BinaryOperator::And => "And",
        BinaryOperator::Or => "Or",
        BinaryOperator::PutAll => "PutAll",
        BinaryOperator::PassAsArgument => "PassAsArgument",
    }
}

fn unary_name(op: UnaryOperator) -> (r: &'static str)
    ensures
        r@ == unary_operator_name(op),
{
    match op {
        UnaryOperator::Negate => "Negate",
        UnaryOperator::Not => "Not",
    }
}

fn binary_op(op: BinaryOperator, left: Value, right: Value) -> (r: Result<Value, Stop>)
    ensures
        outcome_view(&r) == binary_spec(op, left@, right@),
{
    match op {
        BinaryOperator::PutAll => {
            if let Value::Mapping(m1) = left {
                if let Value::Mapping(m2) = right {
                    return Ok(Value::Mapping(m1.put_all(&m2)));
                }
            }
        },
        BinaryOperator::Add => {
            if let Value::Integer(a) = left {
                if let Value::Integer(b) = right {
                    return Ok(Value::Integer(a.wrapping_add(b)));
                }
            }
        },
        BinaryOperator::Equal => {
            return Ok(Value::Boolean(left.equals(&right)));
        },
        _ => {},
    }
    Err(Stop::Error(message("Unsupported binary operation ", binary_name(op), " for the given types")))
}

fn unary_op(op: UnaryOperator, val: Value) -> (r: Result<Value, Stop>)
    ensures
        outcome_view(&r) == unary_spec(op, val@),
{
    match op {
        UnaryOperator::Not => {
            if let Value::Boolean(b) = val {
                return Ok(Value::Boolean(!b));
            }
        },
        UnaryOperator::Negate => {
            if let Value::Integer(i) = val {
                return Ok(Value::Integer(0i64.wrapping_sub(i)));
            }
        },
    }
    Err(Stop::Error(message("Unsupported unary operation ", unary_name(op), " for the given type")))
}

/// A file named by a path literal: its hash comes from the journal.
fn inspect(path: &String, journal: &Journal, cursor: &mut usize) -> (r: Result<Value, Stop>)
    requires
        *old(cursor) <= journal@.len(),
    ensures
        (outcome_view(&r), *final(cursor) as nat) == inspect_spec(path@, journal@, *old(cursor) as nat),
        *final(cursor) <= journal@.len(),
{
    let req = Request::Inspect(path.clone());
    match journal.recorded(*cursor, &req) {
        Some(Response::Inspected(tree)) => {
            *cursor = *cursor + 1;
            Ok(Value::File(File::new(path.clone(), tree)))
        },
        _ => Err(Stop::Needs(req)),
    }
}

/// Calls a value: a string concatenates its argument, a built-in function runs.
fn call_value(called: Value, call_arg: Value, runtime: &Runtime, journal: &Journal, cursor: &mut usize) -> (r: Result<Value, Stop>)
    requires
        *old(cursor) <= journal@.len(),
    ensures
        (outcome_view(&r), *final(cursor) as nat) == call_value_spec(called@, call_arg@, runtime.spec_store_dir(), journal@, *old(cursor) as nat),
        *final(cursor) <= journal@.len(),
{
    if let Value::String(lhs) = called {
        if let Value::String(rhs) = call_arg {
            let mut joined = lhs;
            joined.append(rhs.as_str());
            return Ok(Value::String(joined));
        }
        return error("Calling a string mean concatinating it, expected the argument to be string");
    }
    if let Value::Function(f) = called {
        match f.call(&call_arg, runtime, journal, cursor) {
            Ok(v) => Ok(v),
            Err(Stop::Needs(q)) => Err(Stop::Needs(q)),
            Err(Stop::Error(_)) => error("Function execution error"),
        }
    } else {
        error("Attempted to call a non-function")
    }
}

/// The built-in functions, by name.  `read_file`, the name the documentation
/// gives, reads a file as `load_file` does.
pub fn builtins() -> (r: Mapping)
    ensures
        r@ == builtins_spec(),
{
    Mapping::new()
        .put(Value::String("load_file".to_owned()), Value::Function(Function::LoadFile))
        .put(Value::String("write_file".to_owned()), Value::Function(Function::WriteFile))
        .put(Value::String("read_file".to_owned()), Value::Function(Function::LoadFile))
}

pub open spec fn builtins_spec() -> EntriesV {
    put_entry(
        put_entry(
            put_entry(Seq::empty(), ValueV::Str("load_file"@), ValueV::Function(Function::LoadFile)),
            ValueV::Str("write_file"@),
            ValueV::Function(Function::WriteFile),
        ),
        ValueV::Str("read_file"@),
        ValueV::Function(Function::LoadFile),
    )
}

/// What evaluating a program comes to, from the outcome in the model.
pub open spec fn evaluation_of(r: Result<ValueV, StopV>) -> EvaluationV {
    match r {
        Ok(v) => EvaluationV::Done(Ok(v)),
        Err(StopV::Error(m)) => EvaluationV::Done(Err(m)),
        Err(StopV::Needs(q)) => EvaluationV::Needs(q),
    }
}

/// Where evaluating `expr` ends, with `custom` definitions and the program
/// argument `arg`, given the outcomes of effects in `journal`: the outcome,
/// and the position in the journal after the last outcome it used.
pub open spec fn program_run(
    expr: SpannedV<ExpressionV>,
    custom: EntriesV,
    arg: ValueV,
    store_dir: Seq<char>,
    journal: Seq<(RequestV, ResponseV)>,
) -> (Result<ValueV, StopV>, nat) {
    let ctx = Context { custom, builtins: builtins_spec(), arg, store_dir, journal };
    eval_spec(expr, seq![Seq::empty()], ctx, 0)
}

/// What evaluating `expr` comes to, with `custom` definitions and the
/// program argument `arg`, given the outcomes of effects in `journal`.
pub open spec fn program_spec(
    expr: SpannedV<ExpressionV>,
    custom: EntriesV,
    arg: ValueV,
    store_dir: Seq<char>,
    journal: Seq<(RequestV, ResponseV)>,
) -> EvaluationV {
    evaluation_of(program_run(expr, custom, arg, store_dir, journal).0)
}

/// The main evaluation function.
pub fn eval(expr: &Spanned<Expression>, custom: &Mapping, arg: &Value, runtime: &Runtime, journal: &Journal) -> (r: Evaluation)
    ensures
        r@ == program_spec(expr@, custom@, arg@, runtime.spec_store_dir(), journal@),
{
    let builtins = builtins();
    let mut env = Environment::new(&builtins, custom);
    let mut cursor: usize = 0;
    match eval_inner(expr, &mut env, arg, runtime, journal, &mut cursor) {
        Ok(v) => Evaluation::Done(Ok(v)),
        Err(Stop::Error(m)) => Evaluation::Done(Err(m)),
        Err(Stop::Needs(q)) => Evaluation::Needs(q),
    }
}

/// Evaluates an expression in an environment.  The frames of the environment
/// are as they were afterwards, whatever the outcome: what a function's
/// pattern or a branch's pattern binds is gone again.
pub fn eval_inner(
    expr: &Spanned<Expression>,
    env: &mut Environment,
    current_arg: &Value,
    runtime: &Runtime,
    journal: &Journal,
    cursor: &mut usize,
) -> (r: Result<Value, Stop>)
    requires
        *old(cursor) <= journal@.len(),
    ensures
        (outcome_view(&r), *final(cursor) as nat) == eval_spec(expr@, old(env).spec_frames(), context_of(old(env), current_arg, runtime, journal), *old(cursor) as nat),
        *final(cursor) <= journal@.len(),
        final(env).same_definitions(old(env)),
        final(env).spec_frames() == old(env).spec_frames(),
    decreases expr,
{
    match &expr.node {
        Expression::Boolean(b) => Ok(Value::Boolean(*b)),
        Expression::Integer(i) => Ok(Value::Integer(*i)),
        Expression::Float(f) => Ok(Value::Float(*f)),
        Expression::String(s) => Ok(Value::String(s.clone())),
        Expression::Path(p) => inspect(p, journal, cursor),
        Expression::Identifier(name) => match env.resolve(name.as_str()) {
            Some(v) => Ok(v),
            None => Err(Stop::Error(concat("Unresolved identifier: ", name.as_str()))),
        },
        Expression::Structure(fields) => eval_fields(fields, env, current_arg, runtime, journal, cursor),
        Expression::Function { pattern, body } => {
            let ghost frames0 = env.spec_frames();
            env.push_frame();
            match bind_pattern(env, &pattern.node, current_arg) {
                Ok(()) => {},
                Err(m) => {
                    env.pop_frame();
                    proof {
                        assert(frames0.push(Seq::empty()).drop_last() =~= frames0);
                    }
                    return Err(Stop::Error(m));
                },
            }
            let result = eval_inner(body, env, current_arg, runtime, journal, cursor);
            env.pop_frame();
            proof {
                assert(frames0.push(Seq::empty()).drop_last() =~= frames0);
            }
            result
        },
        Expression::If { condition, then_branch, else_branch } => {
            let cond_val = match eval_inner(condition, env, current_arg, runtime, journal, cursor) {
                Ok(v) => v,
                Err(s) => return Err(s),
            };
            if let Value::Boolean(true) = cond_val {
                eval_inner(then_branch, env, current_arg, runtime, journal, cursor)
            } else if let Value::Boolean(false) = cond_val {
                eval_inner(else_branch, env, current_arg, runtime, journal, cursor)
            } else {
                error("If condition must evaluate to a boolean")
            }
        },
        Expression::Cases { target, branches, default } => {
            let target_val = match eval_inner(target, env, current_arg, runtime, journal, cursor) {
                Ok(v) => v,
                Err(s) => return Err(s),
            };
            match eval_cases(branches, &target_val, env, current_arg, runtime, journal, cursor) {
                Some(result) => result,
                None => match default {
                    Some(def) => eval_inner(def, env, current_arg, runtime, journal, cursor),
                    None => error("No case branch matched and no default provided"),
                },
            }
        },
        Expression::BinaryOp { op, lhs, rhs } => {
            let left = match eval_inner(lhs, env, current_arg, runtime, journal, cursor) {
                Ok(v) => v,
                Err(s) => return Err(s),
            };
            let right = match eval_inner(rhs, env, current_arg, runtime, journal, cursor) {
                Ok(v) => v,
                Err(s) => return Err(s),
            };
            binary_op(*op, left, right)
        },
        Expression::UnaryOp { op, expr } => {
            let val = match eval_inner(expr, env, current_arg, runtime, journal, cursor) {
                Ok(v) => v,
                Err(s) => return Err(s),
            };
            unary_op(*op, val)
        },
        Expression::FieldGet { target, field } => {
            let target_val = match eval_inner(target, env, current_arg, runtime, journal, cursor) {
                Ok(v) => v,
                Err(s) => return Err(s),
            };
            if let Value::Mapping(map) = target_val {
                let key = Value::String(field.clone());
                match map.get(&key) {
                    Some(v) => Ok(v.clone()),
                    None => Err(Stop::Error(message("Field '", field.as_str(), "' not found"))),
                }
            } else {
                error("FieldGet is only supported on Maps")
            }
        },
        Expression::IndexGet { target, index } => {
            let target_val = match eval_inner(target, env, current_arg, runtime, journal, cursor) {
                Ok(v) => v,
                Err(s) => return Err(s),
            };
            let index_val = match eval_inner(index, env, current_arg, runtime, journal, cursor) {
                Ok(v) => v,
                Err(s) => return Err(s),
            };
            if let Value::Mapping(map) = target_val {
                match map.get(&index_val) {
                    Some(v) => Ok(v.clone()),
                    None => error("Index not found"),
                }
            } else {
                error("IndexGet is only supported on Maps")
            }
        },
        Expression::Call { func, arg } => {
            let called_val = match eval_inner(func, env, current_arg, runtime, journal, cursor) {
                Ok(v) => v,
                Err(s) => return Err(s),
            };
            let call_arg = match eval_inner(arg, env, current_arg, runtime, journal, cursor) {
                Ok(v) => v,
                Err(s) => return Err(s),
            };
            call_value(called_val, call_arg, runtime, journal, cursor)
        },
        Expression::Include(_) => error("Include is not directly evaluable in this context"),
    }
}

/// Evaluates the fields of a structure into a mapping.
fn eval_fields(
    fields: &Vec<Spanned<StructField>>,
    env: &mut Environment,
    current_arg: &Value,
    runtime: &Runtime,
    journal: &Journal,
    cursor: &mut usize,
) -> (r: Result<Value, Stop>)
    requires
        *old(cursor) <= journal@.len(),
    ensures
        (outcome_view(&r), *final(cursor) as nat) == eval_fields_spec(struct_fields_view(fields@), 0, Seq::empty(), old(env).spec_frames(), context_of(old(env), current_arg, runtime, journal), *old(cursor) as nat),
        *final(cursor) <= journal@.len(),
        final(env).same_definitions(old(env)),
        final(env).spec_frames() == old(env).spec_frames(),
    decreases fields,
{
    let ghost all = struct_fields_view(fields@);
    let ghost frames0 = env.spec_frames();
    let ghost ctx = context_of(env, current_arg, runtime, journal);
    let ghost c0 = *cursor as nat;
    proof {
        lemma_struct_fields_view(fields@);
        assert(all.skip(0) =~= all);
    }
    let mut map = Mapping::new();
    let mut index: usize = 0;
    while index < fields.len()
        invariant
            index <= fields@.len(),
            all == struct_fields_view(fields@),
            all.len() == fields@.len(),
            forall|j: int| 0 <= j < fields@.len() ==> #[trigger] all[j] == fields@[j]@,
            frames0 == old(env).spec_frames(),
            ctx == context_of(old(env), current_arg, runtime, journal),
            c0 == *old(cursor) as nat,
            env.spec_frames() == frames0,
            env.same_definitions(old(env)),
            *cursor <= journal@.len(),
            eval_fields_spec(all, 0, Seq::empty(), frames0, ctx, c0)
                == eval_fields_spec(all.skip(index as int), index as int, map@, frames0, ctx, *cursor as nat),
        decreases fields.len() - index,
    {
        assert(all.skip(index as int)[0] == fields@[index as int]@);
        assert(all.skip(index as int).drop_first() =~= all.skip(index + 1));
        match &fields[index].node {
            StructField::Identifier(inner) => {
                let val = match eval_inner(inner, env, current_arg, runtime, journal, cursor) {
                    Ok(v) => v,
                    Err(s) => return Err(s),
                };
                map = map.put(Value::Integer(index as i64), val);
            },
            StructField::KeyValue(k_expr, v_expr) => {
                let k = match eval_inner(k_expr, env, current_arg, runtime, journal, cursor) {
                    Ok(v) => v,
                    Err(s) => return Err(s),
                };
                let v = match eval_inner(v_expr, env, current_arg, runtime, journal, cursor) {
                    Ok(v) => v,
                    Err(s) => return Err(s),
                };
                map = map.put(k, v);
            },
            StructField::ValueOnly(inner) => {
                let k_str = match extract_inferred_key(inner) {
                    Ok(k) => k,
                    Err(m) => return Err(Stop::Error(m)),
                };
                let val = match eval_inner(inner, env, current_arg, runtime, journal, cursor) {
                    Ok(v) => v,
                    Err(s) => return Err(s),
                };
                map = map.put(Value::String(k_str), val);
            },
        }
        index = index + 1;
    }
    Ok(Value::Mapping(map))
}

pub open spec fn option_outcome_view(r: &Option<Result<Value, Stop>>) -> Option<Result<ValueV, StopV>> {
    match r {
        Some(o) => Some(outcome_view(o)),
        None => None,
    }
}

/// Tries the branches of a `cases` expression in order.
fn eval_cases(
    branches: &Vec<Spanned<CaseBranch>>,
    target: &Value,
    env: &mut Environment,
    current_arg: &Value,
    runtime: &Runtime,
    journal: &Journal,
    cursor: &mut usize,
) -> (r: Option<Result<Value, Stop>>)
    requires
        *old(cursor) <= journal@.len(),
    ensures
        (option_outcome_view(&r), *final(cursor) as nat) == eval_cases_spec(branches_view(branches@), target@, old(env).spec_frames(), context_of(old(env), current_arg, runtime, journal), *old(cursor) as nat),
        *final(cursor) <= journal@.len(),
        final(env).same_definitions(old(env)),
        final(env).spec_frames() == old(env).spec_frames(),
    decreases branches,
{
    let ghost all = branches_view(branches@);
    let ghost frames0 = env.spec_frames();
    let ghost ctx = context_of(env, current_arg, runtime, journal);
    let ghost c0 = *cursor as nat;
    proof {
        lemma_branches_view(branches@);
        assert(all.skip(0) =~= all);
        assert(frames0.push(Seq::empty()).drop_last() =~= frames0);
    }
    let mut i: usize = 0;
    while i < branches.len()
        invariant
            i <= branches@.len(),
            all == branches_view(branches@),
            all.len() == branches@.len(),
            forall|j: int| 0 <= j < branches@.len() ==> #[trigger] all[j] == branches@[j]@,
            frames0 == old(env).spec_frames(),
            frames0.push(Seq::empty()).drop_last() == frames0,
            ctx == context_of(old(env), current_arg, runtime, journal),
            c0 == *old(cursor) as nat,
            env.spec_frames() == frames0,
            env.same_definitions(old(env)),
            *cursor <= journal@.len(),
            eval_cases_spec(all, target@, frames0, ctx, c0)
                == eval_cases_spec(all.skip(i as int), target@, frames0, ctx, *cursor as nat),
        decreases branches.len() - i,
    {
        assert(all.skip(i as int)[0] == branches@[i as int]@);
        assert(all.skip(i as int).drop_first() =~= all.skip(i + 1));
        let branch = &branches[i].node;
        env.push_frame();
        let bound = match bind_pattern(env, &branch.pattern.node, target) {
            Ok(()) => true,
            Err(_) => false,
        };
        if bound {
            let mut guard_passed = true;
            if let Some(guard) = &branch.guard {
                let guard_val = match eval_inner(guard, env, current_arg, runtime, journal, cursor) {
                    Ok(v) => v,
                    Err(s) => {
                        env.pop_frame();
                        return Some(Err(s));
                    },
                };
                guard_passed = match guard_val {
                    Value::Boolean(true) => true,
                    _ => false,
                };
            }
            if guard_passed {
                let result = eval_inner(&branch.body, env, current_arg, runtime, journal, cursor);
                env.pop_frame();
                return Some(result);
            }
        }
        env.pop_frame();
        i = i + 1;
    }
    None
}

} // verus!
