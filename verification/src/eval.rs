//! The rules of evaluation.
//!
//! Two functions hold them. [`enter`] says what the evaluator does with an expression
//! that it starts on; [`resume`] says how work that waited for a value goes on once the
//! value is there. The executable functions [`eval_obj`] and [`resume_frame`] compute
//! them, and [`eval`] runs a text from its first step.

use crate::env::{defined, extended, lookup, Env, ScopeModel};
use crate::error::{
    arity, cond_exhausted, condition_not_bool, empty_list, invalid, malformed,
    not_a_lambda, syntax, unbound_function, unbound_scope, undefined, unknown_keyword, EvalError,
    Failure,
};
use crate::machine::{
    evaluates, fails, keep, run, under, yields, Control, ControlModel, Frame, FrameModel, Machine,
    MachineModel, Move, MoveModel, Outcome, Primitive, State,
};
use crate::parser::{parse, parse_spec};
use crate::object::{
    copy_list, copy_names, lemma_views, rendering, texts, views, Object, Value,
};
use crate::operator::{apply_binary, eval_binary_op, wrapped, Applied, AppliedModel};
use crate::text::text_eq;
use vstd::prelude::*;

verus! {

/// The step that follows the application of an operator.
pub open spec fn applied(a: AppliedModel) -> MoveModel {
    match a {
        AppliedModel::Value(v) => yields(v),
        AppliedModel::Float(task) => MoveModel { control: ControlModel::Float(task), frame: None },
        AppliedModel::Failed(e) => fails(e),
    }
}

/// A symbol evaluates to what it is bound to.
pub open spec fn symbol(name: Seq<char>, scope: nat, env: Seq<ScopeModel>) -> MoveModel {
    match lookup(env, scope, name) {
        Some(v) => yields(v),
        None => fails(undefined(name)),
    }
}

/// An operator takes exactly two operands, and evaluates the left one first.
pub open spec fn binary(op: Seq<char>, items: Seq<Value>, scope: nat) -> MoveModel {
    if items.len() != 3 {
        fails(arity("binary operation"@))
    } else {
        under(items[1], scope, FrameModel::BinaryLeft { op, right: items[2], scope })
    }
}

/// `(if condition consequent alternative)` evaluates its condition first.
pub open spec fn if_form(items: Seq<Value>, scope: nat) -> MoveModel {
    if items.len() != 4 {
        fails(arity("if"@))
    } else {
        under(
            items[1],
            scope,
            FrameModel::If { consequent: items[2], alternative: items[3], scope },
        )
    }
}

/// With its condition known, an `if` goes on with the branch chosen, in tail position.
pub open spec fn if_chosen(
    value: Value,
    consequent: Value,
    alternative: Value,
    scope: nat,
) -> MoveModel {
    match value {
        Value::Bool(b) => evaluates(
            if b {
                consequent
            } else {
                alternative
            },
            scope,
        ),
        _ => fails(condition_not_bool()),
    }
}

/// A `begin` evaluates its forms from `items[k]` on, one after the other in `scope`,
/// and yields the value of the last; `last` is the value of the form before.
pub open spec fn begin_from(items: Seq<Value>, k: nat, last: Value, scope: nat) -> MoveModel {
    if k < items.len() {
        under(items[k as int], scope, FrameModel::Begin { items, next: k + 1, scope })
    } else {
        yields(last)
    }
}

/// A `list` evaluates its items from `items[k]` on and yields the values as a data
/// list; `done` holds the values so far.
pub open spec fn list_from(items: Seq<Value>, k: nat, done: Seq<Value>, scope: nat) -> MoveModel {
    if k < items.len() {
        under(items[k as int], scope, FrameModel::List { items, next: k + 1, done, scope })
    } else {
        yields(Value::ListData(done))
    }
}

/// A list that is no special form and no call evaluates all its items, the first
/// included, and keeps the values that are not `Void`. If the first value kept is a
/// function, the values are evaluated again, as a call. Otherwise they are the result.
pub open spec fn sequence_from(
    items: Seq<Value>,
    k: nat,
    done: Seq<Value>,
    scope: nat,
) -> MoveModel {
    if k < items.len() {
        under(items[k as int], scope, FrameModel::Sequence { items, next: k + 1, done, scope })
    } else if done.len() > 0 && done[0] is Lambda {
        evaluates(Value::List(done), scope)
    } else {
        yields(Value::List(done))
    }
}

/// The values kept by a sequence once `value` has come in.
pub open spec fn kept(done: Seq<Value>, value: Value) -> Seq<Value> {
    if value is Void {
        done
    } else {
        done.push(value)
    }
}

/// The keyword `else`.
pub open spec fn else_keyword() -> Value {
    Value::Keyword("else"@)
}

/// A `cond` looks at its clauses from `items[k]` on. A clause is a list of a test and
/// a result. The clause whose test is the keyword `else` matches at once; the test of
/// any other clause is evaluated first. Without a clause left the `cond` fails.
pub open spec fn cond_from(items: Seq<Value>, k: nat, scope: nat) -> MoveModel {
    if k >= items.len() {
        fails(cond_exhausted())
    } else {
        match items[k as int] {
            Value::List(clause) => if clause.len() != 2 {
                fails(arity("cond"@))
            } else if clause[0] == else_keyword() {
                evaluates(clause[1], scope)
            } else {
                under(
                    clause[0],
                    scope,
                    FrameModel::Cond { clauses: items, next: k + 1, result: clause[1], scope },
                )
            },
            other => fails(invalid("type cond argument"@, rendering(other))),
        }
    }
}

/// With the test of a clause known, a `cond` goes on with that clause's result if the
/// test is true, in tail position, and with the clauses after it if the test is false.
pub open spec fn cond_chosen(
    value: Value,
    clauses: Seq<Value>,
    next: nat,
    result: Value,
    scope: nat,
) -> MoveModel {
    match value {
        Value::Bool(b) => if b {
            evaluates(result, scope)
        } else {
            cond_from(clauses, next, scope)
        },
        other => fails(invalid("type cond argument"@, rendering(other))),
    }
}

/// A `let` evaluates the values of its bindings from `bindings[k]` on, each in the
/// scope `outer` that the `let` stands in, and goes on with its body in the scope
/// `inner` that holds the bindings, in tail position.
pub open spec fn let_from(
    bindings: Seq<Value>,
    k: nat,
    body: Value,
    outer: nat,
    inner: nat,
) -> MoveModel {
    if k >= bindings.len() {
        evaluates(body, inner)
    } else {
        match bindings[k as int] {
            Value::List(pair) => if pair.len() != 2 {
                fails(arity("let"@))
            } else {
                match pair[0] {
                    Value::Symbol(name) => under(
                        pair[1],
                        outer,
                        FrameModel::Let { bindings, next: k + 1, name, body, outer, inner },
                    ),
                    other => fails(invalid("let argument"@, rendering(other))),
                }
            },
            other => fails(invalid("let argument"@, rendering(other))),
        }
    }
}

/// `(let (bindings) body)` makes a new scope under the one it stands in.
pub open spec fn let_form(items: Seq<Value>, scope: nat, env: Seq<ScopeModel>) -> Outcome {
    if items.len() != 3 {
        keep(fails(arity("let"@)), env)
    } else {
        Outcome {
            step: match items[1] {
                Value::List(bindings) => let_from(bindings, 0, items[2], scope, env.len()),
                _ => fails(malformed("let"@)),
            },
            env: extended(env, scope),
        }
    }
}

/// A call evaluates its arguments in the scope `caller` of the call, the `k`-th for
/// the `k`-th parameter, as long as there are both a parameter and an argument. It
/// goes on with the function's body in the scope `callee`, in tail position.
pub open spec fn call_from(
    params: Seq<Seq<char>>,
    items: Seq<Value>,
    k: nat,
    body: Seq<Value>,
    caller: nat,
    callee: nat,
) -> MoveModel {
    if k < params.len() && k + 1 < items.len() {
        under(
            items[(k + 1) as int],
            caller,
            FrameModel::Call {
                params,
                items,
                next: k + 1,
                name: params[k as int],
                body,
                caller,
                callee,
            },
        )
    } else {
        evaluates(Value::List(body), callee)
    }
}

/// A call of a function makes a new scope under the scope that the function was
/// created in, not under the scope of the call.
pub open spec fn call(
    params: Seq<Seq<char>>,
    body: Seq<Value>,
    captured: nat,
    items: Seq<Value>,
    scope: nat,
    env: Seq<ScopeModel>,
) -> Outcome {
    if captured >= env.len() {
        keep(fails(unbound_scope()), env)
    } else {
        Outcome {
            step: call_from(params, items, 0, body, scope, env.len()),
            env: extended(env, captured),
        }
    }
}

/// The names of the first `n` of `params`, if they are all symbols; else the first of
/// them that is none.
pub open spec fn symbol_names(params: Seq<Value>, n: nat) -> Result<Seq<Seq<char>>, Value>
    decreases n,
{
    if n == 0 || n > params.len() {
        Ok(Seq::empty())
    } else {
        match symbol_names(params, (n - 1) as nat) {
            Ok(names) => match params[n - 1] {
                Value::Symbol(name) => Ok(names.push(name)),
                other => Err(other),
            },
            Err(other) => Err(other),
        }
    }
}

/// The function with the parameters `params` and the body `body`, created in `scope`.
/// The parameters are symbols and the body is a list. The function remembers `scope`.
pub open spec fn closure(params: Seq<Value>, body: Value, scope: nat) -> Result<Value, Failure> {
    match symbol_names(params, params.len()) {
        Ok(names) => match body {
            Value::List(forms) => Ok(Value::Lambda(names, forms, scope)),
            _ => Err(malformed("lambda"@)),
        },
        Err(other) => Err(invalid("lambda parameter"@, rendering(other))),
    }
}

/// `(lambda (params) body)` yields a function that remembers the scope it stands in.
pub open spec fn lambda_form(items: Seq<Value>, scope: nat) -> MoveModel {
    if items.len() != 3 {
        fails(arity("lambda"@))
    } else {
        match items[1] {
            Value::List(params) => match closure(params, items[2], scope) {
                Ok(f) => yields(f),
                Err(e) => fails(e),
            },
            _ => fails(malformed("lambda"@)),
        }
    }
}

/// `(define name value)` evaluates the value first. `(define (name params) body)`
/// binds `name` in `scope` to the function with these parameters and this body.
pub open spec fn define_form(items: Seq<Value>, scope: nat, env: Seq<ScopeModel>) -> Outcome {
    if items.len() != 3 {
        keep(fails(arity("define"@)), env)
    } else {
        match items[1] {
            Value::Symbol(name) => keep(
                under(items[2], scope, FrameModel::Define { name, scope }),
                env,
            ),
            Value::List(head) => if head.len() == 0 {
                keep(fails(malformed("define"@)), env)
            } else {
                match head[0] {
                    Value::Symbol(name) => match closure(head.skip(1), items[2], scope) {
                        Ok(f) => Outcome {
                            step: yields(Value::Void),
                            env: defined(env, scope, name, f),
                        },
                        Err(e) => keep(fails(e), env),
                    },
                    _ => keep(fails(malformed("define"@)), env),
                }
            },
            _ => keep(fails(malformed("define"@)), env),
        }
    }
}

/// The name of a list primitive in a message about its number of arguments.
pub open spec fn primitive_name(primitive: Primitive) -> Seq<char> {
    match primitive {
        Primitive::Car => "car"@,
        Primitive::Cdr => "cdr"@,
        Primitive::Length => "length"@,
        Primitive::IsNull => "is_null"@,
    }
}

/// What a message calls an argument of a list primitive that is no list.
pub open spec fn primitive_argument(primitive: Primitive) -> Seq<char> {
    match primitive {
        Primitive::Car => "type car argument"@,
        Primitive::Cdr => "type cdr argument"@,
        Primitive::Length => "type length argument"@,
        Primitive::IsNull => "type null? argument"@,
    }
}

/// A list primitive takes exactly one argument, and evaluates it first.
pub open spec fn unary(primitive: Primitive, items: Seq<Value>, scope: nat) -> MoveModel {
    if items.len() != 2 {
        fails(arity(primitive_name(primitive)))
    } else {
        under(items[1], scope, FrameModel::Unary { primitive, operand: items[1] })
    }
}

/// A list primitive on the value of its argument; `operand` is the argument as it was
/// written. `car` yields the first item of a list that is not empty. `cdr` yields the
/// list without its first item. `length` yields the number of items, as a 64-bit
/// integer, and `null?` whether there is none.
pub open spec fn apply_unary(primitive: Primitive, operand: Value, value: Value) -> MoveModel {
    match value {
        Value::ListData(list) => match primitive {
            Primitive::Car => if list.len() > 0 {
                yields(list[0])
            } else {
                fails(invalid(primitive_argument(primitive), rendering(operand)))
            },
            Primitive::Cdr => if list.len() > 0 {
                yields(Value::ListData(list.skip(1)))
            } else {
                fails(empty_list())
            },
            Primitive::Length => yields(Value::Integer(wrapped(list.len() as int))),
            Primitive::IsNull => yields(Value::Bool(list.len() == 0)),
        },
        _ => fails(invalid(primitive_argument(primitive), rendering(operand))),
    }
}

/// `(cons head tail)` evaluates the head first.
pub open spec fn cons_form(items: Seq<Value>, scope: nat) -> MoveModel {
    if items.len() != 3 {
        fails(arity("cons"@))
    } else {
        under(items[1], scope, FrameModel::ConsHead { tail: items[2], scope })
    }
}

/// `cons` puts `head` before the items of the list `value`.
pub open spec fn cons(head: Value, value: Value) -> MoveModel {
    match value {
        Value::ListData(list) => yields(Value::ListData(seq![head] + list)),
        other => fails(invalid("type cons argument"@, rendering(other))),
    }
}

/// The special forms, by keyword.
pub open spec fn keyword_form(
    word: Seq<char>,
    items: Seq<Value>,
    scope: nat,
    env: Seq<ScopeModel>,
) -> Outcome {
    if word == "if"@ {
        keep(if_form(items, scope), env)
    } else if word == "begin"@ {
        Outcome { step: begin_from(items, 1, Value::Void, env.len()), env: extended(env, scope) }
    } else if word == "define"@ {
        define_form(items, scope, env)
    } else if word == "lambda"@ {
        keep(lambda_form(items, scope), env)
    } else if word == "list"@ {
        keep(list_from(items, 1, Seq::empty(), scope), env)
    } else if word == "car"@ {
        keep(unary(Primitive::Car, items, scope), env)
    } else if word == "cdr"@ {
        keep(unary(Primitive::Cdr, items, scope), env)
    } else if word == "length"@ {
        keep(unary(Primitive::Length, items, scope), env)
    } else if word == "null?"@ {
        keep(unary(Primitive::IsNull, items, scope), env)
    } else if word == "cond"@ {
        keep(cond_from(items, 1, scope), env)
    } else if word == "let"@ {
        let_form(items, scope, env)
    } else if word == "cons"@ {
        keep(cons_form(items, scope), env)
    } else {
        keep(fails(unknown_keyword(word)), env)
    }
}

/// What the evaluator does with a list, by its first item: an operator, a special
/// form, a call of the function that a symbol is bound to, a call of a function that
/// stands there itself, or a sequence.
pub open spec fn enter_list(items: Seq<Value>, scope: nat, env: Seq<ScopeModel>) -> Outcome {
    if items.len() == 0 {
        keep(sequence_from(items, 0, Seq::empty(), scope), env)
    } else {
        match items[0] {
            Value::BinaryOp(op) => keep(binary(op, items, scope), env),
            Value::Keyword(word) => keyword_form(word, items, scope, env),
            Value::Symbol(name) => match lookup(env, scope, name) {
                Some(Value::Lambda(params, body, captured)) => call(
                    params,
                    body,
                    captured,
                    items,
                    scope,
                    env,
                ),
                Some(other) => keep(fails(not_a_lambda(name, rendering(other))), env),
                None => keep(fails(unbound_function(name)), env),
            },
            Value::Lambda(params, body, captured) => call(
                params,
                body,
                captured,
                items,
                scope,
                env,
            ),
            _ => keep(sequence_from(items, 0, Seq::empty(), scope), env),
        }
    }
}

/// What the evaluator does with the expression `expr` in `scope`. A symbol is looked
/// up, a list is evaluated by its first item, and everything else is its own value.
pub open spec fn enter(expr: Value, scope: nat, env: Seq<ScopeModel>) -> Outcome {
    match expr {
        Value::Symbol(name) => keep(symbol(name, scope, env), env),
        Value::List(items) => enter_list(items, scope, env),
        _ => keep(yields(expr), env),
    }
}

/// How the work `frame` goes on with the value `value` that it waited for.
pub open spec fn resume(frame: FrameModel, value: Value, env: Seq<ScopeModel>) -> Outcome {
    match frame {
        FrameModel::BinaryLeft { op, right, scope } => keep(
            under(right, scope, FrameModel::BinaryRight { op, left: value }),
            env,
        ),
        FrameModel::BinaryRight { op, left } => keep(applied(apply_binary(op, left, value)), env),
        FrameModel::If { consequent, alternative, scope } => keep(
            if_chosen(value, consequent, alternative, scope),
            env,
        ),
        FrameModel::Begin { items, next, scope } => keep(
            begin_from(items, next, value, scope),
            env,
        ),
        FrameModel::Define { name, scope } => Outcome {
            step: yields(Value::Void),
            env: defined(env, scope, name, value),
        },
        FrameModel::List { items, next, done, scope } => keep(
            list_from(items, next, done.push(value), scope),
            env,
        ),
        FrameModel::Unary { primitive, operand } => keep(
            apply_unary(primitive, operand, value),
            env,
        ),
        FrameModel::ConsHead { tail, scope } => keep(
            under(tail, scope, FrameModel::ConsTail { head: value }),
            env,
        ),
        FrameModel::ConsTail { head } => keep(cons(head, value), env),
        FrameModel::Cond { clauses, next, result, scope } => keep(
            cond_chosen(value, clauses, next, result, scope),
            env,
        ),
        FrameModel::Let { bindings, next, name, body, outer, inner } => Outcome {
            step: let_from(bindings, next, body, outer, inner),
            env: defined(env, inner, name, value),
        },
        FrameModel::Call { params, items, next, name, body, caller, callee } => Outcome {
            step: call_from(params, items, next, body, caller, callee),
            env: defined(env, callee, name, value),
        },
        FrameModel::Sequence { items, next, done, scope } => keep(
            sequence_from(items, next, kept(done, value), scope),
            env,
        ),
    }
}

/// Whether `o` is the keyword `else`.
fn is_else(o: &Object) -> (r: bool)
    ensures
        r == (o@ == else_keyword()),
{
    match o {
        Object::Keyword(word) => text_eq(word.as_str(), "else"),
        _ => false,
    }
}

/// The failure for something of the wrong type, shown as its text.
fn invalid_object(what: &str, o: &Object) -> (e: EvalError)
    ensures
        e@ == invalid(what@, rendering(o@)),
{
    let shown = o.render();
    EvalError::invalid(what, shown.as_str())
}

/// Evaluates a symbol: looks `name` up from `scope` outward.
pub fn eval_symbol(name: &str, scope: usize, env: &Env) -> (m: Move)
    requires
        env.wf(),
    ensures
        m@ == symbol(name@, scope as nat, env@),
{
    match env.get(scope, name) {
        Some(v) => Move::yields(v),
        None => Move::fails(EvalError::undefined(name)),
    }
}

/// Starts on a list headed by the operator `op`.
pub fn eval_operands(op: String, items: Vec<Object>, scope: usize) -> (m: Move)
    ensures
        m@ == binary(op@, views(items@), scope as nat),
{
    if items.len() != 3 {
        return Move::fails(EvalError::arity("binary operation"));
    }
    let left = items[1].copy();
    let right = items[2].copy();
    Move::under(left, scope, Frame::BinaryLeft { op, right, scope })
}

/// The step that follows the application of an operator.
pub fn after_operator(a: Applied) -> (m: Move)
    ensures
        m@ == applied(a@),
{
    match a {
        Applied::Value(v) => Move::yields(v),
        Applied::Float(request) => Move { control: Control::Float(request), frame: None },
        Applied::Failed(e) => Move::fails(e),
    }
}

/// Starts on an `if`.
pub fn eval_if(items: Vec<Object>, scope: usize) -> (m: Move)
    ensures
        m@ == if_form(views(items@), scope as nat),
{
    if items.len() != 4 {
        return Move::fails(EvalError::arity("if"));
    }
    let condition = items[1].copy();
    let consequent = items[2].copy();
    let alternative = items[3].copy();
    Move::under(condition, scope, Frame::If { consequent, alternative, scope })
}

/// Goes on with the branch of an `if` that the value of its condition chooses.
pub fn choose_branch(value: Object, consequent: Object, alternative: Object, scope: usize) -> (m:
    Move)
    ensures
        m@ == if_chosen(value@, consequent@, alternative@, scope as nat),
{
    match value {
        Object::Bool(b) => {
            if b {
                Move::evaluates(consequent, scope)
            } else {
                Move::evaluates(alternative, scope)
            }
        },
        _ => Move::fails(EvalError::condition_not_bool()),
    }
}

/// Goes on with the form `items[k]` of a `begin`, or ends it with the value `last`.
pub fn next_in_begin(items: Vec<Object>, k: usize, last: Object, scope: usize) -> (m: Move)
    ensures
        m@ == begin_from(views(items@), k as nat, last@, scope as nat),
{
    if k < items.len() {
        let expr = items[k].copy();
        Move::under(expr, scope, Frame::Begin { items, next: k + 1, scope })
    } else {
        Move::yields(last)
    }
}

/// Starts on a `begin`: makes its scope under `scope`, and goes on with its first form.
pub fn eval_begin(items: Vec<Object>, scope: usize, env: &mut Env) -> (m: Move)
    requires
        old(env).wf(),
        scope < old(env)@.len(),
    ensures
        final(env).wf(),
        final(env)@ == extended(old(env)@, scope as nat),
        m@ == begin_from(views(items@), 1, Value::Void, old(env)@.len()),
{
    let child = env.extend(scope);
    next_in_begin(items, 1, Object::Void, child)
}

/// Goes on with the item `items[k]` of a `list`, or ends it with the values `done`.
pub fn next_in_list(items: Vec<Object>, k: usize, done: Vec<Object>, scope: usize) -> (m: Move)
    ensures
        m@ == list_from(views(items@), k as nat, views(done@), scope as nat),
{
    if k < items.len() {
        let expr = items[k].copy();
        Move::under(expr, scope, Frame::List { items, next: k + 1, done, scope })
    } else {
        Move::yields(Object::ListData(done))
    }
}

/// Starts on a `list`.
pub fn eval_list(items: Vec<Object>, scope: usize) -> (m: Move)
    ensures
        m@ == list_from(views(items@), 1, Seq::empty(), scope as nat),
{
    let done: Vec<Object> = Vec::new();
    assert(views(done@) =~= Seq::empty());
    next_in_list(items, 1, done, scope)
}

/// Goes on with the item `items[k]` of a sequence, or ends it with the values `done`.
pub fn next_in_sequence(items: Vec<Object>, k: usize, done: Vec<Object>, scope: usize) -> (m:
    Move)
    ensures
        m@ == sequence_from(views(items@), k as nat, views(done@), scope as nat),
{
    if k < items.len() {
        let expr = items[k].copy();
        Move::under(expr, scope, Frame::Sequence { items, next: k + 1, done, scope })
    } else {
        let calls = done.len() > 0 && match &done[0] {
            Object::Lambda(_, _, _) => true,
            _ => false,
        };
        if calls {
            Move::evaluates(Object::List(done), scope)
        } else {
            Move::yields(Object::List(done))
        }
    }
}

/// Goes on with the clause `items[k]` of a `cond`.
pub fn next_clause(items: Vec<Object>, k: usize, scope: usize) -> (m: Move)
    ensures
        m@ == cond_from(views(items@), k as nat, scope as nat),
{
    if k >= items.len() {
        return Move::fails(EvalError::cond_exhausted());
    }
    match &items[k] {
        Object::List(clause) => {
            proof {
                lemma_views(clause@);
            }
            if clause.len() != 2 {
                Move::fails(EvalError::arity("cond"))
            } else if is_else(&clause[0]) {
                Move::evaluates(clause[1].copy(), scope)
            } else {
                let test = clause[0].copy();
                let result = clause[1].copy();
                Move::under(test, scope, Frame::Cond { clauses: items, next: k + 1, result, scope })
            }
        },
        other => Move::fails(invalid_object("type cond argument", other)),
    }
}

/// Starts on a `cond`.
pub fn eval_cond(items: Vec<Object>, scope: usize) -> (m: Move)
    ensures
        m@ == cond_from(views(items@), 1, scope as nat),
{
    next_clause(items, 1, scope)
}

/// Goes on after the test of a clause of a `cond`.
pub fn choose_clause(
    value: Object,
    clauses: Vec<Object>,
    next: usize,
    result: Object,
    scope: usize,
) -> (m: Move)
    ensures
        m@ == cond_chosen(value@, views(clauses@), next as nat, result@, scope as nat),
{
    match value {
        Object::Bool(b) => {
            if b {
                Move::evaluates(result, scope)
            } else {
                next_clause(clauses, next, scope)
            }
        },
        other => Move::fails(invalid_object("type cond argument", &other)),
    }
}

/// Goes on with the binding `bindings[k]` of a `let`, or with its body.
pub fn next_binding(bindings: Vec<Object>, k: usize, body: Object, outer: usize, inner: usize) -> (m:
    Move)
    ensures
        m@ == let_from(views(bindings@), k as nat, body@, outer as nat, inner as nat),
{
    if k >= bindings.len() {
        return Move::evaluates(body, inner);
    }
    match &bindings[k] {
        Object::List(pair) => {
            proof {
                lemma_views(pair@);
            }
            if pair.len() != 2 {
                Move::fails(EvalError::arity("let"))
            } else {
                match &pair[0] {
                    Object::Symbol(name) => {
                        let name = name.clone();
                        let value = pair[1].copy();
                        Move::under(
                            value,
                            outer,
                            Frame::Let { bindings, next: k + 1, name, body, outer, inner },
                        )
                    },
                    other => Move::fails(invalid_object("let argument", other)),
                }
            }
        },
        other => Move::fails(invalid_object("let argument", other)),
    }
}

/// Starts on a `let`: makes its scope under `scope`, and goes on with its first
/// binding.
pub fn eval_let(items: Vec<Object>, scope: usize, env: &mut Env) -> (m: Move)
    requires
        old(env).wf(),
        scope < old(env)@.len(),
    ensures
        final(env).wf(),
        (Outcome { step: m@, env: final(env)@ }) == let_form(
            views(items@),
            scope as nat,
            old(env)@,
        ),
{
    if items.len() != 3 {
        return Move::fails(EvalError::arity("let"));
    }
    let inner = env.extend(scope);
    match &items[1] {
        Object::List(bindings) => {
            let bindings = copy_list(bindings);
            let body = items[2].copy();
            next_binding(bindings, 0, body, scope, inner)
        },
        _ => Move::fails(EvalError::malformed("let")),
    }
}

/// Goes on with the argument for the parameter `params[k]` of a call, or with the
/// function's body.
pub fn next_argument(
    params: Vec<String>,
    items: Vec<Object>,
    k: usize,
    body: Vec<Object>,
    caller: usize,
    callee: usize,
) -> (m: Move)
    ensures
        m@ == call_from(
            texts(params@),
            views(items@),
            k as nat,
            views(body@),
            caller as nat,
            callee as nat,
        ),
{
    if k < params.len() && k + 1 < items.len() {
        let name = params[k].clone();
        let argument = items[k + 1].copy();
        Move::under(
            argument,
            caller,
            Frame::Call { params, items, next: k + 1, name, body, caller, callee },
        )
    } else {
        Move::evaluates(Object::List(body), callee)
    }
}

/// Starts on a call of the function with the parameters `params` and the body `body`
/// that was created in the scope `captured`: makes the scope of the call under
/// `captured`, and goes on with the first argument.
pub fn eval_call(
    params: Vec<String>,
    body: Vec<Object>,
    captured: usize,
    items: Vec<Object>,
    scope: usize,
    env: &mut Env,
) -> (m: Move)
    requires
        old(env).wf(),
    ensures
        final(env).wf(),
        (Outcome { step: m@, env: final(env)@ }) == call(
            texts(params@),
            views(body@),
            captured as nat,
            views(items@),
            scope as nat,
            old(env)@,
        ),
{
    if captured >= env.len() {
        return Move::fails(EvalError::unbound_scope());
    }
    let callee = env.extend(captured);
    next_argument(params, items, 0, body, scope, callee)
}

/// Once a parameter is no symbol, the names of a longer prefix are not had either.
pub proof fn lemma_symbol_names_error(params: Seq<Value>, n: nat, m: nat)
    requires
        n <= m <= params.len(),
        symbol_names(params, n) is Err,
    ensures
        symbol_names(params, m) == symbol_names(params, n),
    decreases m,
{
    if n < m {
        lemma_symbol_names_error(params, n, (m - 1) as nat);
    }
}

/// Makes the function whose parameters are `params[from..]` and whose body is `body`,
/// created in `scope`.
pub fn make_closure(params: &Vec<Object>, from: usize, body: &Object, scope: usize) -> (r: Result<
    Object,
    EvalError,
>)
    requires
        from <= params.len(),
    ensures
        match closure(views(params@).skip(from as int), body@, scope as nat) {
            Ok(f) => r matches Ok(o) && o@ == f,
            Err(e) => r matches Err(x) && x@ == e,
        },
{
    let ghost wanted = views(params@).skip(from as int);
    let mut names: Vec<String> = Vec::new();
    let mut i: usize = from;
    assert(texts(names@) =~= Seq::empty());
    while i < params.len()
        invariant
            from <= i <= params.len(),
            wanted == views(params@).skip(from as int),
            symbol_names(wanted, (i - from) as nat) == Ok::<Seq<Seq<char>>, Value>(texts(names@)),
        decreases params.len() - i,
    {
        assert(wanted[i - from] == params@[i as int]@);
        match &params[i] {
            Object::Symbol(name) => {
                let ghost before = texts(names@);
                names.push(name.clone());
                assert(texts(names@) =~= before.push(name@));
            },
            other => {
                proof {
                    assert(symbol_names(wanted, (i - from + 1) as nat) == Err::<
                        Seq<Seq<char>>,
                        Value,
                    >(other@));
                    lemma_symbol_names_error(wanted, (i - from + 1) as nat, wanted.len());
                }
                return Err(invalid_object("lambda parameter", other));
            },
        }
        i += 1;
    }
    match body {
        Object::List(forms) => Ok(Object::Lambda(names, copy_list(forms), scope)),
        _ => Err(EvalError::malformed("lambda")),
    }
}

/// Evaluates a `lambda`: makes the function that remembers `scope`.
pub fn eval_lambda(items: &Vec<Object>, scope: usize) -> (m: Move)
    ensures
        m@ == lambda_form(views(items@), scope as nat),
{
    if items.len() != 3 {
        return Move::fails(EvalError::arity("lambda"));
    }
    match &items[1] {
        Object::List(params) => {
            assert(views(params@).skip(0) =~= views(params@));
            match make_closure(params, 0, &items[2], scope) {
                Ok(f) => Move::yields(f),
                Err(e) => Move::fails(e),
            }
        },
        _ => Move::fails(EvalError::malformed("lambda")),
    }
}

/// Starts on a `define`. The form that defines a function binds it at once.
pub fn eval_define(items: Vec<Object>, scope: usize, env: &mut Env) -> (m: Move)
    requires
        old(env).wf(),
        scope < old(env)@.len(),
    ensures
        final(env).wf(),
        (Outcome { step: m@, env: final(env)@ }) == define_form(
            views(items@),
            scope as nat,
            old(env)@,
        ),
{
    if items.len() != 3 {
        return Move::fails(EvalError::arity("define"));
    }
    match &items[1] {
        Object::Symbol(name) => {
            let name = name.clone();
            let value = items[2].copy();
            Move::under(value, scope, Frame::Define { name, scope })
        },
        Object::List(head) => {
            if head.len() == 0 {
                return Move::fails(EvalError::malformed("define"));
            }
            match &head[0] {
                Object::Symbol(name) => {
                    match make_closure(head, 1, &items[2], scope) {
                        Ok(f) => {
                            env.set(scope, name.clone(), f);
                            Move::yields(Object::Void)
                        },
                        Err(e) => Move::fails(e),
                    }
                },
                _ => Move::fails(EvalError::malformed("define")),
            }
        },
        _ => Move::fails(EvalError::malformed("define")),
    }
}

/// Starts on a list primitive.
pub fn eval_unary(primitive: Primitive, items: Vec<Object>, scope: usize) -> (m: Move)
    ensures
        m@ == unary(primitive, views(items@), scope as nat),
{
    if items.len() != 2 {
        let e = match primitive {
            Primitive::Car => EvalError::arity("car"),
            Primitive::Cdr => EvalError::arity("cdr"),
            Primitive::Length => EvalError::arity("length"),
            Primitive::IsNull => EvalError::arity("is_null"),
        };
        return Move::fails(e);
    }
    let argument = items[1].copy();
    let operand = items[1].copy();
    Move::under(argument, scope, Frame::Unary { primitive, operand })
}

/// `car` on the value of its argument.
pub fn eval_car(operand: &Object, value: Object) -> (m: Move)
    ensures
        m@ == apply_unary(Primitive::Car, operand@, value@),
{
    match value {
        Object::ListData(list) => {
            proof {
                lemma_views(list@);
            }
            if list.len() > 0 {
                Move::yields(list[0].copy())
            } else {
                Move::fails(invalid_object("type car argument", operand))
            }
        },
        _ => Move::fails(invalid_object("type car argument", operand)),
    }
}

/// `cdr` on the value of its argument.
pub fn eval_cdr(operand: &Object, value: Object) -> (m: Move)
    ensures
        m@ == apply_unary(Primitive::Cdr, operand@, value@),
{
    match value {
        Object::ListData(list) => {
            if list.len() > 0 {
                let mut list = list;
                let ghost before = views(list@);
                let first = list.remove(0);
                assert(views(list@) =~= before.skip(1));
                Move::yields(Object::ListData(list))
            } else {
                Move::fails(EvalError::empty_list())
            }
        },
        _ => Move::fails(invalid_object("type cdr argument", operand)),
    }
}

/// `length` on the value of its argument.
pub fn eval_length(operand: &Object, value: Object) -> (m: Move)
    ensures
        m@ == apply_unary(Primitive::Length, operand@, value@),
{
    match value {
        Object::ListData(list) => {
            proof {
                lemma_views(list@);
            }
            let n: u64 = list.len() as u64;
            if n <= 0x7fff_ffff_ffff_ffff {
                Move::yields(Object::Integer(n as i64))
            } else {
                let high: u64 = n - 0x8000_0000_0000_0000;
                Move::yields(Object::Integer(i64::MIN + (high as i64)))
            }
        },
        _ => Move::fails(invalid_object("type length argument", operand)),
    }
}

/// `null?` on the value of its argument.
pub fn eval_is_null(operand: &Object, value: Object) -> (m: Move)
    ensures
        m@ == apply_unary(Primitive::IsNull, operand@, value@),
{
    match value {
        Object::ListData(list) => {
            proof {
                lemma_views(list@);
            }
            Move::yields(Object::Bool(list.len() == 0))
        },
        _ => Move::fails(invalid_object("type null? argument", operand)),
    }
}

/// Starts on a `cons`.
pub fn eval_cons(items: Vec<Object>, scope: usize) -> (m: Move)
    ensures
        m@ == cons_form(views(items@), scope as nat),
{
    if items.len() != 3 {
        return Move::fails(EvalError::arity("cons"));
    }
    let head = items[1].copy();
    let tail = items[2].copy();
    Move::under(head, scope, Frame::ConsHead { tail, scope })
}

/// Puts `head` before the items of the list `value`.
pub fn join_cons(head: Object, value: Object) -> (m: Move)
    ensures
        m@ == cons(head@, value@),
{
    match value {
        Object::ListData(list) => {
            let mut list = list;
            let ghost before = views(list@);
            list.insert(0, head);
            assert(views(list@) =~= seq![head@] + before);
            Move::yields(Object::ListData(list))
        },
        other => Move::fails(invalid_object("type cons argument", &other)),
    }
}

/// Starts on the special form that `word` names.
pub fn eval_keyword(word: &str, items: Vec<Object>, scope: usize, env: &mut Env) -> (m: Move)
    requires
        old(env).wf(),
        scope < old(env)@.len(),
    ensures
        final(env).wf(),
        (Outcome { step: m@, env: final(env)@ }) == keyword_form(
            word@,
            views(items@),
            scope as nat,
            old(env)@,
        ),
{
    if text_eq(word, "if") {
        eval_if(items, scope)
    } else if text_eq(word, "begin") {
        eval_begin(items, scope, env)
    } else if text_eq(word, "define") {
        eval_define(items, scope, env)
    } else if text_eq(word, "lambda") {
        eval_lambda(&items, scope)
    } else if text_eq(word, "list") {
        eval_list(items, scope)
    } else if text_eq(word, "car") {
        eval_unary(Primitive::Car, items, scope)
    } else if text_eq(word, "cdr") {
        eval_unary(Primitive::Cdr, items, scope)
    } else if text_eq(word, "length") {
        eval_unary(Primitive::Length, items, scope)
    } else if text_eq(word, "null?") {
        eval_unary(Primitive::IsNull, items, scope)
    } else if text_eq(word, "cond") {
        eval_cond(items, scope)
    } else if text_eq(word, "let") {
        eval_let(items, scope, env)
    } else if text_eq(word, "cons") {
        eval_cons(items, scope)
    } else {
        Move::fails(EvalError::unknown_keyword(word))
    }
}

/// Starts on a list.
pub fn eval_form(items: Vec<Object>, scope: usize, env: &mut Env) -> (m: Move)
    requires
        old(env).wf(),
        scope < old(env)@.len(),
    ensures
        final(env).wf(),
        (Outcome { step: m@, env: final(env)@ }) == enter_list(
            views(items@),
            scope as nat,
            old(env)@,
        ),
{
    if items.len() == 0 {
        let done: Vec<Object> = Vec::new();
        assert(views(done@) =~= Seq::empty());
        return next_in_sequence(items, 0, done, scope);
    }
    match &items[0] {
        Object::BinaryOp(op) => {
            let op = op.clone();
            eval_operands(op, items, scope)
        },
        Object::Keyword(word) => {
            let word = word.clone();
            eval_keyword(word.as_str(), items, scope, env)
        },
        Object::Symbol(name) => {
            let name = name.clone();
            match env.get(scope, name.as_str()) {
                Some(Object::Lambda(params, body, captured)) => eval_call(
                    params,
                    body,
                    captured,
                    items,
                    scope,
                    env,
                ),
                Some(other) => {
                    let shown = other.render();
                    Move::fails(EvalError::not_a_lambda(name.as_str(), shown.as_str()))
                },
                None => Move::fails(EvalError::unbound_function(name.as_str())),
            }
        },
        Object::Lambda(params, body, captured) => {
            let params = copy_names(params);
            let body = copy_list(body);
            let captured = *captured;
            eval_call(params, body, captured, items, scope, env)
        },
        _ => {
            let done: Vec<Object> = Vec::new();
            assert(views(done@) =~= Seq::empty());
            next_in_sequence(items, 0, done, scope)
        },
    }
}

/// Starts on the expression `expr` in `scope`: the first step of its evaluation.
pub fn eval_obj(expr: Object, scope: usize, env: &mut Env) -> (m: Move)
    requires
        old(env).wf(),
        scope < old(env)@.len(),
    ensures
        final(env).wf(),
        (Outcome { step: m@, env: final(env)@ }) == enter(expr@, scope as nat, old(env)@),
{
    match expr {
        Object::Symbol(name) => eval_symbol(name.as_str(), scope, env),
        Object::List(items) => eval_form(items, scope, env),
        other => Move::yields(other),
    }
}

/// Goes on with the work `frame`, now that the value `value` it waited for is there.
pub fn resume_frame(frame: Frame, value: Object, env: &mut Env) -> (m: Move)
    requires
        old(env).wf(),
        crate::machine::frame_fits(frame@, old(env)@.len()),
    ensures
        final(env).wf(),
        (Outcome { step: m@, env: final(env)@ }) == resume(frame@, value@, old(env)@),
{
    match frame {
        Frame::BinaryLeft { op, right, scope } => Move::under(
            right,
            scope,
            Frame::BinaryRight { op, left: value },
        ),
        Frame::BinaryRight { op, left } => after_operator(
            eval_binary_op(op.as_str(), &left, &value),
        ),
        Frame::If { consequent, alternative, scope } => choose_branch(
            value,
            consequent,
            alternative,
            scope,
        ),
        Frame::Begin { items, next, scope } => next_in_begin(items, next, value, scope),
        Frame::Define { name, scope } => {
            env.set(scope, name, value);
            Move::yields(Object::Void)
        },
        Frame::List { items, next, done, scope } => {
            let mut done = done;
            let ghost before = views(done@);
            done.push(value);
            assert(views(done@) =~= before.push(value@));
            next_in_list(items, next, done, scope)
        },
        Frame::Unary { primitive, operand } => {
            match primitive {
                Primitive::Car => eval_car(&operand, value),
                Primitive::Cdr => eval_cdr(&operand, value),
                Primitive::Length => eval_length(&operand, value),
                Primitive::IsNull => eval_is_null(&operand, value),
            }
        },
        Frame::ConsHead { tail, scope } => Move::under(tail, scope, Frame::ConsTail { head: value }),
        Frame::ConsTail { head } => join_cons(head, value),
        Frame::Cond { clauses, next, result, scope } => choose_clause(
            value,
            clauses,
            next,
            result,
            scope,
        ),
        Frame::Let { bindings, next, name, body, outer, inner } => {
            env.set(inner, name, value);
            next_binding(bindings, next, body, outer, inner)
        },
        Frame::Call { params, items, next, name, body, caller, callee } => {
            env.set(callee, name, value);
            next_argument(params, items, next, body, caller, callee)
        },
        Frame::Sequence { items, next, done, scope } => {
            let mut done = done;
            let ghost before = views(done@);
            match value {
                Object::Void => {},
                other => {
                    done.push(other);
                    assert(views(done@) =~= before.push(value@));
                },
            }
            next_in_sequence(items, next, done, scope)
        },
    }
}

/// The machine that is about to evaluate the text `text` in `scope`: it holds the
/// tree of the text, or has failed with the parser's message.
pub open spec fn started(text: Seq<char>, scope: nat) -> MachineModel {
    MachineModel {
        control: match parse_spec(text) {
            Ok(tree) => ControlModel::Eval(tree, scope),
            Err(reason) => ControlModel::Failed(syntax(reason)),
        },
        stack: Seq::empty(),
    }
}

/// Parses `input` and evaluates it in the scope `scope` of `env`, for up to `budget`
/// steps.
///
/// The machine that comes back tells how far the evaluation came. `Control::Done`
/// holds the result and `Control::Failed` the failure. `Control::Float` holds
/// arithmetic on floats for the host to compute: answer it with [`Machine::reply`] and
/// go on with [`Machine::run`]. Any other control means that the budget was used up:
/// go on with [`Machine::run`].
///
/// The scopes that the evaluation makes stay in `env` while it runs. Once the machine
/// is finished, [`Machine::discard`] takes away those that nothing older holds, given
/// the number of scopes that `env` had before.
pub fn eval(input: &str, env: &mut Env, scope: usize, budget: u64) -> (machine: Machine)
    requires
        old(env).wf(),
        scope < old(env)@.len(),
    ensures
        machine.wf(final(env)),
        (State { machine: machine@, env: final(env)@ }) == run(
            State { machine: started(input@, scope as nat), env: old(env)@ },
            budget as nat,
        ),
{
    let mut machine = match parse(input) {
        Ok(tree) => Machine::load(tree, scope),
        Err(e) => Machine::failed(EvalError::syntax(e.err.as_str())),
    };
    machine.run(env, budget);
    machine
}

} // verus!
