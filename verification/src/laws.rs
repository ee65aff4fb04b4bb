//! What holds of every evaluation, proved from the rules.
//!
//! The rules say what one step does. The laws here speak of whole evaluations: of an
//! expression that comes to a value in some number of steps, whatever work waits
//! below it on the stack.

use crate::env::{
    defined, extended, held_below, lemma_defined_is_local, lemma_extended_keeps_lookups,
    lemma_released_holds_nothing, lemma_released_keeps_lookups, lookup, well_formed, ScopeModel,
};
use crate::error::{condition_not_bool, undefined, ErrorKind};
use crate::eval::{
    applied, apply_unary, begin_from, call_from, closure, cond_from, cons, else_keyword, enter,
    kept, let_from, list_from, resume, sequence_from,
};
use crate::machine::{
    discard_point, discarded, finished, keep, landed, lemma_discard_point, lemma_step_fits,
    lemma_step_keeps_chains, machine_fits, machine_holds, replied, run, running, step,
    ControlModel, FrameModel, MachineModel, Outcome, Primitive, State,
};
use crate::object::Value;
use crate::operator::{apply_binary, arithmetic_of, computed, divides, number_of, FloatTask};
use vstd::prelude::*;

verus! {

/// The state after `n` steps.
pub open spec fn steps(s: State, n: nat) -> State
    decreases n,
{
    if n == 0 {
        s
    } else {
        steps(step(s), (n - 1) as nat)
    }
}

/// The state `s` with the frames `base` below its own.
pub open spec fn above(s: State, base: Seq<FrameModel>) -> State {
    State {
        machine: MachineModel { control: s.machine.control, stack: base + s.machine.stack },
        env: s.env,
    }
}

/// Whether the next step of `s` depends on no frame but its own: it starts on an
/// expression, or hands a value to a frame that is there.
pub open spec fn busy(s: State) -> bool {
    s.machine.control is Eval || (s.machine.control is Return && s.machine.stack.len() > 0)
}

/// Whether `s` is busy now and after each of its next `n - 1` steps.
pub open spec fn busy_for(s: State, n: nat) -> bool
    decreases n,
{
    n == 0 || (busy(s) && busy_for(step(s), (n - 1) as nat))
}

/// The state that is about to evaluate `expr` in `scope`, with nothing waiting.
pub open spec fn starting(expr: Value, scope: nat, env: Seq<ScopeModel>) -> State {
    State {
        machine: MachineModel { control: ControlModel::Eval(expr, scope), stack: Seq::empty() },
        env,
    }
}

/// The state that holds the value `v` for the topmost of the frames `stack`.
pub open spec fn holding(v: Value, stack: Seq<FrameModel>, env: Seq<ScopeModel>) -> State {
    State { machine: MachineModel { control: ControlModel::Return(v), stack }, env }
}

/// The state that is about to evaluate `expr` in `scope` above the frames `stack`.
pub open spec fn evaluating(
    expr: Value,
    scope: nat,
    stack: Seq<FrameModel>,
    env: Seq<ScopeModel>,
) -> State {
    State { machine: MachineModel { control: ControlModel::Eval(expr, scope), stack }, env }
}

/// `expr`, evaluated in `scope` from the environment `env`, comes to the value `v` in
/// `n` steps and leaves the environment `after`.
pub open spec fn computes(
    expr: Value,
    scope: nat,
    env: Seq<ScopeModel>,
    n: nat,
    v: Value,
    after: Seq<ScopeModel>,
) -> bool {
    steps(starting(expr, scope, env), n) == holding(v, Seq::empty(), after)
}

/// What holds of a machine before its first step holds after every step: it names
/// only scopes that exist, and every scope's parent is older than the scope.
pub proof fn lemma_steps_keep_invariant(s: State, n: nat)
    requires
        well_formed(s.env),
        machine_fits(s.machine, s.env.len()),
    ensures
        well_formed(steps(s, n).env),
        machine_fits(steps(s, n).machine, steps(s, n).env.len()),
        s.env.len() <= steps(s, n).env.len(),
    decreases n,
{
    if n > 0 {
        lemma_step_fits(s);
        lemma_step_keeps_chains(s);
        lemma_steps_keep_invariant(step(s), (n - 1) as nat);
    }
}

/// Steps add up.
pub proof fn lemma_steps_add(s: State, a: nat, b: nat)
    ensures
        steps(s, a + b) == steps(steps(s, a), b),
    decreases a,
{
    if a > 0 {
        lemma_steps_add(step(s), (a - 1) as nat, b);
    }
}

/// A busy state takes the same step whatever waits below its frames.
pub proof fn lemma_step_above(s: State, base: Seq<FrameModel>)
    requires
        busy(s),
    ensures
        step(above(s, base)) == above(step(s), base),
{
    let stack = s.machine.stack;
    match s.machine.control {
        ControlModel::Eval(expr, scope) => {
            let outcome = enter(expr, scope, s.env);
            match outcome.step.frame {
                Some(frame) => {
                    assert((base + stack).push(frame) =~= base + stack.push(frame));
                },
                None => {},
            }
        },
        ControlModel::Return(value) => {
            assert((base + stack).drop_last() =~= base + stack.drop_last());
            assert((base + stack).last() == stack.last());
            let outcome = resume(stack.last(), value, s.env);
            match outcome.step.frame {
                Some(frame) => {
                    assert((base + stack.drop_last()).push(frame) =~= base
                        + stack.drop_last().push(frame));
                },
                None => {},
            }
        },
        _ => {},
    }
}

/// A state that stays busy takes the same steps whatever waits below its frames.
pub proof fn lemma_steps_above(s: State, base: Seq<FrameModel>, n: nat)
    requires
        busy_for(s, n),
    ensures
        steps(above(s, base), n) == above(steps(s, n), base),
    decreases n,
{
    if n > 0 {
        lemma_step_above(s, base);
        lemma_steps_above(step(s), base, (n - 1) as nat);
    }
}

/// A state that is not busy never comes to hold a value again.
pub proof fn lemma_idle_stays(s: State, n: nat)
    requires
        !busy(s),
        n > 0,
    ensures
        !(steps(s, n).machine.control is Return),
    decreases n,
{
    let next = step(s);
    assert(!(next.machine.control is Return) && !(next.machine.control is Eval));
    assert(steps(s, n) == steps(next, (n - 1) as nat));
    if n > 1 {
        lemma_idle_stays(next, (n - 1) as nat);
    } else {
        assert(steps(next, 0) == next);
    }
}

/// A state that holds a value after `n` steps was busy all the way there.
pub proof fn lemma_busy_until_value(s: State, n: nat)
    requires
        steps(s, n).machine.control is Return,
    ensures
        busy_for(s, n),
    decreases n,
{
    if n > 0 {
        if !busy(s) {
            lemma_idle_stays(s, n);
        }
        lemma_busy_until_value(step(s), (n - 1) as nat);
    }
}

/// Evaluation does not look at the work that waits. An expression that comes to a
/// value with nothing waiting comes to the same value, in as many steps and with the
/// same effect on the environment, above any frames, and leaves those frames as they
/// are.
pub proof fn lemma_computes_above(
    expr: Value,
    scope: nat,
    env: Seq<ScopeModel>,
    n: nat,
    v: Value,
    after: Seq<ScopeModel>,
    stack: Seq<FrameModel>,
)
    requires
        computes(expr, scope, env, n, v, after),
    ensures
        steps(evaluating(expr, scope, stack, env), n) == holding(v, stack, after),
{
    let s = starting(expr, scope, env);
    lemma_busy_until_value(s, n);
    lemma_steps_above(s, stack, n);
    assert(above(s, stack).machine.stack =~= stack);
    assert(above(s, stack) == evaluating(expr, scope, stack, env));
    assert(above(holding(v, Seq::empty(), after), stack).machine.stack =~= stack);
}

/// The state that has ended with the failure `e`.
pub open spec fn failing(
    e: crate::error::Failure,
    stack: Seq<FrameModel>,
    env: Seq<ScopeModel>,
) -> State {
    State { machine: MachineModel { control: ControlModel::Failed(e), stack }, env }
}

/// What a whole evaluation comes to. An expression that comes to a value in `n` steps
/// is finished after one step more, with that value as the result, and stays so
/// however many steps it is given.
pub proof fn lemma_run_finishes(
    expr: Value,
    scope: nat,
    env: Seq<ScopeModel>,
    n: nat,
    v: Value,
    after: Seq<ScopeModel>,
    budget: nat,
)
    requires
        computes(expr, scope, env, n, v, after),
        budget > n,
    ensures
        run(starting(expr, scope, env), budget) == (State {
            machine: MachineModel { control: ControlModel::Done(v), stack: Seq::empty() },
            env: after,
        }),
{
    let s = starting(expr, scope, env);
    lemma_busy_until_value(s, n);
    lemma_run_steps(s, n, (budget - n) as nat);
    let held = holding(v, Seq::empty(), after);
    let done = step(held);
    assert(run(held, (budget - n) as nat) == run(done, (budget - n - 1) as nat));
}

/// A state that stays busy for `n` steps runs through them.
pub proof fn lemma_run_steps(s: State, n: nat, more: nat)
    requires
        busy_for(s, n),
    ensures
        run(s, n + more) == run(steps(s, n), more),
    decreases n,
{
    if n > 0 {
        assert(running(s.machine.control));
        lemma_run_steps(step(s), (n - 1) as nat, more);
    }
}

/// A value is its own value: what is neither a symbol nor a list evaluates to itself
/// in one step, and changes nothing.
pub proof fn lemma_atom(expr: Value, scope: nat, env: Seq<ScopeModel>)
    requires
        !(expr is Symbol),
        !(expr is List),
    ensures
        computes(expr, scope, env, 1, expr, env),
{
    let s = starting(expr, scope, env);
    assert(steps(s, 1) == steps(step(s), 0));
}

/// A symbol evaluates to the nearest binding of its name, and fails as undefined if
/// there is none.
pub proof fn lemma_symbol(name: Seq<char>, scope: nat, env: Seq<ScopeModel>)
    ensures
        match lookup(env, scope, name) {
            Some(v) => computes(Value::Symbol(name), scope, env, 1, v, env),
            None => step(starting(Value::Symbol(name), scope, env)) == failing(
                undefined(name),
                Seq::empty(),
                env,
            ),
        },
{
    let s = starting(Value::Symbol(name), scope, env);
    assert(steps(s, 1) == steps(step(s), 0));
}

/// An operator evaluates its left operand, its right operand, and is applied to the
/// two values. Nothing is left on the stack.
pub proof fn lemma_operator(
    items: Seq<Value>,
    scope: nat,
    stack: Seq<FrameModel>,
    env: Seq<ScopeModel>,
    n1: nat,
    left: Value,
    env1: Seq<ScopeModel>,
    n2: nat,
    right: Value,
    env2: Seq<ScopeModel>,
)
    requires
        items.len() == 3,
        items[0] is BinaryOp,
        computes(items[1], scope, env, n1, left, env1),
        computes(items[2], scope, env1, n2, right, env2),
    ensures
        steps(evaluating(Value::List(items), scope, stack, env), n1 + n2 + 3) == landed(
            stack,
            keep(applied(apply_binary(items[0]->BinaryOp_0, left, right)), env2),
        ),
{
    let op = items[0]->BinaryOp_0;
    let s0 = evaluating(Value::List(items), scope, stack, env);
    let first = FrameModel::BinaryLeft { op, right: items[2], scope };
    let second = FrameModel::BinaryRight { op, left };
    let s1 = evaluating(items[1], scope, stack.push(first), env);
    assert(step(s0) == s1);
    lemma_computes_above(items[1], scope, env, n1, left, env1, stack.push(first));
    let s2 = holding(left, stack.push(first), env1);
    assert(stack.push(first).drop_last() =~= stack);
    let s3 = evaluating(items[2], scope, stack.push(second), env1);
    assert(step(s2) == s3);
    lemma_computes_above(items[2], scope, env1, n2, right, env2, stack.push(second));
    let s4 = holding(right, stack.push(second), env2);
    assert(stack.push(second).drop_last() =~= stack);
    let s5 = landed(stack, keep(applied(apply_binary(op, left, right)), env2));
    assert(step(s4) == s5);
    assert(steps(s0, n1 + n2 + 3) == s5) by {
        lemma_steps_add(s0, 1, n1 + n2 + 2);
        assert(steps(s0, 1) == steps(step(s0), 0));
        lemma_steps_add(s1, n1, n2 + 2);
        lemma_steps_add(s2, 1, n2 + 1);
        assert(steps(s2, 1) == steps(step(s2), 0));
        lemma_steps_add(s3, n2, 1);
        assert(steps(s4, 1) == steps(step(s4), 0));
    }
}

/// Numeric promotion. An arithmetic operator whose operands come to two integers
/// comes to an integer; only a division or a remainder may fail in place of that. If
/// the operands come to two numbers of which one is a float, the machine asks the
/// host for the arithmetic on them as they are, and the host's answer is the float
/// that the expression comes to.
pub proof fn lemma_numeric_promotion(
    items: Seq<Value>,
    scope: nat,
    stack: Seq<FrameModel>,
    env: Seq<ScopeModel>,
    n1: nat,
    left: Value,
    env1: Seq<ScopeModel>,
    n2: nat,
    right: Value,
    env2: Seq<ScopeModel>,
    answer: Seq<char>,
)
    requires
        items.len() == 3,
        items[0] is BinaryOp,
        arithmetic_of(items[0]->BinaryOp_0) is Some,
        number_of(left) is Some,
        number_of(right) is Some,
        computes(items[1], scope, env, n1, left, env1),
        computes(items[2], scope, env1, n2, right, env2),
    ensures
        ({
            let op = arithmetic_of(items[0]->BinaryOp_0).unwrap();
            let end = steps(evaluating(Value::List(items), scope, stack, env), n1 + n2 + 3);
            &&& end.machine.stack == stack
            &&& end.env == env2
            &&& match (left, right) {
                (Value::Integer(x), Value::Integer(y)) => match end.machine.control {
                    ControlModel::Return(v) => v == Value::Integer(computed(op, x, y)),
                    ControlModel::Failed(e) => divides(op) && e.kind == ErrorKind::Arithmetic,
                    _ => false,
                },
                _ => {
                    &&& end.machine.control == ControlModel::Float(
                        FloatTask {
                            op,
                            left: number_of(left).unwrap(),
                            right: number_of(right).unwrap(),
                        },
                    )
                    &&& replied(end.machine, answer) == holding(
                        Value::Float(answer),
                        stack,
                        env2,
                    ).machine
                },
            }
        }),
{
    lemma_operator(items, scope, stack, env, n1, left, env1, n2, right, env2);
}

/// Proper tail calls, for `if`. Once its condition has come to a boolean, an `if`
/// goes on with the branch chosen above the very frames that were there before it:
/// it has left nothing on the stack. A condition that comes to anything else is a
/// failure.
pub proof fn lemma_if(
    items: Seq<Value>,
    scope: nat,
    stack: Seq<FrameModel>,
    env: Seq<ScopeModel>,
    n: nat,
    v: Value,
    after: Seq<ScopeModel>,
)
    requires
        items.len() == 4,
        items[0] == Value::Keyword("if"@),
        computes(items[1], scope, env, n, v, after),
    ensures
        steps(evaluating(Value::List(items), scope, stack, env), n + 2) == match v {
            Value::Bool(b) => evaluating(
                if b {
                    items[2]
                } else {
                    items[3]
                },
                scope,
                stack,
                after,
            ),
            _ => failing(condition_not_bool(), stack, after),
        },
{
    let s0 = evaluating(Value::List(items), scope, stack, env);
    let frame = FrameModel::If { consequent: items[2], alternative: items[3], scope };
    let s1 = evaluating(items[1], scope, stack.push(frame), env);
    assert(step(s0) == s1);
    lemma_computes_above(items[1], scope, env, n, v, after, stack.push(frame));
    let s2 = holding(v, stack.push(frame), after);
    assert(stack.push(frame).drop_last() =~= stack);
    lemma_steps_add(s0, 1, n + 1);
    assert(steps(s0, 1) == steps(step(s0), 0));
    lemma_steps_add(s1, n, 1);
    assert(steps(s2, 1) == steps(step(s2), 0));
}

/// The state of a `cond` that is about to look at its clause `items[k]`.
pub open spec fn at_clause(
    items: Seq<Value>,
    k: nat,
    scope: nat,
    stack: Seq<FrameModel>,
    env: Seq<ScopeModel>,
) -> State {
    landed(stack, keep(cond_from(items, k, scope), env))
}

/// An `else` clause matches unconditionally if it is reached: the `cond` goes on with
/// its result, above the frames that were there before the `cond`.
pub proof fn lemma_cond_else(
    items: Seq<Value>,
    k: nat,
    scope: nat,
    stack: Seq<FrameModel>,
    env: Seq<ScopeModel>,
    result: Value,
)
    requires
        k < items.len(),
        items[k as int] == Value::List(seq![else_keyword(), result]),
    ensures
        at_clause(items, k, scope, stack, env) == evaluating(result, scope, stack, env),
{
}

/// A clause whose test comes to true is chosen: the `cond` goes on with its result,
/// above the frames that were there before the `cond`. A clause whose test comes to
/// false is passed over: the `cond` looks at the next clause.
pub proof fn lemma_cond_clause(
    items: Seq<Value>,
    k: nat,
    scope: nat,
    stack: Seq<FrameModel>,
    env: Seq<ScopeModel>,
    n: nat,
    b: bool,
    after: Seq<ScopeModel>,
)
    requires
        k < items.len(),
        items[k as int] matches Value::List(clause) && clause.len() == 2 && clause[0]
            != else_keyword() && computes(clause[0], scope, env, n, Value::Bool(b), after),
    ensures
        steps(at_clause(items, k, scope, stack, env), n + 1) == if b {
            evaluating(items[k as int]->List_0[1], scope, stack, after)
        } else {
            at_clause(items, k + 1, scope, stack, after)
        },
{
    let clause = items[k as int]->List_0;
    let frame = FrameModel::Cond { clauses: items, next: k + 1, result: clause[1], scope };
    let s0 = at_clause(items, k, scope, stack, env);
    assert(s0 == evaluating(clause[0], scope, stack.push(frame), env));
    lemma_computes_above(clause[0], scope, env, n, Value::Bool(b), after, stack.push(frame));
    let s1 = holding(Value::Bool(b), stack.push(frame), after);
    assert(stack.push(frame).drop_last() =~= stack);
    lemma_steps_add(s0, n, 1);
    assert(steps(s1, 1) == steps(step(s1), 0));
}

/// The steps that a `cond` takes over its clauses from `from` up to `to`, when the
/// test of clause `j` takes `tests[j]` steps.
pub open spec fn steps_over(tests: Seq<nat>, from: nat, to: nat) -> nat
    decreases to - from,
{
    if from >= to {
        0
    } else {
        tests[from as int] + 1 + steps_over(tests, from + 1, to)
    }
}

/// Whether the clauses of a `cond` from `from` up to `to` are all passed over: each
/// has a test that comes to false, in `tests[j]` steps and from the environment
/// `envs[j]` to the environment `envs[j + 1]`.
pub open spec fn passed_over(
    items: Seq<Value>,
    scope: nat,
    from: nat,
    to: nat,
    tests: Seq<nat>,
    envs: Seq<Seq<ScopeModel>>,
) -> bool {
    forall|j: int|
        from <= j < to ==> {
            &&& (#[trigger] items[j]) matches Value::List(clause)
            &&& clause.len() == 2
            &&& clause[0] != else_keyword()
            &&& computes(clause[0], scope, envs[j], tests[j], Value::Bool(false), envs[j + 1])
        }
}

/// The first true clause wins. A `cond` whose clauses before clause `to` all have
/// tests that come to false arrives at clause `to`, with nothing left on the stack.
pub proof fn lemma_cond_first_true_wins(
    items: Seq<Value>,
    scope: nat,
    stack: Seq<FrameModel>,
    from: nat,
    to: nat,
    tests: Seq<nat>,
    envs: Seq<Seq<ScopeModel>>,
)
    requires
        from <= to <= items.len(),
        tests.len() >= to,
        envs.len() > to,
        passed_over(items, scope, from, to, tests, envs),
    ensures
        steps(
            at_clause(items, from, scope, stack, envs[from as int]),
            steps_over(tests, from, to),
        ) == at_clause(items, to, scope, stack, envs[to as int]),
    decreases to - from,
{
    if from < to {
        let s0 = at_clause(items, from, scope, stack, envs[from as int]);
        assert(items[from as int] is List);
        lemma_cond_clause(
            items,
            from,
            scope,
            stack,
            envs[from as int],
            tests[from as int],
            false,
            envs[(from + 1) as int],
        );
        lemma_cond_first_true_wins(items, scope, stack, from + 1, to, tests, envs);
        lemma_steps_add(s0, tests[from as int] + 1, steps_over(tests, from + 1, to));
    }
}

/// The state of a `let` that is about to look at its binding `bindings[k]`.
pub open spec fn at_binding(
    bindings: Seq<Value>,
    k: nat,
    body: Value,
    outer: nat,
    inner: nat,
    stack: Seq<FrameModel>,
    env: Seq<ScopeModel>,
) -> State {
    landed(stack, keep(let_from(bindings, k, body, outer, inner), env))
}

/// The bindings of a `let` are simultaneous. The value of each binding is evaluated
/// in the scope `outer` that the `let` stands in, and bound in the scope `inner` of
/// the `let`. The bindings made so far cannot be seen from `outer`: what a name means
/// there is what it meant before.
pub proof fn lemma_let_binding(
    bindings: Seq<Value>,
    k: nat,
    body: Value,
    outer: nat,
    inner: nat,
    stack: Seq<FrameModel>,
    env: Seq<ScopeModel>,
    n: nat,
    v: Value,
    after: Seq<ScopeModel>,
    key: Seq<char>,
)
    requires
        k < bindings.len(),
        bindings[k as int] matches Value::List(pair) && pair.len() == 2 && pair[0] is Symbol
            && computes(pair[1], outer, env, n, v, after),
        well_formed(after),
        outer < inner < after.len(),
    ensures
        ({
            let pair = bindings[k as int]->List_0;
            let bound = defined(after, inner, pair[0]->Symbol_0, v);
            &&& steps(at_binding(bindings, k, body, outer, inner, stack, env), n + 1)
                == at_binding(bindings, k + 1, body, outer, inner, stack, bound)
            &&& lookup(bound, outer, key) == lookup(after, outer, key)
        }),
{
    let pair = bindings[k as int]->List_0;
    let name = pair[0]->Symbol_0;
    let frame = FrameModel::Let { bindings, next: k + 1, name, body, outer, inner };
    let s0 = at_binding(bindings, k, body, outer, inner, stack, env);
    assert(s0 == evaluating(pair[1], outer, stack.push(frame), env));
    lemma_computes_above(pair[1], outer, env, n, v, after, stack.push(frame));
    let s1 = holding(v, stack.push(frame), after);
    assert(stack.push(frame).drop_last() =~= stack);
    lemma_steps_add(s0, n, 1);
    assert(steps(s1, 1) == steps(step(s1), 0));
    lemma_defined_is_local(after, inner, name, v, outer, key);
}

/// Whether the bindings of a `let` from `from` up to `to` are all made: binding `j`
/// is a name and a value, the value comes to `values[j]` in `counts[j]` steps in the
/// scope `outer`, from the environment `envs[j]` to the environment `afters[j]`, and
/// `envs[j + 1]` is `afters[j]` with the name bound to the value in the scope `inner`.
pub open spec fn bindings_made(
    bindings: Seq<Value>,
    outer: nat,
    inner: nat,
    from: nat,
    to: nat,
    counts: Seq<nat>,
    values: Seq<Value>,
    envs: Seq<Seq<ScopeModel>>,
    afters: Seq<Seq<ScopeModel>>,
) -> bool {
    forall|j: int|
        from <= j < to ==> {
            &&& (#[trigger] bindings[j]) matches Value::List(pair)
            &&& pair.len() == 2
            &&& pair[0] is Symbol
            &&& computes(pair[1], outer, envs[j], counts[j], values[j], afters[j])
            &&& envs[j + 1] == defined(afters[j], inner, pair[0]->Symbol_0, values[j])
            &&& well_formed(afters[j])
            &&& outer < inner < afters[j].len()
        }
}

/// The bindings of a `let` are simultaneous, all of them. Every value is evaluated in
/// the scope that the `let` stands in, and none of the bindings made before it can be
/// seen from there: after each binding a name means in that scope what it meant
/// before. With the bindings from `from` up to `to` made, the `let` has arrived at
/// binding `to` and has left nothing on the stack.
pub proof fn lemma_let_bindings(
    bindings: Seq<Value>,
    body: Value,
    outer: nat,
    inner: nat,
    stack: Seq<FrameModel>,
    from: nat,
    to: nat,
    counts: Seq<nat>,
    values: Seq<Value>,
    envs: Seq<Seq<ScopeModel>>,
    afters: Seq<Seq<ScopeModel>>,
)
    requires
        from <= to <= bindings.len(),
        counts.len() >= to,
        values.len() >= to,
        afters.len() >= to,
        envs.len() > to,
        bindings_made(bindings, outer, inner, from, to, counts, values, envs, afters),
    ensures
        steps(
            at_binding(bindings, from, body, outer, inner, stack, envs[from as int]),
            steps_over(counts, from, to),
        ) == at_binding(bindings, to, body, outer, inner, stack, envs[to as int]),
        forall|j: int, key: Seq<char>|
            from <= j < to ==> lookup(envs[j + 1], outer, key) == #[trigger] lookup(
                afters[j],
                outer,
                key,
            ),
    decreases to - from,
{
    if from < to {
        let s0 = at_binding(bindings, from, body, outer, inner, stack, envs[from as int]);
        assert(bindings[from as int] is List);
        let pair = bindings[from as int]->List_0;
        lemma_let_binding(
            bindings,
            from,
            body,
            outer,
            inner,
            stack,
            envs[from as int],
            counts[from as int],
            values[from as int],
            afters[from as int],
            Seq::empty(),
        );
        lemma_let_bindings(
            bindings,
            body,
            outer,
            inner,
            stack,
            from + 1,
            to,
            counts,
            values,
            envs,
            afters,
        );
        lemma_steps_add(s0, counts[from as int] + 1, steps_over(counts, from + 1, to));
        assert forall|j: int, key: Seq<char>| from <= j < to implies lookup(
            envs[j + 1],
            outer,
            key,
        ) == #[trigger] lookup(afters[j], outer, key) by {
            assert(bindings[j] is List);
            lemma_defined_is_local(
                afters[j],
                inner,
                bindings[j]->List_0[0]->Symbol_0,
                values[j],
                outer,
                key,
            );
        }
    }
}

/// With all its bindings made, a `let` goes on with its body in its own scope, above
/// the frames that were there before the `let`.
pub proof fn lemma_let_body(
    bindings: Seq<Value>,
    body: Value,
    outer: nat,
    inner: nat,
    stack: Seq<FrameModel>,
    env: Seq<ScopeModel>,
)
    ensures
        at_binding(bindings, bindings.len(), body, outer, inner, stack, env) == evaluating(
            body,
            inner,
            stack,
            env,
        ),
{
}

/// The state of a call that is about to look at the argument for its parameter
/// `params[k]`.
pub open spec fn at_argument(
    params: Seq<Seq<char>>,
    items: Seq<Value>,
    k: nat,
    body: Seq<Value>,
    caller: nat,
    callee: nat,
    stack: Seq<FrameModel>,
    env: Seq<ScopeModel>,
) -> State {
    landed(stack, keep(call_from(params, items, k, body, caller, callee), env))
}

/// An argument of a call is evaluated in the scope of the call, and bound to its
/// parameter in the scope of the function's body.
pub proof fn lemma_call_argument(
    params: Seq<Seq<char>>,
    items: Seq<Value>,
    k: nat,
    body: Seq<Value>,
    caller: nat,
    callee: nat,
    stack: Seq<FrameModel>,
    env: Seq<ScopeModel>,
    n: nat,
    v: Value,
    after: Seq<ScopeModel>,
)
    requires
        k < params.len(),
        k + 1 < items.len(),
        computes(items[(k + 1) as int], caller, env, n, v, after),
    ensures
        steps(at_argument(params, items, k, body, caller, callee, stack, env), n + 1)
            == at_argument(
            params,
            items,
            k + 1,
            body,
            caller,
            callee,
            stack,
            defined(after, callee, params[k as int], v),
        ),
{
    let frame = FrameModel::Call {
        params,
        items,
        next: k + 1,
        name: params[k as int],
        body,
        caller,
        callee,
    };
    let s0 = at_argument(params, items, k, body, caller, callee, stack, env);
    assert(s0 == evaluating(items[(k + 1) as int], caller, stack.push(frame), env));
    lemma_computes_above(items[(k + 1) as int], caller, env, n, v, after, stack.push(frame));
    let s1 = holding(v, stack.push(frame), after);
    assert(stack.push(frame).drop_last() =~= stack);
    lemma_steps_add(s0, n, 1);
    assert(steps(s1, 1) == steps(step(s1), 0));
}

/// Whether the arguments of a call for its parameters from `from` up to `to` all come
/// to values: the argument for parameter `j` comes to `values[j]` in `counts[j]` steps,
/// from the environment `envs[j]` to the environment `afters[j]`, and `envs[j + 1]` is
/// `afters[j]` with the parameter bound to the value in the scope of the body.
pub open spec fn arguments_bound(
    params: Seq<Seq<char>>,
    items: Seq<Value>,
    caller: nat,
    callee: nat,
    from: nat,
    to: nat,
    counts: Seq<nat>,
    values: Seq<Value>,
    envs: Seq<Seq<ScopeModel>>,
    afters: Seq<Seq<ScopeModel>>,
) -> bool {
    forall|j: int|
        from <= j < to ==> {
            &&& computes(
                #[trigger] items[j + 1],
                caller,
                envs[j],
                counts[j],
                values[j],
                afters[j],
            )
            &&& envs[j + 1] == defined(afters[j], callee, params[j], values[j])
        }
}

/// A call binds its parameters to the values of its arguments, in order, and leaves
/// nothing on the stack while it does.
pub proof fn lemma_call_arguments(
    params: Seq<Seq<char>>,
    items: Seq<Value>,
    body: Seq<Value>,
    caller: nat,
    callee: nat,
    stack: Seq<FrameModel>,
    from: nat,
    to: nat,
    counts: Seq<nat>,
    values: Seq<Value>,
    envs: Seq<Seq<ScopeModel>>,
    afters: Seq<Seq<ScopeModel>>,
)
    requires
        from <= to <= params.len(),
        to + 1 <= items.len(),
        counts.len() >= to,
        values.len() >= to,
        afters.len() >= to,
        envs.len() > to,
        arguments_bound(params, items, caller, callee, from, to, counts, values, envs, afters),
    ensures
        steps(
            at_argument(params, items, from, body, caller, callee, stack, envs[from as int]),
            steps_over(counts, from, to),
        ) == at_argument(params, items, to, body, caller, callee, stack, envs[to as int]),
    decreases to - from,
{
    if from < to {
        let s0 = at_argument(params, items, from, body, caller, callee, stack, envs[from as int]);
        assert(computes(
            items[(from + 1) as int],
            caller,
            envs[from as int],
            counts[from as int],
            values[from as int],
            afters[from as int],
        ));
        lemma_call_argument(
            params,
            items,
            from,
            body,
            caller,
            callee,
            stack,
            envs[from as int],
            counts[from as int],
            values[from as int],
            afters[from as int],
        );
        lemma_call_arguments(
            params,
            items,
            body,
            caller,
            callee,
            stack,
            from + 1,
            to,
            counts,
            values,
            envs,
            afters,
        );
        lemma_steps_add(s0, counts[from as int] + 1, steps_over(counts, from + 1, to));
    }
}

/// Proper tail calls, for functions. With its arguments bound, a call goes on with the
/// function's body above the very frames that were there before the call: it has
/// left nothing on the stack.
pub proof fn lemma_call_body(
    params: Seq<Seq<char>>,
    items: Seq<Value>,
    k: nat,
    body: Seq<Value>,
    caller: nat,
    callee: nat,
    stack: Seq<FrameModel>,
    env: Seq<ScopeModel>,
)
    requires
        k >= params.len() || k + 1 >= items.len(),
    ensures
        at_argument(params, items, k, body, caller, callee, stack, env) == evaluating(
            Value::List(body),
            callee,
            stack,
            env,
        ),
{
}

/// Closures capture the environment of their definition. A `lambda` comes to a
/// function that remembers the scope it was evaluated in. A call of a function makes
/// its scope under the scope remembered, wherever the call stands, so a name that is
/// no parameter means in the body what it means in the scope of the definition.
pub proof fn lemma_closure(
    params: Seq<Value>,
    body: Seq<Value>,
    defined_in: nat,
    items: Seq<Value>,
    caller: nat,
    stack: Seq<FrameModel>,
    env: Seq<ScopeModel>,
    key: Seq<char>,
)
    requires
        closure(params, Value::List(body), defined_in) is Ok,
        items.len() > 0,
        items[0] == closure(params, Value::List(body), defined_in)->Ok_0,
        defined_in < env.len(),
    ensures
        ({
            let f = closure(params, Value::List(body), defined_in)->Ok_0;
            let called = step(evaluating(Value::List(items), caller, stack, env));
            &&& f matches Value::Lambda(names, forms, captured) && forms == body && captured
                == defined_in
            &&& called.env == extended(env, defined_in)
            &&& called == at_argument(
                f->Lambda_0,
                items,
                0,
                body,
                caller,
                env.len(),
                stack,
                extended(env, defined_in),
            )
            &&& lookup(called.env, env.len(), key) == lookup(env, defined_in, key)
        }),
{
    lemma_extended_keeps_lookups(env, defined_in, defined_in, key);
}

/// Shadowing does not leak outward. A `begin`, a `let` and a call each work in a new
/// scope. Whatever is bound in the new scope, every scope that was there before sees
/// what it saw.
pub proof fn lemma_new_scope_hides_bindings(
    env: Seq<ScopeModel>,
    parent: nat,
    name: Seq<char>,
    value: Value,
    from: nat,
    key: Seq<char>,
)
    requires
        well_formed(env),
        parent < env.len(),
        from < env.len(),
    ensures
        lookup(defined(extended(env, parent), env.len(), name, value), from, key) == lookup(
            env,
            from,
            key,
        ),
{
    let wider = extended(env, parent);
    lemma_extended_keeps_lookups(env, parent, from, key);
    assert(well_formed(wider)) by {
        assert forall|i: int| 0 <= i < wider.len() implies match (#[trigger] wider[i]).parent {
            Some(p) => p < i,
            None => true,
        } by {
            if i < env.len() {
                assert(wider[i] == env[i]);
            }
        }
    }
    lemma_defined_is_local(wider, env.len(), name, value, from, key);
}

/// A `begin` works in a new scope under the scope it stands in, and starts on its
/// first form there.
pub proof fn lemma_begin(
    items: Seq<Value>,
    scope: nat,
    stack: Seq<FrameModel>,
    env: Seq<ScopeModel>,
)
    requires
        items.len() > 0,
        items[0] == Value::Keyword("begin"@),
    ensures
        step(evaluating(Value::List(items), scope, stack, env)) == landed(
            stack,
            Outcome {
                step: begin_from(items, 1, Value::Void, env.len()),
                env: extended(env, scope),
            },
        ),
{
    reveal_strlit("begin");
    reveal_strlit("if");
    assert("begin"@ != "if"@) by {
        assert("begin"@.len() != "if"@.len());
    }
}

/// A `define` binds in the scope it stands in and in no other, and comes to `Void`.
pub proof fn lemma_define(
    items: Seq<Value>,
    scope: nat,
    stack: Seq<FrameModel>,
    env: Seq<ScopeModel>,
    n: nat,
    v: Value,
    after: Seq<ScopeModel>,
)
    requires
        items.len() == 3,
        items[0] == Value::Keyword("define"@),
        items[1] is Symbol,
        computes(items[2], scope, env, n, v, after),
    ensures
        steps(evaluating(Value::List(items), scope, stack, env), n + 2) == holding(
            Value::Void,
            stack,
            defined(after, scope, items[1]->Symbol_0, v),
        ),
{
    reveal_strlit("define");
    reveal_strlit("begin");
    reveal_strlit("if");
    assert("define"@ != "if"@) by {
        assert("define"@.len() != "if"@.len());
    }
    assert("define"@ != "begin"@) by {
        assert("define"@.len() != "begin"@.len());
    }
    let name = items[1]->Symbol_0;
    let s0 = evaluating(Value::List(items), scope, stack, env);
    let frame = FrameModel::Define { name, scope };
    let s1 = evaluating(items[2], scope, stack.push(frame), env);
    assert(step(s0) == s1);
    lemma_computes_above(items[2], scope, env, n, v, after, stack.push(frame));
    let s2 = holding(v, stack.push(frame), after);
    assert(stack.push(frame).drop_last() =~= stack);
    lemma_steps_add(s0, 1, n + 1);
    assert(steps(s0, 1) == steps(step(s0), 0));
    lemma_steps_add(s1, n, 1);
    assert(steps(s2, 1) == steps(step(s2), 0));
}

/// Running in portions is running at once: a machine that is given `a` steps and
/// `b` steps after them comes as far as one that is given `a + b` steps.
pub proof fn lemma_run_add(s: State, a: nat, b: nat)
    ensures
        run(s, a + b) == run(run(s, a), b),
    decreases a,
{
    if a > 0 && running(s.machine.control) {
        lemma_run_add(step(s), (a - 1) as nat, b);
    } else if a > 0 {
        lemma_run_stopped(s, b);
        lemma_run_stopped(s, a + b);
    }
}

/// A machine that has no step to take stays as it is.
pub proof fn lemma_run_stopped(s: State, n: nat)
    requires
        !running(s.machine.control),
    ensures
        run(s, n) == s,
{
}

/// A failure is never left: a machine that has failed stays as it is.
pub proof fn lemma_failure_stays(s: State, n: nat)
    requires
        s.machine.control is Failed,
    ensures
        steps(s, n) == s,
    decreases n,
{
    if n > 0 {
        lemma_failure_stays(step(s), (n - 1) as nat);
    }
}

/// A state that is neither busy nor failed never fails.
pub proof fn lemma_idle_never_fails(s: State, n: nat)
    requires
        !busy(s),
        !(s.machine.control is Failed),
    ensures
        !(steps(s, n).machine.control is Failed),
    decreases n,
{
    if n > 0 {
        let next = step(s);
        assert(!(next.machine.control is Return) && !(next.machine.control is Eval));
        lemma_idle_never_fails(next, (n - 1) as nat);
    }
}

/// A failure propagates unchanged. An expression whose evaluation fails with nothing
/// waiting fails in the same way above any frames: no work that waits recovers from
/// the failure.
pub proof fn lemma_failure_propagates(s: State, base: Seq<FrameModel>, n: nat)
    requires
        steps(s, n).machine.control is Failed,
    ensures
        steps(above(s, base), n).machine.control == steps(s, n).machine.control,
        steps(above(s, base), n).env == steps(s, n).env,
    decreases n,
{
    if s.machine.control is Failed {
        lemma_failure_stays(s, n);
        lemma_failure_stays(above(s, base), n);
    } else if n > 0 {
        if busy(s) {
            lemma_step_above(s, base);
            lemma_failure_propagates(step(s), base, (n - 1) as nat);
        } else {
            lemma_idle_never_fails(s, n);
        }
    }
}

/// The state of a `begin` that is about to look at its form `items[k]`, the form
/// before having come to `last`.
pub open spec fn at_form(
    items: Seq<Value>,
    k: nat,
    last: Value,
    scope: nat,
    stack: Seq<FrameModel>,
    env: Seq<ScopeModel>,
) -> State {
    landed(stack, keep(begin_from(items, k, last, scope), env))
}

/// A `begin` evaluates its forms in order, each in the scope of the `begin`, and
/// comes to the value of the last.
pub proof fn lemma_begin_form(
    items: Seq<Value>,
    k: nat,
    last: Value,
    scope: nat,
    stack: Seq<FrameModel>,
    env: Seq<ScopeModel>,
    n: nat,
    v: Value,
    after: Seq<ScopeModel>,
)
    requires
        k < items.len(),
        computes(items[k as int], scope, env, n, v, after),
    ensures
        steps(at_form(items, k, last, scope, stack, env), n + 1) == at_form(
            items,
            k + 1,
            v,
            scope,
            stack,
            after,
        ),
        at_form(items, items.len(), v, scope, stack, after) == holding(v, stack, after),
{
    let frame = FrameModel::Begin { items, next: k + 1, scope };
    let s0 = at_form(items, k, last, scope, stack, env);
    assert(s0 == evaluating(items[k as int], scope, stack.push(frame), env));
    lemma_computes_above(items[k as int], scope, env, n, v, after, stack.push(frame));
    let s1 = holding(v, stack.push(frame), after);
    assert(stack.push(frame).drop_last() =~= stack);
    lemma_steps_add(s0, n, 1);
    assert(steps(s1, 1) == steps(step(s1), 0));
}

/// The state of a `list` that is about to look at its item `items[k]`, with the
/// values `done` so far.
pub open spec fn at_item(
    items: Seq<Value>,
    k: nat,
    done: Seq<Value>,
    scope: nat,
    stack: Seq<FrameModel>,
    env: Seq<ScopeModel>,
) -> State {
    landed(stack, keep(list_from(items, k, done, scope), env))
}

/// A `list` evaluates its items in order and comes to the data list of their values.
pub proof fn lemma_list_item(
    items: Seq<Value>,
    k: nat,
    done: Seq<Value>,
    scope: nat,
    stack: Seq<FrameModel>,
    env: Seq<ScopeModel>,
    n: nat,
    v: Value,
    after: Seq<ScopeModel>,
)
    requires
        k < items.len(),
        computes(items[k as int], scope, env, n, v, after),
    ensures
        steps(at_item(items, k, done, scope, stack, env), n + 1) == at_item(
            items,
            k + 1,
            done.push(v),
            scope,
            stack,
            after,
        ),
        at_item(items, items.len(), done, scope, stack, env) == holding(
            Value::ListData(done),
            stack,
            env,
        ),
{
    let frame = FrameModel::List { items, next: k + 1, done, scope };
    let s0 = at_item(items, k, done, scope, stack, env);
    assert(s0 == evaluating(items[k as int], scope, stack.push(frame), env));
    lemma_computes_above(items[k as int], scope, env, n, v, after, stack.push(frame));
    let s1 = holding(v, stack.push(frame), after);
    assert(stack.push(frame).drop_last() =~= stack);
    lemma_steps_add(s0, n, 1);
    assert(steps(s1, 1) == steps(step(s1), 0));
}

/// The state of a sequence that is about to look at its item `items[k]`, with the
/// values `done` kept so far.
pub open spec fn at_member(
    items: Seq<Value>,
    k: nat,
    done: Seq<Value>,
    scope: nat,
    stack: Seq<FrameModel>,
    env: Seq<ScopeModel>,
) -> State {
    landed(stack, keep(sequence_from(items, k, done, scope), env))
}

/// A sequence evaluates its items in order, in the scope it stands in, and keeps the
/// values that are not `Void`.
pub proof fn lemma_sequence_member(
    items: Seq<Value>,
    k: nat,
    done: Seq<Value>,
    scope: nat,
    stack: Seq<FrameModel>,
    env: Seq<ScopeModel>,
    n: nat,
    v: Value,
    after: Seq<ScopeModel>,
)
    requires
        k < items.len(),
        computes(items[k as int], scope, env, n, v, after),
    ensures
        steps(at_member(items, k, done, scope, stack, env), n + 1) == at_member(
            items,
            k + 1,
            kept(done, v),
            scope,
            stack,
            after,
        ),
{
    let frame = FrameModel::Sequence { items, next: k + 1, done, scope };
    let s0 = at_member(items, k, done, scope, stack, env);
    assert(s0 == evaluating(items[k as int], scope, stack.push(frame), env));
    lemma_computes_above(items[k as int], scope, env, n, v, after, stack.push(frame));
    let s1 = holding(v, stack.push(frame), after);
    assert(stack.push(frame).drop_last() =~= stack);
    lemma_steps_add(s0, n, 1);
    assert(steps(s1, 1) == steps(step(s1), 0));
}

/// The list primitive that a keyword names, if it names one.
pub open spec fn primitive_of(word: Seq<char>) -> Option<Primitive> {
    if word == "car"@ {
        Some(Primitive::Car)
    } else if word == "cdr"@ {
        Some(Primitive::Cdr)
    } else if word == "length"@ {
        Some(Primitive::Length)
    } else if word == "null?"@ {
        Some(Primitive::IsNull)
    } else {
        None
    }
}

/// A list primitive evaluates its argument and is applied to the value. For a list
/// that is not empty `car` comes to the first item and `cdr` to the list of the
/// others; `length` comes to the number of items and `null?` to whether there is
/// none.
pub proof fn lemma_primitive(
    items: Seq<Value>,
    scope: nat,
    stack: Seq<FrameModel>,
    env: Seq<ScopeModel>,
    n: nat,
    v: Value,
    after: Seq<ScopeModel>,
)
    requires
        items.len() == 2,
        items[0] is Keyword,
        primitive_of(items[0]->Keyword_0) is Some,
        computes(items[1], scope, env, n, v, after),
    ensures
        steps(evaluating(Value::List(items), scope, stack, env), n + 2) == landed(
            stack,
            keep(apply_unary(primitive_of(items[0]->Keyword_0).unwrap(), items[1], v), after),
        ),
        v matches Value::ListData(list) ==> {
            &&& list.len() > 0 ==> apply_unary(Primitive::Car, items[1], v).control
                == ControlModel::Return(list[0])
            &&& list.len() > 0 ==> apply_unary(Primitive::Cdr, items[1], v).control
                == ControlModel::Return(Value::ListData(list.skip(1)))
            &&& list.len() <= i64::MAX ==> apply_unary(Primitive::Length, items[1], v).control
                == ControlModel::Return(Value::Integer(list.len() as int))
            &&& apply_unary(Primitive::Length, items[1], v).control is Return
            &&& apply_unary(Primitive::IsNull, items[1], v).control == ControlModel::Return(
                Value::Bool(list.len() == 0),
            )
        },
{
    reveal_strlit("if");
    reveal_strlit("begin");
    reveal_strlit("define");
    reveal_strlit("lambda");
    reveal_strlit("list");
    reveal_strlit("car");
    reveal_strlit("cdr");
    reveal_strlit("length");
    reveal_strlit("null?");
    let word = items[0]->Keyword_0;
    assert(word.len() == 3 || word.len() == 6 || word.len() == 5);
    assert(word != "if"@);
    assert(word != "list"@);
    assert(word != "begin"@) by {
        if word == "null?"@ {
            assert(word[0] == 'n');
            assert("begin"@[0] == 'b');
        }
    }
    assert(word != "define"@ && word != "lambda"@) by {
        if word == "length"@ {
            assert(word[2] == 'n');
            assert("define"@[2] == 'f');
            assert("lambda"@[2] == 'm');
        }
    }
    assert(word == "cdr"@ ==> word != "car"@) by {
        assert("cdr"@[1] == 'd');
        assert("car"@[1] == 'a');
    }
    let primitive = primitive_of(word).unwrap();
    let s0 = evaluating(Value::List(items), scope, stack, env);
    let frame = FrameModel::Unary { primitive, operand: items[1] };
    let s1 = evaluating(items[1], scope, stack.push(frame), env);
    assert(step(s0) == s1);
    lemma_computes_above(items[1], scope, env, n, v, after, stack.push(frame));
    let s2 = holding(v, stack.push(frame), after);
    assert(stack.push(frame).drop_last() =~= stack);
    lemma_steps_add(s0, 1, n + 1);
    assert(steps(s0, 1) == steps(step(s0), 0));
    lemma_steps_add(s1, n, 1);
    assert(steps(s2, 1) == steps(step(s2), 0));
}

/// `cons` evaluates the head, evaluates the tail, and puts the one before the items
/// of the other.
pub proof fn lemma_cons(
    items: Seq<Value>,
    scope: nat,
    stack: Seq<FrameModel>,
    env: Seq<ScopeModel>,
    n1: nat,
    head: Value,
    env1: Seq<ScopeModel>,
    n2: nat,
    tail: Value,
    env2: Seq<ScopeModel>,
)
    requires
        items.len() == 3,
        items[0] == Value::Keyword("cons"@),
        computes(items[1], scope, env, n1, head, env1),
        computes(items[2], scope, env1, n2, tail, env2),
    ensures
        steps(evaluating(Value::List(items), scope, stack, env), n1 + n2 + 3) == landed(
            stack,
            keep(cons(head, tail), env2),
        ),
        tail matches Value::ListData(list) ==> cons(head, tail).control == ControlModel::Return(
            Value::ListData(seq![head] + list),
        ),
{
    reveal_strlit("if");
    reveal_strlit("begin");
    reveal_strlit("define");
    reveal_strlit("lambda");
    reveal_strlit("list");
    reveal_strlit("car");
    reveal_strlit("cdr");
    reveal_strlit("length");
    reveal_strlit("null?");
    reveal_strlit("cond");
    reveal_strlit("let");
    reveal_strlit("cons");
    let word = "cons"@;
    assert(word.len() == 4);
    assert(word != "list"@) by {
        assert(word[0] == 'c');
        assert("list"@[0] == 'l');
    }
    assert(word != "cond"@) by {
        assert(word[3] == 's');
        assert("cond"@[3] == 'd');
    }
    let s0 = evaluating(Value::List(items), scope, stack, env);
    let first = FrameModel::ConsHead { tail: items[2], scope };
    let second = FrameModel::ConsTail { head };
    let s1 = evaluating(items[1], scope, stack.push(first), env);
    assert(step(s0) == s1);
    lemma_computes_above(items[1], scope, env, n1, head, env1, stack.push(first));
    let s2 = holding(head, stack.push(first), env1);
    assert(stack.push(first).drop_last() =~= stack);
    let s3 = evaluating(items[2], scope, stack.push(second), env1);
    assert(step(s2) == s3);
    lemma_computes_above(items[2], scope, env1, n2, tail, env2, stack.push(second));
    let s4 = holding(tail, stack.push(second), env2);
    assert(stack.push(second).drop_last() =~= stack);
    let s5 = landed(stack, keep(cons(head, tail), env2));
    assert(step(s4) == s5);
    assert(steps(s0, n1 + n2 + 3) == s5) by {
        lemma_steps_add(s0, 1, n1 + n2 + 2);
        assert(steps(s0, 1) == steps(step(s0), 0));
        lemma_steps_add(s1, n1, n2 + 2);
        lemma_steps_add(s2, 1, n2 + 1);
        assert(steps(s2, 1) == steps(step(s2), 0));
        lemma_steps_add(s3, n2, 1);
        assert(steps(s4, 1) == steps(step(s4), 0));
    }
}

/// Discarding the scopes of a finished evaluation is safe. Every scope that stays
/// sees what it saw, the chains stay finite, no scope that there was before the
/// evaluation goes, and nothing that is left refers to a scope that is gone: neither
/// the result nor a binding holds a closure that was made in one.
pub proof fn lemma_discard(s: State, mark: nat, from: nat, key: Seq<char>)
    requires
        well_formed(s.env),
        finished(s.machine.control),
        mark <= s.env.len(),
        from < discard_point(s, mark),
    ensures
        ({
            let after = discarded(s, mark);
            &&& mark <= after.env.len() <= s.env.len()
            &&& after.env.len() == discard_point(s, mark)
            &&& lookup(after.env, from, key) == lookup(s.env, from, key)
            &&& well_formed(after.env)
            &&& after.env.len() < s.env.len() ==> {
                &&& !held_below(after.env, after.env.len(), after.env.len())
                &&& !machine_holds(after.machine.control, after.env.len())
            }
            &&& machine_fits(after.machine, after.env.len())
        }),
{
    lemma_discard_point(s, mark);
    let point = discard_point(s, mark);
    lemma_released_keeps_lookups(s.env, point, from, key);
    if point < s.env.len() {
        lemma_released_holds_nothing(s.env, point);
    }
}

} // verus!
