//! The evaluator's state: what it is doing now, and what it has put off.
//!
//! Evaluation is a sequence of small steps. The [`Control`] says what the next step
//! works on. Work that waits for the value of a subexpression is kept as a [`Frame`]
//! on a stack. A step in tail position, such as the choice of a branch of an `if` or
//! the entry into a function's body, puts no frame on the stack, so a tail call costs
//! no space.

use crate::env::{releasable, well_formed, Env, ScopeModel};
use crate::eval::{enter, eval_obj, resume, resume_frame};
use crate::error::{EvalError, Failure};
use crate::object::{holds_scope, texts, views, Object, Value};
use crate::operator::{FloatRequest, FloatTask};
use vstd::prelude::*;

verus! {

/// The primitives that take one list.
#[derive(Debug, Clone, Copy, PartialEq, Eq, Structural)]
pub enum Primitive {
    Car,
    Cdr,
    Length,
    IsNull,
}

/// Work that waits for a value.
#[derive(Debug, PartialEq)]
pub enum Frame {
    /// The left operand of `op` is being evaluated; `right` comes next, in `scope`.
    BinaryLeft { op: String, right: Object, scope: usize },
    /// The right operand of `op` is being evaluated; `left` is the left one's value.
    BinaryRight { op: String, left: Object },
    /// The condition of an `if` is being evaluated.
    If { consequent: Object, alternative: Object, scope: usize },
    /// A form of a `begin` is being evaluated; `items[next]` comes next, in `scope`.
    Begin { items: Vec<Object>, next: usize, scope: usize },
    /// The value that `name` is to be bound to in `scope` is being evaluated.
    Define { name: String, scope: usize },
    /// An item of a `list` is being evaluated; `done` holds the values so far.
    List { items: Vec<Object>, next: usize, done: Vec<Object>, scope: usize },
    /// The argument of a list primitive is being evaluated; `operand` is its text.
    Unary { primitive: Primitive, operand: Object },
    /// The first argument of `cons` is being evaluated; `tail` comes next.
    ConsHead { tail: Object, scope: usize },
    /// The second argument of `cons` is being evaluated.
    ConsTail { head: Object },
    /// The test of a clause of a `cond` is being evaluated; `result` is that clause's
    /// result, and `clauses[next]` the clause after it.
    Cond { clauses: Vec<Object>, next: usize, result: Object, scope: usize },
    /// The value of a binding of a `let` is being evaluated in `outer`, to be bound to
    /// `name` in `inner`; `bindings[next]` comes next.
    Let {
        bindings: Vec<Object>,
        next: usize,
        name: String,
        body: Object,
        outer: usize,
        inner: usize,
    },
    /// An argument of a call is being evaluated in `caller`, to be bound to `name` in
    /// `callee`; `params[next]` is the parameter after it, and `items[next + 1]` its
    /// argument.
    Call {
        params: Vec<String>,
        items: Vec<Object>,
        next: usize,
        name: String,
        body: Vec<Object>,
        caller: usize,
        callee: usize,
    },
    /// An item of a list that is no special form and no call is being evaluated;
    /// `done` holds the values so far that are not `Void`.
    Sequence { items: Vec<Object>, next: usize, done: Vec<Object>, scope: usize },
}

/// The mathematical model of a [`Frame`].
pub enum FrameModel {
    BinaryLeft { op: Seq<char>, right: Value, scope: nat },
    BinaryRight { op: Seq<char>, left: Value },
    If { consequent: Value, alternative: Value, scope: nat },
    Begin { items: Seq<Value>, next: nat, scope: nat },
    Define { name: Seq<char>, scope: nat },
    List { items: Seq<Value>, next: nat, done: Seq<Value>, scope: nat },
    Unary { primitive: Primitive, operand: Value },
    ConsHead { tail: Value, scope: nat },
    ConsTail { head: Value },
    Cond { clauses: Seq<Value>, next: nat, result: Value, scope: nat },
    Let { bindings: Seq<Value>, next: nat, name: Seq<char>, body: Value, outer: nat, inner: nat },
    Call {
        params: Seq<Seq<char>>,
        items: Seq<Value>,
        next: nat,
        name: Seq<char>,
        body: Seq<Value>,
        caller: nat,
        callee: nat,
    },
    Sequence { items: Seq<Value>, next: nat, done: Seq<Value>, scope: nat },
}

impl View for Frame {
    type V = FrameModel;

    open spec fn view(&self) -> FrameModel {
        match self {
            Frame::BinaryLeft { op, right, scope } => FrameModel::BinaryLeft {
                op: op@,
                right: right@,
                scope: *scope as nat,
            },
            Frame::BinaryRight { op, left } => FrameModel::BinaryRight { op: op@, left: left@ },
            Frame::If { consequent, alternative, scope } => FrameModel::If {
                consequent: consequent@,
                alternative: alternative@,
                scope: *scope as nat,
            },
            Frame::Begin { items, next, scope } => FrameModel::Begin {
                items: views(items@),
                next: *next as nat,
                scope: *scope as nat,
            },
            Frame::Define { name, scope } => FrameModel::Define {
                name: name@,
                scope: *scope as nat,
            },
            Frame::List { items, next, done, scope } => FrameModel::List {
                items: views(items@),
                next: *next as nat,
                done: views(done@),
                scope: *scope as nat,
            },
            Frame::Unary { primitive, operand } => FrameModel::Unary {
                primitive: *primitive,
                operand: operand@,
            },
            Frame::ConsHead { tail, scope } => FrameModel::ConsHead {
                tail: tail@,
                scope: *scope as nat,
            },
            Frame::ConsTail { head } => FrameModel::ConsTail { head: head@ },
            Frame::Cond { clauses, next, result, scope } => FrameModel::Cond {
                clauses: views(clauses@),
                next: *next as nat,
                result: result@,
                scope: *scope as nat,
            },
            Frame::Let { bindings, next, name, body, outer, inner } => FrameModel::Let {
                bindings: views(bindings@),
                next: *next as nat,
                name: name@,
                body: body@,
                outer: *outer as nat,
                inner: *inner as nat,
            },
            Frame::Call { params, items, next, name, body, caller, callee } => FrameModel::Call {
                params: texts(params@),
                items: views(items@),
                next: *next as nat,
                name: name@,
                body: views(body@),
                caller: *caller as nat,
                callee: *callee as nat,
            },
            Frame::Sequence { items, next, done, scope } => FrameModel::Sequence {
                items: views(items@),
                next: *next as nat,
                done: views(done@),
                scope: *scope as nat,
            },
        }
    }
}

/// What the next step works on.
#[derive(Debug, PartialEq)]
pub enum Control {
    /// An expression to evaluate in a scope.
    Eval(Object, usize),
    /// A value for the frame on top of the stack, or the result if the stack is empty.
    Return(Object),
    /// Arithmetic on floats that the host is to compute. The machine waits for the
    /// answer.
    Float(FloatRequest),
    /// The result. The machine has finished.
    Done(Object),
    /// The failure. The machine has finished.
    Failed(EvalError),
}

/// The mathematical model of a [`Control`].
pub enum ControlModel {
    Eval(Value, nat),
    Return(Value),
    Float(FloatTask),
    Done(Value),
    Failed(Failure),
}

impl View for Control {
    type V = ControlModel;

    open spec fn view(&self) -> ControlModel {
        match self {
            Control::Eval(o, scope) => ControlModel::Eval(o@, *scope as nat),
            Control::Return(o) => ControlModel::Return(o@),
            Control::Float(r) => ControlModel::Float(r@),
            Control::Done(o) => ControlModel::Done(o@),
            Control::Failed(e) => ControlModel::Failed(e@),
        }
    }
}

/// What one step decides: the next control, and the frame it puts on the stack, if
/// any.
pub struct Move {
    pub control: Control,
    pub frame: Option<Frame>,
}

/// The mathematical model of a [`Move`].
pub struct MoveModel {
    pub control: ControlModel,
    pub frame: Option<FrameModel>,
}

impl View for Move {
    type V = MoveModel;

    open spec fn view(&self) -> MoveModel {
        MoveModel {
            control: self.control@,
            frame: match self.frame {
                Some(f) => Some(f@),
                None => None,
            },
        }
    }
}

/// What one step comes to: its decision, and the environment after it.
pub struct Outcome {
    pub step: MoveModel,
    pub env: Seq<ScopeModel>,
}

/// The step that hands `v` to the frame on top.
pub open spec fn yields(v: Value) -> MoveModel {
    MoveModel { control: ControlModel::Return(v), frame: None }
}

/// The step that ends the evaluation with the failure `e`.
pub open spec fn fails(e: Failure) -> MoveModel {
    MoveModel { control: ControlModel::Failed(e), frame: None }
}

/// The step that goes on with `expr` in `scope` in place of the current expression.
/// It puts nothing on the stack.
pub open spec fn evaluates(expr: Value, scope: nat) -> MoveModel {
    MoveModel { control: ControlModel::Eval(expr, scope), frame: None }
}

/// The step that evaluates `expr` in `scope` for the frame `frame`.
pub open spec fn under(expr: Value, scope: nat, frame: FrameModel) -> MoveModel {
    MoveModel { control: ControlModel::Eval(expr, scope), frame: Some(frame) }
}

/// A step that leaves the environment as it is.
pub open spec fn keep(step: MoveModel, env: Seq<ScopeModel>) -> Outcome {
    Outcome { step, env }
}

/// Whether every scope that `frame` names is among the first `n`.
pub open spec fn frame_fits(frame: FrameModel, n: nat) -> bool {
    match frame {
        FrameModel::BinaryLeft { scope, .. } => scope < n,
        FrameModel::BinaryRight { .. } => true,
        FrameModel::If { scope, .. } => scope < n,
        FrameModel::Begin { scope, .. } => scope < n,
        FrameModel::Define { scope, .. } => scope < n,
        FrameModel::List { scope, .. } => scope < n,
        FrameModel::Unary { .. } => true,
        FrameModel::ConsHead { scope, .. } => scope < n,
        FrameModel::ConsTail { .. } => true,
        FrameModel::Cond { scope, .. } => scope < n,
        FrameModel::Let { outer, inner, .. } => outer < n && inner < n,
        FrameModel::Call { caller, callee, .. } => caller < n && callee < n,
        FrameModel::Sequence { scope, .. } => scope < n,
    }
}

/// Whether the scope that `control` names, if any, is among the first `n`.
pub open spec fn control_fits(control: ControlModel, n: nat) -> bool {
    match control {
        ControlModel::Eval(_, scope) => scope < n,
        _ => true,
    }
}

/// Whether every scope that `step` names is among the first `n`.
pub open spec fn move_fits(step: MoveModel, n: nat) -> bool {
    &&& control_fits(step.control, n)
    &&& match step.frame {
        Some(frame) => frame_fits(frame, n),
        None => true,
    }
}

impl Move {
    pub fn yields(v: Object) -> (m: Move)
        ensures
            m@ == yields(v@),
    {
        Move { control: Control::Return(v), frame: None }
    }

    pub fn fails(e: EvalError) -> (m: Move)
        ensures
            m@ == fails(e@),
    {
        Move { control: Control::Failed(e), frame: None }
    }

    pub fn evaluates(expr: Object, scope: usize) -> (m: Move)
        ensures
            m@ == evaluates(expr@, scope as nat),
    {
        Move { control: Control::Eval(expr, scope), frame: None }
    }

    pub fn under(expr: Object, scope: usize, frame: Frame) -> (m: Move)
        ensures
            m@ == under(expr@, scope as nat, frame@),
    {
        Move { control: Control::Eval(expr, scope), frame: Some(frame) }
    }
}

/// The models of a stack of frames, the top last.
pub open spec fn frames(stack: Seq<Frame>) -> Seq<FrameModel> {
    Seq::new(stack.len(), |i: int| stack[i]@)
}

/// The evaluator: the work at hand and the stack of work that waits, the top last.
#[derive(Debug, PartialEq)]
pub struct Machine {
    pub control: Control,
    pub stack: Vec<Frame>,
}

/// The mathematical model of a [`Machine`].
pub struct MachineModel {
    pub control: ControlModel,
    pub stack: Seq<FrameModel>,
}

impl View for Machine {
    type V = MachineModel;

    open spec fn view(&self) -> MachineModel {
        MachineModel { control: self.control@, stack: frames(self.stack@) }
    }
}

/// A machine together with the environment it works in.
pub struct State {
    pub machine: MachineModel,
    pub env: Seq<ScopeModel>,
}

/// Whether every scope that the machine names is among the first `n`.
pub open spec fn machine_fits(machine: MachineModel, n: nat) -> bool {
    &&& control_fits(machine.control, n)
    &&& forall|i: int| 0 <= i < machine.stack.len() ==> frame_fits(#[trigger] machine.stack[i], n)
}

/// Whether the machine has a step to take: it is neither finished nor waiting for
/// the host.
pub open spec fn running(control: ControlModel) -> bool {
    control is Eval || control is Return
}

/// The state after a step that came to `outcome`, taken above the frames `stack`.
pub open spec fn landed(stack: Seq<FrameModel>, outcome: Outcome) -> State {
    State {
        machine: MachineModel {
            control: outcome.step.control,
            stack: match outcome.step.frame {
                Some(frame) => stack.push(frame),
                None => stack,
            },
        },
        env: outcome.env,
    }
}

/// One step. An expression is started on. A value goes to the frame on top of the
/// stack, which is taken off; with no frame left, the value is the result. A machine
/// that is finished or waits for the host stays as it is.
pub open spec fn step(s: State) -> State {
    match s.machine.control {
        ControlModel::Eval(expr, scope) => landed(s.machine.stack, enter(expr, scope, s.env)),
        ControlModel::Return(value) => if s.machine.stack.len() == 0 {
            State {
                machine: MachineModel { control: ControlModel::Done(value), stack: s.machine.stack },
                env: s.env,
            }
        } else {
            landed(s.machine.stack.drop_last(), resume(s.machine.stack.last(), value, s.env))
        },
        _ => s,
    }
}

/// Up to `n` steps: the machine goes on until it is finished, waits for the host, or
/// has taken `n` steps.
pub open spec fn run(s: State, n: nat) -> State
    decreases n,
{
    if n == 0 || !running(s.machine.control) {
        s
    } else {
        run(step(s), (n - 1) as nat)
    }
}

/// The machine after the host has answered its request with the float written
/// `text`: the float is the value of the arithmetic. A machine that did not ask stays
/// as it is.
pub open spec fn replied(machine: MachineModel, text: Seq<char>) -> MachineModel {
    if machine.control is Float {
        MachineModel { control: ControlModel::Return(Value::Float(text)), stack: machine.stack }
    } else {
        machine
    }
}

/// Whether the machine may still use a scope with a handle of `n` or more: it is not
/// finished, or its result holds a closure that was made in such a scope.
pub open spec fn machine_holds(control: ControlModel, n: nat) -> bool {
    match control {
        ControlModel::Done(v) => holds_scope(v, n),
        ControlModel::Failed(_) => false,
        _ => true,
    }
}

/// Whether the scopes with handles of `n` or more can go: the machine is finished,
/// and neither its result nor a binding of an older scope holds a closure that was
/// made in one of them.
pub open spec fn disposable(s: State, n: nat) -> bool {
    !machine_holds(s.machine.control, n) && releasable(s.env, n)
}

/// Whether the machine has come to its end, with a result or a failure.
pub open spec fn finished(control: ControlModel) -> bool {
    control is Done || control is Failed
}

/// The number of scopes that stay when the scopes made since there were `n` are
/// discarded: the least number from `n` on from which the scopes can go, or the
/// number of all scopes if there is none.
pub open spec fn discard_point(s: State, n: nat) -> nat
    decreases s.env.len() - n,
{
    if n >= s.env.len() {
        s.env.len()
    } else if disposable(s, n) {
        n
    } else {
        discard_point(s, n + 1)
    }
}

/// The state after a finished machine has discarded the scopes made since there were
/// `mark`. The youngest scopes go, down to the youngest of them that an older scope or
/// the result still holds through a closure; that scope and the scopes older than it
/// stay. The result or the failure stays, and the frames that a failure left behind
/// go. A machine that is not finished discards nothing.
pub open spec fn discarded(s: State, mark: nat) -> State {
    if finished(s.machine.control) {
        State {
            machine: MachineModel { control: s.machine.control, stack: Seq::empty() },
            env: s.env.take(discard_point(s, mark) as int),
        }
    } else {
        s
    }
}

/// The scopes that stay are at least those that there were, and at most all. Where
/// fewer than all stay, the scopes above them could go.
pub proof fn lemma_discard_point(s: State, n: nat)
    requires
        n <= s.env.len(),
    ensures
        n <= discard_point(s, n) <= s.env.len(),
        discard_point(s, n) < s.env.len() ==> disposable(s, discard_point(s, n)),
        forall|k: nat| n <= k < discard_point(s, n) ==> !disposable(s, k),
    decreases s.env.len() - n,
{
    if n < s.env.len() && !disposable(s, n) {
        lemma_discard_point(s, n + 1);
    }
}

/// A step that starts on an expression names only scopes that exist afterwards, and
/// removes no scope.
pub proof fn lemma_enter_fits(expr: Value, scope: nat, env: Seq<ScopeModel>)
    requires
        scope < env.len(),
    ensures
        env.len() <= enter(expr, scope, env).env.len(),
        move_fits(enter(expr, scope, env).step, enter(expr, scope, env).env.len()),
{
}

/// A step that goes on with a frame names only scopes that exist afterwards, and
/// removes no scope.
pub proof fn lemma_resume_fits(frame: FrameModel, value: Value, env: Seq<ScopeModel>)
    requires
        frame_fits(frame, env.len()),
    ensures
        env.len() <= resume(frame, value, env).env.len(),
        move_fits(resume(frame, value, env).step, resume(frame, value, env).env.len()),
{
}

/// No step makes the machine name a scope that does not exist, and no step removes
/// a scope.
pub proof fn lemma_step_fits(s: State)
    requires
        machine_fits(s.machine, s.env.len()),
    ensures
        s.env.len() <= step(s).env.len(),
        machine_fits(step(s).machine, step(s).env.len()),
{
    match s.machine.control {
        ControlModel::Eval(expr, scope) => {
            lemma_enter_fits(expr, scope, s.env);
        },
        ControlModel::Return(value) => {
            if s.machine.stack.len() > 0 {
                lemma_resume_fits(s.machine.stack.last(), value, s.env);
            }
        },
        _ => {},
    }
}

/// Every chain of scopes stays finite. No step gives a scope a parent that is not
/// older than it, and no step changes the parent of a scope.
pub proof fn lemma_step_keeps_chains(s: State)
    requires
        well_formed(s.env),
        machine_fits(s.machine, s.env.len()),
    ensures
        well_formed(step(s).env),
        forall|i: int| 0 <= i < s.env.len() ==> (#[trigger] step(s).env[i]).parent == s.env[i].parent,
{
}

/// Proper tail calls. The step that chooses a branch of an `if`, the step that
/// chooses the result of a `cond` clause, the step that enters the body of a `let`
/// and the step that enters the body of a function all take their frame off the stack
/// and put none on it: the stack is what it was before the form was started on.
pub proof fn lemma_tail_steps(s: State)
    requires
        s.machine.control is Return,
        s.machine.stack.len() > 0,
        match (s.machine.stack.last(), s.machine.control->Return_0) {
            (FrameModel::If { .. }, Value::Bool(_)) => true,
            (FrameModel::Cond { .. }, Value::Bool(b)) => b,
            (FrameModel::Let { bindings, next, .. }, _) => next >= bindings.len(),
            (FrameModel::Call { params, items, next, .. }, _) => next >= params.len() || next + 1
                >= items.len(),
            _ => false,
        },
    ensures
        step(s).machine.stack == s.machine.stack.drop_last(),
        step(s).machine.control is Eval,
{
}

impl Machine {
    /// The machine fits the environment: the environment is well formed and holds
    /// every scope that the machine names.
    pub open spec fn wf(&self, env: &Env) -> bool {
        env.wf() && machine_fits(self@, env@.len())
    }

    /// A machine about to evaluate `expr` in `scope`.
    pub fn load(expr: Object, scope: usize) -> (m: Machine)
        ensures
            m@ == (MachineModel {
                control: ControlModel::Eval(expr@, scope as nat),
                stack: Seq::empty(),
            }),
    {
        let m = Machine { control: Control::Eval(expr, scope), stack: Vec::new() };
        assert(frames(m.stack@) =~= Seq::empty());
        m
    }

    /// A machine that has failed with `e` before its first step.
    pub fn failed(e: EvalError) -> (m: Machine)
        ensures
            m@ == (MachineModel { control: ControlModel::Failed(e@), stack: Seq::empty() }),
    {
        let m = Machine { control: Control::Failed(e), stack: Vec::new() };
        assert(frames(m.stack@) =~= Seq::empty());
        m
    }

    /// Whether the machine has a step to take.
    pub fn is_running(&self) -> (r: bool)
        ensures
            r == running(self@.control),
    {
        match &self.control {
            Control::Eval(_, _) => true,
            Control::Return(_) => true,
            _ => false,
        }
    }

    fn land(&mut self, taken: Move)
        ensures
            final(self)@.control == taken@.control,
            final(self)@.stack == match taken@.frame {
                Some(frame) => old(self)@.stack.push(frame),
                None => old(self)@.stack,
            },
    {
        let ghost before = frames(self.stack@);
        self.control = taken.control;
        match taken.frame {
            Some(frame) => {
                self.stack.push(frame);
                assert(frames(self.stack@) =~= before.push(frame@));
            },
            None => {},
        }
    }

    /// Takes one step.
    pub fn step(&mut self, env: &mut Env)
        requires
            old(self).wf(old(env)),
        ensures
            final(self).wf(final(env)),
            (State { machine: final(self)@, env: final(env)@ }) == step(
                State { machine: old(self)@, env: old(env)@ },
            ),
    {
        let ghost before = State { machine: self@, env: env@ };
        proof {
            lemma_step_fits(before);
        }
        let mut control = Control::Return(Object::Void);
        core::mem::swap(&mut self.control, &mut control);
        match control {
            Control::Eval(expr, scope) => {
                let taken = eval_obj(expr, scope, env);
                self.land(taken);
            },
            Control::Return(value) => {
                let ghost stack = frames(self.stack@);
                match self.stack.pop() {
                    None => {
                        self.control = Control::Done(value);
                        assert(frames(self.stack@) =~= before.machine.stack);
                    },
                    Some(frame) => {
                        assert(frames(self.stack@) =~= stack.drop_last());
                        assert(stack.last() == frame@);
                        assert(frame_fits(stack[stack.len() - 1], before.env.len()));
                        let taken = resume_frame(frame, value, env);
                        self.land(taken);
                    },
                }
            },
            other => {
                self.control = other;
            },
        }
    }

    /// Takes up to `budget` steps: goes on until the machine is finished, waits for
    /// the host, or has taken `budget` steps.
    pub fn run(&mut self, env: &mut Env, budget: u64)
        requires
            old(self).wf(old(env)),
        ensures
            final(self).wf(final(env)),
            (State { machine: final(self)@, env: final(env)@ }) == run(
                State { machine: old(self)@, env: old(env)@ },
                budget as nat,
            ),
    {
        let ghost start = State { machine: self@, env: env@ };
        let mut left = budget;
        while left > 0 && self.is_running()
            invariant
                self.wf(env),
                run(State { machine: self@, env: env@ }, left as nat) == run(start, budget as nat),
            decreases left,
        {
            self.step(env);
            left -= 1;
        }
    }

    /// Discards the scopes that an evaluation made, once it is finished, and tells
    /// how many scopes are left. `mark` is the number of scopes that there were before
    /// the evaluation.
    ///
    /// The youngest scopes go, down to the youngest of them that is still held: by a
    /// closure that was made in it and has escaped into the result or into a binding
    /// of an older scope. That scope stays, and so do all scopes older than it, also
    /// those among them that nothing refers to.
    pub fn discard(&mut self, env: &mut Env, mark: usize) -> (left: usize)
        requires
            old(self).wf(old(env)),
        ensures
            final(self).wf(final(env)),
            left == final(env)@.len(),
            (State { machine: final(self)@, env: final(env)@ }) == discarded(
                State { machine: old(self)@, env: old(env)@ },
                mark as nat,
            ),
    {
        let ghost before = State { machine: self@, env: env@ };
        let ended = match &self.control {
            Control::Done(_) => true,
            Control::Failed(_) => true,
            _ => false,
        };
        if !ended {
            return env.len();
        }
        self.stack.clear();
        assert(frames(self.stack@) =~= Seq::empty());
        let mut n = mark;
        while n < env.len()
            invariant
                env.wf(),
                before == (State { machine: old(self)@, env: old(env)@ }),
                env@ == before.env,
                self@.control == before.machine.control,
                self@.stack == Seq::<FrameModel>::empty(),
                finished(before.machine.control),
                discard_point(before, n as nat) == discard_point(before, mark as nat),
            decreases env@.len() - n,
        {
            let holds = match &self.control {
                Control::Done(v) => v.holds_scope(n),
                _ => false,
            };
            if !holds && env.release(n) {
                return n;
            }
            n += 1;
        }
        assert(env@.take(env@.len() as int) =~= env@);
        env.len()
    }

    /// Hands the machine the answer to its request: the float written `text`.
    pub fn reply(&mut self, text: String)
        ensures
            final(self)@ == replied(old(self)@, text@),
    {
        let mut control = Control::Return(Object::Void);
        core::mem::swap(&mut self.control, &mut control);
        match control {
            Control::Float(_) => {
                self.control = Control::Return(Object::Float(text));
            },
            other => {
                self.control = other;
            },
        }
    }
}

} // verus!
