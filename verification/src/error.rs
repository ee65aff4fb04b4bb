//! The failures of evaluation: a kind to act on, and a message for people.

use vstd::prelude::*;

verus! {

/// The kinds of failure.
#[derive(Debug, Clone, Copy, PartialEq, Eq, Structural)]
pub enum ErrorKind {
    /// The text is no program: the lexer or the parser refused it.
    Syntax,
    /// A form or an operator was given the wrong number of arguments.
    Arity,
    /// A form or an operator was given an argument of a type it does not take.
    Type,
    /// A name has no binding on the chain of scopes.
    Unbound,
    /// What was called is no function.
    NotALambda,
    /// No clause of a `cond` matched.
    CondExhausted,
    /// An integer was divided by zero, or the quotient of a division left the 64-bit
    /// range.
    Arithmetic,
    /// An operator or a keyword that the evaluator has no rule for.
    Unsupported,
}

/// A failure of evaluation.
#[derive(Debug, Clone, PartialEq)]
pub struct EvalError {
    pub kind: ErrorKind,
    pub message: String,
}

/// The mathematical model of an [`EvalError`].
pub struct Failure {
    pub kind: ErrorKind,
    pub message: Seq<char>,
}

impl View for EvalError {
    type V = Failure;

    open spec fn view(&self) -> Failure {
        Failure { kind: self.kind, message: self.message@ }
    }
}

/// A form or an operator got the wrong number of arguments.
pub open spec fn arity(form: Seq<char>) -> Failure {
    Failure { kind: ErrorKind::Arity, message: "Invalid number of arguments for "@ + form }
}

/// An operator got a pair of operands that it is not defined on.
pub open spec fn invalid_types(op: Seq<char>, left: Seq<char>, right: Seq<char>) -> Failure {
    Failure {
        kind: ErrorKind::Type,
        message: "Invalid types for "@ + op + " operator "@ + left + " "@ + right,
    }
}

/// The condition of an `if` is no boolean.
pub open spec fn condition_not_bool() -> Failure {
    Failure { kind: ErrorKind::Type, message: "Condition must be bool"@ }
}

/// A special form is not built as its rule asks.
pub open spec fn malformed(form: Seq<char>) -> Failure {
    Failure { kind: ErrorKind::Type, message: "Invalid "@ + form }
}

/// A part of a form, or an argument of a primitive, is of the wrong type.
pub open spec fn invalid(what: Seq<char>, shown: Seq<char>) -> Failure {
    Failure { kind: ErrorKind::Type, message: "Invalid "@ + what + " "@ + shown }
}

/// `cdr` was given the empty list.
pub open spec fn empty_list() -> Failure {
    Failure { kind: ErrorKind::Type, message: "Invalid number of list data"@ }
}

/// A symbol that is evaluated has no binding.
pub open spec fn undefined(name: Seq<char>) -> Failure {
    Failure { kind: ErrorKind::Unbound, message: "Undefined symbol "@ + name }
}

/// A symbol that is called has no binding.
pub open spec fn unbound_function(name: Seq<char>) -> Failure {
    Failure { kind: ErrorKind::Unbound, message: "Unbound function: "@ + name }
}

/// A closure names a scope that the environment does not hold.
pub open spec fn unbound_scope() -> Failure {
    Failure { kind: ErrorKind::Unbound, message: "Closure from another environment"@ }
}

/// A symbol that is called is bound to something that is no function.
pub open spec fn not_a_lambda(name: Seq<char>, shown: Seq<char>) -> Failure {
    Failure { kind: ErrorKind::NotALambda, message: "Not a lambda "@ + name + " "@ + shown }
}

/// No clause of a `cond` matched.
pub open spec fn cond_exhausted() -> Failure {
    Failure { kind: ErrorKind::CondExhausted, message: "No cond clause matched"@ }
}

/// The text could not be parsed; `reason` is the parser's message.
pub open spec fn syntax(reason: Seq<char>) -> Failure {
    Failure { kind: ErrorKind::Syntax, message: "Parse error: "@ + reason }
}

/// The quotient of an integer division does not fit in 64 bits.
pub open spec fn overflow(op: Seq<char>, left: Seq<char>, right: Seq<char>) -> Failure {
    Failure {
        kind: ErrorKind::Arithmetic,
        message: "Integer overflow in "@ + op + " operator "@ + left + " "@ + right,
    }
}

/// An integer was divided by zero.
pub open spec fn division_by_zero(op: Seq<char>, left: Seq<char>, right: Seq<char>) -> Failure {
    Failure {
        kind: ErrorKind::Arithmetic,
        message: "Division by zero in "@ + op + " operator "@ + left + " "@ + right,
    }
}

/// An operator that the evaluator has no rule for.
pub open spec fn unknown_operator(op: Seq<char>) -> Failure {
    Failure { kind: ErrorKind::Unsupported, message: "Unknown operator "@ + op }
}

/// A keyword that the evaluator has no rule for.
pub open spec fn unknown_keyword(word: Seq<char>) -> Failure {
    Failure { kind: ErrorKind::Unsupported, message: "Unknown keyword "@ + word }
}

/// The failure of kind `kind` whose message is `a` followed by `b`.
fn failure2(kind: ErrorKind, a: &str, b: &str) -> (e: EvalError)
    ensures
        e@ == (Failure { kind, message: a@ + b@ }),
{
    let mut message = String::from_str(a);
    message.append(b);
    EvalError { kind, message }
}

/// The failure of kind `kind` whose message is `a`, `b`, a space and `c`.
fn failure_shown(kind: ErrorKind, a: &str, b: &str, c: &str) -> (e: EvalError)
    ensures
        e@ == (Failure { kind, message: a@ + b@ + " "@ + c@ }),
{
    let mut message = String::from_str(a);
    message.append(b);
    message.append(" ");
    message.append(c);
    EvalError { kind, message }
}

/// The failure of kind `kind` whose message is `a`, `op`, " operator ", `left`, a space
/// and `right`.
fn failure_operator(kind: ErrorKind, a: &str, op: &str, left: &str, right: &str) -> (e: EvalError)
    ensures
        e@ == (Failure { kind, message: a@ + op@ + " operator "@ + left@ + " "@ + right@ }),
{
    let mut message = String::from_str(a);
    message.append(op);
    message.append(" operator ");
    message.append(left);
    message.append(" ");
    message.append(right);
    EvalError { kind, message }
}

impl EvalError {
    /// The failure of a form or an operator that got the wrong number of arguments.
    pub fn arity(form: &str) -> (e: EvalError)
        ensures
            e@ == arity(form@),
    {
        failure2(ErrorKind::Arity, "Invalid number of arguments for ", form)
    }

    /// The failure of an operator on operands that it is not defined on, shown as
    /// `left` and `right`.
    pub fn invalid_types(op: &str, left: &str, right: &str) -> (e: EvalError)
        ensures
            e@ == invalid_types(op@, left@, right@),
    {
        failure_operator(ErrorKind::Type, "Invalid types for ", op, left, right)
    }

    /// The failure of an `if` whose condition is no boolean.
    pub fn condition_not_bool() -> (e: EvalError)
        ensures
            e@ == condition_not_bool(),
    {
        EvalError { kind: ErrorKind::Type, message: String::from_str("Condition must be bool") }
    }

    /// The failure of a special form that is not built as its rule asks.
    pub fn malformed(form: &str) -> (e: EvalError)
        ensures
            e@ == malformed(form@),
    {
        failure2(ErrorKind::Type, "Invalid ", form)
    }

    /// The failure for a part of a form, or an argument of a primitive, of the wrong
    /// type, shown as `shown`.
    pub fn invalid(what: &str, shown: &str) -> (e: EvalError)
        ensures
            e@ == invalid(what@, shown@),
    {
        failure_shown(ErrorKind::Type, "Invalid ", what, shown)
    }

    /// The failure of `cdr` on the empty list.
    pub fn empty_list() -> (e: EvalError)
        ensures
            e@ == empty_list(),
    {
        EvalError {
            kind: ErrorKind::Type,
            message: String::from_str("Invalid number of list data"),
        }
    }

    /// The failure of a symbol that is evaluated and has no binding.
    pub fn undefined(name: &str) -> (e: EvalError)
        ensures
            e@ == undefined(name@),
    {
        failure2(ErrorKind::Unbound, "Undefined symbol ", name)
    }

    /// The failure of a symbol that is called and has no binding.
    pub fn unbound_function(name: &str) -> (e: EvalError)
        ensures
            e@ == unbound_function(name@),
    {
        failure2(ErrorKind::Unbound, "Unbound function: ", name)
    }

    /// The failure of a closure that names a scope which the environment does not
    /// hold.
    pub fn unbound_scope() -> (e: EvalError)
        ensures
            e@ == unbound_scope(),
    {
        EvalError {
            kind: ErrorKind::Unbound,
            message: String::from_str("Closure from another environment"),
        }
    }

    /// The failure of a call of a symbol that is bound to no function but to the
    /// value shown as `shown`.
    pub fn not_a_lambda(name: &str, shown: &str) -> (e: EvalError)
        ensures
            e@ == not_a_lambda(name@, shown@),
    {
        failure_shown(ErrorKind::NotALambda, "Not a lambda ", name, shown)
    }

    /// The failure of a `cond` of which no clause matched.
    pub fn cond_exhausted() -> (e: EvalError)
        ensures
            e@ == cond_exhausted(),
    {
        EvalError {
            kind: ErrorKind::CondExhausted,
            message: String::from_str("No cond clause matched"),
        }
    }

    /// The failure of a text that could not be parsed; `reason` is the parser's
    /// message.
    pub fn syntax(reason: &str) -> (e: EvalError)
        ensures
            e@ == syntax(reason@),
    {
        failure2(ErrorKind::Syntax, "Parse error: ", reason)
    }

    /// The failure of an integer division whose quotient does not fit in 64 bits.
    pub fn overflow(op: &str, left: &str, right: &str) -> (e: EvalError)
        ensures
            e@ == overflow(op@, left@, right@),
    {
        failure_operator(ErrorKind::Arithmetic, "Integer overflow in ", op, left, right)
    }

    /// The failure of an integer division by zero.
    pub fn division_by_zero(op: &str, left: &str, right: &str) -> (e: EvalError)
        ensures
            e@ == division_by_zero(op@, left@, right@),
    {
        failure_operator(ErrorKind::Arithmetic, "Division by zero in ", op, left, right)
    }

    /// The failure of an operator that the evaluator has no rule for.
    pub fn unknown_operator(op: &str) -> (e: EvalError)
        ensures
            e@ == unknown_operator(op@),
    {
        failure2(ErrorKind::Unsupported, "Unknown operator ", op)
    }

    /// The failure of a keyword that the evaluator has no rule for.
    pub fn unknown_keyword(word: &str) -> (e: EvalError)
        ensures
            e@ == unknown_keyword(word@),
    {
        failure2(ErrorKind::Unsupported, "Unknown keyword ", word)
    }

    /// A copy of this failure.
    pub fn copy(&self) -> (e: EvalError)
        ensures
            e@ == self@,
    {
        EvalError { kind: self.kind, message: self.message.clone() }
    }
}

} // verus!
