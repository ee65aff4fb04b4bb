//! The values of the language. One type serves both as syntax, the tree that the parser
//! builds, and as the result of evaluation.

use crate::text::{decimal, push_char, push_decimal};
use vstd::prelude::*;

verus! {

/// A syntax node or a runtime value.
///
/// A float is carried as its decimal text: the evaluator reads floats from source text
/// and hands them out as text, and leaves the arithmetic on them to its host. A closure
/// names the scope it was created in by that scope's handle in the environment.
#[derive(Debug, PartialEq)]
pub enum Object {
    Void,
    Keyword(String),
    BinaryOp(String),
    Integer(i64),
    Float(String),
    Bool(bool),
    String(String),
    Symbol(String),
    ListData(Vec<Object>),
    Lambda(Vec<String>, Vec<Object>, usize),
    List(Vec<Object>),
}

/// The mathematical model of an [`Object`].
pub enum Value {
    Void,
    Keyword(Seq<char>),
    BinaryOp(Seq<char>),
    Integer(int),
    Float(Seq<char>),
    Bool(bool),
    String(Seq<char>),
    Symbol(Seq<char>),
    ListData(Seq<Value>),
    Lambda(Seq<Seq<char>>, Seq<Value>, nat),
    List(Seq<Value>),
}

/// The models of a sequence of strings.
pub open spec fn texts(names: Seq<String>) -> Seq<Seq<char>> {
    Seq::new(names.len(), |i: int| names[i]@)
}

/// The models of a sequence of objects.
pub open spec fn views(items: Seq<Object>) -> Seq<Value>
    decreases items,
{
    Seq::new(
        items.len(),
        |i: int|
            if 0 <= i < items.len() {
                items[i]@
            } else {
                Value::Void
            },
    )
}

impl View for Object {
    type V = Value;

    open spec fn view(&self) -> Value
        decreases self,
    {
        match self {
            Object::Void => Value::Void,
            Object::Keyword(s) => Value::Keyword(s@),
            Object::BinaryOp(s) => Value::BinaryOp(s@),
            Object::Integer(i) => Value::Integer(*i as int),
            Object::Float(s) => Value::Float(s@),
            Object::Bool(b) => Value::Bool(*b),
            Object::String(s) => Value::String(s@),
            Object::Symbol(s) => Value::Symbol(s@),
            Object::ListData(items) => Value::ListData(views(items@)),
            Object::Lambda(params, body, scope) => Value::Lambda(
                texts(params@),
                views(body@),
                *scope as nat,
            ),
            Object::List(items) => Value::List(views(items@)),
        }
    }
}

/// The models of a sequence of objects are the models of its items, one for one.
pub proof fn lemma_views(items: Seq<Object>)
    ensures
        views(items).len() == items.len(),
        forall|i: int| 0 <= i < items.len() ==> (#[trigger] views(items)[i]) == items[i]@,
{
}

/// Whether one of the first `k` of `items` holds a closure that was made in a scope
/// with a handle of `n` or more.
pub open spec fn any_holds_scope(items: Seq<Value>, k: nat, n: nat) -> bool
    decreases items, k,
{
    0 < k <= items.len() && (holds_scope(items[k - 1], n) || any_holds_scope(
        items,
        (k - 1) as nat,
        n,
    ))
}

/// Whether `v` is or holds, at any depth, a closure that was made in a scope with a
/// handle of `n` or more.
pub open spec fn holds_scope(v: Value, n: nat) -> bool
    decreases v, 0nat,
{
    match v {
        Value::Lambda(_, body, captured) => captured >= n || any_holds_scope(body, body.len(), n),
        Value::ListData(items) => any_holds_scope(items, items.len(), n),
        Value::List(items) => any_holds_scope(items, items.len(), n),
        _ => false,
    }
}

/// The text of the first `n` of `items`, separated by single spaces.
pub open spec fn rendering_of_items(items: Seq<Value>, n: nat) -> Seq<char>
    decreases items, n,
{
    if n == 0 || n > items.len() {
        Seq::empty()
    } else if n == 1 {
        rendering(items[0])
    } else {
        rendering_of_items(items, (n - 1) as nat) + seq![' '] + rendering(items[n - 1])
    }
}

/// The canonical text of a value: an atom as its literal, a data list as its items in
/// parentheses. Code lists and closures have no text of their own.
pub open spec fn rendering(v: Value) -> Seq<char>
    decreases v, 0nat,
{
    match v {
        Value::Void => "void"@,
        Value::Keyword(s) => s,
        Value::BinaryOp(s) => s,
        Value::Integer(i) => decimal(i),
        Value::Float(s) => s,
        Value::Bool(b) => if b {
            "true"@
        } else {
            "false"@
        },
        Value::String(s) => s,
        Value::Symbol(s) => s,
        Value::ListData(items) => seq!['('] + rendering_of_items(items, items.len()) + seq![')'],
        Value::Lambda(_, _, _) => "something cant be displayed"@,
        Value::List(_) => "something cant be displayed"@,
    }
}

/// A copy of `names`.
pub fn copy_names(names: &Vec<String>) -> (r: Vec<String>)
    ensures
        texts(r@) == texts(names@),
{
    let mut out: Vec<String> = Vec::new();
    let mut i: usize = 0;
    while i < names.len()
        invariant
            i <= names.len(),
            out.len() == i,
            forall|j: int| 0 <= j < i ==> out@[j]@ == names@[j]@,
        decreases names.len() - i,
    {
        out.push(names[i].clone());
        i += 1;
    }
    assert(texts(out@) =~= texts(names@));
    out
}

/// A deep copy of `items`.
pub fn copy_list(items: &Vec<Object>) -> (r: Vec<Object>)
    ensures
        views(r@) == views(items@),
    decreases items,
{
    let mut out: Vec<Object> = Vec::new();
    let mut i: usize = 0;
    while i < items.len()
        invariant
            i <= items.len(),
            out.len() == i,
            forall|j: int| 0 <= j < i ==> out@[j]@ == items@[j]@,
        decreases items.len() - i,
    {
        out.push(items[i].copy());
        i += 1;
    }
    assert(views(out@) =~= views(items@));
    out
}

/// Appends the texts of `items`, separated by single spaces, to `out`.
pub fn render_items(items: &Vec<Object>, out: &mut String)
    ensures
        final(out)@ == old(out)@ + rendering_of_items(views(items@), items@.len()),
    decreases items,
{
    let ghost start = out@;
    let mut i: usize = 0;
    while i < items.len()
        invariant
            i <= items.len(),
            out@ == start + rendering_of_items(views(items@), i as nat),
        decreases items.len() - i,
    {
        if i > 0 {
            push_char(out, ' ');
        }
        items[i].render_into(out);
        proof {
            let all = views(items@);
            assert(all[i as int] == items@[i as int]@);
            assert(out@ =~= start + rendering_of_items(all, (i + 1) as nat));
        }
        i += 1;
    }
}

/// Whether one of `items` holds a closure that was made in a scope with a handle of
/// `n` or more.
pub fn list_holds_scope(items: &Vec<Object>, n: usize) -> (r: bool)
    ensures
        r == any_holds_scope(views(items@), items@.len(), n as nat),
    decreases items,
{
    let mut i: usize = 0;
    while i < items.len()
        invariant
            i <= items.len(),
            !any_holds_scope(views(items@), i as nat, n as nat),
        decreases items.len() - i,
    {
        let found = items[i].holds_scope(n);
        proof {
            lemma_views(items@);
        }
        if found {
            proof {
                lemma_holds_scope_grows(views(items@), (i + 1) as nat, items@.len(), n as nat);
            }
            return true;
        }
        i += 1;
    }
    false
}

/// What one of the first `k` items holds, one of the first `m` holds, for `m` from `k`
/// up to the number of items.
pub proof fn lemma_holds_scope_grows(items: Seq<Value>, k: nat, m: nat, n: nat)
    requires
        k <= m <= items.len(),
        any_holds_scope(items, k, n),
    ensures
        any_holds_scope(items, m, n),
    decreases m,
{
    if k < m {
        lemma_holds_scope_grows(items, k, (m - 1) as nat, n);
    }
}

impl Clone for Object {
    fn clone(&self) -> (r: Self)
        ensures
            r@ == self@,
    {
        self.copy()
    }
}

impl Object {
    /// A deep copy of this object.
    pub fn copy(&self) -> (r: Object)
        ensures
            r@ == self@,
        decreases self,
    {
        match self {
            Object::Void => Object::Void,
            Object::Keyword(s) => Object::Keyword(s.clone()),
            Object::BinaryOp(s) => Object::BinaryOp(s.clone()),
            Object::Integer(i) => Object::Integer(*i),
            Object::Float(s) => Object::Float(s.clone()),
            Object::Bool(b) => Object::Bool(*b),
            Object::String(s) => Object::String(s.clone()),
            Object::Symbol(s) => Object::Symbol(s.clone()),
            Object::ListData(items) => Object::ListData(copy_list(items)),
            Object::Lambda(params, body, scope) => Object::Lambda(
                copy_names(params),
                copy_list(body),
                *scope,
            ),
            Object::List(items) => Object::List(copy_list(items)),
        }
    }

    /// Whether this object is or holds, at any depth, a closure that was made in a
    /// scope with a handle of `n` or more.
    pub fn holds_scope(&self, n: usize) -> (r: bool)
        ensures
            r == holds_scope(self@, n as nat),
        decreases self,
    {
        match self {
            Object::Lambda(_, body, captured) => {
                proof {
                    lemma_views(body@);
                }
                *captured >= n || list_holds_scope(body, n)
            },
            Object::ListData(items) => {
                proof {
                    lemma_views(items@);
                }
                list_holds_scope(items, n)
            },
            Object::List(items) => {
                proof {
                    lemma_views(items@);
                }
                list_holds_scope(items, n)
            },
            _ => false,
        }
    }

    /// Appends the canonical text of this object to `out`.
    pub fn render_into(&self, out: &mut String)
        ensures
            final(out)@ == old(out)@ + rendering(self@),
        decreases self,
    {
        match self {
            Object::Void => out.append("void"),
            Object::Keyword(s) => out.append(s.as_str()),
            Object::BinaryOp(s) => out.append(s.as_str()),
            Object::Integer(i) => push_decimal(out, *i),
            Object::Float(s) => out.append(s.as_str()),
            Object::Bool(b) => {
                if *b {
                    out.append("true")
                } else {
                    out.append("false")
                }
            },
            Object::String(s) => out.append(s.as_str()),
            Object::Symbol(s) => out.append(s.as_str()),
            Object::ListData(items) => {
                push_char(out, '(');
                render_items(items, out);
                push_char(out, ')');
                assert(final(out)@ =~= old(out)@ + rendering(self@));
            },
            Object::Lambda(_, _, _) => out.append("something cant be displayed"),
            Object::List(_) => out.append("something cant be displayed"),
        }
    }

    /// The canonical text of this object.
    pub fn render(&self) -> (r: String)
        ensures
            r@ == rendering(self@),
    {
        let mut out = String::new();
        self.render_into(&mut out);
        assert(out@ =~= rendering(self@));
        out
    }
}

} // verus!
