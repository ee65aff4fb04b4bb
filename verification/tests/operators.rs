use rlisp::error::ErrorKind;
use rlisp::object::Object;
use rlisp::operator::{
    arithmetic, comparison, eval_binary_op, integers, Applied, Arithmetic, Comparison,
    FloatRequest, Number,
};

fn integer(i: i64) -> Object {
    Object::Integer(i)
}

fn float(s: &str) -> Object {
    Object::Float(s.to_string())
}

fn text(s: &str) -> Object {
    Object::String(s.to_string())
}

fn value(op: &str, left: Object, right: Object) -> Object {
    match eval_binary_op(op, &left, &right) {
        Applied::Value(v) => v,
        other => panic!("{:?}", other),
    }
}

fn failure(op: &str, left: Object, right: Object) -> (ErrorKind, String) {
    match eval_binary_op(op, &left, &right) {
        Applied::Failed(e) => (e.kind, e.message),
        other => panic!("{:?}", other),
    }
}

fn request(op: &str, left: Object, right: Object) -> FloatRequest {
    match eval_binary_op(op, &left, &right) {
        Applied::Float(r) => r,
        other => panic!("{:?}", other),
    }
}

#[test]
fn operators_are_told_apart() {
    assert_eq!(arithmetic("+"), Some(Arithmetic::Add));
    assert_eq!(arithmetic("-"), Some(Arithmetic::Subtract));
    assert_eq!(arithmetic("*"), Some(Arithmetic::Multiply));
    assert_eq!(arithmetic("/"), Some(Arithmetic::Divide));
    assert_eq!(arithmetic("%"), Some(Arithmetic::Remainder));
    assert_eq!(arithmetic("="), None);
    assert_eq!(arithmetic("++"), None);
    assert_eq!(comparison("="), Some(Comparison::Equal));
    assert_eq!(comparison(">"), Some(Comparison::Greater));
    assert_eq!(comparison("<"), Some(Comparison::Less));
    assert_eq!(comparison("<="), None);
    assert_eq!(comparison("+"), None);
}

#[test]
fn integer_arithmetic_is_exact() {
    assert_eq!(value("+", integer(1), integer(2)), integer(3));
    assert_eq!(value("+", integer(-5), integer(2)), integer(-3));
    assert_eq!(value("-", integer(1), integer(2)), integer(-1));
    assert_eq!(value("*", integer(-4), integer(6)), integer(-24));
    assert_eq!(value("/", integer(6), integer(2)), integer(3));
    assert_eq!(value("%", integer(7), integer(2)), integer(1));
    assert_eq!(value("+", integer(i64::MAX), integer(0)), integer(i64::MAX));
    assert_eq!(value("-", integer(i64::MIN), integer(-1)), integer(i64::MIN + 1));
}

#[test]
fn integer_division_truncates_towards_zero() {
    assert_eq!(value("/", integer(7), integer(2)), integer(3));
    assert_eq!(value("/", integer(-7), integer(2)), integer(-3));
    assert_eq!(value("/", integer(7), integer(-2)), integer(-3));
    assert_eq!(value("/", integer(-7), integer(-2)), integer(3));
    assert_eq!(value("/", integer(0), integer(-2)), integer(0));
    assert_eq!(value("/", integer(1), integer(2)), integer(0));
    assert_eq!(value("/", integer(i64::MIN), integer(1)), integer(i64::MIN));
    assert_eq!(value("/", integer(i64::MAX), integer(-1)), integer(-i64::MAX));
}

#[test]
fn remainder_has_the_sign_of_the_dividend() {
    assert_eq!(value("%", integer(7), integer(2)), integer(1));
    assert_eq!(value("%", integer(-7), integer(2)), integer(-1));
    assert_eq!(value("%", integer(7), integer(-2)), integer(1));
    assert_eq!(value("%", integer(-7), integer(-2)), integer(-1));
    assert_eq!(value("%", integer(6), integer(3)), integer(0));
    assert_eq!(value("%", integer(0), integer(5)), integer(0));
    assert_eq!(value("%", integer(i64::MIN), integer(2)), integer(0));
    assert_eq!(value("%", integer(i64::MIN), integer(i64::MAX)), integer(-1));
}

#[test]
fn sums_differences_and_products_wrap() {
    assert_eq!(value("+", integer(i64::MAX), integer(1)), integer(i64::MIN));
    assert_eq!(value("+", integer(i64::MIN), integer(-1)), integer(i64::MAX));
    assert_eq!(value("+", integer(i64::MAX), integer(i64::MAX)), integer(-2));
    assert_eq!(value("-", integer(i64::MIN), integer(1)), integer(i64::MAX));
    assert_eq!(value("-", integer(0), integer(i64::MIN)), integer(i64::MIN));
    assert_eq!(value("*", integer(i64::MAX), integer(2)), integer(-2));
    assert_eq!(value("*", integer(i64::MIN), integer(-1)), integer(i64::MIN));
    assert_eq!(
        value("*", integer(4294967296), integer(4294967296)),
        integer(0)
    );
    assert_eq!(
        value("*", integer(3037000500), integer(3037000500)),
        integer(3037000500i64.wrapping_mul(3037000500))
    );
    for (x, y) in [(i64::MAX, 7), (i64::MIN, i64::MIN), (-5, i64::MAX), (123456789012, 987654321098)] {
        assert_eq!(value("+", integer(x), integer(y)), integer(x.wrapping_add(y)));
        assert_eq!(value("-", integer(x), integer(y)), integer(x.wrapping_sub(y)));
        assert_eq!(value("*", integer(x), integer(y)), integer(x.wrapping_mul(y)));
    }
}

#[test]
fn the_least_integer_divided_by_minus_one_is_an_arithmetic_failure() {
    assert_eq!(
        failure("/", integer(i64::MIN), integer(-1)),
        (
            ErrorKind::Arithmetic,
            "Integer overflow in / operator -9223372036854775808 -1".to_string()
        )
    );
    assert_eq!(
        failure("%", integer(i64::MIN), integer(-1)),
        (
            ErrorKind::Arithmetic,
            "Integer overflow in % operator -9223372036854775808 -1".to_string()
        )
    );
}

#[test]
fn integer_division_by_zero_is_an_arithmetic_failure() {
    assert_eq!(
        failure("/", integer(6), integer(0)),
        (ErrorKind::Arithmetic, "Division by zero in / operator 6 0".to_string())
    );
    assert_eq!(
        failure("%", integer(-6), integer(0)),
        (ErrorKind::Arithmetic, "Division by zero in % operator -6 0".to_string())
    );
    assert_eq!(
        integers(Arithmetic::Divide, "/", 1, 0),
        eval_binary_op("/", &integer(1), &integer(0))
    );
}

#[test]
fn arithmetic_with_a_float_is_asked_of_the_host() {
    assert_eq!(
        request("+", integer(1), float("3.0")),
        FloatRequest {
            op: Arithmetic::Add,
            left: Number::Integer(1),
            right: Number::Float("3.0".to_string()),
        }
    );
    assert_eq!(
        request("-", float("2.0"), integer(2)),
        FloatRequest {
            op: Arithmetic::Subtract,
            left: Number::Float("2.0".to_string()),
            right: Number::Integer(2),
        }
    );
    assert_eq!(
        request("*", float("2.0"), float("3.5")),
        FloatRequest {
            op: Arithmetic::Multiply,
            left: Number::Float("2.0".to_string()),
            right: Number::Float("3.5".to_string()),
        }
    );
    assert_eq!(request("/", float("1.0"), integer(0)).op, Arithmetic::Divide);
    assert_eq!(request("%", integer(7), float("2.0")).op, Arithmetic::Remainder);
}

#[test]
fn plus_joins_strings() {
    assert_eq!(value("+", text("hello"), text("world")), text("helloworld"));
    assert_eq!(value("+", text("hello "), text("world")), text("hello world"));
    assert_eq!(value("+", text(""), text("")), text(""));
}

#[test]
fn other_arithmetic_is_not_defined_on_strings() {
    for op in ["-", "*", "/", "%"] {
        assert_eq!(
            failure(op, text("a"), text("b")),
            (ErrorKind::Type, format!("Invalid types for {} operator a b", op))
        );
    }
}

#[test]
fn comparisons_of_integers() {
    assert_eq!(value("=", integer(100), integer(100)), Object::Bool(true));
    assert_eq!(value("=", integer(1), integer(2)), Object::Bool(false));
    assert_eq!(value(">", integer(2), integer(3)), Object::Bool(false));
    assert_eq!(value(">", integer(3), integer(2)), Object::Bool(true));
    assert_eq!(value(">", integer(3), integer(3)), Object::Bool(false));
    assert_eq!(value("<", integer(2), integer(1)), Object::Bool(false));
    assert_eq!(value("<", integer(-2), integer(1)), Object::Bool(true));
    assert_eq!(value("<", integer(1), integer(1)), Object::Bool(false));
}

#[test]
fn comparisons_of_strings_are_lexicographic() {
    assert_eq!(value("=", text("hello"), text("hello")), Object::Bool(true));
    assert_eq!(value("=", text("hello"), text("world")), Object::Bool(false));
    assert_eq!(value("<", text("abcd"), text("abcf")), Object::Bool(true));
    assert_eq!(value(">", text("B"), text("A")), Object::Bool(true));
    assert_eq!(value("<", text("ab"), text("abc")), Object::Bool(true));
    assert_eq!(value(">", text("ab"), text("abc")), Object::Bool(false));
    assert_eq!(value(">", text("b"), text("abc")), Object::Bool(true));
    assert_eq!(value("<", text("abc"), text("abc")), Object::Bool(false));
    assert_eq!(value(">", text("abc"), text("abc")), Object::Bool(false));
}

#[test]
fn comparisons_are_defined_on_nothing_else() {
    for op in ["=", ">", "<"] {
        assert_eq!(
            failure(op, integer(1), text("1")),
            (ErrorKind::Type, format!("Invalid types for {} operator 1 1", op))
        );
        assert_eq!(failure(op, float("1.0"), float("1.0")).0, ErrorKind::Type);
        assert_eq!(failure(op, integer(1), float("1.0")).0, ErrorKind::Type);
        assert_eq!(failure(op, Object::Bool(true), Object::Bool(true)).0, ErrorKind::Type);
        assert_eq!(
            failure(op, Object::ListData(vec![]), Object::ListData(vec![])).0,
            ErrorKind::Type
        );
    }
}

#[test]
fn type_failure_names_the_operator_and_shows_the_operands() {
    assert_eq!(
        failure("+", Object::Bool(true), integer(1)),
        (ErrorKind::Type, "Invalid types for + operator true 1".to_string())
    );
    assert_eq!(
        failure("*", Object::ListData(vec![integer(1), integer(2)]), float("2.5")),
        (ErrorKind::Type, "Invalid types for * operator (1 2) 2.5".to_string())
    );
    assert_eq!(
        failure("+", text("a"), integer(1)),
        (ErrorKind::Type, "Invalid types for + operator a 1".to_string())
    );
    assert_eq!(
        failure("-", Object::Void, Object::Lambda(vec![], vec![], 0)),
        (
            ErrorKind::Type,
            "Invalid types for - operator void something cant be displayed".to_string()
        )
    );
}

#[test]
fn unknown_operator_is_unsupported() {
    assert_eq!(
        failure("<=", integer(1), integer(2)),
        (ErrorKind::Unsupported, "Unknown operator <=".to_string())
    );
    assert_eq!(
        failure("|", integer(1), integer(2)),
        (ErrorKind::Unsupported, "Unknown operator |".to_string())
    );
}
