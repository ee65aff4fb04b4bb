use rlisp::env::Env;
use rlisp::error::EvalError;
use rlisp::eval::eval;
use rlisp::machine::Control;
use rlisp::object::Object;
use rlisp::operator::{Arithmetic, FloatRequest, Number};

fn operand(n: &Number) -> f64 {
    match n {
        Number::Integer(i) => *i as f64,
        Number::Float(text) => text.parse().unwrap(),
    }
}

fn compute(request: &FloatRequest) -> String {
    let left = operand(&request.left);
    let right = operand(&request.right);
    let value = match request.op {
        Arithmetic::Add => left + right,
        Arithmetic::Subtract => left - right,
        Arithmetic::Multiply => left * right,
        Arithmetic::Divide => left / right,
        Arithmetic::Remainder => left % right,
    };
    value.to_string()
}

fn run(program: &str, env: &mut Env) -> Result<Object, EvalError> {
    let mut machine = eval(program, env, 0, u64::MAX);
    loop {
        let answer = match &machine.control {
            Control::Done(value) => return Ok(value.clone()),
            Control::Failed(e) => return Err(e.clone()),
            Control::Float(request) => Some(compute(request)),
            _ => None,
        };
        if let Some(text) = answer {
            machine.reply(text);
        }
        machine.run(env, u64::MAX);
    }
}

fn float(value: f64) -> Object {
    Object::Float(value.to_string())
}

#[test]
fn test_add_int_int() {
    let mut env = Env::new();

    let result = run("(+ 1 2)", &mut env).unwrap();
    assert_eq!(result, Object::Integer(3));
}

#[test]
fn test_add_int_float() {
    let mut env = Env::new();

    let result = run("(+ 1 3.0)", &mut env).unwrap();
    assert_eq!(result, float(4.0));
}

#[test]
fn test_add_float_int() {
    let mut env = Env::new();

    let result = run("(+ 2.0 2)", &mut env).unwrap();
    assert_eq!(result, float(4.0));
}

#[test]
fn test_add_float_float() {
    let mut env = Env::new();

    let result = run("(+ 1.0 2.0)", &mut env).unwrap();
    assert_eq!(result, float(3.0));
}

#[test]
fn test_str_add() {
    let mut env = Env::new();

    let result =
        run("(+ \"hello\" \"world\")", &mut env).unwrap();
    assert_eq!(
        result,
        Object::String("helloworld".to_string())
    );
}

#[test]
fn test_sub_int_int() {
    let mut env = Env::new();

    let result = run("(- 1 2)", &mut env).unwrap();
    assert_eq!(result, Object::Integer(-1));
}

#[test]
fn test_sub_int_float() {
    let mut env = Env::new();

    let result = run("(- 1.0 2.0)", &mut env).unwrap();
    assert_eq!(result, float(-1.0));
}

#[test]
fn test_sub_float_int() {
    let mut env = Env::new();

    let result = run("(- 2.0 2)", &mut env).unwrap();
    assert_eq!(result, float(0.0))
}

#[test]
fn test_str_whitespace_add() {
    let mut env = Env::new();

    let result =
        run("(+ \"hello \" \"world\")", &mut env).unwrap();
    assert_eq!(
        result,
        Object::String("hello world".to_string())
    );
}

#[test]
fn test_int_eq_false() {
    let mut env = Env::new();

    let reust = run("(= 1 2)", &mut env).unwrap();
    assert_eq!(reust, Object::Bool(false));
}

#[test]
fn test_int_eq_true() {
    let mut env = Env::new();

    let reust = run("(= 100 100)", &mut env).unwrap();
    assert_eq!(reust, Object::Bool(true));
}

#[test]
fn test_str_eq_false() {
    let mut env = Env::new();

    let reust =
        run("(= \"hello\" \"world\")", &mut env).unwrap();
    assert_eq!(reust, Object::Bool(false));
}

#[test]
fn test_str_eq_true() {
    let mut env = Env::new();
    let reust =
        run("(= \"hello\" \"hello\")", &mut env).unwrap();
    assert_eq!(reust, Object::Bool(true));
}

#[test]
fn test_greater_than_str() {
    let mut env = Env::new();
    let result = run("(> \"B\" \"A\")", &mut env).unwrap();
    assert_eq!(result, Object::Bool(true));
}

#[test]
fn test_greater_than_int() {
    let mut env = Env::new();
    let result = run("(> 2 3)", &mut env);
    assert_eq!(result, Ok(Object::Bool(false)));
}

#[test]
fn test_less_than_str() {
    let mut env = Env::new();

    let result = run("(< \"abcd\" \"abcf\")", &mut env).unwrap();
    assert_eq!(result, Object::Bool(true));
}

#[test]
fn test_less_than_int() {
    let mut env = Env::new();

    let result = run("(< 2 1)", &mut env).unwrap();
    assert_eq!(result, Object::Bool(false));
}

#[test]
fn test_mutiply_int_int() {
    let mut env = Env::new();

    let result = run("(* 2 3)", &mut env).unwrap();
    assert_eq!(result, Object::Integer(6));
}

#[test]
fn test_mutiply_int_float() {
    let mut env = Env::new();

    let result = run("(* 3 2.0)", &mut env).unwrap();
    assert_eq!(result, float(6.0));
}

#[test]
fn test_mutiply_float_int() {
    let mut env = Env::new();

    let result = run("(* 2.0 3)", &mut env).unwrap();
    assert_eq!(result, float(6.0));
}

#[test]
fn test_mutiply_float_float() {
    let mut env = Env::new();

    let result = run("(* 2.0 3.0)", &mut env).unwrap();
    assert_eq!(result, float(6.0));
}

#[test]
fn test_divide_int_int() {
    let mut env = Env::new();

    let result = run("(/ 6 2)", &mut env).unwrap();
    assert_eq!(result, Object::Integer(3));
}

#[test]
fn test_divide_int_float() {
    let mut env = Env::new();

    let result = run("(/ 6 2.0)", &mut env).unwrap();
    assert_eq!(result, float(3.0));
}

#[test]
fn test_divide_float_int() {
    let mut env = Env::new();

    let result = run("(/ 6.0 2)", &mut env).unwrap();
    assert_eq!(result, float(3.0));
}

#[test]
fn test_divide_float_float() {
    let mut env = Env::new();

    let result = run("(/ 6.0 2.0)", &mut env).unwrap();
    assert_eq!(result, float(3.0));
}

#[test]
fn test_modulo_int_int() {
    let mut env = Env::new();

    let result = run("(% 7 2)", &mut env).unwrap();
    assert_eq!(result, Object::Integer(1));
}

#[test]
fn test_modulo_int_float() {
    let mut env = Env::new();

    let result = run("(% 7 2.0)", &mut env).unwrap();
    assert_eq!(result, float(1.0));
}

#[test]
fn test_modulo_float_int() {
    let mut env = Env::new();

    let result = run("(% 7.0 2)", &mut env).unwrap();
    assert_eq!(result, float(1.0));
}

#[test]
fn test_modulo_float_float() {
    let mut env = Env::new();

    let result = run("(% 7.0 2.0)", &mut env).unwrap();
    assert_eq!(result, float(1.0));
}

#[test]
fn test_area_of_a_circle_float() {
    let mut env = Env::new();
    let program = "
            (begin
                (define r 5.0)
                (define pi 3.14)
                (* pi (* r r))
            )";
    let result = run(program, &mut env).unwrap();
    assert_eq!(
        result,
        float((3.14 * 5.0 * 5.0) as f64)
    );
}

#[test]
fn test_str_whitespaces_add() {
    let mut env = Env::new();
    let program = "
        (
            (define fruits \"apples mangoes bananas \")
            (define vegetables \"carrots broccoli\")
            (+ fruits vegetables)
        )
        ";
    let result = run(program, &mut env).unwrap();
    assert_eq!(
        result,
        Object::List(vec![Object::String(
            "apples mangoes bananas carrots broccoli"
                .to_string()
        )])
    );
}

#[test]
fn test_area_of_a_circle_int() {
    let mut env = Env::new();
    let program = "
            (begin
                (define r 10)
                (define pi 314)
                (* pi (* r r))
            )";
    let result = run(program, &mut env).unwrap();
    assert_eq!(result, Object::Integer(314 * 10 * 10));
}

#[test]
fn test_sqr_function() {
    let mut env = Env::new();
    let program = "
            (begin
                (define sqr (lambda (r) (* r r))) 
                (sqr 10)
            )";
    let result = run(program, &mut env).unwrap();
    assert_eq!(result, Object::Integer((10 * 10) as i64));
}

#[test]
fn test_fibonaci() {
    let mut env = Env::new();
    let program = "
          (begin
              (define fib (lambda (n) 
                  (if (< n 2) 1 
                      (+ (fib (- n 1)) 
                          (fib (- n 2))))))
              (fib 10)
          )
      ";

    let result = run(program, &mut env).unwrap();
    assert_eq!(result, Object::Integer((89) as i64));
}

#[test]
fn test_factorial() {
    let mut env = Env::new();
    let program = "
          (begin
              (define fact (lambda (n) (if (< n 1) 1 (* n (fact (- n 1))))))
              (fact 5)
          )
      ";

    let result = run(program, &mut env).unwrap();
    assert_eq!(result, Object::Integer((120) as i64));
}

#[test]
fn test_circle_area_no_lambda() {
    let mut env = Env::new();
    let program = "
          (begin
              (define pi 314)
              (define r 10)
              (define (sqr r) (* r r))
              (define (area r) (* pi (sqr r)))
              (area r)
          )
      ";

    let result = run(program, &mut env).unwrap();
    assert_eq!(
        result,
        Object::Integer((314 * 10 * 10) as i64)
    );
}

#[test]
fn test_circle_area_function() {
    let mut env = Env::new();
    let program = "
          (begin
              (define pi 314)
              (define r 10)
              (define sqr (lambda (r) (* r r)))
              (define area (lambda (r) (* pi (sqr r))))
              (area r)
          )
      ";

    let result = run(program, &mut env).unwrap();
    assert_eq!(
        result,
        Object::Integer((314 * 10 * 10) as i64)
    );
}

#[test]
fn test_tail_recursion() {
    let mut env = Env::new();
    let program = "
          (begin
              (define sum-n 
                 (lambda (n a) 
                    (if (= n 0) a 
                        (sum-n (- n 1) (+ n a)))))
              (sum-n 10000 0)
          )
      ";

    let result = run(program, &mut env).unwrap();
    assert_eq!(result, Object::Integer((50_005_000) as i64));
}

#[test]
fn test_tail_recursive_factorial() {
    let mut env = Env::new();
    let program = "
          (begin
              (define fact 
                  (lambda (n a) 
                    (if (= n 1) a 
                      (fact (- n 1) (* n a)))))
                      
              (fact 10 1)
          )
      ";

    let result = run(program, &mut env).unwrap();
    assert_eq!(result, Object::Integer((3628800) as i64));
}

#[test]
fn test_closure1() {
    let mut env = Env::new();
    let program = "
          (begin
              (define add-n 
                 (lambda (n) 
                    (lambda (a) (+ n a))))
              (define add-5 (add-n 5))
              (add-5 10)
          )
      ";

    let result = run(program, &mut env).unwrap();
    assert_eq!(result, Object::Integer((15) as i64));
}

#[test]
fn test_tail_recursive_fibonnaci() {
    let mut env = Env::new();
    let program = "
          (begin
              (define fib
                (lambda (n a b) 
                   (if (= n 0) a 
                     (if (= n 1) b 
                        (fib (- n 1) b (+ a b))))))
                
              (fib 10 0 1)
          )
      ";

    let result = run(program, &mut env).unwrap();
    assert_eq!(result, Object::Integer((55) as i64));
}

#[test]
fn test_inline_lambda() {
    let mut env = Env::new();
    let program = "
      (begin
          ((lambda (x y) (+ x y)) 10 20)
      )
      ";

    let result = run(program, &mut env).unwrap();
    assert_eq!(result, Object::Integer((30) as i64));
}

#[test]
fn test_car() {
    let mut env = Env::new();
    let program = "
      (begin
          (car (list 1 2 3))
      )
      ";

    let result = run(program, &mut env).unwrap();
    assert_eq!(result, Object::Integer((1) as i64));
}

#[test]
fn test_cdr() {
    let mut env = Env::new();
    let program = "
      (begin
          (cdr (list 1 2 3))
      )
      ";

    let result = run(program, &mut env).unwrap();
    assert_eq!(
        result,
        Object::ListData(vec![
            Object::Integer(2),
            Object::Integer(3),
        ])
    );
}

#[test]
fn test_length() {
    let mut env = Env::new();
    let program = "
      (begin
          (length (list 1 2 3))
      )
      ";

    let result = run(program, &mut env).unwrap();
    assert_eq!(result, Object::Integer((3) as i64));
}

#[test]
fn test_sum_list_of_integers() {
    let mut env = Env::new();
    let program = "
      (begin
          (define sum-list 
              (lambda (l) 
                  (if (null? l) 0 
                      (+ (car l) (sum-list (cdr l))))))
          (sum-list (list 1 2 3 4 5))
      )
      ";

    let result = run(program, &mut env).unwrap();
    assert_eq!(result, Object::Integer(15));
}

#[test]
fn test_function_application() {
    let mut env = Env::new();
    let program = "
      (begin
          (define (double value) 
              (* 2 value))
          (define (apply-twice fn value) 
              (fn (fn value)))
      
          (apply-twice double 5)
      )
      ";

    let result = run(program, &mut env).unwrap();
    assert_eq!(result, Object::Integer((20) as i64));
}

#[test]
fn test_begin_scope_test() {
    let mut env = Env::new();
    let program = "
      (begin
          (define a 10)
          (define b 20)
          (define c 30)
          (begin
              (define a 20)
              (define b 30)
              (define c 40)
              (list a b c)
          )
      )
      ";

    let result = run(program, &mut env).unwrap();
    assert_eq!(
        result,
        Object::ListData(vec![
            Object::Integer(20),
            Object::Integer(30),
            Object::Integer(40),
        ])
    );
}

#[test]
fn test_begin_scope_test_2() {
    let mut env = Env::new();
    let program = "
      (begin 
          (define x 10)
          (begin
              (define x 20)
              x 
          )
          x
      )
      ";

    let result = run(program, &mut env).unwrap();
    assert_eq!(result, Object::Integer((10) as i64));
}

#[test]
fn test_cond_1() {
    let mut env = Env::new();
    let program = "
          (cond ((> 2 1) 5) 
                ((< 2 1) 10) 
                (else 15)
          )
      ";

    let result = run(program, &mut env).unwrap();
    assert_eq!(result, Object::Integer(5));
}

#[test]
fn test_cond_2() {
    let mut env = Env::new();
    let program = "
          (cond ((> 1 2) 5) 
                ((< 1 2) 10) 
                (else 15)
      )
      ";

    let result = run(program, &mut env).unwrap();
    assert_eq!(result, Object::Integer(10));
}

#[test]
fn test_cond_3() {
    let mut env = Env::new();
    let program = "
          (cond ((> 1 2) 5) 
                ((< 1 0) 10) 
                (else 15)
          )
      ";

    let result = run(program, &mut env).unwrap();
    assert_eq!(result, Object::Integer(15));
}

#[test]
fn test_let_1() {
    let mut env = Env::new();
    let program = "
      (begin
          (let ((a 10) (b 20))
              (list a b)
          )
      )
      ";

    let result = run(program, &mut env).unwrap();
    assert_eq!(
        result,
        Object::ListData(vec![
            Object::Integer(10),
            Object::Integer(20),
        ])
    );
}

#[test]
fn test_let_2() {
    let mut env = Env::new();
    let program = "
      (begin
          (define a 100)
          (let ((a 10) (b 20))
              (list a b)
          )
          a
      )
      ";

    let result = run(program, &mut env).unwrap();
    assert_eq!(result, Object::Integer(100));
}

#[test]
fn test_let_3() {
    let mut env = Env::new();
    let program = "
          (let ((x 2) (y 3))
              (let ((x 7)
                    (z (+ x y)))
                  (* z x))) 
      ";

    let result = run(program, &mut env).unwrap();
    assert_eq!(result, Object::Integer(35));
}

#[test]
fn test_map() {
    let mut env = Env::new();
    let program = "
      (begin
          (define (map f l)
              (if (null? l) 
                  (list) 
                  (cons (f (car l)) (map f (cdr l)))))
          (map (lambda (x) (* x x)) (list 1 2 3 4 5))
      )
      ";

    let result = run(program, &mut env).unwrap();
    assert_eq!(
        result,
        Object::ListData(vec![
            Object::Integer(1),
            Object::Integer(4),
            Object::Integer(9),
            Object::Integer(16),
            Object::Integer(25),
        ])
    );
}

#[test]
fn test_filter() {
    let mut env = Env::new();
    let program = "
      (begin
          (define (filter f l)
              (if (null? l) 
                  (list) 
                  (if (f (car l)) 
                      (cons (car l) (filter f (cdr l))) 
                      (filter f (cdr l)))))
          (filter (lambda (x) (> x 2)) (list 1 2 3 4 5))
      )
      ";

    let result = run(program, &mut env).unwrap();
    assert_eq!(
        result,
        Object::ListData(vec![
            Object::Integer(3),
            Object::Integer(4),
            Object::Integer(5),
        ])
    );
}

#[test]
fn test_fold_left() {
    let mut env = Env::new();
    let program = "
      (begin
          (define (fold-left f acc l)
              (if (null? l) 
                  acc 
                  (fold-left f (f acc (car l)) (cdr l))))
          (fold-left (lambda (acc x) (+ acc x)) 0 (list 1 2 3 4 5))
      )
      ";

    let result = run(program, &mut env).unwrap();
    assert_eq!(result, Object::Integer(15));
}

#[test]
fn test_reduce() {
    let mut env = Env::new();
    let program = "
      (begin
          (define (reduce f l)
              (if (null? l) 
                  (list) 
                  (if (null? (cdr l)) 
                      (car l) 
                      (f (car l) (reduce f (cdr l))))))
          (reduce (lambda (x y) (+ x y)) (list 1 2 3 4 5))
      )
      ";

    let result = run(program, &mut env).unwrap();
    assert_eq!(result, Object::Integer(15));
}
