use lisp_compute::SchemeInterpreter;
use lisp_compute::SchemeValue;

fn num(x: f64) -> u64 {
    x.to_bits()
}

fn eval_num(src: &str) -> u64 {
    let it = SchemeInterpreter::new();
    match it.eval(src) {
        Ok(SchemeValue::Number(b)) => b,
        other => panic!("expected a number for {}, got {:?}", src, other.is_ok()),
    }
}

fn eval_err(src: &str) -> String {
    let it = SchemeInterpreter::new();
    match it.eval(src) {
        Err(m) => m,
        Ok(_) => panic!("expected an error for {}", src),
    }
}

#[test]
fn atoms_evaluate_to_literals() {
    let it = SchemeInterpreter::new();
    assert!(matches!(it.eval("42"), Ok(SchemeValue::Number(b)) if b == num(42.0)));
    assert!(matches!(it.eval("\"hi\""), Ok(SchemeValue::String(s)) if s == "hi"));
    assert!(matches!(it.eval("#t"), Ok(SchemeValue::Boolean(true))));
    assert!(matches!(it.eval("#f"), Ok(SchemeValue::Boolean(false))));
    assert!(matches!(it.eval("nil"), Ok(SchemeValue::Nil)));
    assert!(matches!(it.eval("()"), Ok(SchemeValue::Nil)));
    assert!(matches!(it.eval("bogus"), Ok(SchemeValue::Symbol(s)) if s == "bogus"));
}

#[test]
fn number_literals_parse_like_doubles() {
    assert_eq!(eval_num("0.5"), num(0.5));
    assert_eq!(eval_num("3.14"), num(3.14));
    assert_eq!(eval_num("-5"), num(-5.0));
    assert_eq!(eval_num("1e3"), num(1000.0));
    assert_eq!(eval_num("2.5E-1"), num(0.25));
    assert_eq!(eval_num("inf"), num(f64::INFINITY));
    assert_eq!(eval_num("-inf"), num(f64::NEG_INFINITY));
    assert!(f64::from_bits(eval_num("nan")).is_nan());
}

#[test]
fn addition_and_multiplication_fold() {
    assert_eq!(eval_num("(+ 1 2 3)"), num(6.0));
    assert_eq!(eval_num("(+ )"), num(0.0));
    assert_eq!(eval_num("(* )"), num(1.0));
    assert_eq!(eval_num("(* 2 3 4)"), num(24.0));
    assert_eq!(eval_num("(+ 0.1 0.2)"), num(0.1 + 0.2));
}

#[test]
fn subtraction_and_division() {
    assert_eq!(eval_num("(- 5 2)"), num(3.0));
    assert_eq!(eval_num("(- 7)"), num(-7.0));
    assert_eq!(eval_num("(- 10 1 2)"), num(7.0));
    assert_eq!(eval_num("(/ 1 2)"), num(0.5));
    assert!(eval_err("(/ 1 0)").contains("Division by zero"));
    assert!(eval_err("(/ 1)").contains("/ requires exactly two arguments"));
    assert!(eval_err("(- )").contains("- requires at least one argument"));
    assert!(eval_err("(+ 1 #t)").contains("+ requires numeric arguments"));
}

#[test]
fn comparisons_give_booleans() {
    let it = SchemeInterpreter::new();
    assert!(matches!(it.eval("(< 1 2)"), Ok(SchemeValue::Boolean(true))));
    assert!(matches!(it.eval("(> 1 2)"), Ok(SchemeValue::Boolean(false))));
    assert!(matches!(it.eval("(<= 2 2)"), Ok(SchemeValue::Boolean(true))));
    assert!(matches!(it.eval("(>= 1 2)"), Ok(SchemeValue::Boolean(false))));
    assert!(matches!(it.eval("(= 2 2)"), Ok(SchemeValue::Boolean(true))));
    assert!(eval_err("(< 1)").contains("< requires exactly two arguments"));
    assert!(eval_err("(= 1 \"a\")").contains("= requires numeric arguments"));
}

#[test]
fn conditional_demands_a_boolean() {
    assert_eq!(eval_num("(if #t 1 2)"), num(1.0));
    assert_eq!(eval_num("(if #f 1 2)"), num(2.0));
    assert!(eval_err("(if 1 1 2)").contains("if condition must be boolean"));
    assert!(eval_err("(if #t 1)").contains("if requires exactly three arguments"));
}

#[test]
fn list_operations() {
    let it = SchemeInterpreter::new();
    assert_eq!(eval_num("(car (list 1 2 3))"), num(1.0));
    assert!(matches!(it.eval("(cdr (list 1))"), Ok(SchemeValue::Nil)));
    assert!(matches!(it.eval("(car (list))"), Ok(SchemeValue::Nil)));
    assert!(matches!(it.eval("(null? ())"), Ok(SchemeValue::Boolean(true))));
    assert!(matches!(it.eval("(null? (list))"), Ok(SchemeValue::Boolean(true))));
    assert!(matches!(it.eval("(null? (list 1))"), Ok(SchemeValue::Boolean(false))));
    assert!(matches!(it.eval("(null? 5)"), Ok(SchemeValue::Boolean(false))));
    assert_eq!(eval_num("(car (cdr (list 1 2 3)))"), num(2.0));
    assert!(eval_err("(car 5)").contains("car requires a list argument"));
    match it.eval("(cons 0 (list 1 2))") {
        Ok(SchemeValue::List(l)) => assert_eq!(l.len(), 3),
        _ => panic!("cons onto a list should splice"),
    }
    match it.eval("(cons 0 5)") {
        Ok(SchemeValue::List(l)) => assert_eq!(l.len(), 2),
        _ => panic!("cons onto a non-list should append one element"),
    }
    match it.eval("(cons 0 nil)") {
        Ok(SchemeValue::List(l)) => assert_eq!(l.len(), 1),
        _ => panic!("cons onto nil should give a one-element list"),
    }
    match it.eval("(append (list 1 2) (list 3) 4)") {
        Ok(SchemeValue::List(l)) => assert_eq!(l.len(), 4),
        _ => panic!("append should splice lists and add plain elements"),
    }
    assert!(matches!(it.eval("(append)"), Ok(SchemeValue::Nil)));
}

#[test]
fn unknown_operator_is_reported() {
    assert!(eval_err("(foo 1)").contains("Unknown function: foo"));
    assert!(eval_err("(bar)").contains("Unknown function: bar"));
}

#[test]
fn vector_operations_and_bounds() {
    assert_eq!(eval_num("(vector-ref (vector 7 8) 1)"), num(8.0));
    assert_eq!(eval_num("(vector-ref (vector 7 8) 0)"), num(7.0));
    assert!(eval_err("(vector-ref (vector 7 8) 2)").contains("vector index out of bounds"));
    assert!(eval_err("(vector-ref (vector 7 8) 9)").contains("vector index out of bounds"));
    assert!(eval_err("(vector-ref 5 0)").contains("vector-ref requires a vector and numeric index"));
    assert_eq!(eval_num("(vector-length (vector 1 2 3))"), num(3.0));
    assert!(eval_err("(vector-length 5)").contains("vector-length requires a vector"));
}

#[test]
fn length_counts_elements_and_bytes() {
    assert_eq!(eval_num("(length (list 1 2 3))"), num(3.0));
    assert_eq!(eval_num("(length (vector 1 2))"), num(2.0));
    assert_eq!(eval_num("(length \"abc\")"), num(3.0));
    assert!(eval_err("(length 5)").contains("length requires a list, vector, or string"));
}

#[test]
fn math_builtins() {
    assert_eq!(eval_num("(abs -3)"), num(3.0));
    assert_eq!(eval_num("(abs 3)"), num(3.0));
    assert_eq!(eval_num("(sqrt 4)"), num(2.0));
    assert_eq!(eval_num("(sqrt 2)"), num(2.0f64.sqrt()));
    assert_eq!(eval_num("(sqrt 0)"), num(0.0));
    assert!(eval_err("(sqrt -1)").contains("sqrt requires a non-negative number"));
    assert_eq!(eval_num("(expt 2 10)"), num(1024.0));
    assert_eq!(eval_num("(expt 5 0)"), num(1.0));
    assert_eq!(eval_num("(expt 2 -1)"), num(0.5));
    assert!(eval_err("(expt 2)").contains("expt requires exactly two arguments"));
}

#[test]
fn degenerate_control_forms() {
    let it = SchemeInterpreter::new();
    assert!(matches!(it.eval("(and)"), Ok(SchemeValue::Boolean(true))));
    assert!(matches!(it.eval("(and 1 #f 2)"), Ok(SchemeValue::Boolean(false))));
    assert_eq!(eval_num("(and 1 2)"), num(2.0));
    assert!(matches!(it.eval("(or)"), Ok(SchemeValue::Boolean(false))));
    assert!(matches!(it.eval("(or #f #t)"), Ok(SchemeValue::Boolean(true))));
    assert_eq!(eval_num("(or #f 7)"), num(7.0));
    assert!(matches!(it.eval("(begin)"), Ok(SchemeValue::Nil)));
    assert_eq!(eval_num("(begin 1 2 3)"), num(3.0));
    assert!(matches!(it.eval("(let)"), Ok(SchemeValue::Nil)));
    assert_eq!(eval_num("(let 1 2)"), num(2.0));
    assert_eq!(eval_num("(cond #t 42)"), num(42.0));
    assert_eq!(eval_num("(cond #f 1 #t 2)"), num(2.0));
    assert_eq!(eval_num("(cond 5 9)"), num(9.0));
    assert!(matches!(it.eval("(cond)"), Ok(SchemeValue::Nil)));
    assert_eq!(eval_num("(cond #f 1 7)"), num(7.0));
    assert_eq!(eval_num("(while 5 1)"), num(5.0));
    assert!(eval_err("(while 1)").contains("while requires at least condition and body"));
    assert_eq!(eval_num("(for-each 1 2)"), num(1.0));
    assert!(eval_err("(for-each 1)").contains("for-each requires at least function and list"));
}

#[test]
fn hash_table_stubs() {
    let it = SchemeInterpreter::new();
    assert!(matches!(it.eval("(make-hash-table)"), Ok(SchemeValue::HashTable)));
    assert_eq!(eval_num("(hash-set! (make-hash-table) \"k\" 3)"), num(3.0));
    match it.eval("(hash-ref (make-hash-table) \"k\")") {
        Ok(SchemeValue::String(s)) => assert_eq!(s, "value for key: k"),
        _ => panic!("hash-ref should answer the fixed text"),
    }
    assert!(eval_err("(hash-set! 1 2 3)")
        .contains("hash-set! requires a hash table, string key, and value"));
    assert!(eval_err("(hash-ref 1 2)").contains("hash-ref requires a hash table and string key"));
}

#[test]
fn display_renders_primitives() {
    let it = SchemeInterpreter::new();
    match it.eval("(display \"x\")") {
        Ok(SchemeValue::String(s)) => assert_eq!(s, "x"),
        _ => panic!("display of a string returns the string"),
    }
    match it.eval("(display 3)") {
        Ok(SchemeValue::String(s)) => assert_eq!(s, "3"),
        _ => panic!("display of a number renders it"),
    }
    match it.eval("(display 0.5)") {
        Ok(SchemeValue::String(s)) => assert_eq!(s, "0.5"),
        _ => panic!("display of a fraction renders its digits"),
    }
    match it.eval("(display -2)") {
        Ok(SchemeValue::String(s)) => assert_eq!(s, "-2"),
        _ => panic!("display of a negative number keeps the sign"),
    }
    match it.eval("(display #t)") {
        Ok(SchemeValue::String(s)) => assert_eq!(s, "true"),
        _ => panic!("display of a boolean renders it"),
    }
    match it.eval("(display (list 1))") {
        Ok(SchemeValue::String(s)) => assert_eq!(s, "display"),
        _ => panic!("display of a non-primitive gives the fixed word"),
    }
    assert!(eval_err("(display)").contains("display requires exactly one argument"));
}

#[test]
fn syntax_errors() {
    assert!(eval_err("").contains("Empty expression"));
    assert!(eval_err("   ").contains("Empty expression"));
    assert!(eval_err("( )").contains("Empty function call"));
    assert!(eval_err("(a (b)").contains("Unmatched parentheses"));
}

#[test]
fn operators_are_first_class_bindings() {
    let it = SchemeInterpreter::new();
    assert!(matches!(it.eval("+"), Ok(SchemeValue::Function(_))));
    assert!(matches!(it.eval("car"), Ok(SchemeValue::Function(_))));
}

#[test]
fn renderer_covers_every_variant() {
    let it = SchemeInterpreter::new();
    let list = it.eval("(list 1 2)").unwrap();
    assert_eq!(it.display_value(&list), "[1, 2]");
    let vector = it.eval("(vector 1 2)").unwrap();
    assert_eq!(it.display_value(&vector), "#(1 2)");
    assert_eq!(it.display_value(&SchemeValue::Nil), "()");
    assert_eq!(it.display_value(&SchemeValue::HashTable), "#<hash-table>");
    let f = it.eval("+").unwrap();
    assert_eq!(it.display_value(&f), "#<function>");
    let sym = it.eval("zig").unwrap();
    assert_eq!(it.display_value(&sym), "zig");
    let n = it.eval("42").unwrap();
    assert_eq!(it.display_value(&n), "42");
}

#[test]
fn nested_applications_evaluate_inside_out() {
    assert_eq!(eval_num("(+ 1 (+ 2 (+ 3 4)))"), num(10.0));
    assert_eq!(eval_num("(* (+ 1 2) (- 7 3))"), num(12.0));
}

#[test]
fn nested_values_render_recursively() {
    let it = SchemeInterpreter::new();
    let v = it.eval("(list 1 (list 2) 3)").unwrap();
    assert_eq!(it.display_value(&v), "[1, [2], 3]");
    let w = it.eval("(vector (list 1 2) \"x\")").unwrap();
    assert_eq!(it.display_value(&w), "#([1, 2] x)");
}

#[test]
fn number_rendering_edge_values() {
    let it = SchemeInterpreter::new();
    let shown = |src: &str| match it.eval(src) {
        Ok(SchemeValue::String(s)) => s,
        _ => panic!("display should give a string"),
    };
    assert_eq!(shown("(display (* 1000 1000))"), "1000000");
    assert_eq!(shown("(display -0.0)"), "-0");
    assert_eq!(shown("(display inf)"), "inf");
    assert_eq!(shown("(display -inf)"), "-inf");
    assert_eq!(shown("(display nan)"), "NaN");
}
