use lisp_compute::SchemeInterpreter;
use lisp_compute::SchemeValue;

#[test]
fn test_scheme_interpreter_basic() {
    let interpreter = SchemeInterpreter::new();

    assert!(
        matches!(interpreter.eval("42"), Ok(SchemeValue::Number(b)) if b == (42.0f64).to_bits())
    );

    assert!(matches!(interpreter.eval("\"hello\""), Ok(SchemeValue::String(_))));

    assert!(matches!(interpreter.eval("#t"), Ok(SchemeValue::Boolean(true))));
    assert!(matches!(interpreter.eval("#f"), Ok(SchemeValue::Boolean(false))));
}

#[test]
fn test_scheme_interpreter_functions() {
    let interpreter = SchemeInterpreter::new();

    let result = interpreter.eval("(display \"test\")");
    assert!(result.is_ok());

    let result = interpreter.eval("(+ 1 2 3)");
    assert!(matches!(result, Ok(SchemeValue::Number(b)) if b == (6.0f64).to_bits()));
}

#[test]
fn test_scheme_program_execution() {
    let interpreter = SchemeInterpreter::new();
    let program = r#"
            (display "Hello")
            (+ 1 2)
            #t
        "#;

    let result = interpreter.run_program(program);
    assert!(result.is_ok());

    let output = result.unwrap();
    assert!(output.contains("Hello"));
    assert!(output.contains("3"));
    assert!(output.contains("true"));
}

#[test]
fn test_examples_run_without_errors() {
    let interpreter = SchemeInterpreter::new();

    let examples = [
        "; fibonacci-style arithmetic\n(+ 1 1)\n(+ 1 2)\n(+ 2 3)\n(+ 3 5)",
        "; nested expressions\n(display \"advanced\")\n(* (+ 1 2) (- 7 3))\n(expt 2 10)",
        "(car (list 1 2 3))\n(cdr (list 1 2 3))\n(cons 0 (list 1 2))\n(append (list 1) (list 2))",
        "(if (< 1 2) \"yes\" \"no\")\n(cond #t 42)\n(begin 1 2 3)",
        "(vector-ref (vector 10 20 30) 1)\n(vector-length (vector 1 2))\n(length \"abc\")",
    ];

    for (i, example) in examples.iter().enumerate() {
        let result = interpreter.run_program(example);
        assert!(
            result.is_ok(),
            "Example program {} failed to run",
            i
        );
        let output = result.unwrap();
        assert!(!output.is_empty(), "Example program {} produced no output", i);
    }
}
