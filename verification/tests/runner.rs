use lisp_compute::SchemeInterpreter;

#[test]
fn transcript_traces_each_line() {
    let it = SchemeInterpreter::new();
    let out = it.run_program("(display \"Hello\")\n(+ 1 2)\n#t").unwrap();
    assert_eq!(
        out,
        "Processing line 0: '(display \"Hello\")'\nHello\nProcessing line 1: '(+ 1 2)'\n3\nProcessing line 2: '#t'\ntrue\n"
    );
}

#[test]
fn blank_and_comment_lines_are_skipped_but_numbered() {
    let it = SchemeInterpreter::new();
    let out = it.run_program("\n; a comment\n42").unwrap();
    assert_eq!(out, "Processing line 2: '42'\n42\n");
}

#[test]
fn non_primitive_results_render_as_the_word_result() {
    let it = SchemeInterpreter::new();
    let out = it.run_program("(list 1 2)").unwrap();
    assert_eq!(out, "Processing line 0: '(list 1 2)'\nresult\n");
}

#[test]
fn a_failing_line_stops_the_run_and_keeps_the_transcript() {
    let it = SchemeInterpreter::new();
    let failure = it.run_program("(+ 1 1)\n(/ 1 0)\n(+ 2 2)").unwrap_err();
    assert_eq!(failure.error, "Division by zero");
    assert_eq!(
        failure.transcript,
        "Processing line 0: '(+ 1 1)'\n2\nProcessing line 1: '(/ 1 0)'\nError on line 1: Division by zero\n"
    );
}

#[test]
fn carriage_returns_are_stripped_from_lines() {
    let it = SchemeInterpreter::new();
    let out = it.run_program("(+ 1 2)\r\n(+ 2 2)").unwrap();
    assert_eq!(out, "Processing line 0: '(+ 1 2)'\n3\nProcessing line 1: '(+ 2 2)'\n4\n");
}

#[test]
fn tokenize_splits_words_strings_and_nested_runs() {
    let it = SchemeInterpreter::new();
    let toks = it.tokenize("+ 1 (  * 2   3 ) \"a b\"").unwrap();
    assert_eq!(toks, vec!["+", "1", "(  * 2   3 )", "\"a b\""]);
}

#[test]
fn tokenize_reports_unmatched_parentheses() {
    let it = SchemeInterpreter::new();
    let err = it.tokenize("a (b").unwrap_err();
    assert_eq!(err, "Unmatched parentheses");
}

#[test]
fn rejoined_tokens_evaluate_the_same() {
    let it = SchemeInterpreter::new();
    let inner = "+ 1 (  * 2   3 )";
    let toks = it.tokenize(inner).unwrap();
    let rejoined = format!("({})", toks.join(" "));
    let original = format!("({})", inner);
    let a = it.eval(&original).unwrap();
    let b = it.eval(&rejoined).unwrap();
    match (a, b) {
        (lisp_compute::SchemeValue::Number(x), lisp_compute::SchemeValue::Number(y)) => {
            assert_eq!(x, y);
            assert_eq!(x, (7.0f64).to_bits());
        },
        _ => panic!("both forms should give the same number"),
    }
}

#[test]
fn retokenizing_the_rejoined_text_gives_the_same_tokens() {
    let it = SchemeInterpreter::new();
    let inner = "a)b (x \"q\") \"s t\" 12";
    let toks = it.tokenize(inner).unwrap();
    let again = it.tokenize(&toks.join(" ")).unwrap();
    assert_eq!(toks, again);
}
