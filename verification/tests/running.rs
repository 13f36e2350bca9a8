use klein::run;
use klein::run_with_output;
use klein::KleinError;
use klein::ParseError;
use klein::RuntimeError;
use klein::StaticError;
use klein::TokenizeError;

#[test]
pub fn fizzbuzz() {
    run(
        r#"
		for number in 1.to(100) {
			if number.mod(3) == 0 and number.mod(5) == 0 {
				print("FizzBuzz");
			} else if number.mod(3) == 0 {
				print("Fizz");
			} else if number.mod(5) == 0 {
				print("Buzz");
			} else {
				print(number);
			}
		}
	"#,
    )
    .unwrap();
}

#[test]
fn fizzbuzz_produces_the_expected_output_sequence() {
    let out = run_with_output(
        "for number in 1.to(15) {\n\
           if number.mod(3) == 0 and number.mod(5) == 0 { print(\"FizzBuzz\"); }\n\
           else if number.mod(3) == 0 { print(\"Fizz\"); }\n\
           else if number.mod(5) == 0 { print(\"Buzz\"); }\n\
           else { print(number); }\n\
         }",
    )
    .unwrap();
    let expected: Vec<&str> = vec![
        "1", "2", "Fizz", "4", "Buzz", "Fizz", "7", "8", "Fizz", "Buzz", "11", "Fizz", "13", "14",
        "FizzBuzz",
    ];
    assert_eq!(out, expected);
}

#[test]
fn empty_source_runs_successfully() {
    assert!(run("").is_ok());
    assert_eq!(run_with_output("").unwrap().len(), 0);
}

#[test]
fn undefined_variable_reference_is_reported_by_name() {
    let err = run("print(x);").unwrap_err();
    assert_eq!(
        err,
        KleinError::Runtime(RuntimeError::UndefinedVariableReference("x".to_string()))
    );
}

#[test]
fn tokenize_error_propagates_through_run_unchanged() {
    let err = run("@@@").unwrap_err();
    assert_eq!(
        err,
        KleinError::Static(StaticError::Parse(ParseError::Tokenize(
            TokenizeError::UnrecognizedToken("@@@".to_string())
        )))
    );
}

#[test]
fn arithmetic_prints_exact_values() {
    assert_eq!(run_with_output("print(2 + 3 * 4);").unwrap(), vec!["14"]);
    assert_eq!(run_with_output("print((1 + 2) * 3);").unwrap(), vec!["9"]);
    assert_eq!(run_with_output("print(0 - 5);").unwrap(), vec!["-5"]);
    assert_eq!(run_with_output("print(7 / 2);").unwrap(), vec!["3"]);
    assert_eq!(run_with_output("print(7.mod(3));").unwrap(), vec!["1"]);
    assert_eq!(run_with_output("print(1 + 2 == 3);").unwrap(), vec!["true"]);
    assert_eq!(run_with_output("print(1 == 2);").unwrap(), vec!["false"]);
    assert_eq!(run_with_output("print(10.mod(3) == 1);").unwrap(), vec!["true"]);
    // Division and remainder truncate toward zero; the remainder keeps the
    // dividend's sign.
    assert_eq!(run_with_output("print((0 - 7) / 2);").unwrap(), vec!["-3"]);
    assert_eq!(run_with_output("print((0 - 7).mod(3));").unwrap(), vec!["-1"]);
}

#[test]
fn print_renders_each_kind_of_value() {
    assert_eq!(run_with_output("print(\"hi\");").unwrap(), vec!["hi"]);
    assert_eq!(run_with_output("print(1.to(3));").unwrap(), vec!["1..3"]);
    // print returns nil, so printing a print call prints the inner value, then nil.
    assert_eq!(run_with_output("print(print(1));").unwrap(), vec!["1", "nil"]);
}

#[test]
fn division_by_zero_is_a_runtime_error() {
    assert_eq!(
        run("print(1 / 0);").unwrap_err(),
        KleinError::Runtime(RuntimeError::DivisionByZero)
    );
    assert_eq!(
        run("print(1.mod(0));").unwrap_err(),
        KleinError::Runtime(RuntimeError::DivisionByZero)
    );
}

#[test]
fn unrepresentable_results_are_runtime_errors() {
    assert_eq!(
        run("print(9223372036854775807 + 1);").unwrap_err(),
        KleinError::Runtime(RuntimeError::ArithmeticOverflow)
    );
    assert_eq!(
        run("print(9223372036854775807 * 2);").unwrap_err(),
        KleinError::Runtime(RuntimeError::ArithmeticOverflow)
    );
}

#[test]
fn wrongly_typed_operands_and_conditions_are_runtime_errors() {
    assert_eq!(
        run("print(1 + \"a\");").unwrap_err(),
        KleinError::Runtime(RuntimeError::TypeMismatch)
    );
    assert_eq!(
        run("if 1 { print(1); }").unwrap_err(),
        KleinError::Runtime(RuntimeError::TypeMismatch)
    );
    assert_eq!(
        run("for i in 1 { print(i); }").unwrap_err(),
        KleinError::Runtime(RuntimeError::TypeMismatch)
    );
}

#[test]
fn unrecognized_call_targets_are_reported_by_name() {
    assert_eq!(
        run("foo();").unwrap_err(),
        KleinError::Runtime(RuntimeError::UnrecognizedCallTarget("foo".to_string()))
    );
    assert_eq!(
        run("print(1.bogus());").unwrap_err(),
        KleinError::Runtime(RuntimeError::UnrecognizedCallTarget("bogus".to_string()))
    );
}

#[test]
fn logical_operators_short_circuit() {
    // The right side is never evaluated, so the unbound name is never read.
    assert!(run("if 1 == 2 and y == 1 { print(1); }").is_ok());
    assert_eq!(
        run_with_output("if 1 == 1 or y == 1 { print(\"yes\"); }").unwrap(),
        vec!["yes"]
    );
}

#[test]
fn loop_variable_is_not_visible_outside_the_loop() {
    let err = run("for i in 1.to(2) { print(i); } print(i);").unwrap_err();
    assert_eq!(
        err,
        KleinError::Runtime(RuntimeError::UndefinedVariableReference("i".to_string()))
    );
}

#[test]
fn inner_scopes_shadow_and_expire() {
    let out = run_with_output(
        "for i in 1.to(1) { for i in 5.to(5) { print(i); } print(i); }",
    )
    .unwrap();
    assert_eq!(out, vec!["5", "1"]);
}

#[test]
fn bare_blocks_and_empty_ranges_run() {
    assert_eq!(run_with_output("{ print(1); }").unwrap(), vec!["1"]);
    // A range whose start exceeds its end runs zero iterations.
    assert_eq!(run_with_output("for i in 3.to(1) { print(i); }").unwrap().len(), 0);
    // A one-element range runs once, inclusive of both endpoints.
    assert_eq!(run_with_output("for i in 2.to(2) { print(i); }").unwrap(), vec!["2"]);
}

#[test]
fn else_branch_runs_when_no_condition_holds() {
    let out = run_with_output(
        "if 1 == 2 { print(\"a\"); } else if 1 == 3 { print(\"b\"); } else { print(\"c\"); }",
    )
    .unwrap();
    assert_eq!(out, vec!["c"]);
}

#[test]
fn running_twice_gives_equal_results() {
    let source = "for i in 1.to(5) { if i.mod(2) == 0 { print(i); } }";
    let first = run_with_output(source);
    let second = run_with_output(source);
    assert_eq!(first, second);
    assert_eq!(first.unwrap(), vec!["2", "4"]);
}
